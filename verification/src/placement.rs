//! Where an item stands on disk and what is to be done about it: nothing,
//! a copy of what an earlier run left in the staging directory, or a
//! download.

use vstd::prelude::*;

verus! {

/// What is found at a directory's path.
#[derive(Clone, Copy, Debug, PartialEq, Eq, Structural)]
pub enum DirState {
    /// No directory.
    Absent,
    /// A directory without entries.
    Empty,
    /// A directory with at least one entry.
    Populated,
}

/// What is to be done for one item.
#[derive(Clone, Copy, Debug, PartialEq, Eq, Structural)]
pub enum Placement {
    /// Nothing: the destination already holds the item.
    Skip,
    /// Copy what the staging directory holds into the destination, which has
    /// to be created first if `create` is set.
    Reuse { create: bool },
    /// Remove the directories named, download the item, wait for the staging
    /// directory, create the destination if `create` is set, and copy.
    Download { remove_destination: bool, remove_staging: bool, create: bool },
}

/// What is to be done for an item whose destination and staging directories
/// are in the given states. A refresh removes whatever directory is there
/// and downloads. Without one, a populated destination settles the matter,
/// a populated staging directory is copied, and anything else is downloaded.
pub open spec fn placement(clean: bool, destination: DirState, staging: DirState) -> Placement {
    if clean {
        Placement::Download {
            remove_destination: destination != DirState::Absent,
            remove_staging: staging != DirState::Absent,
            create: true,
        }
    } else if destination == DirState::Populated {
        Placement::Skip
    } else if staging == DirState::Populated {
        Placement::Reuse { create: destination == DirState::Absent }
    } else {
        Placement::Download {
            remove_destination: false,
            remove_staging: false,
            create: destination == DirState::Absent,
        }
    }
}

/// Decides what is to be done for an item.
pub fn decide(clean: bool, destination: DirState, staging: DirState) -> (r: Placement)
    ensures
        r == placement(clean, destination, staging),
{
    if clean {
        Placement::Download {
            remove_destination: destination != DirState::Absent,
            remove_staging: staging != DirState::Absent,
            create: true,
        }
    } else if destination == DirState::Populated {
        Placement::Skip
    } else if staging == DirState::Populated {
        Placement::Reuse { create: destination == DirState::Absent }
    } else {
        Placement::Download {
            remove_destination: false,
            remove_staging: false,
            create: destination == DirState::Absent,
        }
    }
}

} // verus!
