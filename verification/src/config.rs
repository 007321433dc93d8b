//! What a run needs before it starts: a destination root and a staging root
//! that are directories, and a manifest in the destination root.

use vstd::prelude::*;

verus! {

/// The name of the manifest within the destination root.
pub const MANIFEST_NAME: &'static str = "mods.txt";

/// What keeps a run from starting.
#[derive(Clone, Copy, Debug, PartialEq, Eq, Structural)]
pub enum ConfigError {
    /// The destination root is missing or is no directory.
    DestinationRoot,
    /// The staging root is missing or is no directory.
    StagingRoot,
    /// The destination root holds no manifest.
    Manifest,
}

/// What keeps a run from starting, if anything does. The destination root is
/// looked at first, the staging root second, the manifest last.
pub open spec fn config_fault(
    destination_is_dir: bool,
    staging_is_dir: bool,
    manifest_is_file: bool,
) -> Option<ConfigError> {
    if !destination_is_dir {
        Some(ConfigError::DestinationRoot)
    } else if !staging_is_dir {
        Some(ConfigError::StagingRoot)
    } else if !manifest_is_file {
        Some(ConfigError::Manifest)
    } else {
        None
    }
}

/// What the user is told about a fault.
pub open spec fn config_error_text(e: ConfigError) -> Seq<char> {
    match e {
        ConfigError::DestinationRoot => "the destination root is no directory"@,
        ConfigError::StagingRoot => "the staging root is no directory"@,
        ConfigError::Manifest => "the destination root holds no manifest"@,
    }
}

/// Checks what was found on disk before the start.
pub fn validate(destination_is_dir: bool, staging_is_dir: bool, manifest_is_file: bool) -> (r:
    Result<(), ConfigError>)
    ensures
        r is Ok <==> config_fault(destination_is_dir, staging_is_dir, manifest_is_file) is None,
        r matches Err(e) ==> config_fault(destination_is_dir, staging_is_dir, manifest_is_file)
            == Some(e),
{
    if !destination_is_dir {
        Err(ConfigError::DestinationRoot)
    } else if !staging_is_dir {
        Err(ConfigError::StagingRoot)
    } else if !manifest_is_file {
        Err(ConfigError::Manifest)
    } else {
        Ok(())
    }
}

impl ConfigError {
    /// What the user is told.
    pub fn message(&self) -> (r: String)
        ensures
            r@ == config_error_text(*self),
    {
        match self {
            ConfigError::DestinationRoot => "the destination root is no directory".to_owned(),
            ConfigError::StagingRoot => "the staging root is no directory".to_owned(),
            ConfigError::Manifest => "the destination root holds no manifest".to_owned(),
        }
    }
}

} // verus!
