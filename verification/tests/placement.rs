use modfetch::placement::{decide, DirState, Placement};

const STATES: [DirState; 3] = [DirState::Absent, DirState::Empty, DirState::Populated];

#[test]
fn a_populated_destination_is_skipped() {
    for staging in STATES {
        assert_eq!(decide(false, DirState::Populated, staging), Placement::Skip);
    }
}

#[test]
fn a_populated_staging_directory_is_copied() {
    assert_eq!(
        decide(false, DirState::Absent, DirState::Populated),
        Placement::Reuse { create: true }
    );
    assert_eq!(
        decide(false, DirState::Empty, DirState::Populated),
        Placement::Reuse { create: false }
    );
}

#[test]
fn anything_else_is_downloaded() {
    for staging in [DirState::Absent, DirState::Empty] {
        assert_eq!(
            decide(false, DirState::Absent, staging),
            Placement::Download { remove_destination: false, remove_staging: false, create: true }
        );
        assert_eq!(
            decide(false, DirState::Empty, staging),
            Placement::Download { remove_destination: false, remove_staging: false, create: false }
        );
    }
}

#[test]
fn a_refresh_removes_what_is_there_and_downloads() {
    for destination in STATES {
        for staging in STATES {
            assert_eq!(
                decide(true, destination, staging),
                Placement::Download {
                    remove_destination: destination != DirState::Absent,
                    remove_staging: staging != DirState::Absent,
                    create: true,
                }
            );
        }
    }
}
