use modfetch::config::{validate, ConfigError, MANIFEST_NAME};

#[test]
fn accepts_two_directories_and_a_manifest() {
    assert_eq!(validate(true, true, true), Ok(()));
}

#[test]
fn looks_at_the_destination_root_first() {
    assert_eq!(validate(false, true, true), Err(ConfigError::DestinationRoot));
    assert_eq!(validate(false, false, true), Err(ConfigError::DestinationRoot));
    assert_eq!(validate(false, false, false), Err(ConfigError::DestinationRoot));
    assert_eq!(validate(false, true, false), Err(ConfigError::DestinationRoot));
}

#[test]
fn looks_at_the_staging_root_second() {
    assert_eq!(validate(true, false, true), Err(ConfigError::StagingRoot));
    assert_eq!(validate(true, false, false), Err(ConfigError::StagingRoot));
}

#[test]
fn looks_at_the_manifest_last() {
    assert_eq!(validate(true, true, false), Err(ConfigError::Manifest));
}

#[test]
fn tells_what_keeps_a_run_from_starting() {
    assert_eq!(ConfigError::DestinationRoot.message(), "the destination root is no directory");
    assert_eq!(ConfigError::StagingRoot.message(), "the staging root is no directory");
    assert_eq!(ConfigError::Manifest.message(), "the destination root holds no manifest");
}

#[test]
fn names_the_manifest() {
    assert_eq!(MANIFEST_NAME, "mods.txt");
}
