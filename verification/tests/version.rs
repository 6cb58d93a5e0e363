use project_manager::version::{supported_version, VersionError};

#[test]
fn satisfied_requirement_is_ok() {
    assert_eq!(supported_version("^1.0", "1.2.3"), Ok(()));
    assert_eq!(supported_version(">=0.1, <2.0", "1.9.0"), Ok(()));
    assert_eq!(supported_version("*", "0.0.1"), Ok(()));
}

#[test]
fn unsatisfied_requirement_is_reported() {
    assert_eq!(supported_version("^2.0", "1.2.3"), Err(VersionError::NotSatisfied));
    assert_eq!(supported_version("<1.0.0", "1.0.0"), Err(VersionError::NotSatisfied));
}

#[test]
fn bad_requirement_text_is_reported_first() {
    assert_eq!(supported_version("not a requirement", "1.2.3"), Err(VersionError::InvalidRequirement));
    assert_eq!(
        supported_version("not a requirement", "not a version"),
        Err(VersionError::InvalidRequirement)
    );
}

#[test]
fn bad_version_text_is_reported() {
    assert_eq!(supported_version("^1.0", "not a version"), Err(VersionError::InvalidVersion));
    assert_eq!(supported_version("^1.0", "1.0"), Err(VersionError::InvalidVersion));
}
