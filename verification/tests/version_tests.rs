use hoox::error::HooxError;
use hoox::version::check_version;

#[test]
fn dev_cli_accepts_any_config_version() {
    assert_eq!(check_version("0.3.1", "0.0.0"), Ok(()));
    assert_eq!(check_version("7.0", "0.0.0"), Ok(()));
    assert_eq!(check_version("0.0.0", "0.0.0"), Ok(()));
    assert_eq!(check_version("1", "0.0.0"), Ok(()));
    assert_eq!(check_version("", "0.0.0"), Ok(()));
}

#[test]
fn version_needs_two_parts() {
    assert_eq!(check_version("1", "0.1.0"), Err(HooxError::InvalidVersionFormat));
    assert_eq!(check_version("0.1.0", "1"), Err(HooxError::InvalidVersionFormat));
    assert_eq!(check_version("", "1.0.0"), Err(HooxError::InvalidVersionFormat));
    assert_eq!(check_version("1", "0.0"), Err(HooxError::InvalidVersionFormat));
}

#[test]
fn below_one_minor_versions_must_match() {
    assert_eq!(check_version("0.3.7", "0.3.0"), Ok(()));
    assert_eq!(
        check_version("0.2.0", "0.3.1"),
        Err(HooxError::IncompatibleMinorVersion { config: "0.2.0".to_string(), cli: "0.3.1".to_string() })
    );
}

#[test]
fn from_one_on_major_versions_must_match() {
    assert_eq!(check_version("2.9.1", "2.0.0"), Ok(()));
    assert_eq!(
        check_version("1.0.0", "2.0.0"),
        Err(HooxError::IncompatibleMajorVersion { config: "1.0.0".to_string(), cli: "2.0.0".to_string() })
    );
    assert_eq!(
        check_version("0.1.0", "1.0.0"),
        Err(HooxError::IncompatibleMajorVersion { config: "0.1.0".to_string(), cli: "1.0.0".to_string() })
    );
}

#[test]
fn dev_cli_needs_all_three_zero_parts() {
    // "0.0" is not the development version: the minor rule applies.
    assert_eq!(check_version("0.0.5", "0.0"), Ok(()));
    assert_eq!(
        check_version("0.1.0", "0.0"),
        Err(HooxError::IncompatibleMinorVersion { config: "0.1.0".to_string(), cli: "0.0".to_string() })
    );
}
