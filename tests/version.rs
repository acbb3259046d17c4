use gather_files::is_newer_version;

#[test]
fn is_newer_version_detects_major_upgrade() {
    assert!(is_newer_version("2.0.0", "1.0.0"));
    assert!(is_newer_version("1.1.0", "1.0.0"));
    assert!(is_newer_version("1.0.1", "1.0.0"));
}

#[test]
fn is_newer_version_returns_false_for_same_version() {
    assert!(!is_newer_version("1.0.0", "1.0.0"));
    assert!(!is_newer_version("0.1.22", "0.1.22"));
}

#[test]
fn is_newer_version_returns_false_for_older_version() {
    assert!(!is_newer_version("1.0.0", "2.0.0"));
    assert!(!is_newer_version("1.0.0", "1.1.0"));
    assert!(!is_newer_version("1.0.0", "1.0.1"));
}

#[test]
fn is_newer_version_handles_double_digit_versions() {
    assert!(is_newer_version("0.1.23", "0.1.22"));
    assert!(is_newer_version("0.2.0", "0.1.99"));
    assert!(is_newer_version("1.0.0", "0.99.99"));
}

#[test]
fn unparsable_versions_compare_as_text() {
    assert!(is_newer_version("nightly", "1.0.0"));
    assert!(!is_newer_version("nightly", "nightly"));
    assert!(is_newer_version("1.0", "1.0.0"));
    assert!(!is_newer_version("1.0", "1.0"));
}

#[test]
fn versions_take_first_three_fields_and_a_plus_sign() {
    assert!(!is_newer_version("1.2.3.9", "1.2.3"));
    assert!(!is_newer_version("+1.2.3", "1.2.3"));
    assert!(is_newer_version("1.2.4", "+1.2.3"));
}

#[test]
fn version_fields_beyond_u32_are_no_version() {
    assert!(is_newer_version("4294967296.0.0", "4294967295.0.0"));
    assert!(!is_newer_version("4294967295.0.0", "4294967295.0.0"));
    assert!(is_newer_version("4294967295.0.0", "4294967294.9.9"));
}
