use solace_core::version::is_compatible_version;
use solace_core::version::PROTOCOL_VERSION;

#[test]
fn test_version_compatibility() {
    assert!(is_compatible_version("1.0.0"));
    assert!(is_compatible_version("1.0.1"));
    assert!(is_compatible_version("1.1.0"));
    assert!(!is_compatible_version("2.0.0"));
    assert!(!is_compatible_version("0.9.0"));
}

#[test]
fn test_version_shapes() {
    assert!(is_compatible_version(PROTOCOL_VERSION));
    assert!(!is_compatible_version(""));
    assert!(!is_compatible_version("1.0"));
    assert!(!is_compatible_version("1.0.0.0"));
    // Non-numeric components count as zero, like a lenient parser.
    assert!(is_compatible_version("1.x.y"));
    assert!(!is_compatible_version("one.0.0"));
}
