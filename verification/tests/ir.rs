use gloam::ir::{CommandScope, Version};

#[test]
fn version_ordering() {
    assert!(Version::new(3, 3) > Version::new(3, 2));
    assert!(Version::new(4, 0) > Version::new(3, 9));
    assert!(Version::new(1, 1) > Version::new(1, 0));
    assert_eq!(Version::new(2, 0), Version::new(2, 0));
}

#[test]
fn version_packed_encodes_correctly() {
    assert_eq!(Version::new(3, 3).packed(), 0x0303);
    assert_eq!(Version::new(1, 0).packed(), 0x0100);
    assert_eq!(Version::new(4, 6).packed(), 0x0406);
}

#[test]
fn version_packed_ordering_matches_semantic_ordering() {
    let pairs = [
        (Version::new(1, 0), Version::new(1, 1)),
        (Version::new(3, 2), Version::new(3, 3)),
        (Version::new(3, 9), Version::new(4, 0)),
    ];
    for (a, b) in &pairs {
        assert!(a.packed() < b.packed(), "{} < {}", a.to_text(), b.to_text());
    }
}

#[test]
fn version_display() {
    assert_eq!(Version::new(3, 3).to_text(), "3.3");
    assert_eq!(Version::new(1, 0).to_text(), "1.0");
}

#[test]
fn version_display_multi_digit() {
    assert_eq!(Version::new(10, 25).to_text(), "10.25");
}

#[test]
fn command_scope_c_names() {
    assert_eq!(CommandScope::Unknown.c_name(), "GloamCommandScopeUnknown");
    assert_eq!(CommandScope::Device.c_name(), "GloamCommandScopeDevice");
}
