use altiumdb::update::{is_newer, release_info};

#[test]
fn newer_versions() {
    assert!(is_newer("1.2.4", "1.2.3"));
    assert!(is_newer("2.0.0", "1.9.9"));
    assert!(!is_newer("1.2.3", "1.2.3"));
    assert!(!is_newer("1.0.0-alpha", "1.0.0"));
    assert!(!is_newer("1.2", "1.0.0"));
    assert!(!is_newer("v1.2.4", "1.2.3"));
}

#[test]
fn release_from_tag() {
    let r = release_info(" v1.2.3 ", None, "https://x/r");
    assert_eq!(r.version, "1.2.3");
    assert_eq!(r.tag, "v1.2.3");
    assert_eq!(r.name, "v1.2.3");
    assert_eq!(r.url, "https://x/r");
    let r = release_info("2.0.0", Some("Big".to_string()), "u");
    assert_eq!(r.version, "2.0.0");
    assert_eq!(r.name, "Big");
}

#[test]
fn updates_are_offered_one_way_only() {
    for (a, b) in [("1.2.4", "1.2.3"), ("1.0.0", "1.0.0-rc.1"), ("0.10.0", "0.9.9")] {
        assert!(is_newer(a, b));
        assert!(!is_newer(b, a));
    }
}
