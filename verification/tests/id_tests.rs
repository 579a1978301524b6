use clippy_lint_test::{is_rustc_crate, CrateId, MainVersion, PreVersion, Version};

fn version(major: u16, minor: u16, patch: u16) -> Version {
    Version::new(MainVersion { major, minor, patch }, None, None)
}

fn version_pre(major: u16, minor: u16, patch: u16, stream: &str, number: u16) -> Version {
    Version::new(
        MainVersion { major, minor, patch },
        Some(PreVersion { stream: stream.to_string(), version: number }),
        None,
    )
}

#[test]
fn crate_id_parse_simple() {
    let id = CrateId::parse("serde-1.0.136").unwrap();
    assert_eq!(id.name, "serde");
    assert_eq!(id.version, version(1, 0, 136));
}

#[test]
fn crate_id_parse_hyphenated_name() {
    let id = CrateId::parse("serde-json-0.9.0").unwrap();
    assert_eq!(id.name, "serde-json");
    assert_eq!(id.version, version(0, 9, 0));

    let id = CrateId::parse("foo-bar-baz-1.2.3-rc.1").unwrap();
    assert_eq!(id.name, "foo-bar-baz");
    assert_eq!(id.version, version_pre(1, 2, 3, "rc", 1));
}

#[test]
fn crate_id_parse_rightmost_wins() {
    // a name that itself ends in a version-shaped token: the rightmost
    // hyphen whose tail parses decides, an accepted approximation
    let id = CrateId::parse("pkg-1.2.3-4.5.6").unwrap();
    assert_eq!(id.name, "pkg-1.2.3");
    assert_eq!(id.version, version(4, 5, 6));
}

#[test]
fn crate_id_parse_failures() {
    // no hyphen at all
    assert!(CrateId::parse("serde").is_none());
    // no hyphen position yields a version
    assert!(CrateId::parse("serde-json").is_none());
    assert!(CrateId::parse("foo-1.2").is_none());
    // the name portion may not be empty
    assert!(CrateId::parse("-1.2.3").is_none());
    assert!(CrateId::parse("").is_none());
}

#[test]
fn crate_id_format_round_trip() {
    for s in ["serde-1.0.136", "serde-json-0.9.0", "foo-bar-1.2.3-rc.1+b.2020"] {
        assert_eq!(CrateId::parse(s).unwrap().format(), s);
    }
    let id = CrateId { name: "tokio".to_string(), version: version_pre(1, 0, 0, "alpha", 3) };
    assert_eq!(id.format(), "tokio-1.0.0-alpha.3");
}

#[test]
fn rustc_crate_filter() {
    assert!(is_rustc_crate("rustc-ap-syntax"));
    assert!(is_rustc_crate("rustc-ap"));
    assert!(is_rustc_crate("fast-rustc-ap-rustc_data_structures"));
    assert!(!is_rustc_crate("serde"));
    assert!(!is_rustc_crate("rustc"));
    assert!(!is_rustc_crate("fast-rustc"));
    assert!(!is_rustc_crate(""));
}
