use clippy_lint_test::{MainVersion, PreVersion, Version};

fn version(major: u16, minor: u16, patch: u16) -> Version {
    Version::new(MainVersion { major, minor, patch }, None, None)
}

fn version_pre(major: u16, minor: u16, patch: u16, stream: &str, number: u16) -> Version {
    Version::new(
        MainVersion { major, minor, patch },
        Some(PreVersion { stream: stream.to_string(), version: number }),
        None,
    )
}

fn version_build(major: u16, minor: u16, patch: u16, build: &str) -> Version {
    Version::new(MainVersion { major, minor, patch }, None, Some(build.to_string()))
}

fn version_pre_build(
    major: u16,
    minor: u16,
    patch: u16,
    stream: &str,
    number: u16,
    build: &str,
) -> Version {
    Version::new(
        MainVersion { major, minor, patch },
        Some(PreVersion { stream: stream.to_string(), version: number }),
        Some(build.to_string()),
    )
}

#[test]
fn parse_version() {
    assert_eq!(Version::parse("0.0.0").unwrap(), version(0, 0, 0));
    assert_eq!(Version::parse("1.9.0").unwrap(), version(1, 9, 0));
    assert_eq!(Version::parse("1.0.0-beta.1").unwrap(), version_pre(1, 0, 0, "beta", 1));
    assert_eq!(
        Version::parse("9.9.52-alphastar.999").unwrap(),
        version_pre(9, 9, 52, "alphastar", 999)
    );
    assert_eq!(
        Version::parse("1.0.0+someotherstuff.2020.5.2").unwrap(),
        version_build(1, 0, 0, "someotherstuff.2020.5.2")
    );
    assert_eq!(
        Version::parse("0.1.0-beta.5+build.2020.5.2").unwrap(),
        version_pre_build(0, 1, 0, "beta", 5, "build.2020.5.2")
    );
}

#[test]
fn parse_rejects_malformed() {
    // too few main components
    assert!(Version::parse("").is_none());
    assert!(Version::parse("1").is_none());
    assert!(Version::parse("1.2").is_none());
    // numeric components must be plain digits
    assert!(Version::parse("+1.2.3").is_none());
    assert!(Version::parse("1.-2.3").is_none());
    assert!(Version::parse("1.2.x").is_none());
    assert!(Version::parse("a.2.3").is_none());
    assert!(Version::parse("1..3").is_none());
    // overflow of the fixed width
    assert!(Version::parse("65536.0.0").is_none());
    assert!(Version::parse("0.0.70000").is_none());
    assert!(Version::parse("1.2.3-beta.65536").is_none());
    // a pre-release needs a dot between stream and number
    assert!(Version::parse("1.2.3-beta").is_none());
    assert!(Version::parse("1.2.3-beta5").is_none());
    // a stable version's build metadata may not hold a hyphen
    assert!(Version::parse("1.2.3+a-b").is_none());
}

#[test]
fn parse_accepts_edges() {
    // the largest representable version
    assert_eq!(
        Version::parse("65535.65535.65535").unwrap(),
        version(65535, 65535, 65535)
    );
    // leading zeros are accepted and normalized by format
    assert_eq!(Version::parse("01.002.0003").unwrap(), version(1, 2, 3));
    assert_eq!(Version::parse("1.2.3-beta.01").unwrap(), version_pre(1, 2, 3, "beta", 1));
    // an empty stream name and an empty build string are accepted
    assert_eq!(Version::parse("1.2.3-.1").unwrap(), version_pre(1, 2, 3, "", 1));
    assert_eq!(Version::parse("1.2.3+").unwrap(), version_build(1, 2, 3, ""));
    // a hyphen inside a pre-release build string is fine
    assert_eq!(
        Version::parse("1.2.3-rc.1+a-b").unwrap(),
        version_pre_build(1, 2, 3, "rc", 1, "a-b")
    );
    // the stream may itself hold a hyphen or a plus
    assert_eq!(
        Version::parse("1.2.3-my-rc.7").unwrap(),
        version_pre(1, 2, 3, "my-rc", 7)
    );
    assert_eq!(
        Version::parse("1.2.3-a+b.5").unwrap(),
        version_pre(1, 2, 3, "a+b", 5)
    );
}

#[test]
fn format_canonical() {
    assert_eq!(version(0, 0, 0).format(), "0.0.0");
    assert_eq!(version(1, 20, 300).format(), "1.20.300");
    assert_eq!(version(65535, 0, 9).format(), "65535.0.9");
    assert_eq!(version_pre(1, 0, 0, "beta", 1).format(), "1.0.0-beta.1");
    assert_eq!(
        version_pre_build(0, 1, 0, "beta", 5, "build.2020.5.2").format(),
        "0.1.0-beta.5+build.2020.5.2"
    );
    assert_eq!(version_build(1, 0, 0, "meta").format(), "1.0.0+meta");
    let m = MainVersion { major: 12, minor: 0, patch: 345 };
    assert_eq!(m.format(), "12.0.345");
}

#[test]
fn round_trip_canonical_strings() {
    // for accepted strings without leading zeros, format(parse(s)) == s
    for s in [
        "0.0.0",
        "1.9.0",
        "65535.65535.65535",
        "1.0.0-beta.1",
        "9.9.52-alphastar.999",
        "1.0.0+someotherstuff.2020.5.2",
        "0.1.0-beta.5+build.2020.5.2",
        "1.2.3-.1",
        "1.2.3+",
        "1.2.3-rc.1+a-b",
        "1.2.3-my-rc.7",
        "1.2.3-a+b.5",
    ] {
        assert_eq!(Version::parse(s).unwrap().format(), s);
    }
    // leading zeros are normalized away, shortening the string
    assert_eq!(Version::parse("01.002.0003").unwrap().format(), "1.2.3");
    assert_eq!(Version::parse("1.2.3-beta.007").unwrap().format(), "1.2.3-beta.7");
}

#[test]
fn to_owned_copies() {
    let v = version_pre_build(1, 2, 3, "rc", 4, "b");
    assert_eq!(v.to_owned(), v);
    let p = PreVersion { stream: "beta".to_string(), version: 2 };
    let q = p.to_owned();
    assert_eq!(q.stream, "beta");
    assert_eq!(q.version, 2);
}
