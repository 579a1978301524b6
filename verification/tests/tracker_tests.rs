use clippy_lint_test::{LatestVersions, MainVersion, PreVersion, Version};

fn version(major: u16, minor: u16, patch: u16) -> Version {
    Version::new(MainVersion { major, minor, patch }, None, None)
}

fn version_pre(major: u16, minor: u16, patch: u16, stream: &str, number: u16) -> Version {
    Version::new(
        MainVersion { major, minor, patch },
        Some(PreVersion { stream: stream.to_string(), version: number }),
        None,
    )
}

fn version_build(major: u16, minor: u16, patch: u16, build: &str) -> Version {
    Version::new(MainVersion { major, minor, patch }, None, Some(build.to_string()))
}

fn version_pre_build(
    major: u16,
    minor: u16,
    patch: u16,
    stream: &str,
    number: u16,
    build: &str,
) -> Version {
    Version::new(
        MainVersion { major, minor, patch },
        Some(PreVersion { stream: stream.to_string(), version: number }),
        Some(build.to_string()),
    )
}

fn ids(versions: &LatestVersions) -> Vec<Version> {
    versions.iter_ids("").into_iter().map(|x| x.version).collect()
}

#[test]
fn latest_versions() {
    let mut versions = LatestVersions::default();
    versions.push(version(0, 0, 1));
    assert_eq!(ids(&versions), vec![version(0, 0, 1)]);

    versions.push(version(0, 0, 2));
    assert_eq!(ids(&versions), vec![version(0, 0, 2)]);

    versions.push(version(0, 0, 1));
    assert_eq!(ids(&versions), vec![version(0, 0, 2)]);

    versions.push(version(0, 0, 2));
    assert_eq!(ids(&versions), vec![version(0, 0, 2)]);

    versions.push(version_build(0, 0, 1, "build.1.2"));
    assert_eq!(ids(&versions), vec![version(0, 0, 2)]);

    versions.push(version_build(0, 1, 0, "build.1.2"));
    assert_eq!(ids(&versions), vec![version_build(0, 1, 0, "build.1.2")]);

    versions.push(version(0, 0, 999));
    assert_eq!(ids(&versions), vec![version_build(0, 1, 0, "build.1.2")]);

    versions.push(version(1, 0, 0));
    versions.push(version_pre(0, 9, 0, "beta", 1));
    versions.push(version_pre_build(0, 9, 0, "beta", 1, "build.1"));
    versions.push(version_pre(1, 0, 0, "rc", 1));
    assert_eq!(ids(&versions), vec![version(1, 0, 0)]);

    versions.push(version_pre(1, 1, 0, "rc", 1));
    assert_eq!(ids(&versions), vec![version(1, 0, 0), version_pre(1, 1, 0, "rc", 1)]);

    versions.push(version_pre(1, 1, 0, "rc", 2));
    assert_eq!(ids(&versions), vec![version(1, 0, 0), version_pre(1, 1, 0, "rc", 2)]);

    versions.push(version_pre(1, 1, 0, "rc", 1));
    assert_eq!(ids(&versions), vec![version(1, 0, 0), version_pre(1, 1, 0, "rc", 2)]);

    versions.push(version_pre(1, 1, 0, "beta", 1));
    assert_eq!(
        ids(&versions),
        vec![
            version(1, 0, 0),
            version_pre(1, 1, 0, "rc", 2),
            version_pre(1, 1, 0, "beta", 1),
        ]
    );

    versions.push(version_pre(1, 1, 0, "beta", 2));
    versions.push(version_pre_build(1, 1, 0, "rc", 3, "build.1"));
    assert_eq!(
        ids(&versions),
        vec![
            version(1, 0, 0),
            version_pre_build(1, 1, 0, "rc", 3, "build.1"),
            version_pre(1, 1, 0, "beta", 2),
        ]
    );

    versions.push(version_pre_build(1, 1, 0, "rc", 4, "build.9"));
    assert_eq!(
        ids(&versions),
        vec![
            version(1, 0, 0),
            version_pre_build(1, 1, 0, "rc", 4, "build.9"),
            version_pre(1, 1, 0, "beta", 2),
        ]
    );

    versions.push(version(1, 1, 0));
    assert_eq!(ids(&versions), vec![version(1, 1, 0)]);

    versions.push(version_pre(1, 2, 0, "beta", 1));
    versions.push(version_pre(1, 2, 0, "rc", 1));
    assert_eq!(
        ids(&versions),
        vec![
            version(1, 1, 0),
            version_pre(1, 2, 0, "beta", 1),
            version_pre(1, 2, 0, "rc", 1),
        ]
    );

    versions.push(version_pre(1, 3, 0, "rc", 1));
    assert_eq!(ids(&versions), vec![version(1, 1, 0), version_pre(1, 3, 0, "rc", 1)]);

    versions.push(version(1, 2, 0));
    assert_eq!(ids(&versions), vec![version(1, 2, 0), version_pre(1, 3, 0, "rc", 1)]);

    versions.push(version(0, 9, 0));
    assert_eq!(ids(&versions), vec![version(1, 2, 0), version_pre(1, 3, 0, "rc", 1)]);
}

#[test]
fn single_stable_resolves() {
    let mut versions = LatestVersions::default();
    versions.push(version(0, 0, 1));
    assert_eq!(ids(&versions), vec![version(0, 0, 1)]);
}

#[test]
fn newer_stable_wins() {
    let mut versions = LatestVersions::default();
    versions.push(version(0, 0, 1));
    versions.push(version(0, 0, 2));
    assert_eq!(ids(&versions), vec![version(0, 0, 2)]);
    versions.push(version(0, 0, 1));
    assert_eq!(ids(&versions), vec![version(0, 0, 2)]);
}

#[test]
fn push_is_idempotent() {
    let mut once = LatestVersions::default();
    once.push(version_pre(1, 1, 0, "rc", 1));
    let mut twice = LatestVersions::default();
    twice.push(version_pre(1, 1, 0, "rc", 1));
    twice.push(version_pre(1, 1, 0, "rc", 1));
    assert_eq!(ids(&once), ids(&twice));

    let mut once = LatestVersions::default();
    once.push(version_build(2, 0, 0, "m"));
    let mut twice = LatestVersions::default();
    twice.push(version_build(2, 0, 0, "m"));
    twice.push(version_build(2, 0, 0, "m"));
    assert_eq!(ids(&once), ids(&twice));
}

#[test]
fn equal_stable_push_keeps_build() {
    // a stable push equal to the recorded main version is a no-op, so the
    // first build string stays
    let mut versions = LatestVersions::default();
    versions.push(version_build(1, 0, 0, "first"));
    versions.push(version_build(1, 0, 0, "second"));
    assert_eq!(ids(&versions), vec![version_build(1, 0, 0, "first")]);
}

#[test]
fn stream_independence() {
    let mut versions = LatestVersions::default();
    versions.push(version_pre(2, 0, 0, "beta", 1));
    versions.push(version_pre(2, 0, 0, "rc", 1));
    assert_eq!(
        ids(&versions),
        vec![version_pre(2, 0, 0, "beta", 1), version_pre(2, 0, 0, "rc", 1)]
    );
}

#[test]
fn group_invalidation() {
    let mut versions = LatestVersions::default();
    versions.push(version(1, 0, 0));
    versions.push(version_pre(1, 1, 0, "rc", 2));
    versions.push(version_pre(1, 1, 0, "beta", 1));
    versions.push(version_pre(1, 2, 0, "beta", 3));
    assert_eq!(ids(&versions), vec![version(1, 0, 0), version_pre(1, 2, 0, "beta", 3)]);
}

#[test]
fn stable_release_clears_group() {
    let mut versions = LatestVersions::default();
    versions.push(version(1, 0, 0));
    versions.push(version_pre(1, 1, 0, "rc", 2));
    versions.push(version_pre(1, 1, 0, "beta", 1));
    versions.push(version(1, 1, 0));
    assert_eq!(ids(&versions), vec![version(1, 1, 0)]);
}

#[test]
fn group_ahead_of_stable_survives() {
    let mut versions = LatestVersions::default();
    versions.push(version_pre(1, 3, 0, "rc", 1));
    versions.push(version(1, 2, 0));
    assert_eq!(ids(&versions), vec![version(1, 2, 0), version_pre(1, 3, 0, "rc", 1)]);
}

#[test]
fn iter_ids_names_and_repeats() {
    let mut versions = LatestVersions::default();
    versions.push(version(1, 0, 0));
    versions.push(version_pre(1, 1, 0, "rc", 1));
    let out = versions.iter_ids("serde");
    assert_eq!(out.len(), 2);
    assert_eq!(out[0].name, "serde");
    assert_eq!(out[0].version, version(1, 0, 0));
    assert_eq!(out[1].name, "serde");
    assert_eq!(out[1].version, version_pre(1, 1, 0, "rc", 1));
    // querying again neither mutates the tracker nor changes the answer
    let again = versions.iter_ids("serde");
    assert_eq!(again.len(), 2);
    assert_eq!(again[0].version, version(1, 0, 0));
    assert_eq!(again[1].version, version_pre(1, 1, 0, "rc", 1));
}
