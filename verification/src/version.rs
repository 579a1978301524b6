//! Version numbers: the `major.minor.patch` triple, the optional pre-release
//! channel, the optional build-metadata string, and the grammar
//! `major.minor.patch[-stream.number][+build]` with its parser and printer.

use crate::numerals::{num_chars, parse_u16, parse_u16_spec, push_u16_chars};
use crate::scan::{find_ch, find_char};
use vstd::prelude::*;
use vstd::string::StrSliceExecFns;
use vstd::string::StringExecFns;

verus! {

/// The `major.minor.patch` triple that determines precedence.
#[derive(Clone, Copy, PartialEq, Eq, Structural, Debug)]
pub struct MainVersion {
    pub major: u16,
    pub minor: u16,
    pub patch: u16,
}

impl MainVersion {
    /// Strict lexicographic order on `(major, minor, patch)`.
    pub open spec fn spec_lt(self, other: MainVersion) -> bool {
        self.major < other.major || (self.major == other.major && self.minor < other.minor) || (
        self.major == other.major && self.minor == other.minor && self.patch < other.patch)
    }

    pub open spec fn spec_le(self, other: MainVersion) -> bool {
        self.spec_lt(other) || self == other
    }

    pub fn lt(&self, other: &MainVersion) -> (r: bool)
        ensures
            r == self.spec_lt(*other),
    {
        self.major < other.major || (self.major == other.major && self.minor < other.minor) || (
        self.major == other.major && self.minor == other.minor && self.patch < other.patch)
    }

    pub fn le(&self, other: &MainVersion) -> (r: bool)
        ensures
            r == self.spec_le(*other),
    {
        self.lt(other) || (self.major == other.major && self.minor == other.minor && self.patch
            == other.patch)
    }

    /// The canonical `major.minor.patch` string.
    pub fn format(&self) -> (r: String)
        ensures
            r@ == fmt_main(*self),
    {
        let mut out = String::new();
        push_u16_chars(&mut out, self.major);
        out.append(".");
        push_u16_chars(&mut out, self.minor);
        out.append(".");
        push_u16_chars(&mut out, self.patch);
        proof {
            reveal_strlit(".");
            assert(out@ =~= fmt_main(*self));
        }
        out
    }
}

/// A named pre-release channel ("beta", "rc") and a sequence number within
/// it. Distinct channel names carry no order: two `PreVersion`s compare for
/// equality only.
#[derive(Clone, Debug)]
pub struct PreVersion {
    pub stream: String,
    pub version: u16,
}

/// The mathematical value of a [`PreVersion`].
#[verifier::ext_equal]
pub ghost struct PreVersionView {
    pub stream: Seq<char>,
    pub version: u16,
}

impl View for PreVersion {
    type V = PreVersionView;

    open spec fn view(&self) -> PreVersionView {
        PreVersionView { stream: self.stream@, version: self.version }
    }
}

impl PreVersion {
    /// A borrowed view of the value.
    pub fn borrow(&self) -> (r: &PreVersion)
        ensures
            r == self,
    {
        self
    }

    /// An owned copy of the channel name and number.
    pub fn to_owned(&self) -> (r: PreVersion)
        ensures
            r@ == self@,
    {
        PreVersion { stream: self.stream.clone(), version: self.version }
    }
}

impl PartialEq for PreVersion {
    fn eq(&self, other: &Self) -> (r: bool) {
        self.version == other.version && self.stream == other.stream
    }
}

impl vstd::std_specs::cmp::PartialEqSpecImpl for PreVersion {
    open spec fn obeys_eq_spec() -> bool {
        true
    }

    open spec fn eq_spec(&self, other: &Self) -> bool {
        self@ == other@
    }
}

/// A version number: a main triple, an optional pre-release part, and
/// optional build metadata. Build metadata never participates in ordering or
/// tracking decisions.
#[derive(Clone, Debug)]
pub struct Version {
    pub(crate) version: MainVersion,
    pub(crate) pre: Option<PreVersion>,
    pub(crate) build: Option<String>,
}

/// The mathematical value of a [`Version`].
#[verifier::ext_equal]
pub ghost struct VersionView {
    pub version: MainVersion,
    pub pre: Option<PreVersionView>,
    pub build: Option<Seq<char>>,
}

pub open spec fn view_opt_string(b: Option<String>) -> Option<Seq<char>> {
    match b {
        Some(s) => Some(s@),
        None => None,
    }
}

pub open spec fn view_opt_pre(p: Option<PreVersion>) -> Option<PreVersionView> {
    match p {
        Some(q) => Some(q@),
        None => None,
    }
}

impl View for Version {
    type V = VersionView;

    closed spec fn view(&self) -> VersionView {
        VersionView {
            version: self.version,
            pre: view_opt_pre(self.pre),
            build: view_opt_string(self.build),
        }
    }
}

impl PartialEq for Version {
    fn eq(&self, other: &Self) -> (r: bool) {
        let pre_eq = match (&self.pre, &other.pre) {
            (Some(a), Some(b)) => *a == *b,
            (None, None) => true,
            _ => false,
        };
        let build_eq = match (&self.build, &other.build) {
            (Some(a), Some(b)) => *a == *b,
            (None, None) => true,
            _ => false,
        };
        let r = self.version == other.version && pre_eq && build_eq;
        proof {
            assert(pre_eq == (view_opt_pre(self.pre) == view_opt_pre(other.pre)));
            assert(build_eq == (view_opt_string(self.build) == view_opt_string(other.build)));
        }
        r
    }
}

impl vstd::std_specs::cmp::PartialEqSpecImpl for Version {
    open spec fn obeys_eq_spec() -> bool {
        true
    }

    open spec fn eq_spec(&self, other: &Self) -> bool {
        self@ == other@
    }
}

/// Splits at the first `+`: what follows it is build metadata.
pub open spec fn split_build(s: Seq<char>) -> (Seq<char>, Option<Seq<char>>) {
    match find_ch(s, '+') {
        Some(i) => (s.take(i), Some(s.skip(i + 1))),
        None => (s, None),
    }
}

/// Meaning of the text after the second dot, given the parsed major and
/// minor numbers.
pub open spec fn spec_parse_rest(major: u16, minor: u16, rest: Seq<char>) -> Option<VersionView> {
    match find_ch(rest, '-') {
        Some(k) => {
            let pre_s = rest.skip(k + 1);
            match (parse_u16_spec(rest.take(k)), find_ch(pre_s, '.')) {
                (Some(patch), Some(l)) => {
                    let sb = split_build(pre_s.skip(l + 1));
                    match parse_u16_spec(sb.0) {
                        Some(number) => Some(
                            VersionView {
                                version: MainVersion { major, minor, patch },
                                pre: Some(PreVersionView { stream: pre_s.take(l), version: number }),
                                build: sb.1,
                            },
                        ),
                        None => None,
                    }
                },
                _ => None,
            }
        },
        None => {
            let sb = split_build(rest);
            match parse_u16_spec(sb.0) {
                Some(patch) => Some(
                    VersionView {
                        version: MainVersion { major, minor, patch },
                        pre: None,
                        build: sb.1,
                    },
                ),
                None => None,
            }
        },
    }
}

/// Meaning of a version string under the grammar
/// `major.minor.patch[-stream.number][+build]`.
pub open spec fn spec_parse(s: Seq<char>) -> Option<VersionView> {
    match find_ch(s, '.') {
        Some(i) => {
            let rest1 = s.skip(i + 1);
            match find_ch(rest1, '.') {
                Some(j) => match (parse_u16_spec(s.take(i)), parse_u16_spec(rest1.take(j))) {
                    (Some(major), Some(minor)) => spec_parse_rest(major, minor, rest1.skip(j + 1)),
                    _ => None,
                },
                None => None,
            }
        },
        None => None,
    }
}

/// The canonical characters of a main version.
pub open spec fn fmt_main(m: MainVersion) -> Seq<char> {
    num_chars(m.major as nat) + seq!['.'] + num_chars(m.minor as nat) + seq!['.'] + num_chars(
        m.patch as nat,
    )
}

/// The canonical characters of a version.
pub open spec fn fmt_version(v: VersionView) -> Seq<char> {
    fmt_main(v.version) + (match v.pre {
        Some(p) => seq!['-'] + p.stream + seq!['.'] + num_chars(p.version as nat),
        None => Seq::<char>::empty(),
    }) + (match v.build {
        Some(b) => seq!['+'] + b,
        None => Seq::<char>::empty(),
    })
}

/// Splits the string at the first `+`, handing back the remainder as build
/// metadata.
fn split_plus(s: &str) -> (r: (&str, Option<&str>))
    ensures
        r.0@ == split_build(s@).0,
        (match r.1 {
            Some(b) => split_build(s@).1 == Some(b@),
            None => split_build(s@).1 is None,
        }),
{
    let n = s.unicode_len();
    match find_char(s, '+') {
        Some(m) => (s.substring_char(0, m), Some(s.substring_char(m + 1, n))),
        None => (s, None),
    }
}

impl Version {
    /// Builds a version from its parts.
    pub fn new(version: MainVersion, pre: Option<PreVersion>, build: Option<String>) -> (r:
        Version)
        ensures
            r@ == (VersionView { version, pre: view_opt_pre(pre), build: view_opt_string(build) }),
    {
        Version { version, pre, build }
    }

    /// The main `major.minor.patch` triple.
    pub fn main(&self) -> (r: MainVersion)
        ensures
            r == self@.version,
    {
        self.version
    }

    /// A borrowed view of the value.
    pub fn borrow(&self) -> (r: &Version)
        ensures
            r == self,
    {
        self
    }

    /// Splits the version into its parts.
    pub(crate) fn into_parts(self) -> (r: (MainVersion, Option<PreVersion>, Option<String>))
        ensures
            self@.version == r.0,
            self@.pre == view_opt_pre(r.1),
            self@.build == view_opt_string(r.2),
    {
        let Version { version, pre, build } = self;
        (version, pre, build)
    }

    /// An owned copy of the whole version.
    pub fn to_owned(&self) -> (r: Version)
        ensures
            r@ == self@,
    {
        Version {
            version: self.version,
            pre: match &self.pre {
                Some(p) => Some(p.to_owned()),
                None => None,
            },
            build: match &self.build {
                Some(b) => Some(b.clone()),
                None => None,
            },
        }
    }

    /// Parses the form `major.minor.patch[-stream.number][+build]`, yielding
    /// nothing when the string is not of that shape.
    pub fn parse(s: &str) -> (r: Option<Version>)
        ensures
            match r {
                Some(v) => spec_parse(s@) == Some(v@),
                None => spec_parse(s@) is None,
            },
    {
        let n = s.unicode_len();
        let i = match find_char(s, '.') {
            Some(i) => i,
            None => {
                return None;
            },
        };
        let major = match parse_u16(s.substring_char(0, i)) {
            Some(x) => x,
            None => {
                return None;
            },
        };
        let rest1 = s.substring_char(i + 1, n);
        let n1 = rest1.unicode_len();
        let j = match find_char(rest1, '.') {
            Some(j) => j,
            None => {
                return None;
            },
        };
        let minor = match parse_u16(rest1.substring_char(0, j)) {
            Some(x) => x,
            None => {
                return None;
            },
        };
        let rest = rest1.substring_char(j + 1, n1);
        let nr = rest.unicode_len();
        match find_char(rest, '-') {
            Some(k) => {
                let patch = match parse_u16(rest.substring_char(0, k)) {
                    Some(x) => x,
                    None => {
                        return None;
                    },
                };
                let pre_s = rest.substring_char(k + 1, nr);
                let np = pre_s.unicode_len();
                let l = match find_char(pre_s, '.') {
                    Some(l) => l,
                    None => {
                        return None;
                    },
                };
                let stream_s = pre_s.substring_char(0, l);
                let tail = pre_s.substring_char(l + 1, np);
                let (num_s, build) = split_plus(tail);
                let number = match parse_u16(num_s) {
                    Some(x) => x,
                    None => {
                        return None;
                    },
                };
                Some(
                    Version {
                        version: MainVersion { major, minor, patch },
                        pre: Some(PreVersion { stream: stream_s.to_owned(), version: number }),
                        build: match build {
                            Some(b) => Some(b.to_owned()),
                            None => None,
                        },
                    },
                )
            },
            None => {
                let (patch_s, build) = split_plus(rest);
                let patch = match parse_u16(patch_s) {
                    Some(x) => x,
                    None => {
                        return None;
                    },
                };
                Some(
                    Version {
                        version: MainVersion { major, minor, patch },
                        pre: None,
                        build: match build {
                            Some(b) => Some(b.to_owned()),
                            None => None,
                        },
                    },
                )
            },
        }
    }

    /// The canonical string `major.minor.patch[-stream.number][+build]`.
    pub fn format(&self) -> (r: String)
        ensures
            r@ == fmt_version(self@),
    {
        let mut out = String::new();
        push_u16_chars(&mut out, self.version.major);
        out.append(".");
        push_u16_chars(&mut out, self.version.minor);
        out.append(".");
        push_u16_chars(&mut out, self.version.patch);
        match &self.pre {
            Some(p) => {
                out.append("-");
                out.append(p.stream.as_str());
                out.append(".");
                push_u16_chars(&mut out, p.version);
            },
            None => {},
        }
        match &self.build {
            Some(b) => {
                out.append("+");
                out.append(b.as_str());
            },
            None => {},
        }
        proof {
            reveal_strlit(".");
            reveal_strlit("-");
            reveal_strlit("+");
            assert(out@ =~= fmt_version(self@));
        }
        out
    }
}

/// Copies optional build metadata.
pub(crate) fn clone_opt_string(b: &Option<String>) -> (r: Option<String>)
    ensures
        view_opt_string(r) == view_opt_string(*b),
{
    match b {
        Some(s) => Some(s.clone()),
        None => None,
    }
}

} // verus!
