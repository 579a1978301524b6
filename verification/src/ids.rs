//! Package identifiers: a name paired with a version, the combined
//! `name-version` form, and the filter for auto-published compiler crates.

use crate::scan::{is_char_prefix, str_has_prefix};
use crate::version::{fmt_version, spec_parse, Version, VersionView};
use vstd::prelude::*;
use vstd::string::StrSliceExecFns;
use vstd::string::StringExecFns;

verus! {

/// A package name paired with a version.
#[derive(Clone, Debug)]
pub struct CrateId {
    pub name: String,
    pub version: Version,
}

/// The mathematical value of a [`CrateId`].
#[verifier::ext_equal]
pub ghost struct CrateIdView {
    pub name: Seq<char>,
    pub version: VersionView,
}

impl View for CrateId {
    type V = CrateIdView;

    open spec fn view(&self) -> CrateIdView {
        CrateIdView { name: self.name@, version: self.version@ }
    }
}

/// Scans hyphen positions below `pos` from the right: the first one whose
/// tail parses as a version and leaves a nonempty name splits the string.
pub open spec fn scan_hyphens(s: Seq<char>, pos: int) -> Option<CrateIdView>
    decreases pos,
{
    if pos <= 0 {
        None
    } else {
        let i = pos - 1;
        if s[i] == '-' && i > 0 {
            match spec_parse(s.skip(i + 1)) {
                Some(v) => Some(CrateIdView { name: s.take(i), version: v }),
                None => scan_hyphens(s, i),
            }
        } else {
            scan_hyphens(s, i)
        }
    }
}

/// Meaning of a combined `name-version` string.
pub open spec fn spec_crate_id_parse(s: Seq<char>) -> Option<CrateIdView> {
    scan_hyphens(s, s.len() as int)
}

impl CrateId {
    /// Splits a combined `name-version` string, trying hyphen positions from
    /// the right; package names may themselves contain hyphens.
    pub fn parse(name: &str) -> (r: Option<CrateId>)
        ensures
            match r {
                Some(c) => spec_crate_id_parse(name@) == Some(c@),
                None => spec_crate_id_parse(name@) is None,
            },
    {
        let n = name.unicode_len();
        let mut pos = n;
        while pos > 0
            invariant
                pos <= n,
                n == name@.len(),
                scan_hyphens(name@, n as int) == scan_hyphens(name@, pos as int),
            decreases pos,
        {
            let i = pos - 1;
            if name.get_char(i) == '-' && i > 0 {
                let tail = name.substring_char(i + 1, n);
                match Version::parse(tail) {
                    Some(v) => {
                        let nm = name.substring_char(0, i);
                        return Some(CrateId { name: nm.to_owned(), version: v });
                    },
                    None => {},
                }
            }
            pos = i;
        }
        None
    }

    /// The combined form `name-version`, byte-stable with respect to the
    /// canonical version string.
    pub fn format(&self) -> (r: String)
        ensures
            r@ == self@.name + seq!['-'] + fmt_version(self@.version),
    {
        let mut out = self.name.clone();
        out.append("-");
        let v = self.version.format();
        out.append(v.as_str());
        proof {
            reveal_strlit("-");
            assert(out@ =~= self@.name + seq!['-'] + fmt_version(self@.version));
        }
        out
    }
}

/// Whether a name denotes an auto-published compiler crate; these no longer
/// build and are filtered out by callers.
pub fn is_rustc_crate(name: &str) -> (r: bool)
    ensures
        r == (is_char_prefix("rustc-ap"@, name@) || is_char_prefix("fast-rustc-ap"@, name@)),
{
    str_has_prefix(name, "rustc-ap") || str_has_prefix(name, "fast-rustc-ap")
}

} // verus!
