//! A semantic-version parser and latest-version tracker.
//!
//! Given an unordered stream of version strings discovered for a single
//! named package, [`LatestVersions`] determines the single latest stable
//! release and, separately, the latest pre-release version for each distinct
//! pre-release channel ("stream") that is still relevant.
//!
//! A [`Version`] is a `major.minor.patch` triple ([`MainVersion`]), an
//! optional pre-release channel and number ([`PreVersion`]), and an optional
//! opaque build-metadata string, written
//! `major.minor.patch[-stream.number][+build]`. [`CrateId`] pairs a package
//! name with a version and parses the combined `name-version` form used to
//! name cached package archives.

mod ids;
mod laws;
mod numerals;
mod scan;
mod tracker;
mod version;

pub use ids::{is_rustc_crate, scan_hyphens, spec_crate_id_parse, CrateId, CrateIdView};
pub use laws::{
    lemma_format_then_parse, lemma_group_invalidation, lemma_main_lt_trans, lemma_main_order,
    lemma_parse_then_format, lemma_push_idempotent, lemma_push_preserves_wf,
    lemma_stable_dominance, lemma_stream_independence, valid_version,
};
pub use numerals::{
    all_digits, digit_char, digit_val, is_digit, num_chars, parse_u16_spec, seq_val,
};
pub use scan::{find_ch, is_char_prefix};
pub use tracker::{
    empty_tracker, find_stream, ids_view, spec_ids, spec_push, stream_id, stream_ids, wf,
    LatestVersions, TrackerView,
};
pub use version::{
    fmt_main, fmt_version, spec_parse, spec_parse_rest, split_build, view_opt_pre,
    view_opt_string, MainVersion, PreVersion, PreVersionView, Version, VersionView,
};
