//! The laws of the library: pushes keep a tracker consistent and are
//! idempotent, a recorded stable version dominates everything at or below
//! it, a strictly newer pre-release invalidates the whole group, and
//! parsing and formatting of versions round-trip.

use crate::numerals::{
    all_digits, is_digit, lemma_num_chars_digits, lemma_num_chars_min, lemma_num_chars_val,
    num_chars, parse_u16_spec, seq_val,
};
use crate::scan::{find_ch, lemma_find_ch, lemma_find_ch_is, lemma_find_ch_none};
use crate::tracker::{
    find_stream, lemma_find_stream, lemma_find_stream_is, lemma_find_stream_none, spec_ids,
    spec_push, wf, TrackerView,
};
use crate::version::{
    fmt_version, spec_parse, spec_parse_rest, split_build, MainVersion, PreVersionView,
    VersionView,
};
use vstd::prelude::*;

verus! {

/// The main-version order is total: `<=` is the negation of the reverse `<`.
pub proof fn lemma_main_order(a: MainVersion, b: MainVersion)
    ensures
        a.spec_le(b) <==> !b.spec_lt(a),
        a.spec_lt(b) ==> a.spec_le(b),
        a.spec_le(b) && b.spec_le(a) ==> a == b,
{
    assert(a == MainVersion { major: a.major, minor: a.minor, patch: a.patch });
    assert(b == MainVersion { major: b.major, minor: b.minor, patch: b.patch });
}

/// The main-version order is transitive.
pub proof fn lemma_main_lt_trans(a: MainVersion, b: MainVersion, c: MainVersion)
    ensures
        a.spec_lt(b) && b.spec_lt(c) ==> a.spec_lt(c),
        a.spec_le(b) && b.spec_le(c) ==> a.spec_le(c),
{
}

/// A push preserves the tracker's internal consistency.
pub proof fn lemma_push_preserves_wf(t: TrackerView, v: VersionView)
    requires
        wf(t),
    ensures
        wf(spec_push(t, v)),
{
    let r = spec_push(t, v);
    if (match t.stable {
        Some((sv, _)) => v.version.spec_le(sv),
        None => false,
    }) {
    } else {
        match t.stable {
            Some((sv, _)) => {
                lemma_main_order(v.version, sv);
            },
            None => {},
        }
        match v.pre {
            Some(p) => {
                let newer = match t.pre {
                    Some(pm) => pm.spec_lt(v.version),
                    None => true,
                };
                let same = match t.pre {
                    Some(pm) => pm == v.version,
                    None => false,
                };
                if newer {
                    assert(r.streams.len() == 1);
                } else if same {
                    match find_stream(t.streams, p.stream) {
                        Some(i) => {
                            lemma_find_stream(t.streams, p.stream);
                            if t.streams[i].0.version < p.version {
                                assert forall|a: int, b: int|
                                    0 <= a < b < r.streams.len() implies r.streams[a].0.stream
                                    != r.streams[b].0.stream by {
                                    assert(t.streams[a].0.stream != t.streams[b].0.stream);
                                }
                            }
                        },
                        None => {
                            lemma_find_stream(t.streams, p.stream);
                            assert forall|a: int, b: int|
                                0 <= a < b < r.streams.len() implies r.streams[a].0.stream
                                != r.streams[b].0.stream by {
                                if b == r.streams.len() - 1 {
                                    assert(t.streams[a].0.stream != p.stream);
                                } else {
                                    assert(t.streams[a].0.stream != t.streams[b].0.stream);
                                }
                            }
                        },
                    }
                }
            },
            None => {
                let clear = match t.pre {
                    Some(pm) => pm.spec_le(v.version),
                    None => false,
                };
                if !clear {
                    match t.pre {
                        Some(pm) => {
                            lemma_main_order(pm, v.version);
                        },
                        None => {},
                    }
                }
            },
        }
    }
}

/// Monotonic stable dominance: once a stable main version is recorded, a
/// push whose main version is at or below it changes neither the tracker
/// state nor the resolved identifiers.
pub proof fn lemma_stable_dominance(
    t: TrackerView,
    v: VersionView,
    sv: MainVersion,
    b: Option<Seq<char>>,
    name: Seq<char>,
)
    requires
        t.stable == Some((sv, b)),
        v.version.spec_le(sv),
    ensures
        spec_push(t, v) == t,
        spec_ids(spec_push(t, v), name) == spec_ids(t, name),
{
}

/// Idempotence: pushing the same version twice leaves the state that one
/// push leaves.
pub proof fn lemma_push_idempotent(t: TrackerView, v: VersionView)
    ensures
        spec_push(spec_push(t, v), v) == spec_push(t, v),
{
    let t1 = spec_push(t, v);
    if t1 == t {
        // a no-op push repeats as a no-op
    } else if (match t.stable {
        Some((sv, _)) => v.version.spec_le(sv),
        None => false,
    }) {
    } else {
        match v.pre {
            Some(p) => {
                let newer = match t.pre {
                    Some(pm) => pm.spec_lt(v.version),
                    None => true,
                };
                let same = match t.pre {
                    Some(pm) => pm == v.version,
                    None => false,
                };
                if newer {
                    assert(t1.streams == seq![(p, v.build)]);
                    assert(t1.streams[0].0.stream == p.stream);
                    lemma_find_stream_is(t1.streams, p.stream, 0);
                    assert(spec_push(t1, v) == t1);
                } else if same {
                    match find_stream(t.streams, p.stream) {
                        Some(i) => {
                            lemma_find_stream(t.streams, p.stream);
                            if t.streams[i].0.version < p.version {
                                let ns = t.streams.update(i, (p, v.build));
                                assert forall|j: int| 0 <= j < i implies ns[j].0.stream
                                    != p.stream by {
                                    assert(ns[j] == t.streams[j]);
                                }
                                lemma_find_stream_is(ns, p.stream, i);
                                assert(spec_push(t1, v) == t1);
                            }
                        },
                        None => {
                            lemma_find_stream(t.streams, p.stream);
                            let ns = t.streams.push((p, v.build));
                            assert forall|j: int| 0 <= j < ns.len() - 1 implies ns[j].0.stream
                                != p.stream by {
                                assert(ns[j] == t.streams[j]);
                            }
                            lemma_find_stream_is(ns, p.stream, ns.len() - 1);
                            assert(spec_push(t1, v) == t1);
                        },
                    }
                }
            },
            None => {
                assert(v.version.spec_le(v.version));
                assert(spec_push(t1, v) == t1);
            },
        }
    }
}

/// Group invalidation: a pre-release whose main version is strictly ahead
/// of the current group discards every entry of the group and starts a new
/// group holding the incoming entry alone.
pub proof fn lemma_group_invalidation(
    t: TrackerView,
    v: VersionView,
    gv: MainVersion,
    p: PreVersionView,
)
    requires
        wf(t),
        t.pre == Some(gv),
        v.pre == Some(p),
        gv.spec_lt(v.version),
    ensures
        spec_push(t, v) == (TrackerView {
            stable: t.stable,
            pre: Some(v.version),
            streams: seq![(p, v.build)],
        }),
{
    match t.stable {
        Some((sv, b)) => {
            lemma_main_lt_trans(sv, gv, v.version);
            lemma_main_order(v.version, sv);
            assert(!v.version.spec_le(sv));
        },
        None => {},
    }
}

/// Stream independence: two pre-releases of the same main version on
/// distinct streams, pushed into an empty tracker, are both retained, each
/// once, in the order they arrived.
pub proof fn lemma_stream_independence(
    v1: VersionView,
    v2: VersionView,
    p1: PreVersionView,
    p2: PreVersionView,
)
    requires
        v1.pre == Some(p1),
        v2.pre == Some(p2),
        v1.version == v2.version,
        p1.stream != p2.stream,
    ensures
        spec_push(spec_push(crate::tracker::empty_tracker(), v1), v2).streams == seq![
            (p1, v1.build),
            (p2, v2.build),
        ],
        spec_push(spec_push(crate::tracker::empty_tracker(), v1), v2).stable is None,
{
    let t1 = spec_push(crate::tracker::empty_tracker(), v1);
    assert(t1.streams == seq![(p1, v1.build)]);
    assert(t1.streams[0].0.stream != p2.stream);
    lemma_find_stream_none(t1.streams, p2.stream);
    assert(spec_push(t1, v2).streams =~= seq![(p1, v1.build), (p2, v2.build)]);
}

/// A version whose canonical form parses back to itself: its stream name
/// holds no dot, and a stable version's build metadata holds no hyphen.
pub open spec fn valid_version(v: VersionView) -> bool {
    &&& (match v.pre {
        Some(p) => !p.stream.contains('.'),
        None => true,
    })
    &&& (match (v.pre, v.build) {
        (None, Some(b)) => !b.contains('-'),
        _ => true,
    })
}

/// The canonical characters of a version after its `major.minor.` prefix.
spec fn fmt_rest(v: VersionView) -> Seq<char> {
    num_chars(v.version.patch as nat) + (match v.pre {
        Some(p) => seq!['-'] + p.stream + seq!['.'] + num_chars(p.version as nat),
        None => Seq::<char>::empty(),
    }) + (match v.build {
        Some(b) => seq!['+'] + b,
        None => Seq::<char>::empty(),
    })
}

/// The canonical form is the two leading numerals followed by the rest.
proof fn lemma_fmt_split(v: VersionView)
    ensures
        fmt_version(v) == num_chars(v.version.major as nat) + seq!['.'] + num_chars(
            v.version.minor as nat,
        ) + seq!['.'] + fmt_rest(v),
{
    assert(fmt_version(v) =~= num_chars(v.version.major as nat) + seq!['.'] + num_chars(
        v.version.minor as nat,
    ) + seq!['.'] + fmt_rest(v));
}

/// Digit blocks hold no separator characters.
proof fn lemma_digits_no_sep(s: Seq<char>)
    requires
        all_digits(s),
    ensures
        forall|j: int| 0 <= j < s.len() ==> s[j] != '.' && s[j] != '-' && s[j] != '+',
{
    assert forall|j: int| 0 <= j < s.len() implies s[j] != '.' && s[j] != '-' && s[j]
        != '+' by {
        assert(is_digit(s[j]));
    }
}

/// Finding a separator that follows a block free of it splits the string
/// right there.
proof fn lemma_split_at_sep(a: Seq<char>, c: char, r: Seq<char>)
    requires
        forall|j: int| 0 <= j < a.len() ==> a[j] != c,
    ensures
        find_ch(a + seq![c] + r, c) == Some(a.len() as int),
        (a + seq![c] + r).take(a.len() as int) == a,
        (a + seq![c] + r).skip(a.len() as int + 1) == r,
{
    let m = a + seq![c] + r;
    assert(m[a.len() as int] == c);
    assert forall|j: int| 0 <= j < a.len() implies m[j] != c by {
        assert(m[j] == a[j]);
    }
    lemma_find_ch_is(m, c, a.len() as int);
    assert(m.take(a.len() as int) =~= a);
    assert(m.skip(a.len() as int + 1) =~= r);
}

/// A separator absent from both parts is absent from their concatenation.
proof fn lemma_no_sep_concat(a: Seq<char>, b: Seq<char>, c: char)
    requires
        forall|j: int| 0 <= j < a.len() ==> a[j] != c,
        forall|j: int| 0 <= j < b.len() ==> b[j] != c,
    ensures
        find_ch(a + b, c) is None,
{
    assert forall|j: int| 0 <= j < (a + b).len() implies (a + b)[j] != c by {
        if j < a.len() {
            assert((a + b)[j] == a[j]);
        } else {
            assert((a + b)[j] == b[j - a.len()]);
        }
    }
    lemma_find_ch_none(a + b, c);
}

/// A canonical numeral parses back to its value.
proof fn lemma_numeral_parses(n: u16)
    ensures
        parse_u16_spec(num_chars(n as nat)) == Some(n),
        all_digits(num_chars(n as nat)),
        num_chars(n as nat).len() >= 1,
{
    lemma_num_chars_digits(n as nat);
    lemma_num_chars_val(n as nat);
}

/// The rest of a valid version's canonical form parses back to the version.
proof fn lemma_format_parse_rest(major: u16, minor: u16, v: VersionView)
    requires
        valid_version(v),
        v.version.major == major,
        v.version.minor == minor,
    ensures
        spec_parse_rest(major, minor, fmt_rest(v)) == Some(v),
{
    let cc = num_chars(v.version.patch as nat);
    lemma_numeral_parses(v.version.patch);
    lemma_digits_no_sep(cc);
    match v.pre {
        Some(p) => {
            let nn = num_chars(p.version as nat);
            lemma_numeral_parses(p.version);
            lemma_digits_no_sep(nn);
            let bp = match v.build {
                Some(b) => seq!['+'] + b,
                None => Seq::<char>::empty(),
            };
            let tail = nn + bp;
            let pre_s = p.stream + seq!['.'] + tail;
            let rest = cc + seq!['-'] + pre_s;
            assert(fmt_rest(v) =~= rest);
            lemma_split_at_sep(cc, '-', pre_s);
            assert forall|j: int| 0 <= j < p.stream.len() implies p.stream[j] != '.' by {
                if p.stream[j] == '.' {
                    assert(p.stream.contains('.'));
                }
            }
            lemma_split_at_sep(p.stream, '.', tail);
            match v.build {
                Some(b) => {
                    assert(tail =~= nn + seq!['+'] + b);
                    lemma_split_at_sep(nn, '+', b);
                    assert(split_build(tail) == (nn, Some(b)));
                },
                None => {
                    assert(tail =~= nn);
                    lemma_find_ch_none(tail, '+');
                    assert(split_build(tail) == (tail, None::<Seq<char>>));
                },
            }
            assert((PreVersionView { stream: pre_s.take(p.stream.len() as int), version: p.version })
                =~= p);
            assert((MainVersion { major, minor, patch: v.version.patch }) == v.version);
            assert(spec_parse_rest(major, minor, fmt_rest(v)) =~~= Some(v));
        },
        None => {
            let bp = match v.build {
                Some(b) => seq!['+'] + b,
                None => Seq::<char>::empty(),
            };
            let rest = cc + bp;
            assert(fmt_rest(v) =~= rest);
            match v.build {
                Some(b) => {
                    assert(rest =~= cc + seq!['+'] + b);
                    assert forall|j: int| 0 <= j < (seq!['+'] + b).len() implies (seq!['+'] + b)[j]
                        != '-' by {
                        if j > 0 {
                            assert((seq!['+'] + b)[j] == b[j - 1]);
                            if b[j - 1] == '-' {
                                assert(b.contains('-'));
                            }
                        }
                    }
                    lemma_no_sep_concat(cc, seq!['+'] + b, '-');
                    lemma_split_at_sep(cc, '+', b);
                    assert(split_build(rest) == (cc, Some(b)));
                },
                None => {
                    assert(rest =~= cc);
                    lemma_find_ch_none(rest, '-');
                    lemma_find_ch_none(rest, '+');
                    assert(split_build(rest) == (rest, None::<Seq<char>>));
                },
            }
            assert((MainVersion { major, minor, patch: v.version.patch }) == v.version);
            assert(spec_parse_rest(major, minor, fmt_rest(v)) =~~= Some(v));
        },
    }
}

/// A numeral block that parsed: the canonical numeral of its value is never
/// longer, and matches the block exactly only at equal length.
proof fn lemma_canonical_block(d: Seq<char>, x: u16)
    requires
        parse_u16_spec(d) == Some(x),
    ensures
        all_digits(d),
        d.len() >= 1,
        num_chars(x as nat).len() <= d.len(),
        num_chars(x as nat) == d <==> num_chars(x as nat).len() == d.len(),
{
    lemma_num_chars_min(d);
    assert(x as nat == seq_val(d));
}

/// What parsing the text after the second dot says of its canonical form:
/// the parsed version is valid, and printing it again gives a string never
/// longer than the text, equal to it exactly at equal length.
proof fn lemma_parse_rest_canonical(major: u16, minor: u16, rest: Seq<char>, v: VersionView)
    requires
        spec_parse_rest(major, minor, rest) == Some(v),
    ensures
        valid_version(v),
        v.version.major == major,
        v.version.minor == minor,
        fmt_rest(v).len() <= rest.len(),
        fmt_rest(v) == rest <==> fmt_rest(v).len() == rest.len(),
{
    match find_ch(rest, '-') {
        Some(k) => {
            lemma_find_ch(rest, '-');
            let c0 = rest.take(k);
            let pre_s = rest.skip(k + 1);
            assert(rest =~= c0 + seq![rest[k]] + pre_s);
            match (parse_u16_spec(c0), find_ch(pre_s, '.')) {
                (Some(patch), Some(l)) => {
                    lemma_find_ch(pre_s, '.');
                    let st = pre_s.take(l);
                    let tail = pre_s.skip(l + 1);
                    assert(pre_s =~= st + seq![pre_s[l]] + tail);
                    let sb = split_build(tail);
                    match parse_u16_spec(sb.0) {
                        Some(number) => {
                            assert(v.version.patch == patch);
                            assert(v.pre == Some(PreVersionView { stream: st, version: number }));
                            assert(v.build == sb.1);
                            lemma_canonical_block(c0, patch);
                            lemma_canonical_block(sb.0, number);
                            assert(!st.contains('.')) by {
                                if st.contains('.') {
                                    let w = choose|w: int| 0 <= w < st.len() && st[w] == '.';
                                    assert(pre_s[w] == '.');
                                }
                            }
                            let cc = num_chars(patch as nat);
                            let nn = num_chars(number as nat);
                            match find_ch(tail, '+') {
                                Some(m) => {
                                    lemma_find_ch(tail, '+');
                                    let n0 = tail.take(m);
                                    let b = tail.skip(m + 1);
                                    assert(tail =~= n0 + seq![tail[m]] + b);
                                    assert(sb == (n0, Some(b)));
                                    assert(fmt_rest(v) =~= cc + seq!['-'] + st + seq!['.'] + nn
                                        + seq!['+'] + b);
                                    assert(rest =~= c0 + seq!['-'] + st + seq!['.'] + n0
                                        + seq!['+'] + b);
                                    if fmt_rest(v).len() == rest.len() {
                                        assert(cc.len() == c0.len() && nn.len() == n0.len());
                                        assert(cc == c0 && nn == n0);
                                        assert(fmt_rest(v) =~= rest);
                                    }
                                },
                                None => {
                                    assert(sb == (tail, None::<Seq<char>>));
                                    assert(fmt_rest(v) =~= cc + seq!['-'] + st + seq!['.'] + nn);
                                    assert(rest =~= c0 + seq!['-'] + st + seq!['.'] + tail);
                                    if fmt_rest(v).len() == rest.len() {
                                        assert(cc.len() == c0.len() && nn.len() == tail.len());
                                        assert(cc == c0 && nn == tail);
                                        assert(fmt_rest(v) =~= rest);
                                    }
                                },
                            }
                        },
                        None => {
                            assert(false);
                        },
                    }
                },
                _ => {
                    assert(false);
                },
            }
        },
        None => {
            lemma_find_ch(rest, '-');
            let sb = split_build(rest);
            match parse_u16_spec(sb.0) {
                Some(patch) => {
                    assert(v.version.patch == patch);
                    assert(v.pre is None);
                    assert(v.build == sb.1);
                    lemma_canonical_block(sb.0, patch);
                    let cc = num_chars(patch as nat);
                    match find_ch(rest, '+') {
                        Some(m) => {
                            lemma_find_ch(rest, '+');
                            let c0 = rest.take(m);
                            let b = rest.skip(m + 1);
                            assert(rest =~= c0 + seq![rest[m]] + b);
                            assert(sb == (c0, Some(b)));
                            assert(!b.contains('-')) by {
                                if b.contains('-') {
                                    let w = choose|w: int| 0 <= w < b.len() && b[w] == '-';
                                    assert(rest[m + 1 + w] == '-');
                                }
                            }
                            assert(fmt_rest(v) =~= cc + seq!['+'] + b);
                            if fmt_rest(v).len() == rest.len() {
                                assert(cc.len() == c0.len());
                                assert(cc == c0);
                                assert(fmt_rest(v) =~= rest);
                            }
                        },
                        None => {
                            assert(sb == (rest, None::<Seq<char>>));
                            assert(fmt_rest(v) =~= cc);
                            if fmt_rest(v).len() == rest.len() {
                                assert(cc == rest);
                                assert(fmt_rest(v) =~= rest);
                            }
                        },
                    }
                },
                None => {
                    assert(false);
                },
            }
        },
    }
}

/// Round-trip, the other direction: the value of any accepted string
/// formats to a canonical string that is never longer than the input, is
/// the input itself exactly when no numeral of the input carries leading
/// zeros (equal length), and parses back to the same value.
pub proof fn lemma_parse_then_format(s: Seq<char>, v: VersionView)
    requires
        spec_parse(s) == Some(v),
    ensures
        valid_version(v),
        spec_parse(fmt_version(v)) == Some(v),
        fmt_version(v).len() <= s.len(),
        fmt_version(v) == s <==> fmt_version(v).len() == s.len(),
{
    match find_ch(s, '.') {
        Some(i) => {
            lemma_find_ch(s, '.');
            let a0 = s.take(i);
            let r1 = s.skip(i + 1);
            assert(s =~= a0 + seq![s[i]] + r1);
            match find_ch(r1, '.') {
                Some(j) => {
                    lemma_find_ch(r1, '.');
                    let b0 = r1.take(j);
                    let rest = r1.skip(j + 1);
                    assert(r1 =~= b0 + seq![r1[j]] + rest);
                    match (parse_u16_spec(a0), parse_u16_spec(b0)) {
                        (Some(major), Some(minor)) => {
                            lemma_canonical_block(a0, major);
                            lemma_canonical_block(b0, minor);
                            lemma_parse_rest_canonical(major, minor, rest, v);
                            lemma_fmt_split(v);
                            let aa = num_chars(major as nat);
                            let bb = num_chars(minor as nat);
                            assert(fmt_version(v).len() == aa.len() + 1 + bb.len() + 1 + fmt_rest(
                                v,
                            ).len());
                            assert(s.len() == a0.len() + 1 + b0.len() + 1 + rest.len());
                            if fmt_version(v).len() == s.len() {
                                assert(aa.len() == a0.len() && bb.len() == b0.len() && fmt_rest(
                                    v,
                                ).len() == rest.len());
                                assert(aa == a0 && bb == b0 && fmt_rest(v) == rest);
                                assert(fmt_version(v) =~= s);
                            }
                            lemma_format_then_parse(v);
                        },
                        _ => {
                            assert(false);
                        },
                    }
                },
                None => {
                    assert(false);
                },
            }
        },
        None => {
            assert(false);
        },
    }
}

/// Round-trip, one direction: the canonical form of a valid version parses
/// back to the very same version.
pub proof fn lemma_format_then_parse(v: VersionView)
    requires
        valid_version(v),
    ensures
        spec_parse(fmt_version(v)) == Some(v),
{
    let aa = num_chars(v.version.major as nat);
    let bb = num_chars(v.version.minor as nat);
    lemma_numeral_parses(v.version.major);
    lemma_numeral_parses(v.version.minor);
    lemma_digits_no_sep(aa);
    lemma_digits_no_sep(bb);
    lemma_fmt_split(v);
    let r1 = bb + seq!['.'] + fmt_rest(v);
    assert(fmt_version(v) =~= aa + seq!['.'] + r1);
    lemma_split_at_sep(aa, '.', r1);
    lemma_split_at_sep(bb, '.', fmt_rest(v));
    lemma_format_parse_rest(v.version.major, v.version.minor, v);
}

} // verus!
