//! The latest-version tracker: retains the latest stable release and the
//! latest pre-release per surviving stream, and answers which package
//! identifiers are currently relevant.

use crate::ids::{CrateId, CrateIdView};
use crate::version::{
    clone_opt_string, view_opt_string, MainVersion, PreVersion, PreVersionView, Version,
    VersionView,
};
use vstd::prelude::*;

verus! {

/// The mathematical state of a [`LatestVersions`] tracker.
#[verifier::ext_equal]
pub ghost struct TrackerView {
    /// The highest stable main version seen, with its build metadata.
    pub stable: Option<(MainVersion, Option<Seq<char>>)>,
    /// The main version shared by every tracked pre-release.
    pub pre: Option<MainVersion>,
    /// The latest pre-release seen per stream, in order of first
    /// establishment, each with its build metadata.
    pub streams: Seq<(PreVersionView, Option<Seq<char>>)>,
}

/// The state with nothing recorded.
pub open spec fn empty_tracker() -> TrackerView {
    TrackerView { stable: None, pre: None, streams: Seq::empty() }
}

/// Internal consistency: a pre-release group exists only while it is
/// strictly ahead of the stable version, holds one entry per stream, and is
/// empty when no group main version is set.
pub open spec fn wf(t: TrackerView) -> bool {
    &&& (t.pre is None ==> t.streams.len() == 0)
    &&& (forall|i: int, j: int|
        0 <= i < j < t.streams.len() ==> t.streams[i].0.stream != t.streams[j].0.stream)
    &&& (match (t.stable, t.pre) {
        (Some((sv, _)), Some(pm)) => sv.spec_lt(pm),
        _ => true,
    })
}

/// Index of the entry for a stream name, if one is present.
pub open spec fn find_stream(
    entries: Seq<(PreVersionView, Option<Seq<char>>)>,
    stream: Seq<char>,
) -> Option<int>
    decreases entries.len(),
{
    if entries.len() == 0 {
        None
    } else if entries[0].0.stream == stream {
        Some(0)
    } else {
        match find_stream(entries.skip(1), stream) {
            Some(i) => Some(i + 1),
            None => None,
        }
    }
}

/// `find_stream` names the first entry of the stream, and `None` means the
/// stream has no entry.
pub proof fn lemma_find_stream(entries: Seq<(PreVersionView, Option<Seq<char>>)>, stream: Seq<char>)
    ensures
        match find_stream(entries, stream) {
            Some(i) => 0 <= i < entries.len() && entries[i].0.stream == stream && forall|j: int|
                0 <= j < i ==> entries[j].0.stream != stream,
            None => forall|j: int| 0 <= j < entries.len() ==> entries[j].0.stream != stream,
        },
    decreases entries.len(),
{
    if entries.len() == 0 {
    } else if entries[0].0.stream == stream {
    } else {
        let t = entries.skip(1);
        lemma_find_stream(t, stream);
        match find_stream(t, stream) {
            Some(i) => {
                assert(entries[i + 1] == t[i]);
                assert forall|j: int| 0 <= j < i + 1 implies entries[j].0.stream != stream by {
                    if j >= 1 {
                        assert(entries[j] == t[j - 1]);
                    }
                }
            },
            None => {
                assert forall|j: int| 0 <= j < entries.len() implies entries[j].0.stream
                    != stream by {
                    if j >= 1 {
                        assert(entries[j] == t[j - 1]);
                    }
                }
            },
        }
    }
}

/// An entry position with no earlier entry of the same stream is what
/// `find_stream` returns.
pub proof fn lemma_find_stream_is(
    entries: Seq<(PreVersionView, Option<Seq<char>>)>,
    stream: Seq<char>,
    i: int,
)
    requires
        0 <= i < entries.len(),
        entries[i].0.stream == stream,
        forall|j: int| 0 <= j < i ==> entries[j].0.stream != stream,
    ensures
        find_stream(entries, stream) == Some(i),
{
    lemma_find_stream(entries, stream);
    match find_stream(entries, stream) {
        Some(k) => {
            if k < i {
                assert(entries[k].0.stream != stream);
            }
            if k > i {
                assert(entries[i].0.stream != stream);
            }
        },
        None => {
            assert(entries[i].0.stream != stream);
        },
    }
}

/// A stream absent from every entry is not found.
pub proof fn lemma_find_stream_none(
    entries: Seq<(PreVersionView, Option<Seq<char>>)>,
    stream: Seq<char>,
)
    requires
        forall|j: int| 0 <= j < entries.len() ==> entries[j].0.stream != stream,
    ensures
        find_stream(entries, stream) is None,
{
    lemma_find_stream(entries, stream);
    match find_stream(entries, stream) {
        Some(k) => {
            assert(entries[k].0.stream != stream);
        },
        None => {},
    }
}

/// One step of the tracker.
///
/// A push is a no-op when a stable version at least as high is already
/// recorded; in particular a stable push equal to the recorded stable main
/// version does not replace its build metadata. A pre-release starts a new
/// group when its main version is ahead of the group, joins the group when
/// equal (replacing its stream's entry only for a strictly higher number),
/// and is dropped when behind. A stable push replaces the stable version and
/// discards the group unless the group is still strictly ahead.
pub open spec fn spec_push(t: TrackerView, v: VersionView) -> TrackerView {
    if (match t.stable {
        Some((sv, _)) => v.version.spec_le(sv),
        None => false,
    }) {
        t
    } else {
        match v.pre {
            Some(p) => {
                let newer = match t.pre {
                    Some(pm) => pm.spec_lt(v.version),
                    None => true,
                };
                let same = match t.pre {
                    Some(pm) => pm == v.version,
                    None => false,
                };
                if newer {
                    TrackerView {
                        stable: t.stable,
                        pre: Some(v.version),
                        streams: seq![(p, v.build)],
                    }
                } else if same {
                    match find_stream(t.streams, p.stream) {
                        Some(i) => {
                            if t.streams[i].0.version < p.version {
                                TrackerView {
                                    stable: t.stable,
                                    pre: t.pre,
                                    streams: t.streams.update(i, (p, v.build)),
                                }
                            } else {
                                t
                            }
                        },
                        None => TrackerView {
                            stable: t.stable,
                            pre: t.pre,
                            streams: t.streams.push((p, v.build)),
                        },
                    }
                } else {
                    t
                }
            },
            None => {
                let clear = match t.pre {
                    Some(pm) => pm.spec_le(v.version),
                    None => false,
                };
                TrackerView {
                    stable: Some((v.version, v.build)),
                    pre: if clear {
                        None
                    } else {
                        t.pre
                    },
                    streams: if clear {
                        Seq::empty()
                    } else {
                        t.streams
                    },
                }
            },
        }
    }
}

/// The identifier of one pre-release entry.
pub open spec fn stream_id(
    name: Seq<char>,
    pm: MainVersion,
    e: (PreVersionView, Option<Seq<char>>),
) -> CrateIdView {
    CrateIdView {
        name,
        version: VersionView { version: pm, pre: Some(e.0), build: e.1 },
    }
}

/// The identifiers of a group's entries, in establishment order.
pub open spec fn stream_ids(
    name: Seq<char>,
    pm: MainVersion,
    entries: Seq<(PreVersionView, Option<Seq<char>>)>,
) -> Seq<CrateIdView> {
    entries.map_values(|e: (PreVersionView, Option<Seq<char>>)| stream_id(name, pm, e))
}

/// The identifiers a tracker currently stands for: the stable version if
/// any, then one per surviving pre-release stream in the order the streams
/// were first established.
pub open spec fn spec_ids(t: TrackerView, name: Seq<char>) -> Seq<CrateIdView> {
    (match t.stable {
        Some((m, b)) => seq![
            CrateIdView { name, version: VersionView { version: m, pre: None, build: b } },
        ],
        None => Seq::<CrateIdView>::empty(),
    }) + (match t.pre {
        Some(pm) => stream_ids(name, pm, t.streams),
        None => Seq::<CrateIdView>::empty(),
    })
}

/// The views of a sequence of identifiers.
pub open spec fn ids_view(r: Seq<CrateId>) -> Seq<CrateIdView> {
    r.map_values(|c: CrateId| c@)
}

/// The view of one tracked pre-release entry.
pub open spec fn entry_view(e: (PreVersion, Option<String>)) -> (PreVersionView, Option<Seq<char>>) {
    (e.0@, view_opt_string(e.1))
}

/// Retains, for one package, the latest stable version and the latest
/// pre-release version per stream that is still ahead of it.
pub struct LatestVersions {
    stable: Option<(MainVersion, Option<String>)>,
    pre: Option<MainVersion>,
    pre_by_stream: Vec<(PreVersion, Option<String>)>,
}

impl View for LatestVersions {
    type V = TrackerView;

    closed spec fn view(&self) -> TrackerView {
        TrackerView {
            stable: match self.stable {
                Some((m, b)) => Some((m, view_opt_string(b))),
                None => None,
            },
            pre: self.pre,
            streams: self.pre_by_stream@.map_values(
                |e: (PreVersion, Option<String>)| entry_view(e),
            ),
        }
    }
}

impl LatestVersions {
    #[verifier::type_invariant]
    spec fn inv(self) -> bool {
        wf(self@)
    }

    /// Replaces the tracked versions with the given version where it is
    /// newer; otherwise the push is a no-op.
    pub fn push(&mut self, arg: Version)
        ensures
            final(self)@ == spec_push(old(self)@, arg@),
    {
        proof {
            use_type_invariant(&*self);
        }
        let ghost t0 = self@;
        let ghost va = arg@;
        let dominated = match &self.stable {
            Some(sb) => arg.main().le(&sb.0),
            None => false,
        };
        if dominated {
            return;
        }
        let (av, apre, abuild) = arg.into_parts();
        let ghost bv = view_opt_string(abuild);
        match apre {
            Some(p) => {
                let ghost pv = p@;
                let newer = match &self.pre {
                    Some(pm) => pm.lt(&av),
                    None => true,
                };
                if newer {
                    self.pre = Some(av);
                    let mut entries: Vec<(PreVersion, Option<String>)> = Vec::new();
                    core::mem::swap(&mut entries, &mut self.pre_by_stream);
                    entries.clear();
                    entries.push((p, abuild));
                    core::mem::swap(&mut entries, &mut self.pre_by_stream);
                    proof {
                        assert(self@.streams =~= seq![(pv, bv)]);
                        assert(self@ =~= spec_push(t0, va));
                    }
                } else {
                    let same = match &self.pre {
                        Some(pm) => *pm == av,
                        None => false,
                    };
                    if same {
                        let n = self.pre_by_stream.len();
                        let mut idx: usize = 0;
                        let mut found: Option<usize> = None;
                        while idx < n
                            invariant
                                idx <= n,
                                n == self.pre_by_stream@.len(),
                                self@.streams.len() == n,
                                pv.stream == p.stream@,
                                match found {
                                    Some(fi) => fi < idx && self@.streams[fi as int].0.stream
                                        == pv.stream && forall|t: int|
                                        0 <= t < fi ==> self@.streams[t].0.stream != pv.stream,
                                    None => forall|t: int|
                                        0 <= t < idx ==> self@.streams[t].0.stream != pv.stream,
                                },
                            decreases n - idx,
                        {
                            match found {
                                Some(_) => {},
                                None => {
                                    let e = &self.pre_by_stream[idx];
                                    let hit = e.0.stream == p.stream;
                                    proof {
                                        assert(self@.streams[idx as int] == entry_view(
                                            self.pre_by_stream@[idx as int],
                                        ));
                                        assert(hit == (self@.streams[idx as int].0.stream
                                            == pv.stream));
                                    }
                                    if hit {
                                        found = Some(idx);
                                    }
                                },
                            }
                            idx = idx + 1;
                        }
                        match found {
                            Some(fi) => {
                                proof {
                                    lemma_find_stream_is(self@.streams, pv.stream, fi as int);
                                    assert(self@.streams[fi as int] == entry_view(
                                        self.pre_by_stream@[fi as int],
                                    ));
                                }
                                let replace = self.pre_by_stream[fi].0.version < p.version;
                                if replace {
                                    let mut entries: Vec<(PreVersion, Option<String>)> =
                                        Vec::new();
                                    core::mem::swap(&mut entries, &mut self.pre_by_stream);
                                    entries[fi] = (p, abuild);
                                    proof {
                                        let ns = entries@.map_values(
                                            |e: (PreVersion, Option<String>)| entry_view(e),
                                        );
                                        assert(ns =~= t0.streams.update(fi as int, (pv, bv)));
                                        assert forall|i: int, j: int|
                                            0 <= i < j < ns.len() implies ns[i].0.stream
                                            != ns[j].0.stream by {
                                            assert(t0.streams[i].0.stream
                                                != t0.streams[j].0.stream);
                                        }
                                    }
                                    core::mem::swap(&mut entries, &mut self.pre_by_stream);
                                    proof {
                                        assert(self@.streams =~= t0.streams.update(
                                            fi as int,
                                            (pv, bv),
                                        ));
                                        assert(self@ =~= spec_push(t0, va));
                                    }
                                }
                            },
                            None => {
                                proof {
                                    lemma_find_stream_none(self@.streams, pv.stream);
                                }
                                let mut entries: Vec<(PreVersion, Option<String>)> = Vec::new();
                                core::mem::swap(&mut entries, &mut self.pre_by_stream);
                                entries.push((p, abuild));
                                proof {
                                    let ns = entries@.map_values(
                                        |e: (PreVersion, Option<String>)| entry_view(e),
                                    );
                                    assert(ns =~= t0.streams.push((pv, bv)));
                                    assert forall|i: int, j: int|
                                        0 <= i < j < ns.len() implies ns[i].0.stream
                                        != ns[j].0.stream by {
                                        if j == ns.len() - 1 {
                                            assert(t0.streams[i].0.stream != pv.stream);
                                        } else {
                                            assert(t0.streams[i].0.stream
                                                != t0.streams[j].0.stream);
                                        }
                                    }
                                }
                                core::mem::swap(&mut entries, &mut self.pre_by_stream);
                                proof {
                                    assert(self@.streams =~= t0.streams.push((pv, bv)));
                                    assert(self@ =~= spec_push(t0, va));
                                }
                            },
                        }
                    }
                }
            },
            None => {
                let clear = match &self.pre {
                    Some(pm) => pm.le(&av),
                    None => false,
                };
                if clear {
                    let mut entries: Vec<(PreVersion, Option<String>)> = Vec::new();
                    core::mem::swap(&mut entries, &mut self.pre_by_stream);
                    entries.clear();
                    core::mem::swap(&mut entries, &mut self.pre_by_stream);
                    self.pre = None;
                    self.stable = Some((av, abuild));
                    proof {
                        assert(self@.streams =~= Seq::<(PreVersionView, Option<Seq<char>>)>::empty());
                        assert(self@ =~= spec_push(t0, va));
                    }
                } else {
                    self.stable = Some((av, abuild));
                    proof {
                        assert(self@ =~= spec_push(t0, va));
                    }
                }
            },
        }
    }

    /// The identifiers currently tracked for `name`: the stable version if
    /// any, then the pre-release of each surviving stream in the order the
    /// streams were first established.
    pub fn iter_ids(&self, name: &str) -> (r: Vec<CrateId>)
        ensures
            ids_view(r@) == spec_ids(self@, name@),
    {
        let mut out: Vec<CrateId> = Vec::new();
        let ghost head = match self@.stable {
            Some((m, b)) => seq![
                CrateIdView { name: name@, version: VersionView { version: m, pre: None, build: b } },
            ],
            None => Seq::<CrateIdView>::empty(),
        };
        match &self.stable {
            Some(sb) => {
                out.push(
                    CrateId {
                        name: name.to_owned(),
                        version: Version::new(sb.0, None, clone_opt_string(&sb.1)),
                    },
                );
            },
            None => {},
        }
        proof {
            assert(ids_view(out@) =~= head);
        }
        match &self.pre {
            Some(pm0) => {
                let pm = *pm0;
                let n = self.pre_by_stream.len();
                let mut i: usize = 0;
                while i < n
                    invariant
                        i <= n,
                        n == self.pre_by_stream@.len(),
                        self@.streams.len() == n,
                        ids_view(out@) =~= head + stream_ids(
                            name@,
                            pm,
                            self@.streams.take(i as int),
                        ),
                    decreases n - i,
                {
                    let e = &self.pre_by_stream[i];
                    let cid = CrateId {
                        name: name.to_owned(),
                        version: Version::new(pm, Some(e.0.to_owned()), clone_opt_string(&e.1)),
                    };
                    let ghost cv = cid@;
                    let ghost out0 = out@;
                    out.push(cid);
                    proof {
                        let ev = self@.streams[i as int];
                        assert(ev == entry_view(self.pre_by_stream@[i as int]));
                        assert(cv =~~= stream_id(name@, pm, ev));
                        assert(self@.streams.take(i as int + 1) =~= self@.streams.take(
                            i as int,
                        ).push(ev));
                        assert(ids_view(out@) =~= ids_view(out0).push(cv));
                        assert(stream_ids(name@, pm, self@.streams.take(i as int + 1)) =~=
                            stream_ids(name@, pm, self@.streams.take(i as int)).push(
                            stream_id(name@, pm, ev),
                        ));
                        assert(ids_view(out@) =~= head + stream_ids(
                            name@,
                            pm,
                            self@.streams.take(i as int + 1),
                        ));
                    }
                    i = i + 1;
                }
                proof {
                    assert(self@.streams.take(n as int) =~= self@.streams);
                    assert(ids_view(out@) =~= spec_ids(self@, name@));
                }
            },
            None => {
                proof {
                    assert(ids_view(out@) =~= spec_ids(self@, name@));
                }
            },
        }
        out
    }
}

impl Default for LatestVersions {
    /// The state with nothing recorded.
    fn default() -> (r: Self)
        ensures
            r@ == empty_tracker(),
    {
        let r = LatestVersions { stable: None, pre: None, pre_by_stream: Vec::new() };
        proof {
            assert(r@ =~= empty_tracker());
        }
        r
    }
}

} // verus!
