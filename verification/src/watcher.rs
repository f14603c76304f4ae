//! Normalization of raw filesystem events.
//!
//! The platform watcher reports events in platform-specific shapes; the core
//! consumes only two logical events. A content change on a `.dot` path means
//! the snapshot appeared (or changed); a removal means it vanished; a rename
//! decomposes into the two; everything else, and every path without the
//! `.dot` suffix, is ignored.

use crate::paths::is_dot_name;
use vstd::prelude::*;

verus! {

/// The raw event kinds the platform can report, after its event shapes are
/// told apart and before path filtering.
#[derive(Clone, Copy, PartialEq, Eq, Debug)]
pub enum RawKind {
    /// A file's content was written or changed.
    ContentModified,
    /// A file or directory was removed.
    Removed,
    /// An atomic rename; the first path is the old name, the second the new.
    Renamed,
    /// Anything else: metadata, access, creation without content, ...
    Other,
}

/// A logical event consumed by the broker.
pub enum CoreEvent {
    /// A `.dot` file now exists and its content has been observed to change.
    Appeared { path: String },
    /// A `.dot` file no longer exists.
    Vanished { path: String },
}

/// The mathematical value of a logical event.
pub enum CoreEventV {
    Appeared { path: Seq<char> },
    Vanished { path: Seq<char> },
}

impl View for CoreEvent {
    type V = CoreEventV;

    open spec fn view(&self) -> CoreEventV {
        match self {
            CoreEvent::Appeared { path } => CoreEventV::Appeared { path: path@ },
            CoreEvent::Vanished { path } => CoreEventV::Vanished { path: path@ },
        }
    }
}

/// The values of a list of logical events.
pub open spec fn events_view(s: Seq<CoreEvent>) -> Seq<CoreEventV> {
    s.map_values(|e: CoreEvent| e@)
}

/// The texts of a list of path strings.
pub open spec fn strs_view(s: Seq<String>) -> Seq<Seq<char>> {
    s.map_values(|x: String| x@)
}

/// One `Appeared` for every `.dot` path, in order.
pub open spec fn appeared_all(paths: Seq<Seq<char>>) -> Seq<CoreEventV>
    decreases paths.len(),
{
    if paths.len() == 0 {
        Seq::empty()
    } else {
        let rest = appeared_all(paths.drop_last());
        if is_dot_name(paths.last()) {
            rest.push(CoreEventV::Appeared { path: paths.last() })
        } else {
            rest
        }
    }
}

/// One `Vanished` for every `.dot` path, in order.
pub open spec fn vanished_all(paths: Seq<Seq<char>>) -> Seq<CoreEventV>
    decreases paths.len(),
{
    if paths.len() == 0 {
        Seq::empty()
    } else {
        let rest = vanished_all(paths.drop_last());
        if is_dot_name(paths.last()) {
            rest.push(CoreEventV::Vanished { path: paths.last() })
        } else {
            rest
        }
    }
}

/// What a raw event turns into: content changes become `Appeared`, removals
/// become `Vanished`, a rename becomes `Vanished(old)` then `Appeared(new)`,
/// and everything else is dropped, as is every path without the `.dot`
/// suffix.
pub open spec fn normalize_spec(kind: RawKind, paths: Seq<Seq<char>>) -> Seq<CoreEventV> {
    match kind {
        RawKind::ContentModified => appeared_all(paths),
        RawKind::Removed => vanished_all(paths),
        RawKind::Renamed => if paths.len() >= 2 {
            (if is_dot_name(paths[0]) {
                seq![CoreEventV::Vanished { path: paths[0] }]
            } else {
                Seq::empty()
            }) + (if is_dot_name(paths[1]) {
                seq![CoreEventV::Appeared { path: paths[1] }]
            } else {
                Seq::empty()
            })
        } else {
            Seq::empty()
        },
        RawKind::Other => Seq::empty(),
    }
}

fn push_appeared(out: &mut Vec<CoreEvent>, paths: &Vec<String>)
    ensures
        events_view(final(out)@) == events_view(old(out)@) + appeared_all(strs_view(paths@)),
{
    let ghost base = events_view(out@);
    let n = paths.len();
    let mut i: usize = 0;
    while i < n
        invariant
            n == paths@.len(),
            0 <= i <= n,
            events_view(out@) == base + appeared_all(strs_view(paths@).take(i as int)),
        decreases n - i,
    {
        proof {
            assert(strs_view(paths@).take(i + 1 as int).drop_last() =~= strs_view(paths@).take(
                i as int,
            ));
            assert(strs_view(paths@).take(i + 1 as int).last() == paths@[i as int]@);
        }
        if crate::paths::has_dot_suffix(paths[i].as_str()) {
            let ghost before = out@;
            let p = paths[i].clone();
            out.push(CoreEvent::Appeared { path: p });
            proof {
                assert(events_view(out@) =~= events_view(before).push(
                    CoreEventV::Appeared { path: paths@[i as int]@ },
                ));
                assert(events_view(out@) =~= base + appeared_all(strs_view(paths@).take(
                    i + 1 as int,
                )));
            }
        } else {
            proof {
                assert(events_view(out@) =~= base + appeared_all(strs_view(paths@).take(
                    i + 1 as int,
                )));
            }
        }
        i += 1;
    }
    proof {
        assert(strs_view(paths@).take(n as int) =~= strs_view(paths@));
    }
}

fn push_vanished(out: &mut Vec<CoreEvent>, paths: &Vec<String>)
    ensures
        events_view(final(out)@) == events_view(old(out)@) + vanished_all(strs_view(paths@)),
{
    let ghost base = events_view(out@);
    let n = paths.len();
    let mut i: usize = 0;
    while i < n
        invariant
            n == paths@.len(),
            0 <= i <= n,
            events_view(out@) == base + vanished_all(strs_view(paths@).take(i as int)),
        decreases n - i,
    {
        proof {
            assert(strs_view(paths@).take(i + 1 as int).drop_last() =~= strs_view(paths@).take(
                i as int,
            ));
            assert(strs_view(paths@).take(i + 1 as int).last() == paths@[i as int]@);
        }
        if crate::paths::has_dot_suffix(paths[i].as_str()) {
            let ghost before = out@;
            let p = paths[i].clone();
            out.push(CoreEvent::Vanished { path: p });
            proof {
                assert(events_view(out@) =~= events_view(before).push(
                    CoreEventV::Vanished { path: paths@[i as int]@ },
                ));
                assert(events_view(out@) =~= base + vanished_all(strs_view(paths@).take(
                    i + 1 as int,
                )));
            }
        } else {
            proof {
                assert(events_view(out@) =~= base + vanished_all(strs_view(paths@).take(
                    i + 1 as int,
                )));
            }
        }
        i += 1;
    }
    proof {
        assert(strs_view(paths@).take(n as int) =~= strs_view(paths@));
    }
}

/// Turns one raw platform event into the logical events the broker consumes.
pub fn normalize_event(kind: RawKind, paths: &Vec<String>) -> (r: Vec<CoreEvent>)
    ensures
        events_view(r@) == normalize_spec(kind, strs_view(paths@)),
{
    let mut out: Vec<CoreEvent> = Vec::new();
    proof {
        assert(events_view(out@) =~= Seq::<CoreEventV>::empty());
    }
    match kind {
        RawKind::ContentModified => {
            push_appeared(&mut out, paths);
        },
        RawKind::Removed => {
            push_vanished(&mut out, paths);
        },
        RawKind::Renamed => {
            if paths.len() >= 2 {
                if crate::paths::has_dot_suffix(paths[0].as_str()) {
                    out.push(CoreEvent::Vanished { path: paths[0].clone() });
                }
                if crate::paths::has_dot_suffix(paths[1].as_str()) {
                    out.push(CoreEvent::Appeared { path: paths[1].clone() });
                }
                proof {
                    assert(strs_view(paths@)[0] == paths@[0]@);
                    assert(strs_view(paths@)[1] == paths@[1]@);
                    assert(events_view(out@) =~= normalize_spec(kind, strs_view(paths@)));
                }
            }
        },
        RawKind::Other => {},
    }
    out
}

/// Paths without the `.dot` suffix are fully ignored: a raw event none of
/// whose paths is a `.dot` path produces no logical event at all.
pub proof fn lemma_non_dot_ignored(kind: RawKind, paths: Seq<Seq<char>>)
    requires
        forall|i: int| 0 <= i < paths.len() ==> !is_dot_name(paths[i]),
    ensures
        normalize_spec(kind, paths) == Seq::<CoreEventV>::empty(),
{
    lemma_appeared_all_empty(paths);
    lemma_vanished_all_empty(paths);
    match kind {
        RawKind::Renamed => {
            if paths.len() >= 2 {
                assert(normalize_spec(kind, paths) =~= Seq::<CoreEventV>::empty());
            }
        },
        _ => {},
    }
}

proof fn lemma_appeared_all_empty(paths: Seq<Seq<char>>)
    requires
        forall|i: int| 0 <= i < paths.len() ==> !is_dot_name(paths[i]),
    ensures
        appeared_all(paths) == Seq::<CoreEventV>::empty(),
    decreases paths.len(),
{
    if paths.len() > 0 {
        assert(forall|i: int|
            0 <= i < paths.drop_last().len() ==> paths.drop_last()[i] == paths[i]);
        lemma_appeared_all_empty(paths.drop_last());
    }
}

proof fn lemma_vanished_all_empty(paths: Seq<Seq<char>>)
    requires
        forall|i: int| 0 <= i < paths.len() ==> !is_dot_name(paths[i]),
    ensures
        vanished_all(paths) == Seq::<CoreEventV>::empty(),
    decreases paths.len(),
{
    if paths.len() > 0 {
        assert(forall|i: int|
            0 <= i < paths.drop_last().len() ==> paths.drop_last()[i] == paths[i]);
        lemma_vanished_all_empty(paths.drop_last());
    }
}

} // verus!
