//! The client registry: an insertion-ordered set of live connection handles.
//!
//! Handles are opaque integers chosen by the transport layer. The registry
//! never holds the same handle twice, keeps insertion order for deterministic
//! fan-out, and hands out point-in-time copies so that no lock is held across
//! a send.

use vstd::prelude::*;

verus! {

/// The sequence `s` with every occurrence of `h` removed, order kept.
pub open spec fn remove_handle(s: Seq<u64>, h: u64) -> Seq<u64>
    decreases s.len(),
{
    if s.len() == 0 {
        Seq::empty()
    } else if s.last() == h {
        remove_handle(s.drop_last(), h)
    } else {
        remove_handle(s.drop_last(), h).push(s.last())
    }
}

/// `s` unchanged if it already holds `h`, else `s` with `h` appended.
pub open spec fn add_handle(s: Seq<u64>, h: u64) -> Seq<u64> {
    if s.contains(h) {
        s
    } else {
        s.push(h)
    }
}

/// No handle occurs twice.
pub open spec fn no_dups(s: Seq<u64>) -> bool {
    forall|i: int, j: int| 0 <= i < j < s.len() ==> s[i] != s[j]
}

/// What `remove_handle` keeps: exactly the other handles, still without
/// duplicates.
pub proof fn lemma_remove_handle(s: Seq<u64>, h: u64)
    ensures
        forall|x: u64| remove_handle(s, h).contains(x) <==> s.contains(x) && x != h,
        no_dups(s) ==> no_dups(remove_handle(s, h)),
        !remove_handle(s, h).contains(h),
    decreases s.len(),
{
    if s.len() == 0 {
        assert(forall|x: u64| !s.contains(x));
    } else {
        let d = s.drop_last();
        let r = remove_handle(d, h);
        lemma_remove_handle(d, h);
        assert(forall|x: u64| s.contains(x) <==> d.contains(x) || x == s.last()) by {
            assert forall|x: u64| s.contains(x) implies d.contains(x) || x == s.last() by {
                let i = choose|i: int| 0 <= i < s.len() && s[i] == x;
                if i < d.len() {
                    assert(d[i] == x);
                }
            }
            assert forall|x: u64| d.contains(x) || x == s.last() implies s.contains(x) by {
                if d.contains(x) {
                    let i = choose|i: int| 0 <= i < d.len() && d[i] == x;
                    assert(s[i] == x);
                } else {
                    assert(s[s.len() - 1] == x);
                }
            }
        }
        if s.last() == h {
            assert(no_dups(s) ==> no_dups(d));
        } else {
            let r2 = r.push(s.last());
            assert(forall|x: u64| r2.contains(x) <==> r.contains(x) || x == s.last()) by {
                assert forall|x: u64| r2.contains(x) implies r.contains(x) || x == s.last() by {
                    let i = choose|i: int| 0 <= i < r2.len() && r2[i] == x;
                    if i < r.len() {
                        assert(r[i] == x);
                    }
                }
                assert forall|x: u64| r.contains(x) || x == s.last() implies r2.contains(x) by {
                    if r.contains(x) {
                        let i = choose|i: int| 0 <= i < r.len() && r[i] == x;
                        assert(r2[i] == x);
                    } else {
                        assert(r2[r2.len() - 1] == x);
                    }
                }
            }
            if no_dups(s) {
                assert forall|i: int, j: int| 0 <= i < j < r2.len() implies r2[i] != r2[j] by {
                    if j == r2.len() - 1 {
                        assert(r2[i] == r[i]);
                        assert(r.contains(r[i]));
                        assert(!d.contains(s.last()));
                    }
                }
            }
        }
    }
}

/// Appending an absent handle keeps the set duplicate-free.
pub proof fn lemma_add_handle(s: Seq<u64>, h: u64)
    ensures
        no_dups(s) ==> no_dups(add_handle(s, h)),
        forall|x: u64| add_handle(s, h).contains(x) <==> s.contains(x) || x == h,
{
    let r = add_handle(s, h);
    if s.contains(h) {
        assert(forall|x: u64| r.contains(x) <==> s.contains(x) || x == h);
    } else {
        assert(forall|x: u64| r.contains(x) <==> s.contains(x) || x == h) by {
            assert forall|x: u64| r.contains(x) implies s.contains(x) || x == h by {
                let i = choose|i: int| 0 <= i < r.len() && r[i] == x;
                if i < s.len() {
                    assert(s[i] == x);
                }
            }
            assert forall|x: u64| s.contains(x) || x == h implies r.contains(x) by {
                if s.contains(x) {
                    let i = choose|i: int| 0 <= i < s.len() && s[i] == x;
                    assert(r[i] == x);
                } else {
                    assert(r[r.len() - 1] == x);
                }
            }
        }
        if no_dups(s) {
            assert forall|i: int, j: int| 0 <= i < j < r.len() implies r[i] != r[j] by {
                if j == r.len() - 1 {
                    assert(s.contains(s[i]));
                }
            }
        }
    }
}

/// Insertion-ordered set of live client handles.
pub struct ClientSet {
    handles: Vec<u64>,
}

impl View for ClientSet {
    type V = Seq<u64>;

    closed spec fn view(&self) -> Seq<u64> {
        self.handles@
    }
}

impl ClientSet {
    /// No handle is registered twice.
    pub open spec fn wf(&self) -> bool {
        no_dups(self@)
    }

    pub fn new() -> (r: ClientSet)
        ensures
            r@ == Seq::<u64>::empty(),
            r.wf(),
    {
        ClientSet { handles: Vec::new() }
    }

    /// Whether `h` is currently registered.
    pub fn has_client(&self, h: u64) -> (r: bool)
        ensures
            r == self@.contains(h),
    {
        let n = self.handles.len();
        let mut i: usize = 0;
        while i < n
            invariant
                n == self@.len(),
                0 <= i <= n,
                forall|k: int| 0 <= k < i ==> self@[k] != h,
            decreases n - i,
        {
            if self.handles[i] == h {
                return true;
            }
            i += 1;
        }
        false
    }

    /// Appends `h` unless it is already present; insertion order is kept.
    pub fn register(&mut self, h: u64)
        ensures
            final(self)@ == add_handle(old(self)@, h),
            old(self).wf() ==> final(self).wf(),
    {
        proof {
            lemma_add_handle(old(self)@, h);
        }
        if !self.has_client(h) {
            self.handles.push(h);
        }
    }

    /// Removes every occurrence of `h` (there is at most one), order kept.
    pub fn unregister(&mut self, h: u64)
        ensures
            final(self)@ == remove_handle(old(self)@, h),
            old(self).wf() ==> final(self).wf(),
            !final(self)@.contains(h),
    {
        proof {
            lemma_remove_handle(old(self)@, h);
        }
        let n = self.handles.len();
        let mut kept: Vec<u64> = Vec::new();
        let mut i: usize = 0;
        while i < n
            invariant
                n == self@.len(),
                0 <= i <= n,
                kept@ == remove_handle(self@.take(i as int), h),
            decreases n - i,
        {
            proof {
                assert(self@.take(i + 1 as int).drop_last() =~= self@.take(i as int));
                assert(self@.take(i + 1 as int).last() == self@[i as int]);
            }
            if self.handles[i] != h {
                kept.push(self.handles[i]);
            }
            i += 1;
        }
        proof {
            assert(self@.take(n as int) =~= self@);
        }
        self.handles = kept;
    }

    /// A point-in-time copy of the registered handles, in insertion order,
    /// so that fan-out can iterate without holding the registry.
    pub fn snapshot(&self) -> (r: Vec<u64>)
        ensures
            r@ == self@,
    {
        let n = self.handles.len();
        let mut out: Vec<u64> = Vec::new();
        let mut i: usize = 0;
        while i < n
            invariant
                n == self@.len(),
                0 <= i <= n,
                out@ == self@.take(i as int),
            decreases n - i,
        {
            proof {
                assert(self@.take(i + 1 as int) =~= self@.take(i as int).push(self@[i as int]));
            }
            out.push(self.handles[i]);
            i += 1;
        }
        proof {
            assert(self@.take(n as int) =~= self@);
        }
        out
    }

    pub fn client_count(&self) -> (r: usize)
        ensures
            r == self@.len(),
    {
        self.handles.len()
    }
}

} // verus!
