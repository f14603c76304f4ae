//! Snapshot values and the listing order.
//!
//! A snapshot is a value: the relative path of a `.dot` file, its textual
//! content, and its modification time in milliseconds. A directory listing is
//! sorted ascending by modification time, ties broken by the lexicographic
//! order of the relative path, so that a newly joined client replays the
//! snapshots in the order they were created.

use vstd::prelude::*;
use vstd::string::*;

verus! {

/// One observed `.dot` snapshot: a value, not an entity. Two reads of the
/// same path at different times give different snapshots.
pub struct DotSnapshot {
    /// Path relative to the watched root, `/`-separated.
    pub name: String,
    /// The file's text at the moment of the read.
    pub content: String,
    /// Modification time in whole milliseconds since the epoch; 0 if unknown.
    pub mtime_ms: u64,
}

/// The mathematical value of a snapshot.
pub struct SnapV {
    pub name: Seq<char>,
    pub content: Seq<char>,
    pub mtime_ms: u64,
}

impl View for DotSnapshot {
    type V = SnapV;

    open spec fn view(&self) -> SnapV {
        SnapV { name: self.name@, content: self.content@, mtime_ms: self.mtime_ms }
    }
}

/// The values of a listing.
pub open spec fn snaps_view(s: Seq<DotSnapshot>) -> Seq<SnapV> {
    s.map_values(|x: DotSnapshot| x@)
}

/// Lexicographic order on the characters of two names, starting at index `i`.
pub open spec fn lex_le_from(a: Seq<char>, b: Seq<char>, i: int) -> bool
    decreases a.len() - i,
    when 0 <= i
{
    if i >= a.len() {
        true
    } else if i >= b.len() {
        false
    } else if a[i] == b[i] {
        lex_le_from(a, b, i + 1)
    } else {
        (a[i] as u32) < (b[i] as u32)
    }
}

/// Lexicographic order on names.
pub open spec fn lex_le(a: Seq<char>, b: Seq<char>) -> bool {
    lex_le_from(a, b, 0)
}

/// The listing order: by modification time, ties by name.
pub open spec fn snap_le(a: SnapV, b: SnapV) -> bool {
    a.mtime_ms < b.mtime_ms || (a.mtime_ms == b.mtime_ms && lex_le(a.name, b.name))
}

fn str_le_from(a: &str, b: &str, i: usize) -> (r: bool)
    requires
        i <= a@.len(),
        i <= b@.len(),
    ensures
        r == lex_le_from(a@, b@, i as int),
    decreases a@.len() - i,
{
    if i >= a.unicode_len() {
        true
    } else if i >= b.unicode_len() {
        false
    } else {
        let ca = a.get_char(i);
        let cb = b.get_char(i);
        if ca == cb {
            str_le_from(a, b, i + 1)
        } else {
            (ca as u32) < (cb as u32)
        }
    }
}

/// The lexicographic order test on path strings.
pub fn str_le(a: &str, b: &str) -> (r: bool)
    ensures
        r == lex_le(a@, b@),
{
    str_le_from(a, b, 0)
}

/// The listing order test on snapshots.
pub fn snapshot_le(a: &DotSnapshot, b: &DotSnapshot) -> (r: bool)
    ensures
        r == snap_le(a@, b@),
{
    if a.mtime_ms < b.mtime_ms {
        true
    } else if a.mtime_ms == b.mtime_ms {
        str_le(a.name.as_str(), b.name.as_str())
    } else {
        false
    }
}

/// `x` placed into the sorted listing `s`, before the first entry it does not
/// follow.
pub open spec fn insert_sorted(x: SnapV, s: Seq<SnapV>) -> Seq<SnapV>
    decreases s.len(),
{
    if s.len() == 0 {
        seq![x]
    } else if snap_le(s[0], x) {
        seq![s[0]] + insert_sorted(x, s.skip(1))
    } else {
        seq![x] + s
    }
}

/// The listing sorted by `snap_le`: insertion sort, written as a function.
pub open spec fn sort_snaps(s: Seq<SnapV>) -> Seq<SnapV>
    decreases s.len(),
{
    if s.len() == 0 {
        Seq::empty()
    } else {
        insert_sorted(s[0], sort_snaps(s.skip(1)))
    }
}

/// The listing order is total: any two snapshots compare one way or the
/// other.
pub proof fn lemma_lex_le_from_total(a: Seq<char>, b: Seq<char>, i: int)
    requires
        0 <= i,
    ensures
        lex_le_from(a, b, i) || lex_le_from(b, a, i),
    decreases a.len() - i,
{
    if i < a.len() && i < b.len() {
        if a[i] == b[i] {
            lemma_lex_le_from_total(a, b, i + 1);
        } else {
            vstd::utf8::char_u32_cast(a[i], a[i] as u32);
            vstd::utf8::char_u32_cast(b[i], b[i] as u32);
            assert(a[i] as u32 != b[i] as u32);
        }
    }
}

/// Prefix-wise comparison is transitive at every index.
pub proof fn lemma_lex_le_from_trans(a: Seq<char>, b: Seq<char>, c: Seq<char>, i: int)
    requires
        0 <= i,
        lex_le_from(a, b, i),
        lex_le_from(b, c, i),
    ensures
        lex_le_from(a, c, i),
    decreases a.len() - i,
{
    if i < a.len() {
        if i < b.len() && a[i] == b[i] && i < c.len() && b[i] == c[i] {
            lemma_lex_le_from_trans(a, b, c, i + 1);
        }
    }
}

/// `snap_le` is a total order (up to ties).
pub proof fn lemma_snap_le_total(a: SnapV, b: SnapV)
    ensures
        snap_le(a, b) || snap_le(b, a),
{
    if a.mtime_ms == b.mtime_ms {
        lemma_lex_le_from_total(a.name, b.name, 0);
    }
}

/// `snap_le` is transitive.
pub proof fn lemma_snap_le_trans(a: SnapV, b: SnapV, c: SnapV)
    requires
        snap_le(a, b),
        snap_le(b, c),
    ensures
        snap_le(a, c),
{
    if a.mtime_ms == b.mtime_ms && b.mtime_ms == c.mtime_ms {
        lemma_lex_le_from_trans(a.name, b.name, c.name, 0);
    }
}

/// Ascending in the listing order.
pub open spec fn snap_sorted(s: Seq<SnapV>) -> bool {
    forall|i: int, j: int| 0 <= i < j < s.len() ==> snap_le(s[i], s[j])
}

/// Every entry of `insert_sorted(x, s)` is bounded below by any bound on `x`
/// and on every entry of `s`.
proof fn lemma_insert_sorted_bound(x: SnapV, s: Seq<SnapV>, lo: SnapV)
    requires
        snap_le(lo, x),
        forall|k: int| 0 <= k < s.len() ==> snap_le(lo, #[trigger] s[k]),
    ensures
        forall|k: int|
            0 <= k < insert_sorted(x, s).len() ==> snap_le(lo, #[trigger] insert_sorted(x, s)[k]),
    decreases s.len(),
{
    if s.len() == 0 {
    } else if snap_le(s[0], x) {
        assert(forall|k: int| 0 <= k < s.skip(1).len() ==> snap_le(lo, #[trigger] s.skip(1)[k]));
        lemma_insert_sorted_bound(x, s.skip(1), lo);
        let r = insert_sorted(x, s);
        let t = insert_sorted(x, s.skip(1));
        assert(forall|k: int| 0 <= k < t.len() ==> r[k + 1] == t[k]);
        assert forall|k: int| 0 <= k < r.len() implies snap_le(lo, #[trigger] r[k]) by {
            if k > 0 {
                assert(r[k] == t[k - 1]);
            }
        }
    }
}

/// Insertion keeps the listing order.
pub proof fn lemma_insert_sorted_le(x: SnapV, s: Seq<SnapV>)
    requires
        snap_sorted(s),
    ensures
        snap_sorted(insert_sorted(x, s)),
    decreases s.len(),
{
    if s.len() == 0 {
    } else if snap_le(s[0], x) {
        assert(forall|i: int, j: int|
            0 <= i < j < s.skip(1).len() ==> snap_le(
                #[trigger] s.skip(1)[i],
                #[trigger] s.skip(1)[j],
            ));
        lemma_insert_sorted_le(x, s.skip(1));
        let r = insert_sorted(x, s);
        let t = insert_sorted(x, s.skip(1));
        assert(forall|k: int| 0 <= k < t.len() ==> r[k + 1] == t[k]);
        assert(forall|k: int| 0 <= k < s.skip(1).len() ==> snap_le(s[0], #[trigger] s.skip(1)[k]));
        lemma_insert_sorted_bound(x, s.skip(1), s[0]);
        assert forall|i: int, j: int| 0 <= i < j < r.len() implies snap_le(r[i], r[j]) by {
            if i == 0 {
                assert(r[0] == s[0]);
                assert(r[j] == t[j - 1]);
            } else {
                assert(r[i] == t[i - 1]);
                assert(r[j] == t[j - 1]);
            }
        }
    } else {
        lemma_snap_le_total(x, s[0]);
        let r = insert_sorted(x, s);
        assert forall|i: int, j: int| 0 <= i < j < r.len() implies snap_le(r[i], r[j]) by {
            if i == 0 {
                if j > 1 {
                    lemma_snap_le_trans(x, s[0], s[j - 1]);
                }
            }
        }
    }
}

/// The sorted listing is ascending in the listing order: by modification
/// time, ties by name.
pub proof fn lemma_sort_snaps_le(s: Seq<SnapV>)
    ensures
        snap_sorted(sort_snaps(s)),
    decreases s.len(),
{
    if s.len() > 0 {
        lemma_sort_snaps_le(s.skip(1));
        lemma_insert_sorted_le(s[0], sort_snaps(s.skip(1)));
    }
}

/// Ascending modification times.
pub open spec fn mtime_sorted(s: Seq<SnapV>) -> bool {
    forall|i: int, j: int| 0 <= i < j < s.len() ==> s[i].mtime_ms <= s[j].mtime_ms
}

/// Insertion keeps the times ascending.
pub proof fn lemma_insert_sorted_mtime(x: SnapV, s: Seq<SnapV>)
    requires
        mtime_sorted(s),
    ensures
        mtime_sorted(insert_sorted(x, s)),
    decreases s.len(),
{
    if s.len() == 0 {
    } else if snap_le(s[0], x) {
        assert(forall|i: int, j: int|
            0 <= i < j < s.skip(1).len() ==> s.skip(1)[i].mtime_ms <= s.skip(1)[j].mtime_ms);
        lemma_insert_sorted_mtime(x, s.skip(1));
        let r = insert_sorted(x, s);
        let t = insert_sorted(x, s.skip(1));
        assert(forall|k: int| 0 <= k < t.len() ==> r[k + 1] == t[k]);
        assert forall|i: int, j: int| 0 <= i < j < r.len() implies r[i].mtime_ms
            <= r[j].mtime_ms by {
            if i == 0 {
                assert(r[0] == s[0]);
                lemma_insert_sorted_mtimes_bound(x, s.skip(1), s[0].mtime_ms);
            }
        }
    } else {
        assert(!(x.mtime_ms > s[0].mtime_ms));
    }
}

/// Every time in `insert_sorted(x, s)` is at least `lo` when `lo` bounds both
/// `x` and every entry of `s`.
pub proof fn lemma_insert_sorted_mtimes_bound(x: SnapV, s: Seq<SnapV>, lo: u64)
    requires
        lo <= x.mtime_ms,
        forall|k: int| 0 <= k < s.len() ==> lo <= s[k].mtime_ms,
    ensures
        forall|k: int|
            0 <= k < insert_sorted(x, s).len() ==> lo <= insert_sorted(x, s)[k].mtime_ms,
    decreases s.len(),
{
    if s.len() == 0 {
    } else if snap_le(s[0], x) {
        assert(forall|k: int| 0 <= k < s.skip(1).len() ==> lo <= s.skip(1)[k].mtime_ms);
        lemma_insert_sorted_mtimes_bound(x, s.skip(1), lo);
        let r = insert_sorted(x, s);
        let t = insert_sorted(x, s.skip(1));
        assert(forall|k: int| 0 <= k < t.len() ==> r[k + 1] == t[k]);
        assert forall|k: int| 0 <= k < r.len() implies lo <= r[k].mtime_ms by {
            if k > 0 {
                assert(r[k] == t[k - 1]);
            }
        }
    }
}

/// The sorted listing has ascending times.
pub proof fn lemma_sort_snaps_mtime(s: Seq<SnapV>)
    ensures
        mtime_sorted(sort_snaps(s)),
    decreases s.len(),
{
    if s.len() > 0 {
        lemma_sort_snaps_mtime(s.skip(1));
        lemma_insert_sorted_mtime(s[0], sort_snaps(s.skip(1)));
    }
}

/// Sorting neither loses nor invents entries.
pub proof fn lemma_insert_sorted_multiset(x: SnapV, s: Seq<SnapV>)
    ensures
        insert_sorted(x, s).to_multiset() == s.to_multiset().insert(x),
    decreases s.len(),
{
    broadcast use vstd::seq_lib::group_to_multiset_ensures;

    if s.len() == 0 {
        assert(seq![x] =~= Seq::empty().push(x));
        assert(Seq::<SnapV>::empty().push(x).to_multiset() =~= Seq::<
            SnapV,
        >::empty().to_multiset().insert(x));
    } else if snap_le(s[0], x) {
        lemma_insert_sorted_multiset(x, s.skip(1));
        let t = insert_sorted(x, s.skip(1));
        assert(seq![s[0]] + t =~= t.insert(0, s[0]));
        vstd::seq_lib::lemma_multiset_commutative(seq![s[0]], t);
        assert((seq![s[0]] + t).to_multiset() =~= t.to_multiset().insert(s[0]));
        assert(s =~= seq![s[0]] + s.skip(1));
        vstd::seq_lib::lemma_multiset_commutative(seq![s[0]], s.skip(1));
        assert(s.to_multiset() =~= s.skip(1).to_multiset().insert(s[0]));
    } else {
        assert(seq![x] + s =~= s.insert(0, x));
        vstd::seq_lib::lemma_multiset_commutative(seq![x], s);
        assert((seq![x] + s).to_multiset() =~= s.to_multiset().insert(x));
    }
}

/// The sorted listing is a permutation of the input.
pub proof fn lemma_sort_snaps_multiset(s: Seq<SnapV>)
    ensures
        sort_snaps(s).to_multiset() == s.to_multiset(),
    decreases s.len(),
{
    broadcast use vstd::seq_lib::group_to_multiset_ensures;

    if s.len() > 0 {
        lemma_sort_snaps_multiset(s.skip(1));
        lemma_insert_sorted_multiset(s[0], sort_snaps(s.skip(1)));
        assert(s =~= seq![s[0]] + s.skip(1));
        vstd::seq_lib::lemma_multiset_commutative(seq![s[0]], s.skip(1));
        assert(s.to_multiset() =~= s.skip(1).to_multiset().insert(s[0]));
    }
}

/// Every entry of the input is in the sorted listing.
pub proof fn lemma_sort_snaps_contains(s: Seq<SnapV>, x: SnapV)
    ensures
        sort_snaps(s).contains(x) <==> s.contains(x),
{
    broadcast use vstd::seq_lib::group_to_multiset_ensures;

    lemma_sort_snaps_multiset(s);
    assert(sort_snaps(s).to_multiset().count(x) == s.to_multiset().count(x));
    assert(sort_snaps(s).contains(x) <==> sort_snaps(s).to_multiset().count(x) > 0);
    assert(s.contains(x) <==> s.to_multiset().count(x) > 0);
}

fn insert_snapshot(x: DotSnapshot, s: Vec<DotSnapshot>) -> (r: Vec<DotSnapshot>)
    ensures
        snaps_view(r@) == insert_sorted(x@, snaps_view(s@)),
    decreases s@.len(),
{
    let mut s = s;
    if s.len() == 0 {
        let ghost orig = s@;
        s.push(x);
        proof {
            assert(snaps_view(orig).len() == 0);
            assert(snaps_view(s@) =~= seq![x@]);
        }
        s
    } else if snapshot_le(&s[0], &x) {
        let ghost orig = s@;
        let first = s.remove(0);
        proof {
            assert(snaps_view(s@) =~= snaps_view(orig).skip(1));
        }
        let mut rest = insert_snapshot(x, s);
        let ghost mid = rest@;
        rest.insert(0, first);
        proof {
            assert(snaps_view(rest@) =~= seq![snaps_view(orig)[0]] + snaps_view(mid));
        }
        rest
    } else {
        let ghost orig = s@;
        s.insert(0, x);
        proof {
            assert(snaps_view(s@) =~= seq![x@] + snaps_view(orig));
        }
        s
    }
}

/// Sorts a listing ascending by modification time, ties by name, as the join
/// replay and the store's enumeration require.
pub fn sort_snapshots(s: Vec<DotSnapshot>) -> (r: Vec<DotSnapshot>)
    ensures
        snaps_view(r@) == sort_snaps(snaps_view(s@)),
    decreases s@.len(),
{
    let mut s = s;
    if s.len() == 0 {
        proof {
            assert(snaps_view(s@) =~= Seq::<SnapV>::empty());
        }
        s
    } else {
        let ghost orig = s@;
        let x = s.remove(0);
        proof {
            assert(snaps_view(s@) =~= snaps_view(orig).skip(1));
        }
        let rest = sort_snapshots(s);
        insert_snapshot(x, rest)
    }
}

/// Milliseconds since the epoch computed from a whole-second count and a
/// nanosecond remainder, saturating at the largest representable value.
pub open spec fn millis_of(secs: u64, nanos: u32) -> u64 {
    if secs * 1000 + nanos / 1_000_000 <= u64::MAX {
        (secs * 1000 + nanos / 1_000_000) as u64
    } else {
        u64::MAX
    }
}

/// Modification times cross the boundary from the platform as a whole-second
/// count plus a nanosecond remainder; the wire format wants milliseconds.
pub fn millis_from_parts(secs: u64, nanos: u32) -> (r: u64)
    ensures
        r == millis_of(secs, nanos),
{
    let ms_from_nanos: u64 = (nanos / 1_000_000) as u64;
    if secs <= (u64::MAX - ms_from_nanos) / 1000 {
        secs * 1000 + ms_from_nanos
    } else {
        u64::MAX
    }
}

} // verus!
