//! Series: the entries recorded under one key, oldest first, each a pair of
//! the stamp it was recorded at and its value. A stamp is a cycle index or
//! an instant.
//!
//! Two series of one key are merged by their tails alone: the receiver takes
//! from the incoming series the entries at its end that are newer than
//! everything the receiver holds, and nothing else.

use vstd::prelude::*;
use crate::data::Record;
use crate::time::Time;

verus! {

/// What orders the entries of a series.
pub trait Stamp: Copy {
    /// The place of the stamp on the number line.
    spec fn rank(self) -> int;

    /// Tells whether `self` comes strictly before `other`.
    fn precedes(&self, other: &Self) -> (r: bool)
        ensures
            r == (self.rank() < other.rank()),
    ;
}

impl Stamp for u64 {
    open spec fn rank(self) -> int {
        self as int
    }

    fn precedes(&self, other: &u64) -> (r: bool) {
        *self < *other
    }
}

impl Stamp for Time {
    open spec fn rank(self) -> int {
        self.nanos as int
    }

    fn precedes(&self, other: &Time) -> (r: bool) {
        self.nanos < other.nanos
    }
}

/// The entries of a stored series, each value taken by what it stands for.
pub open spec fn series_view<K, V: DeepView>(s: Seq<(K, V)>) -> Seq<(K, V::V)> {
    Seq::new(s.len(), |i: int| (s[i].0, s[i].1.deep_view()))
}

/// Whether the stamps of a series strictly increase.
pub open spec fn increasing<K: Stamp, W>(s: Seq<(K, W)>) -> bool {
    forall|i: int, j: int| 0 <= i < j < s.len() ==> s[i].0.rank() < s[j].0.rank()
}

/// Where the entries newer than `bound` begin at the end of `d`: the start of
/// the longest run of entries that reaches the end of `d` and holds only
/// stamps above `bound`. It is `d.len()` where the last entry is not newer.
pub open spec fn newer_start<K: Stamp, W>(d: Seq<(K, W)>, bound: int) -> int
    decreases d.len(),
{
    if d.len() == 0 {
        0
    } else if d.last().0.rank() <= bound {
        d.len() as int
    } else {
        newer_start(d.drop_last(), bound)
    }
}

/// The receiver `r` after it has taken in `d`.
///
/// An empty `d` changes nothing. An empty receiver adopts `d` whole. Where
/// the tail of `d` is newer than the tail of `r`, the receiver gains the
/// entries at the end of `d` that are newer than its own tail. In every
/// other case nothing changes.
pub open spec fn merge_series<K: Stamp, W>(r: Seq<(K, W)>, d: Seq<(K, W)>) -> Seq<(K, W)> {
    if d.len() == 0 {
        r
    } else if r.len() == 0 {
        d
    } else if r.last().0.rank() < d.last().0.rank() {
        r + d.subrange(newer_start(d, r.last().0.rank()), d.len() as int)
    } else {
        r
    }
}

/// Whether `stamp` is newer than everything the series holds at its tail:
/// the series is empty, or its last stamp comes before.
pub open spec fn newer<K: Stamp, W>(s: Seq<(K, W)>, stamp: K) -> bool {
    s.len() == 0 || s.last().0.rank() < stamp.rank()
}

/// The series with `entry` behind it where the entry is newer than its
/// tail, and the series as it is where the entry is not.
pub open spec fn append_newer<K: Stamp, W>(s: Seq<(K, W)>, entry: (K, W)) -> Seq<(K, W)> {
    if newer(s, entry.0) {
        s.push(entry)
    } else {
        s
    }
}

/// Whether merging `d` into `r` adds entries to `r`.
pub open spec fn extends<K: Stamp, W>(r: Seq<(K, W)>, d: Seq<(K, W)>) -> bool {
    d.len() > 0 && (r.len() == 0 || r.last().0.rank() < d.last().0.rank())
}

/// `newer_start` is the one position from which on every stamp is above the
/// bound, and before which stands an entry that is not.
pub proof fn lemma_newer_start<K: Stamp, W>(d: Seq<(K, W)>, bound: int)
    ensures
        0 <= newer_start(d, bound) <= d.len(),
        forall|j: int| newer_start(d, bound) <= j < d.len() ==> d[j].0.rank() > bound,
        newer_start(d, bound) > 0 ==> d[newer_start(d, bound) - 1].0.rank() <= bound,
    decreases d.len(),
{
    if d.len() > 0 && d.last().0.rank() > bound {
        let front = d.drop_last();
        lemma_newer_start(front, bound);
        let start = newer_start(front, bound);
        assert forall|j: int| start <= j < d.len() implies d[j].0.rank() > bound by {
            if j < front.len() {
                assert(d[j] == front[j]);
            }
        }
        if start > 0 {
            assert(d[start - 1] == front[start - 1]);
        }
    }
}

/// A position with the two properties of `newer_start` is `newer_start`.
pub proof fn lemma_newer_start_unique<K: Stamp, W>(d: Seq<(K, W)>, bound: int, p: int)
    requires
        0 <= p <= d.len(),
        forall|j: int| p <= j < d.len() ==> d[j].0.rank() > bound,
        p > 0 ==> d[p - 1].0.rank() <= bound,
    ensures
        newer_start(d, bound) == p,
{
    lemma_newer_start(d, bound);
}

/// What a merge leaves at the tail: the newer of the two tails.
proof fn lemma_merge_tail<K: Stamp, W>(r: Seq<(K, W)>, d: Seq<(K, W)>)
    ensures
        extends(r, d) ==> merge_series(r, d).len() > 0 && merge_series(r, d).last() == d.last(),
        !extends(r, d) ==> merge_series(r, d) == r,
{
    if extends(r, d) && r.len() > 0 {
        lemma_newer_start(d, r.last().0.rank());
    }
}

/// A merge neither loses nor reorders what the receiver holds: the receiver
/// stands at the front of the merged series, and what follows it stands at
/// the end of the incoming series, in the same order.
pub proof fn lemma_merge_series_keeps<K: Stamp, W>(r: Seq<(K, W)>, d: Seq<(K, W)>)
    ensures
        r.is_prefix_of(merge_series(r, d)),
        exists|from: int|
            0 <= from <= d.len() && merge_series(r, d) == r + d.subrange(from, d.len() as int),
{
    if d.len() == 0 {
        assert(r + d.subrange(0, 0) =~= r);
    } else if r.len() == 0 {
        assert(r + d.subrange(0, d.len() as int) =~= d);
    } else if r.last().0.rank() < d.last().0.rank() {
        lemma_newer_start(d, r.last().0.rank());
        let from = newer_start(d, r.last().0.rank());
        assert(merge_series(r, d) == r + d.subrange(from, d.len() as int));
    } else {
        assert(r + d.subrange(d.len() as int, d.len() as int) =~= r);
    }
}

/// Taking in the same series a second time changes nothing.
pub proof fn lemma_merge_series_idempotent<K: Stamp, W>(r: Seq<(K, W)>, d: Seq<(K, W)>)
    ensures
        merge_series(merge_series(r, d), d) == merge_series(r, d),
{
    lemma_merge_tail(r, d);
}

/// Two series of which at most one extends the receiver can be taken in
/// either order.
pub proof fn lemma_merge_series_commutes<K: Stamp, W>(
    s: Seq<(K, W)>,
    a: Seq<(K, W)>,
    b: Seq<(K, W)>,
)
    requires
        !extends(s, a) || !extends(s, b),
    ensures
        merge_series(merge_series(s, a), b) == merge_series(merge_series(s, b), a),
{
    lemma_merge_tail(s, a);
    lemma_merge_tail(s, b);
    if !extends(s, a) {
        lemma_merge_tail(merge_series(s, b), a);
    } else {
        lemma_merge_tail(merge_series(s, a), b);
    }
}

/// A merge of two series with strictly increasing stamps has strictly
/// increasing stamps.
pub proof fn lemma_merge_series_increasing<K: Stamp, W>(r: Seq<(K, W)>, d: Seq<(K, W)>)
    requires
        increasing(r),
        increasing(d),
    ensures
        increasing(merge_series(r, d)),
{
    if extends(r, d) && r.len() > 0 {
        let bound = r.last().0.rank();
        lemma_newer_start(d, bound);
        let start = newer_start(d, bound);
        let m = merge_series(r, d);
        assert forall|i: int, j: int| 0 <= i < j < m.len() implies m[i].0.rank()
            < m[j].0.rank() by {
            if j < r.len() {
            } else if i < r.len() {
                assert(m[j] == d[start + (j - r.len())]);
                assert(r[i].0.rank() <= bound);
            } else {
                assert(m[i] == d[start + (i - r.len())]);
                assert(m[j] == d[start + (j - r.len())]);
            }
        }
    }
}

/// Appending what is newer keeps the stamps strictly increasing.
pub proof fn lemma_append_newer_increasing<K: Stamp, W>(s: Seq<(K, W)>, entry: (K, W))
    requires
        increasing(s),
    ensures
        increasing(append_newer(s, entry)),
{
    if newer(s, entry.0) {
        let t = s.push(entry);
        assert forall|i: int, j: int| 0 <= i < j < t.len() implies t[i].0.rank() < t[j].0.rank() by {
            if j == s.len() {
                assert(t[i] == s[i]);
                if i < s.len() - 1 {
                    assert(s[i].0.rank() < s[s.len() - 1].0.rank());
                }
            } else {
                assert(t[i] == s[i] && t[j] == s[j]);
            }
        }
    }
}

/// Puts `entry` behind the series if it is newer than the tail of the
/// series, and leaves the series as it is if not.
pub fn push_newer<K: Stamp, V: DeepView>(series: &mut Vec<(K, V)>, entry: (K, V))
    ensures
        series_view(final(series)@) == append_newer(
            series_view(old(series)@),
            (entry.0, entry.1.deep_view()),
        ),
        increasing(series_view(old(series)@)) ==> increasing(series_view(final(series)@)),
{
    let ghost before = series_view(series@);
    let ghost view = (entry.0, entry.1.deep_view());
    proof {
        if increasing(before) {
            lemma_append_newer_increasing(before, view);
        }
    }
    if series.len() > 0 {
        assert(before.last().0 == series@.last().0);
        if !series[series.len() - 1].0.precedes(&entry.0) {
            return ;
        }
    }
    series.push(entry);
    assert(series_view(series@) =~= before.push(view));
}

/// A pair of the same stamp with a copy of the value.
fn duplicate_entry<K: Stamp, V: Record>(entry: &(K, V)) -> (r: (K, V))
    ensures
        r.0 == entry.0,
        r.1.deep_view() == entry.1.deep_view(),
{
    (entry.0, entry.1.duplicate())
}

/// Appends copies of the entries of `theirs` from position `from` on.
fn extend_from<K: Stamp, V: Record>(mine: &mut Vec<(K, V)>, theirs: &Vec<(K, V)>, from: usize)
    requires
        from <= theirs.len(),
    ensures
        series_view(final(mine)@) == series_view(old(mine)@) + series_view(theirs@).subrange(
            from as int,
            theirs.len() as int,
        ),
{
    let ghost before = series_view(mine@);
    let mut i: usize = from;
    while i < theirs.len()
        invariant
            from <= i <= theirs.len(),
            series_view(mine@) == before + series_view(theirs@).subrange(from as int, i as int),
        decreases theirs.len() - i,
    {
        let ghost prior = mine@;
        let entry = duplicate_entry(&theirs[i]);
        mine.push(entry);
        assert(series_view(mine@) =~= series_view(prior).push((entry.0, entry.1.deep_view())));
        assert(series_view(mine@) =~= before + series_view(theirs@).subrange(
            from as int,
            i + 1,
        ));
        i += 1;
    }
}

/// A copy of a series.
pub fn duplicate_series<K: Stamp, V: Record>(series: &Vec<(K, V)>) -> (r: Vec<(K, V)>)
    ensures
        series_view(r@) == series_view(series@),
{
    let mut r: Vec<(K, V)> = Vec::new();
    extend_from(&mut r, series, 0);
    assert(series_view(r@) =~= series_view(series@));
    r
}

/// Takes `theirs` into `mine`.
pub fn merge_into<K: Stamp, V: Record>(mine: &mut Vec<(K, V)>, theirs: &Vec<(K, V)>)
    ensures
        series_view(final(mine)@) == merge_series(series_view(old(mine)@), series_view(theirs@)),
        increasing(series_view(old(mine)@)) && increasing(series_view(theirs@)) ==> increasing(
            series_view(final(mine)@),
        ),
{
    let ghost r = series_view(mine@);
    let ghost d = series_view(theirs@);
    proof {
        if increasing(r) && increasing(d) {
            lemma_merge_series_increasing(r, d);
        }
    }
    if theirs.len() == 0 {
        return ;
    }
    if mine.len() == 0 {
        extend_from(mine, theirs, 0);
        assert(series_view(mine@) =~= d);
        return ;
    }
    let tail: K = mine[mine.len() - 1].0;
    assert(r.last().0 == tail);
    assert(d.last().0 == theirs[theirs.len() - 1].0);
    if !tail.precedes(&theirs[theirs.len() - 1].0) {
        return ;
    }
    let mut start: usize = theirs.len();
    while start > 0 && tail.precedes(&theirs[start - 1].0)
        invariant
            0 <= start <= theirs.len(),
            d == series_view(theirs@),
            forall|j: int| start <= j < d.len() ==> d[j].0.rank() > tail.rank(),
        decreases start,
    {
        start -= 1;
    }
    proof {
        lemma_newer_start_unique(d, tail.rank(), start as int);
    }
    extend_from(mine, theirs, start);
}

} // verus!
