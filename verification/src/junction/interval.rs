//! An interval index over a fixed, start-ordered set of closed intervals whose
//! members are switched on and off during a sweep.
//!
//! The index is an implicit balanced search tree over the ordered slots: the
//! root of the slot range `[lo, hi)` is its middle slot, and each root records
//! the greatest end among the active slots of its range. A query visits only
//! subtrees that can still hold an overlapping active interval.

use vstd::prelude::*;

use crate::sorting::{sort_by_key, SortKey};

verus! {

/// A position on one band: the owning root and layer, then a coordinate.
///
/// Keys are ordered lexicographically, so closed intervals of different bands
/// never overlap.
#[derive(Debug, Clone, Copy, PartialEq, Eq, Structural)]
pub struct BandKey {
    /// Owning root.
    pub root: u64,
    /// Owning presentation layer.
    pub layer: u64,
    /// Coordinate along the band.
    pub at: i64,
}

/// Lexicographic order of band keys.
pub open spec fn band_le(a: BandKey, b: BandKey) -> bool {
    ||| a.root < b.root
    ||| a.root == b.root && a.layer < b.layer
    ||| a.root == b.root && a.layer == b.layer && a.at <= b.at
}

fn band_le_exec(a: BandKey, b: BandKey) -> (r: bool)
    ensures
        r == band_le(a, b),
{
    a.root < b.root || (a.root == b.root && (a.layer < b.layer || (a.layer == b.layer && a.at
        <= b.at)))
}

/// One interval of the index and the member it stands for.
#[derive(Debug, Clone, Copy, PartialEq, Eq, Structural)]
pub struct IntervalSlot {
    /// Closed start.
    pub start: BandKey,
    /// Closed end.
    pub end: BandKey,
    /// Member index.
    pub member: usize,
}

impl SortKey for IntervalSlot {
    open spec fn sort_le(self, other: Self) -> bool {
        band_le(self.start, other.start)
    }

    proof fn lemma_sort_order(a: Self, b: Self, c: Self) {
    }

    fn sort_le_exec(&self, other: &Self) -> (r: bool) {
        band_le_exec(self.start, other.start)
    }
}

/// The greater of two optional keys; `None` is below every key.
pub open spec fn best_of(a: Option<BandKey>, b: Option<BandKey>) -> Option<BandKey> {
    match (a, b) {
        (None, _) => b,
        (_, None) => a,
        (Some(p), Some(q)) => if band_le(p, q) {
            Some(q)
        } else {
            Some(p)
        },
    }
}

fn best_of_exec(a: Option<BandKey>, b: Option<BandKey>) -> (r: Option<BandKey>)
    ensures
        r == best_of(a, b),
{
    match (a, b) {
        (None, _) => b,
        (_, None) => a,
        (Some(p), Some(q)) => if band_le_exec(p, q) {
            Some(q)
        } else {
            Some(p)
        },
    }
}

/// Root slot of the range `[lo, hi)`.
pub open spec fn mid(lo: int, hi: int) -> int {
    lo + (hi - lo) / 2
}

/// The end of one slot while it is active.
pub open spec fn slot_best(active: Seq<bool>, ends: Seq<BandKey>, p: int) -> Option<BandKey> {
    if active[p] {
        Some(ends[p])
    } else {
        None
    }
}

/// The greatest end among the active slots of `[lo, hi)`.
pub open spec fn range_best(active: Seq<bool>, ends: Seq<BandKey>, lo: int, hi: int) -> Option<
    BandKey,
>
    decreases hi - lo,
{
    if lo >= hi {
        None
    } else {
        best_of(
            best_of(range_best(active, ends, lo, mid(lo, hi)), slot_best(active, ends, mid(lo, hi))),
            range_best(active, ends, mid(lo, hi) + 1, hi),
        )
    }
}

/// Every root of the implicit tree over `[lo, hi)` records its range's best end.
pub open spec fn tree_ok(
    best: Seq<Option<BandKey>>,
    active: Seq<bool>,
    ends: Seq<BandKey>,
    lo: int,
    hi: int,
) -> bool
    decreases hi - lo,
{
    if lo >= hi {
        true
    } else {
        &&& best[mid(lo, hi)] == range_best(active, ends, lo, hi)
        &&& tree_ok(best, active, ends, lo, mid(lo, hi))
        &&& tree_ok(best, active, ends, mid(lo, hi) + 1, hi)
    }
}

/// Whether slot `p` is an active interval overlapping the closed query `[qs, qe]`.
pub open spec fn slot_matches(
    starts: Seq<BandKey>,
    ends: Seq<BandKey>,
    active: Seq<bool>,
    p: int,
    qs: BandKey,
    qe: BandKey,
) -> bool {
    active[p] && band_le(starts[p], qe) && band_le(qs, ends[p])
}

/// Members of the matching slots of `[lo, hi)`, in tree order.
pub open spec fn range_matches(
    starts: Seq<BandKey>,
    ends: Seq<BandKey>,
    active: Seq<bool>,
    members: Seq<usize>,
    lo: int,
    hi: int,
    qs: BandKey,
    qe: BandKey,
) -> Seq<usize>
    decreases hi - lo,
{
    if lo >= hi {
        Seq::empty()
    } else {
        let m = mid(lo, hi);
        range_matches(starts, ends, active, members, lo, m, qs, qe) + (if slot_matches(
            starts,
            ends,
            active,
            m,
            qs,
            qe,
        ) {
            seq![members[m]]
        } else {
            Seq::empty()
        }) + range_matches(starts, ends, active, members, m + 1, hi, qs, qe)
    }
}

proof fn lemma_best_of(a: Option<BandKey>, b: Option<BandKey>)
    ensures
        a matches Some(x) ==> best_of(a, b) matches Some(y) && band_le(x, y),
        b matches Some(x) ==> best_of(a, b) matches Some(y) && band_le(x, y),
        best_of(a, b) is None ==> a is None && b is None,
        best_of(a, b) matches Some(y) ==> (a == Some(y) || b == Some(y)),
{
}

proof fn lemma_band_le_order(a: BandKey, b: BandKey, c: BandKey)
    ensures
        band_le(a, a),
        band_le(a, b) && band_le(b, c) ==> band_le(a, c),
        band_le(a, b) || band_le(b, a),
        band_le(a, b) && band_le(b, a) ==> a == b,
{
}

/// Every active slot's end is bounded by its range's best end.
proof fn lemma_range_best_bound(active: Seq<bool>, ends: Seq<BandKey>, lo: int, hi: int, p: int)
    requires
        lo <= p < hi,
        active[p],
    ensures
        range_best(active, ends, lo, hi) matches Some(v) && band_le(ends[p], v),
    decreases hi - lo,
{
    let m = mid(lo, hi);
    let l = range_best(active, ends, lo, m);
    let s = slot_best(active, ends, m);
    let r = range_best(active, ends, m + 1, hi);
    lemma_best_of(l, s);
    lemma_best_of(best_of(l, s), r);
    if p < m {
        lemma_range_best_bound(active, ends, lo, m, p);
        let v1 = l->0;
        let v2 = best_of(l, s)->0;
        let v3 = best_of(best_of(l, s), r)->0;
        lemma_band_le_order(ends[p], v1, v2);
        lemma_band_le_order(ends[p], v2, v3);
    } else if p > m {
        lemma_range_best_bound(active, ends, m + 1, hi, p);
    } else {
        let v2 = best_of(l, s)->0;
        let v3 = best_of(best_of(l, s), r)->0;
        lemma_band_le_order(ends[p], v2, v3);
    }
}

/// A range with no matching slot reports nothing.
proof fn lemma_no_matches(
    starts: Seq<BandKey>,
    ends: Seq<BandKey>,
    active: Seq<bool>,
    members: Seq<usize>,
    lo: int,
    hi: int,
    qs: BandKey,
    qe: BandKey,
)
    requires
        forall|p: int| lo <= p < hi ==> !slot_matches(starts, ends, active, p, qs, qe),
    ensures
        range_matches(starts, ends, active, members, lo, hi, qs, qe) =~= Seq::<usize>::empty(),
    decreases hi - lo,
{
    if lo < hi {
        let m = mid(lo, hi);
        lemma_no_matches(starts, ends, active, members, lo, m, qs, qe);
        lemma_no_matches(starts, ends, active, members, m + 1, hi, qs, qe);
    }
}

/// The reported members are exactly those of the matching slots.
pub proof fn lemma_range_matches_members(
    starts: Seq<BandKey>,
    ends: Seq<BandKey>,
    active: Seq<bool>,
    members: Seq<usize>,
    lo: int,
    hi: int,
    qs: BandKey,
    qe: BandKey,
    x: usize,
)
    ensures
        range_matches(starts, ends, active, members, lo, hi, qs, qe).contains(x) <==> exists|p: int|
            lo <= p < hi && slot_matches(starts, ends, active, p, qs, qe) && #[trigger] members[p]
                == x,
    decreases hi - lo,
{
    if lo < hi {
        let m = mid(lo, hi);
        lemma_range_matches_members(starts, ends, active, members, lo, m, qs, qe, x);
        lemma_range_matches_members(starts, ends, active, members, m + 1, hi, qs, qe, x);
        let left = range_matches(starts, ends, active, members, lo, m, qs, qe);
        let here = if slot_matches(starts, ends, active, m, qs, qe) {
            seq![members[m]]
        } else {
            Seq::<usize>::empty()
        };
        let right = range_matches(starts, ends, active, members, m + 1, hi, qs, qe);
        assert((left + here + right).contains(x) <==> (left.contains(x) || here.contains(x)
            || right.contains(x))) by {
            if (left + here + right).contains(x) {
                let t = choose|t: int| 0 <= t < (left + here + right).len() && (left + here
                    + right)[t] == x;
                if t < left.len() {
                    assert(left[t] == x);
                } else if t < left.len() + here.len() {
                    assert(here[t - left.len()] == x);
                } else {
                    assert(right[t - left.len() - here.len()] == x);
                }
            }
            if left.contains(x) {
                let t = choose|t: int| 0 <= t < left.len() && left[t] == x;
                assert((left + here + right)[t] == x);
            }
            if here.contains(x) {
                assert((left + here + right)[left.len() as int] == x);
            }
            if right.contains(x) {
                let t = choose|t: int| 0 <= t < right.len() && right[t] == x;
                assert((left + here + right)[left.len() + here.len() + t] == x);
            }
        }
        if exists|p: int|
            lo <= p < hi && slot_matches(starts, ends, active, p, qs, qe) && #[trigger] members[p]
                == x {
            let p = choose|p: int|
                lo <= p < hi && slot_matches(starts, ends, active, p, qs, qe) && #[trigger] members[p]
                    == x;
            if p == m {
                assert(here[0] == x);
            }
        }
    }
}

/// Rewriting data outside `[lo, hi)` changes neither the tree nor its best end.
proof fn lemma_frame(
    best1: Seq<Option<BandKey>>,
    active1: Seq<bool>,
    best2: Seq<Option<BandKey>>,
    active2: Seq<bool>,
    ends: Seq<BandKey>,
    lo: int,
    hi: int,
)
    requires
        forall|p: int| lo <= p < hi ==> best1[p] == best2[p] && active1[p] == active2[p],
    ensures
        range_best(active1, ends, lo, hi) == range_best(active2, ends, lo, hi),
        tree_ok(best1, active1, ends, lo, hi) == tree_ok(best2, active2, ends, lo, hi),
    decreases hi - lo,
{
    if lo < hi {
        let m = mid(lo, hi);
        lemma_frame(best1, active1, best2, active2, ends, lo, m);
        lemma_frame(best1, active1, best2, active2, ends, m + 1, hi);
    }
}

/// With no active slot, every range is empty and an all-empty tree is exact.
proof fn lemma_all_inactive(
    best: Seq<Option<BandKey>>,
    active: Seq<bool>,
    ends: Seq<BandKey>,
    lo: int,
    hi: int,
)
    requires
        forall|p: int| lo <= p < hi ==> !active[p] && best[p] is None,
    ensures
        range_best(active, ends, lo, hi) is None,
        tree_ok(best, active, ends, lo, hi),
    decreases hi - lo,
{
    if lo < hi {
        let m = mid(lo, hi);
        lemma_all_inactive(best, active, ends, lo, m);
        lemma_all_inactive(best, active, ends, m + 1, hi);
    }
}

/// An interval index over start-ordered slots with switchable members.
pub struct IntervalIndex {
    starts: Vec<BandKey>,
    ends: Vec<BandKey>,
    members: Vec<usize>,
    active: Vec<bool>,
    best: Vec<Option<BandKey>>,
}

impl IntervalIndex {
    /// Slot starts in slot order.
    pub closed spec fn starts_view(&self) -> Seq<BandKey> {
        self.starts@
    }

    /// Slot ends in slot order.
    pub closed spec fn ends_view(&self) -> Seq<BandKey> {
        self.ends@
    }

    /// Slot members in slot order.
    pub closed spec fn members_view(&self) -> Seq<usize> {
        self.members@
    }

    /// Slot activity in slot order.
    pub closed spec fn active_view(&self) -> Seq<bool> {
        self.active@
    }

    /// Structural well-formedness: equal lengths, ordered starts, exact tree.
    pub closed spec fn wf(&self) -> bool {
        let n = self.starts@.len();
        &&& self.ends@.len() == n
        &&& self.members@.len() == n
        &&& self.active@.len() == n
        &&& self.best@.len() == n
        &&& forall|p: int, q: int|
            0 <= p < q < n ==> band_le(#[trigger] self.starts@[p], #[trigger] self.starts@[q])
        &&& tree_ok(self.best@, self.active@, self.ends@, 0, n as int)
    }

    /// Number of slots.
    pub closed spec fn slot_count(&self) -> nat {
        self.starts@.len()
    }

    /// A well-formed index has one start, end, member, and flag per slot.
    pub proof fn lemma_wf_lengths(&self)
        requires
            self.wf(),
        ensures
            self.starts_view().len() == self.slot_count(),
            self.ends_view().len() == self.slot_count(),
            self.members_view().len() == self.slot_count(),
            self.active_view().len() == self.slot_count(),
    {
    }

    /// Returns the number of slots.
    pub fn slot_len(&self) -> (r: usize)
        ensures
            r == self.slot_count(),
    {
        self.starts.len()
    }

    /// Returns the member of slot `p`.
    pub fn member_at(&self, p: usize) -> (r: usize)
        requires
            self.wf(),
            p < self.slot_count(),
        ensures
            r == self.members_view()[p as int],
    {
        self.members[p]
    }

    /// Builds an index over `slots`, all inactive, ordered by start.
    pub fn new(slots: &[IntervalSlot]) -> (r: Self)
        ensures
            r.wf(),
            r.slot_count() == slots@.len(),
            forall|p: int| 0 <= p < slots@.len() ==> !r.active_view()[p],
            forall|p: int|
                0 <= p < slots@.len() ==> slots@.contains(
                    IntervalSlot {
                        start: r.starts_view()[p],
                        end: r.ends_view()[p],
                        member: r.members_view()[p],
                    },
                ),
            forall|x: IntervalSlot|
                #![trigger slots@.contains(x)]
                slots@.contains(x) ==> exists|p: int|
                    0 <= p < slots@.len() && #[trigger] r.members_view()[p] == x.member
                        && r.starts_view()[p] == x.start && r.ends_view()[p] == x.end,
            slots@.no_duplicates() ==> forall|p: int, q: int|
                0 <= p < q < slots@.len() ==> (IntervalSlot {
                    start: r.starts_view()[p],
                    end: r.ends_view()[p],
                    member: r.members_view()[p],
                }) != (IntervalSlot {
                    start: r.starts_view()[q],
                    end: r.ends_view()[q],
                    member: r.members_view()[q],
                }),
    {
        let ordered = sort_by_key(slots);
        let mut starts: Vec<BandKey> = Vec::new();
        let mut ends: Vec<BandKey> = Vec::new();
        let mut members: Vec<usize> = Vec::new();
        let mut active: Vec<bool> = Vec::new();
        let mut best: Vec<Option<BandKey>> = Vec::new();
        let mut index: usize = 0;
        while index < ordered.len()
            invariant
                index <= ordered@.len(),
                starts@.len() == index,
                ends@.len() == index,
                members@.len() == index,
                active@.len() == index,
                best@.len() == index,
                forall|p: int|
                    0 <= p < index ==> starts@[p] == ordered@[p].start && ends@[p] == ordered@[p].end
                        && members@[p] == ordered@[p].member && !active@[p] && best@[p] is None,
            decreases ordered@.len() - index,
        {
            starts.push(ordered[index].start);
            ends.push(ordered[index].end);
            members.push(ordered[index].member);
            active.push(false);
            best.push(None);
            index = index + 1;
        }
        let r = IntervalIndex { starts, ends, members, active, best };
        proof {
            lemma_all_inactive(r.best@, r.active@, r.ends@, 0, index as int);
            assert forall|p: int, q: int|
                0 <= p < q < r.starts_view().len() implies band_le(
                #[trigger] r.starts_view()[p],
                #[trigger] r.starts_view()[q],
            ) by {
                assert(ordered@[p].sort_le(ordered@[q]));
            }
            vstd::seq_lib::to_multiset_len(ordered@);
            vstd::seq_lib::to_multiset_len(slots@);
            assert forall|x: IntervalSlot| #![trigger slots@.contains(x)] slots@.contains(x) implies exists|p: int|
                0 <= p < slots@.len() && #[trigger] r.members_view()[p] == x.member && r.starts_view()[p] == x.start
                    && r.ends_view()[p] == x.end by {
                vstd::seq_lib::to_multiset_contains(ordered@, x);
                vstd::seq_lib::to_multiset_contains(slots@, x);
                let p = choose|p: int| 0 <= p < ordered@.len() && ordered@[p] == x;
                assert(r.members_view()[p] == x.member);
            }
            if slots@.no_duplicates() {
                slots@.lemma_multiset_has_no_duplicates();
                assert forall|x: IntervalSlot| ordered@.to_multiset().contains(x) implies ordered@.to_multiset().count(x) == 1 by {}
                ordered@.lemma_multiset_has_no_duplicates_conv();
                assert forall|p: int, q: int| 0 <= p < q < slots@.len() implies (IntervalSlot {
                    start: r.starts_view()[p],
                    end: r.ends_view()[p],
                    member: r.members_view()[p],
                }) != (IntervalSlot {
                    start: r.starts_view()[q],
                    end: r.ends_view()[q],
                    member: r.members_view()[q],
                }) by {
                    assert(ordered@[p] != ordered@[q]);
                }
            }
            assert forall|p: int| 0 <= p < slots@.len() implies slots@.contains(
                IntervalSlot { start: r.starts_view()[p], end: r.ends_view()[p], member: r.members_view()[p] },
            ) by {
                assert(ordered@[p] == IntervalSlot {
                    start: r.starts_view()[p],
                    end: r.ends_view()[p],
                    member: r.members_view()[p],
                });
                vstd::seq_lib::to_multiset_contains(ordered@, ordered@[p]);
                vstd::seq_lib::to_multiset_contains(slots@, ordered@[p]);
            }
        }
        r
    }

    fn range_root_best(&self, lo: usize, hi: usize) -> (r: Option<BandKey>)
        requires
            lo <= hi <= self.best@.len(),
            tree_ok(self.best@, self.active@, self.ends@, lo as int, hi as int),
        ensures
            r == range_best(self.active@, self.ends@, lo as int, hi as int),
    {
        if lo < hi {
            self.best[lo + (hi - lo) / 2]
        } else {
            None
        }
    }

    fn update(&mut self, lo: usize, hi: usize, p: usize, value: bool)
        requires
            lo <= p < hi <= old(self).starts@.len(),
            old(self).ends@.len() == old(self).starts@.len(),
            old(self).members@.len() == old(self).starts@.len(),
            old(self).active@.len() == old(self).starts@.len(),
            old(self).best@.len() == old(self).starts@.len(),
            tree_ok(old(self).best@, old(self).active@, old(self).ends@, lo as int, hi as int),
        ensures
            final(self).starts@ == old(self).starts@,
            final(self).ends@ == old(self).ends@,
            final(self).members@ == old(self).members@,
            final(self).active@ == old(self).active@.update(p as int, value),
            final(self).best@.len() == old(self).best@.len(),
            forall|q: int| 0 <= q < lo || hi <= q < old(self).best@.len() ==> final(self).best@[q]
                == old(self).best@[q],
            tree_ok(final(self).best@, final(self).active@, final(self).ends@, lo as int, hi as int),
        decreases hi - lo,
    {
        let m = lo + (hi - lo) / 2;
        let ghost best0 = self.best@;
        let ghost active0 = self.active@;
        if p < m {
            self.update(lo, m, p, value);
            proof {
                lemma_frame(best0, active0, self.best@, self.active@, self.ends@, m + 1, hi as int);
            }
        } else if p > m {
            self.update(m + 1, hi, p, value);
            proof {
                lemma_frame(best0, active0, self.best@, self.active@, self.ends@, lo as int, m as int);
            }
        } else {
            self.active.set(m, value);
            proof {
                lemma_frame(best0, active0, self.best@, self.active@, self.ends@, lo as int, m as int);
                lemma_frame(best0, active0, self.best@, self.active@, self.ends@, m + 1, hi as int);
            }
        }
        let left = self.range_root_best(lo, m);
        let own = if self.active[m] {
            Some(self.ends[m])
        } else {
            None
        };
        let right = self.range_root_best(m + 1, hi);
        let combined = best_of_exec(best_of_exec(left, own), right);
        let ghost best1 = self.best@;
        self.best.set(m, combined);
        proof {
            lemma_frame(best1, self.active@, self.best@, self.active@, self.ends@, lo as int, m as int);
            lemma_frame(best1, self.active@, self.best@, self.active@, self.ends@, m + 1, hi as int);
        }
    }

    /// Switches slot `p` on or off.
    pub fn set_active(&mut self, p: usize, value: bool)
        requires
            old(self).wf(),
            p < old(self).slot_count(),
        ensures
            final(self).wf(),
            final(self).slot_count() == old(self).slot_count(),
            final(self).starts_view() == old(self).starts_view(),
            final(self).ends_view() == old(self).ends_view(),
            final(self).members_view() == old(self).members_view(),
            final(self).active_view() == old(self).active_view().update(p as int, value),
    {
        let n = self.starts.len();
        self.update(0, n, p, value);
    }

    fn query_range(
        &self,
        lo: usize,
        hi: usize,
        qs: BandKey,
        qe: BandKey,
        out: &mut Vec<usize>,
        visited: &mut usize,
    )
        requires
            self.wf(),
            lo <= hi <= self.starts@.len(),
            tree_ok(self.best@, self.active@, self.ends@, lo as int, hi as int),
        ensures
            final(out)@ == old(out)@ + range_matches(
                self.starts@,
                self.ends@,
                self.active@,
                self.members@,
                lo as int,
                hi as int,
                qs,
                qe,
            ),
            *final(visited) >= *old(visited),
        decreases hi - lo,
    {
        if lo >= hi {
            assert(old(out)@ + Seq::<usize>::empty() =~= old(out)@);
            return ;
        }
        *visited = visited.saturating_add(1);
        let m = lo + (hi - lo) / 2;
        let prune = match self.best[m] {
            None => true,
            Some(b) => !band_le_exec(qs, b),
        };
        if prune {
            proof {
                assert forall|p: int| lo <= p < hi implies !slot_matches(
                    self.starts@,
                    self.ends@,
                    self.active@,
                    p,
                    qs,
                    qe,
                ) by {
                    if self.active@[p] {
                        lemma_range_best_bound(self.active@, self.ends@, lo as int, hi as int, p);
                        let v = range_best(self.active@, self.ends@, lo as int, hi as int)->0;
                        lemma_band_le_order(qs, self.ends@[p], v);
                    }
                }
                lemma_no_matches(
                    self.starts@,
                    self.ends@,
                    self.active@,
                    self.members@,
                    lo as int,
                    hi as int,
                    qs,
                    qe,
                );
                assert(old(out)@ + Seq::<usize>::empty() =~= old(out)@);
            }
            return ;
        }
        let ghost before = out@;
        self.query_range(lo, m, qs, qe, out, visited);
        let ghost after_left = out@;
        if band_le_exec(self.starts[m], qe) {
            if self.active[m] && band_le_exec(qs, self.ends[m]) {
                out.push(self.members[m]);
            }
            let ghost after_own = out@;
            self.query_range(m + 1, hi, qs, qe, out, visited);
            proof {
                let l = range_matches(
                    self.starts@,
                    self.ends@,
                    self.active@,
                    self.members@,
                    lo as int,
                    m as int,
                    qs,
                    qe,
                );
                let own = if slot_matches(self.starts@, self.ends@, self.active@, m as int, qs, qe) {
                    seq![self.members@[m as int]]
                } else {
                    Seq::<usize>::empty()
                };
                let r = range_matches(
                    self.starts@,
                    self.ends@,
                    self.active@,
                    self.members@,
                    m + 1,
                    hi as int,
                    qs,
                    qe,
                );
                assert(after_own =~= before + l + own);
                assert(out@ =~= before + (l + own + r));
            }
        } else {
            proof {
                assert forall|p: int| m < p < hi implies !slot_matches(
                    self.starts@,
                    self.ends@,
                    self.active@,
                    p,
                    qs,
                    qe,
                ) by {
                    assert(band_le(self.starts@[m as int], self.starts@[p]));
                    lemma_band_le_order(self.starts@[m as int], self.starts@[p], qe);
                }
                lemma_no_matches(
                    self.starts@,
                    self.ends@,
                    self.active@,
                    self.members@,
                    m + 1,
                    hi as int,
                    qs,
                    qe,
                );
                let l = range_matches(
                    self.starts@,
                    self.ends@,
                    self.active@,
                    self.members@,
                    lo as int,
                    m as int,
                    qs,
                    qe,
                );
                assert(out@ =~= before + (l + Seq::<usize>::empty() + Seq::<usize>::empty()));
            }
        }
    }

    /// Reports, in slot order, the members of every active interval overlapping
    /// the closed query `[qs, qe]`, and counts the tree nodes visited.
    pub fn query(&self, qs: BandKey, qe: BandKey, out: &mut Vec<usize>, visited: &mut usize)
        requires
            self.wf(),
        ensures
            forall|x: usize|
                #![trigger final(out)@.contains(x)]
                final(out)@.contains(x) <==> (old(out)@.contains(x) || exists|p: int|
                    0 <= p < self.slot_count() && slot_matches(
                        self.starts_view(),
                        self.ends_view(),
                        self.active_view(),
                        p,
                        qs,
                        qe,
                    ) && #[trigger] self.members_view()[p] == x),
            *final(visited) >= *old(visited),
    {
        let ghost before = out@;
        let n = self.starts.len();
        self.query_range(0, n, qs, qe, out, visited);
        proof {
            let found = range_matches(
                self.starts@,
                self.ends@,
                self.active@,
                self.members@,
                0,
                n as int,
                qs,
                qe,
            );
            assert forall|x: usize| #![trigger out@.contains(x)] out@.contains(x) <==> (
            before.contains(x) || exists|p: int|
                0 <= p < self.slot_count() && slot_matches(
                    self.starts_view(),
                    self.ends_view(),
                    self.active_view(),
                    p,
                    qs,
                    qe,
                ) && #[trigger] self.members_view()[p] == x) by {
                lemma_range_matches_members(
                    self.starts@,
                    self.ends@,
                    self.active@,
                    self.members@,
                    0,
                    n as int,
                    qs,
                    qe,
                    x,
                );
                if out@.contains(x) {
                    let t = choose|t: int| 0 <= t < out@.len() && out@[t] == x;
                    if t < before.len() {
                        assert(before[t] == x);
                    } else {
                        assert(found[t - before.len()] == x);
                    }
                }
                if before.contains(x) {
                    let t = choose|t: int| 0 <= t < before.len() && before[t] == x;
                    assert(out@[t] == x);
                }
                if found.contains(x) {
                    let t = choose|t: int| 0 <= t < found.len() && found[t] == x;
                    assert(out@[before.len() + t] == x);
                }
                if exists|p: int|
                    0 <= p < self.starts@.len() && slot_matches(
                        self.starts@,
                        self.ends@,
                        self.active@,
                        p,
                        qs,
                        qe,
                    ) && #[trigger] self.members@[p] == x {
                    let p = choose|p: int|
                        0 <= p < self.starts@.len() && slot_matches(
                            self.starts@,
                            self.ends@,
                            self.active@,
                            p,
                            qs,
                            qe,
                        ) && #[trigger] self.members@[p] == x;
                    assert(self.members_view()[p] == x);
                }
                if exists|p: int|
                    0 <= p < self.slot_count() && slot_matches(
                        self.starts_view(),
                        self.ends_view(),
                        self.active_view(),
                        p,
                        qs,
                        qe,
                    ) && #[trigger] self.members_view()[p] == x {
                    let p = choose|p: int|
                        0 <= p < self.slot_count() && slot_matches(
                            self.starts_view(),
                            self.ends_view(),
                            self.active_view(),
                            p,
                            qs,
                            qe,
                        ) && #[trigger] self.members_view()[p] == x;
                    assert(self.members@[p] == x);
                }
            }
        }
    }
}

} // verus!
