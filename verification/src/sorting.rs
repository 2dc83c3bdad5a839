//! A verified merge sort over a total preorder.

use vstd::prelude::*;
use vstd::multiset::Multiset;
use vstd::seq_lib::{lemma_multiset_commutative, to_multiset_build};

use crate::collections::CanonicalKey;

verus! {

/// An element ordered by a total preorder.
pub trait SortKey: Sized + Copy {
    /// The preorder: `self` may come before `other`.
    spec fn sort_le(self, other: Self) -> bool;

    /// The preorder is reflexive, transitive, and total.
    proof fn lemma_sort_order(a: Self, b: Self, c: Self)
        ensures
            a.sort_le(a),
            a.sort_le(b) && b.sort_le(c) ==> a.sort_le(c),
            a.sort_le(b) || b.sort_le(a),
    ;

    /// Decides the preorder.
    fn sort_le_exec(&self, other: &Self) -> (r: bool)
        ensures
            r == self.sort_le(*other),
    ;
}

/// Whether a sequence is ordered by the preorder.
pub open spec fn sorted_by_key<T: SortKey>(s: Seq<T>) -> bool {
    forall|i: int, j: int| 0 <= i < j < s.len() ==> (#[trigger] s[i]).sort_le(#[trigger] s[j])
}

fn merge<T: SortKey>(a: Vec<T>, b: Vec<T>) -> (r: Vec<T>)
    requires
        sorted_by_key(a@),
        sorted_by_key(b@),
    ensures
        sorted_by_key(r@),
        r@.to_multiset() == a@.to_multiset().add(b@.to_multiset()),
{
    let mut out: Vec<T> = Vec::new();
    let mut i: usize = 0;
    let mut j: usize = 0;
    proof {
        assert(a@.subrange(0, 0) =~= Seq::<T>::empty());
        assert(b@.subrange(0, 0) =~= Seq::<T>::empty());
        assert(out@.to_multiset() =~= a@.subrange(0, 0).to_multiset().add(
            b@.subrange(0, 0).to_multiset(),
        )) by {
            broadcast use vstd::multiset::group_multiset_axioms;
            broadcast use vstd::seq_lib::group_to_multiset_ensures;
        }
    }
    while i < a.len() || j < b.len()
        invariant
            sorted_by_key(a@),
            sorted_by_key(b@),
            i <= a@.len(),
            j <= b@.len(),
            out@.len() == i + j,
            sorted_by_key(out@),
            out@.to_multiset() == a@.subrange(0, i as int).to_multiset().add(
                b@.subrange(0, j as int).to_multiset(),
            ),
            out@.len() > 0 && i < a@.len() ==> out@.last().sort_le(a@[i as int]),
            out@.len() > 0 && j < b@.len() ==> out@.last().sort_le(b@[j as int]),
        decreases a@.len() + b@.len() - i - j,
    {
        let take_a = if i < a.len() && j < b.len() {
            a[i].sort_le_exec(&b[j])
        } else {
            i < a.len()
        };
        let ghost before = out@;
        let x = if take_a {
            a[i]
        } else {
            b[j]
        };
        out.push(x);
        proof {
            assert(out@ == before.push(x));
            to_multiset_build(before, x);
            if take_a {
                assert(a@.subrange(0, i + 1) =~= a@.subrange(0, i as int).push(x));
                to_multiset_build(a@.subrange(0, i as int), x);
            } else {
                assert(b@.subrange(0, j + 1) =~= b@.subrange(0, j as int).push(x));
                to_multiset_build(b@.subrange(0, j as int), x);
            }
            assert forall|p: int, q: int| 0 <= p < q < out@.len() implies (
            #[trigger] out@[p]).sort_le(#[trigger] out@[q]) by {
                if q == out@.len() - 1 && p < q {
                    T::lemma_sort_order(out@[p], before.last(), x);
                    if p < before.len() - 1 {
                        assert(before[p].sort_le(before[before.len() - 1]));
                    } else {
                        T::lemma_sort_order(before.last(), before.last(), x);
                    }
                }
            }
            if take_a {
                if i + 1 < a@.len() {
                    assert(a@[i as int].sort_le(a@[i + 1]));
                }
                if j < b@.len() {
                    T::lemma_sort_order(x, b@[j as int], x);
                }
            } else {
                if j + 1 < b@.len() {
                    assert(b@[j as int].sort_le(b@[j + 1]));
                }
                if i < a@.len() {
                    T::lemma_sort_order(x, a@[i as int], x);
                }
            }
        }
        if take_a {
            i = i + 1;
        } else {
            j = j + 1;
        }
        proof {
            assert(out@.to_multiset() =~= a@.subrange(0, i as int).to_multiset().add(
                b@.subrange(0, j as int).to_multiset(),
            )) by {
                broadcast use vstd::multiset::group_multiset_axioms;
            }
        }
    }
    assert(a@.subrange(0, i as int) =~= a@);
    assert(b@.subrange(0, j as int) =~= b@);
    out
}

fn sort_range<T: SortKey>(s: &[T], lo: usize, hi: usize) -> (r: Vec<T>)
    requires
        lo <= hi <= s@.len(),
    ensures
        sorted_by_key(r@),
        r@.to_multiset() == s@.subrange(lo as int, hi as int).to_multiset(),
    decreases hi - lo,
{
    if hi - lo <= 1 {
        let mut out: Vec<T> = Vec::new();
        if hi > lo {
            out.push(s[lo]);
        }
        proof {
            assert(out@ =~= s@.subrange(lo as int, hi as int));
        }
        return out;
    }
    let mid = lo + (hi - lo) / 2;
    let left = sort_range(s, lo, mid);
    let right = sort_range(s, mid, hi);
    proof {
        assert(s@.subrange(lo as int, hi as int) =~= s@.subrange(lo as int, mid as int) + s@.subrange(
            mid as int,
            hi as int,
        ));
        lemma_multiset_commutative(
            s@.subrange(lo as int, mid as int),
            s@.subrange(mid as int, hi as int),
        );
    }
    merge(left, right)
}

/// Returns the elements of `s` ordered by the preorder.
pub fn sort_by_key<T: SortKey>(s: &[T]) -> (r: Vec<T>)
    ensures
        sorted_by_key(r@),
        r@.to_multiset() == s@.to_multiset(),
{
    let r = sort_range(s, 0, s.len());
    assert(s@.subrange(0, s@.len() as int) =~= s@);
    r
}

/// A record placed by a canonical key; records with equal keys may come in
/// either order.
pub trait OrderedRecord: Sized {
    /// The ordering key.
    type Order: CanonicalKey;

    /// The record's ordering key.
    spec fn order_key(&self) -> Self::Order;

    /// Returns the record's ordering key.
    fn record_order_key(&self) -> (r: Self::Order)
        ensures
            r == self.order_key(),
    ;
}

/// `a` may come before `b`: `b`'s key is not below `a`'s.
pub open spec fn record_le<T: OrderedRecord>(a: T, b: T) -> bool {
    !b.order_key().key_lt(a.order_key())
}

/// Whether records come in non-decreasing key order.
pub open spec fn records_sorted<T: OrderedRecord>(s: Seq<T>) -> bool {
    forall|i: int, j: int| 0 <= i < j < s.len() ==> record_le(#[trigger] s[i], #[trigger] s[j])
}

proof fn lemma_record_le_trans<T: OrderedRecord>(a: T, b: T, c: T)
    requires
        record_le(a, b),
        record_le(b, c),
    ensures
        record_le(a, c),
{
    T::Order::lemma_key_order(b.order_key(), c.order_key(), a.order_key());
}

proof fn lemma_record_lt_le<T: OrderedRecord>(a: T, b: T)
    requires
        a.order_key().key_lt(b.order_key()),
    ensures
        record_le(a, b),
{
    T::Order::lemma_key_order(a.order_key(), b.order_key(), a.order_key());
}

proof fn lemma_pop_multiset<T>(s: Seq<T>)
    requires
        s.len() > 0,
    ensures
        s.to_multiset() == s.subrange(0, s.len() - 1).to_multiset().insert(s[s.len() - 1]),
{
    assert(s =~= s.subrange(0, s.len() - 1).push(s[s.len() - 1]));
    to_multiset_build(s.subrange(0, s.len() - 1), s[s.len() - 1]);
}

fn merge_records<T: OrderedRecord>(a: Vec<T>, b: Vec<T>) -> (r: Vec<T>)
    requires
        records_sorted(a@),
        records_sorted(b@),
    ensures
        records_sorted(r@),
        r@.to_multiset() == a@.to_multiset().add(b@.to_multiset()),
{
    let ghost total = a@.to_multiset().add(b@.to_multiset());
    let mut a = a;
    let mut b = b;
    let mut descending: Vec<T> = Vec::new();
    proof {
        assert(descending@.to_multiset() =~= Multiset::<T>::empty()) by {
            broadcast use vstd::seq_lib::group_to_multiset_ensures;
        }
        assert(descending@.to_multiset().add(a@.to_multiset()).add(b@.to_multiset()) =~= total) by {
            broadcast use vstd::multiset::group_multiset_axioms;
        }
    }
    while a.len() > 0 || b.len() > 0
        invariant
            records_sorted(a@),
            records_sorted(b@),
            forall|i: int, j: int|
                0 <= i < j < descending@.len() ==> record_le(
                    #[trigger] descending@[j],
                    #[trigger] descending@[i],
                ),
            forall|i: int, x: int|
                0 <= i < descending@.len() && 0 <= x < a@.len() ==> record_le(
                    #[trigger] a@[x],
                    #[trigger] descending@[i],
                ),
            forall|i: int, y: int|
                0 <= i < descending@.len() && 0 <= y < b@.len() ==> record_le(
                    #[trigger] b@[y],
                    #[trigger] descending@[i],
                ),
            descending@.to_multiset().add(a@.to_multiset()).add(b@.to_multiset()) == total,
        decreases a@.len() + b@.len(),
    {
        let take_b = if a.len() == 0 {
            true
        } else if b.len() == 0 {
            false
        } else {
            let last_a = a[a.len() - 1].record_order_key();
            let last_b = b[b.len() - 1].record_order_key();
            !last_b.key_less(&last_a)
        };
        let ghost a0 = a@;
        let ghost b0 = b@;
        let ghost d0 = descending@;
        let popped = if take_b {
            b.pop()
        } else {
            a.pop()
        };
        match popped {
            Some(x) => {
                descending.push(x);
                proof {
                    if take_b {
                        assert(x == b0[b0.len() - 1]);
                        lemma_pop_multiset(b0);
                        assert forall|y: int| 0 <= y < b@.len() implies record_le(
                            #[trigger] b@[y],
                            x,
                        ) by {
                            assert(b@[y] == b0[y]);
                        }
                        assert forall|z: int| 0 <= z < a@.len() implies record_le(
                            #[trigger] a@[z],
                            x,
                        ) by {
                            let last = a0[a0.len() - 1];
                            if z < a0.len() - 1 {
                                lemma_record_le_trans(a0[z], last, x);
                            }
                        }
                    } else {
                        assert(x == a0[a0.len() - 1]);
                        lemma_pop_multiset(a0);
                        assert forall|z: int| 0 <= z < a@.len() implies record_le(
                            #[trigger] a@[z],
                            x,
                        ) by {
                            assert(a@[z] == a0[z]);
                        }
                        assert forall|y: int| 0 <= y < b@.len() implies record_le(
                            #[trigger] b@[y],
                            x,
                        ) by {
                            let last = b0[b0.len() - 1];
                            lemma_record_lt_le(last, x);
                            if y < b0.len() - 1 {
                                lemma_record_le_trans(b0[y], last, x);
                            }
                        }
                    }
                    assert forall|i: int, j: int|
                        0 <= i < j < descending@.len() implies record_le(
                        #[trigger] descending@[j],
                        #[trigger] descending@[i],
                    ) by {
                        if j == d0.len() {
                            if take_b {
                                assert(record_le(b0[b0.len() - 1], d0[i]));
                            } else {
                                assert(record_le(a0[a0.len() - 1], d0[i]));
                            }
                        }
                    }
                    assert forall|i: int, z: int|
                        0 <= i < descending@.len() && 0 <= z < a@.len() implies record_le(
                        #[trigger] a@[z],
                        #[trigger] descending@[i],
                    ) by {
                        if i < d0.len() {
                            assert(a@[z] == a0[z]);
                        }
                    }
                    assert forall|i: int, y: int|
                        0 <= i < descending@.len() && 0 <= y < b@.len() implies record_le(
                        #[trigger] b@[y],
                        #[trigger] descending@[i],
                    ) by {
                        if i < d0.len() {
                            assert(b@[y] == b0[y]);
                        }
                    }
                    assert(descending@ =~= d0.push(x));
                    to_multiset_build(d0, x);
                    assert(descending@.to_multiset().add(a@.to_multiset()).add(b@.to_multiset())
                        =~= total) by {
                        broadcast use vstd::multiset::group_multiset_axioms;
                    }
                }
            },
            None => {
                proof {
                    assert(false);
                }
            },
        }
    }
    let mut out: Vec<T> = Vec::new();
    proof {
        assert(out@.to_multiset() =~= Multiset::<T>::empty()) by {
            broadcast use vstd::seq_lib::group_to_multiset_ensures;
        }
        assert(a@.to_multiset() =~= Multiset::<T>::empty()) by {
            broadcast use vstd::seq_lib::group_to_multiset_ensures;
        }
        assert(b@.to_multiset() =~= Multiset::<T>::empty()) by {
            broadcast use vstd::seq_lib::group_to_multiset_ensures;
        }
        assert(out@.to_multiset().add(descending@.to_multiset()) =~= total) by {
            broadcast use vstd::multiset::group_multiset_axioms;
        }
    }
    while descending.len() > 0
        invariant
            records_sorted(out@),
            forall|i: int, j: int|
                0 <= i < j < descending@.len() ==> record_le(
                    #[trigger] descending@[j],
                    #[trigger] descending@[i],
                ),
            forall|o: int, d: int|
                0 <= o < out@.len() && 0 <= d < descending@.len() ==> record_le(
                    #[trigger] out@[o],
                    #[trigger] descending@[d],
                ),
            out@.to_multiset().add(descending@.to_multiset()) == total,
        decreases descending@.len(),
    {
        let ghost d0 = descending@;
        let ghost o0 = out@;
        match descending.pop() {
            Some(x) => {
                out.push(x);
                proof {
                    assert(x == d0[d0.len() - 1]);
                    lemma_pop_multiset(d0);
                    assert(out@ =~= o0.push(x));
                    to_multiset_build(o0, x);
                    assert forall|i: int, j: int| 0 <= i < j < out@.len() implies record_le(
                        #[trigger] out@[i],
                        #[trigger] out@[j],
                    ) by {
                        if j == o0.len() {
                            assert(record_le(o0[i], d0[d0.len() - 1]));
                        }
                    }
                    assert forall|o: int, d: int|
                        0 <= o < out@.len() && 0 <= d < descending@.len() implies record_le(
                        #[trigger] out@[o],
                        #[trigger] descending@[d],
                    ) by {
                        assert(descending@[d] == d0[d]);
                        if o == o0.len() {
                            assert(record_le(d0[d0.len() - 1], d0[d]));
                        }
                    }
                    assert(out@.to_multiset().add(descending@.to_multiset()) =~= total) by {
                        broadcast use vstd::multiset::group_multiset_axioms;
                    }
                }
            },
            None => {
                proof {
                    assert(false);
                }
            },
        }
    }
    proof {
        assert(descending@.to_multiset() =~= Multiset::<T>::empty()) by {
            broadcast use vstd::seq_lib::group_to_multiset_ensures;
        }
        assert(out@.to_multiset() =~= total) by {
            broadcast use vstd::multiset::group_multiset_axioms;
        }
    }
    out
}

/// Returns the records of `v` in non-decreasing key order.
pub fn sort_records<T: OrderedRecord>(v: Vec<T>) -> (r: Vec<T>)
    ensures
        records_sorted(r@),
        r@.to_multiset() == v@.to_multiset(),
    decreases v@.len(),
{
    if v.len() <= 1 {
        return v;
    }
    let ghost whole = v@;
    let mut left = v;
    let middle = left.len() / 2;
    let right = left.split_off(middle);
    proof {
        assert(whole =~= left@ + right@);
        lemma_multiset_commutative(left@, right@);
    }
    let sorted_left = sort_records(left);
    let sorted_right = sort_records(right);
    merge_records(sorted_left, sorted_right)
}

/// Reorders the records of `v` into non-decreasing key order.
pub fn sort_records_in_place<T: OrderedRecord>(v: &mut Vec<T>)
    ensures
        records_sorted(final(v)@),
        final(v)@.to_multiset() == old(v)@.to_multiset(),
{
    let mut taken: Vec<T> = Vec::new();
    std::mem::swap(&mut taken, v);
    *v = sort_records(taken);
}

/// No two records of `s` share an ordering key.
pub open spec fn order_keys_distinct<T: OrderedRecord>(s: Seq<T>) -> bool {
    forall|i: int, j: int|
        0 <= i < j < s.len() ==> (#[trigger] s[i]).order_key() != (#[trigger] s[j]).order_key()
}

/// Records come in strictly increasing key order.
pub open spec fn strictly_increasing<T: OrderedRecord>(s: Seq<T>) -> bool {
    forall|i: int, j: int|
        0 <= i < j < s.len() ==> (#[trigger] s[i]).order_key().key_lt((#[trigger] s[j]).order_key())
}

/// Reordering records keeps their keys distinct.
pub proof fn lemma_reorder_keeps_keys_distinct<T: OrderedRecord>(s: Seq<T>, t: Seq<T>)
    requires
        s.to_multiset() == t.to_multiset(),
        order_keys_distinct(t),
    ensures
        order_keys_distinct(s),
{
    broadcast use vstd::seq_lib::group_to_multiset_ensures;

    assert(t.no_duplicates()) by {
        assert forall|i: int, j: int|
            0 <= i < t.len() && 0 <= j < t.len() && i != j implies t[i] != t[j] by {
            if i < j {
                assert(t[i].order_key() != t[j].order_key());
            } else {
                assert(t[j].order_key() != t[i].order_key());
            }
        }
    }
    t.lemma_multiset_has_no_duplicates();
    s.lemma_multiset_has_no_duplicates_conv();
    assert forall|i: int, j: int| 0 <= i < j < s.len() implies (#[trigger] s[i]).order_key()
        != (#[trigger] s[j]).order_key() by {
        assert(s.contains(s[i]));
        assert(s.contains(s[j]));
        assert(t.to_multiset().contains(s[i]));
        assert(t.to_multiset().contains(s[j]));
        assert(t.contains(s[i]));
        assert(t.contains(s[j]));
        let p = choose|p: int| 0 <= p < t.len() && t[p] == s[i];
        let q = choose|q: int| 0 <= q < t.len() && t[q] == s[j];
        assert(s[i] != s[j]);
        if p < q {
            assert(t[p].order_key() != t[q].order_key());
        } else if q < p {
            assert(t[q].order_key() != t[p].order_key());
        }
    }
}

/// Sorted records with distinct keys come in strictly increasing key order.
pub proof fn lemma_sorted_distinct_is_strict<T: OrderedRecord>(s: Seq<T>)
    requires
        records_sorted(s),
        order_keys_distinct(s),
    ensures
        strictly_increasing(s),
{
    assert forall|i: int, j: int| 0 <= i < j < s.len() implies (#[trigger] s[i]).order_key().key_lt(
        (#[trigger] s[j]).order_key(),
    ) by {
        assert(record_le(s[i], s[j]));
        T::Order::lemma_key_order(s[i].order_key(), s[j].order_key(), s[i].order_key());
    }
}

/// How often `x` occurs among the elements of `s` that satisfy `pred`.
proof fn lemma_filter_count<T>(s: Seq<T>, pred: spec_fn(T) -> bool, x: T)
    ensures
        s.filter(pred).to_multiset().count(x) == if pred(x) {
            s.to_multiset().count(x)
        } else {
            0
        },
    decreases s.len(),
{
    broadcast use vstd::multiset::group_multiset_axioms;
    broadcast use vstd::seq_lib::group_to_multiset_ensures;

    if s.len() == 0 {
        reveal(Seq::filter);
        assert(s.filter(pred) =~= Seq::<T>::empty());
    } else {
        let init = s.drop_last();
        let last = s.last();
        lemma_filter_count(init, pred, x);
        assert(s =~= init.push(last));
        init.lemma_filter_push(last, pred);
    }
}

/// Elements satisfying a predicate occur equally often in two sequences
/// holding the same elements.
pub proof fn lemma_filter_respects_multiset<T>(s: Seq<T>, t: Seq<T>, pred: spec_fn(T) -> bool)
    requires
        s.to_multiset() == t.to_multiset(),
    ensures
        s.filter(pred).to_multiset() == t.filter(pred).to_multiset(),
        s.filter(pred).len() == t.filter(pred).len(),
        s.filter(pred).len() == 1 ==> s.filter(pred)[0] == t.filter(pred)[0],
{
    broadcast use vstd::seq_lib::group_to_multiset_ensures;

    assert forall|x: T| #[trigger] s.filter(pred).to_multiset().count(x) == t.filter(
        pred,
    ).to_multiset().count(x) by {
        lemma_filter_count(s, pred, x);
        lemma_filter_count(t, pred, x);
    }
    assert(s.filter(pred).to_multiset() =~= t.filter(pred).to_multiset());
    vstd::seq_lib::to_multiset_len(s.filter(pred));
    vstd::seq_lib::to_multiset_len(t.filter(pred));
    if s.filter(pred).len() == 1 {
        let a = s.filter(pred)[0];
        assert(s.filter(pred).contains(a));
        vstd::seq_lib::to_multiset_contains(s.filter(pred), a);
        vstd::seq_lib::to_multiset_contains(t.filter(pred), a);
        assert(t.filter(pred).contains(a));
        let i = choose|i: int| 0 <= i < t.filter(pred).len() && t.filter(pred)[i] == a;
        assert(i == 0);
    }
}

/// `i` is the only position of `s` satisfying `pred`.
pub open spec fn sole_match<T>(s: Seq<T>, pred: spec_fn(T) -> bool, i: int) -> bool {
    &&& 0 <= i < s.len()
    &&& pred(s[i])
    &&& forall|j: int| 0 <= j < s.len() && j != i ==> !pred(#[trigger] s[j])
}

/// A sequence with one matching position filters to that element alone, and
/// one that filters to a single element has exactly one matching position.
pub proof fn lemma_sole_match_filter<T>(s: Seq<T>, pred: spec_fn(T) -> bool)
    ensures
        (exists|i: int| sole_match(s, pred, i)) <==> s.filter(pred).len() == 1,
        forall|i: int| sole_match(s, pred, i) ==> s.filter(pred)[0] == s[i],
    decreases s.len(),
{
    if s.len() == 0 {
        reveal(Seq::filter);
        assert(s.filter(pred) =~= Seq::<T>::empty());
    } else {
        let init = s.drop_last();
        let last = s.last();
        assert(s =~= init.push(last));
        init.lemma_filter_push(last, pred);
        lemma_sole_match_filter(init, pred);
        if pred(last) {
            if init.filter(pred).len() == 0 {
                assert(sole_match(s, pred, s.len() - 1)) by {
                    assert forall|j: int| 0 <= j < s.len() && j != s.len() - 1 implies !pred(
                        #[trigger] s[j],
                    ) by {
                        if pred(s[j]) {
                            assert(init[j] == s[j]);
                            init.lemma_filter_contains(pred, j);
                        }
                    }
                }
            } else {
                assert forall|i: int| !sole_match(s, pred, i) by {
                    if sole_match(s, pred, i) {
                        if i == s.len() - 1 {
                            let x = init.filter(pred)[0];
                            assert(init.filter(pred).contains(x));
                            init.lemma_filter_contains_rev(pred, x);
                            let j = choose|j: int| 0 <= j < init.len() && init[j] == x;
                            assert(s[j] == init[j]);
                        }
                    }
                }
            }
            assert forall|i: int| sole_match(s, pred, i) implies s.filter(pred)[0] == s[i] by {
                if i != s.len() - 1 {
                    assert(!pred(s[s.len() - 1]));
                }
            }
        } else {
            assert forall|i: int| sole_match(s, pred, i) <==> sole_match(init, pred, i) by {
                if sole_match(init, pred, i) {
                    assert forall|j: int| 0 <= j < s.len() && j != i implies !pred(#[trigger] s[j]) by {
                        if j < s.len() - 1 {
                            assert(s[j] == init[j]);
                        }
                    }
                }
                if sole_match(s, pred, i) {
                    assert(i != s.len() - 1);
                    assert forall|j: int| 0 <= j < init.len() && j != i implies !pred(
                        #[trigger] init[j],
                    ) by {
                        assert(s[j] == init[j]);
                    }
                }
            }
        }
    }
}

} // verus!
