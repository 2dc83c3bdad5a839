//! The broad phase: an x-axis sweep over painted bounds that reports every
//! touching pair of perpendicular splitters of one root and layer.
//!
//! At equal x, starts are processed before ends, so splitters meeting exactly
//! at a frontier are still reported. Each pair is reported when the later of
//! its two starts is processed, by querying the other axis's active intervals.

use vstd::prelude::*;

use crate::junction::interval::{band_le, slot_matches, BandKey, IntervalIndex, IntervalSlot};
use crate::junction::splitters::{
    closed_rectangles_touch, is_contact, IndexedSplitter, SweepMetrics,
};
use crate::records::splitter::Axis;
use crate::sorting::{sort_by_key, sorted_by_key, SortKey};

verus! {

/// One sweep event: a splitter's painted bounds start or end at `x`.
///
/// Phases order coincident events: north-south starts, west-east starts,
/// north-south ends, west-east ends.
#[derive(Debug, Clone, Copy, PartialEq, Eq, Structural)]
pub struct SweepEvent {
    /// Event coordinate.
    pub x: i64,
    /// Phase at equal coordinates.
    pub phase: u8,
    /// Splitter index.
    pub member: usize,
}

/// Lexicographic order of events.
pub open spec fn event_le(a: SweepEvent, b: SweepEvent) -> bool {
    ||| a.x < b.x
    ||| a.x == b.x && a.phase < b.phase
    ||| a.x == b.x && a.phase == b.phase && a.member <= b.member
}

impl SortKey for SweepEvent {
    open spec fn sort_le(self, other: Self) -> bool {
        event_le(self, other)
    }

    proof fn lemma_sort_order(a: Self, b: Self, c: Self) {
    }

    fn sort_le_exec(&self, other: &Self) -> (r: bool) {
        self.x < other.x || (self.x == other.x && (self.phase < other.phase || (self.phase
            == other.phase && self.member <= other.member)))
    }
}

/// The event at which splitter `k`'s painted bounds start.
pub open spec fn start_event(s: Seq<IndexedSplitter>, k: int) -> SweepEvent {
    SweepEvent {
        x: s[k].draw.x as i64,
        phase: if s[k].axis == Axis::Horizontal {
            0
        } else {
            1
        },
        member: k as usize,
    }
}

/// The event at which splitter `k`'s painted bounds end.
pub open spec fn end_event(s: Seq<IndexedSplitter>, k: int) -> SweepEvent {
    SweepEvent {
        x: s[k].draw.right() as i64,
        phase: if s[k].axis == Axis::Horizontal {
            2
        } else {
            3
        },
        member: k as usize,
    }
}

/// Start of splitter `k`'s vertical band.
pub open spec fn band_start(s: Seq<IndexedSplitter>, k: int) -> BandKey {
    BandKey { root: s[k].id.root.0, layer: s[k].layer.0, at: s[k].draw.y as i64 }
}

/// End of splitter `k`'s vertical band.
pub open spec fn band_end(s: Seq<IndexedSplitter>, k: int) -> BandKey {
    BandKey { root: s[k].id.root.0, layer: s[k].layer.0, at: s[k].draw.bottom() as i64 }
}

/// The interval slot of splitter `k`.
pub open spec fn slot_of(s: Seq<IndexedSplitter>, k: int) -> IntervalSlot {
    IntervalSlot { start: band_start(s, k), end: band_end(s, k), member: k as usize }
}

/// Whether `ev` is among the first `t` processed events.
pub open spec fn processed(events: Seq<SweepEvent>, ev: SweepEvent, t: int) -> bool {
    events.subrange(0, t).contains(ev)
}

proof fn lemma_processed_order(events: Seq<SweepEvent>, ev: SweepEvent, t: int)
    requires
        sorted_by_key(events),
        0 <= t < events.len(),
        events.contains(ev),
        ev != events[t],
    ensures
        processed(events, ev, t) <==> (event_le(ev, events[t])),
{
    let u = choose|u: int| 0 <= u < events.len() && events[u] == ev;
    if processed(events, ev, t) {
        let w = choose|w: int| 0 <= w < t && events.subrange(0, t)[w] == ev;
        assert(events[w] == ev);
        assert(events[w].sort_le(events[t]));
    }
    if event_le(ev, events[t]) {
        if u >= t {
            if u > t {
                assert(events[t].sort_le(events[u]));
            }
        } else {
            assert(events.subrange(0, t)[u] == ev);
        }
    }
}

proof fn lemma_processed_step(events: Seq<SweepEvent>, ev: SweepEvent, t: int)
    requires
        0 <= t < events.len(),
    ensures
        processed(events, ev, t + 1) <==> (processed(events, ev, t) || ev == events[t]),
{
    let a = events.subrange(0, t);
    let b = events.subrange(0, t + 1);
    assert(b =~= a.push(events[t]));
    if b.contains(ev) {
        let w = choose|w: int| 0 <= w < b.len() && b[w] == ev;
        if w < t {
            assert(a[w] == ev);
        }
    }
    if a.contains(ev) {
        let w = choose|w: int| 0 <= w < a.len() && a[w] == ev;
        assert(b[w] == ev);
    }
    if ev == events[t] {
        assert(b[t] == ev);
    }
}

fn band_start_exec(s: &[IndexedSplitter], k: usize) -> (r: BandKey)
    requires
        k < s@.len(),
    ensures
        r == band_start(s@, k as int),
{
    BandKey { root: s[k].id.root.0, layer: s[k].layer.0, at: s[k].draw.y as i64 }
}

fn band_end_exec(s: &[IndexedSplitter], k: usize) -> (r: BandKey)
    requires
        k < s@.len(),
    ensures
        r == band_end(s@, k as int),
{
    BandKey { root: s[k].id.root.0, layer: s[k].layer.0, at: s[k].draw.max_y() }
}

/// The interval slots of every splitter on one axis, in splitter order.
fn axis_slots(s: &[IndexedSplitter], axis: Axis) -> (r: Vec<IntervalSlot>)
    ensures
        forall|a: int| 0 <= a < r@.len() ==> r@[a] == slot_of(s@, r@[a].member as int) && r@[a].member
            < s@.len() && s@[r@[a].member as int].axis == axis,
        forall|a: int, b: int| 0 <= a < b < r@.len() ==> r@[a].member < r@[b].member,
        forall|k: int| 0 <= k < s@.len() && s@[k].axis == axis ==> r@.contains(slot_of(s@, k)),
{
    let mut slots: Vec<IntervalSlot> = Vec::new();
    let mut k: usize = 0;
    while k < s.len()
        invariant
            k <= s@.len(),
            forall|a: int|
                0 <= a < slots@.len() ==> slots@[a] == slot_of(s@, slots@[a].member as int)
                    && slots@[a].member < k && s@[slots@[a].member as int].axis == axis,
            forall|a: int, b: int| 0 <= a < b < slots@.len() ==> slots@[a].member < slots@[b].member,
            forall|q: int| 0 <= q < k && s@[q].axis == axis ==> slots@.contains(slot_of(s@, q)),
        decreases s@.len() - k,
    {
        if s[k].axis == axis {
            let slot = IntervalSlot {
                start: band_start_exec(s, k),
                end: band_end_exec(s, k),
                member: k,
            };
            let ghost before = slots@;
            slots.push(slot);
            proof {
                assert forall|q: int| 0 <= q < k + 1 && s@[q].axis == axis implies slots@.contains(
                    slot_of(s@, q),
                ) by {
                    if q < k {
                        let a = choose|a: int| 0 <= a < before.len() && before[a] == slot_of(s@, q);
                        assert(slots@[a] == slot_of(s@, q));
                    } else {
                        assert(slots@[before.len() as int] == slot_of(s@, q));
                    }
                }
            }
        }
        k = k + 1;
    }
    slots
}

/// Position of every member in an index, for the members of one axis.
fn member_positions(index: &IntervalIndex, n: usize) -> (r: Vec<usize>)
    requires
        index.wf(),
        forall|p: int| 0 <= p < index.slot_count() ==> index.members_view()[p] < n,
        forall|p: int, q: int|
            0 <= p < q < index.slot_count() ==> index.members_view()[p] != index.members_view()[q],
    ensures
        r@.len() == n,
        forall|p: int|
            0 <= p < index.slot_count() ==> r@[index.members_view()[p] as int] == p,
{
    let mut positions: Vec<usize> = Vec::new();
    let mut k: usize = 0;
    while k < n
        invariant
            k <= n,
            positions@.len() == k,
        decreases n - k,
    {
        positions.push(0);
        k = k + 1;
    }
    let count = index.slot_len();
    let mut p: usize = 0;
    while p < count
        invariant
            p <= count,
            count == index.slot_count(),
            index.wf(),
            positions@.len() == n,
            forall|p: int| 0 <= p < index.slot_count() ==> index.members_view()[p] < n,
            forall|a: int, b: int|
                0 <= a < b < index.slot_count() ==> index.members_view()[a]
                    != index.members_view()[b],
            forall|q: int| 0 <= q < p ==> positions@[index.members_view()[q] as int] == q,
        decreases count - p,
    {
        let member = index.member_at(p);
        positions.set(member, p);
        p = p + 1;
    }
    positions
}

proof fn lemma_push_contains<T>(s: Seq<T>, x: T, y: T)
    ensures
        s.push(x).contains(y) <==> (s.contains(y) || y == x),
{
    if s.push(x).contains(y) {
        let w = choose|w: int| 0 <= w < s.push(x).len() && s.push(x)[w] == y;
        if w < s.len() {
            assert(s[w] == y);
        }
    }
    if s.contains(y) {
        let w = choose|w: int| 0 <= w < s.len() && s[w] == y;
        assert(s.push(x)[w] == y);
    }
    if y == x {
        assert(s.push(x)[s.len() as int] == y);
    }
}

/// At a north-south start, a west-east splitter's slot matches the query
/// exactly when the two touch and the west-east splitter started earlier.
proof fn lemma_north_south_start(
    s: Seq<IndexedSplitter>,
    events: Seq<SweepEvent>,
    t: int,
    k: int,
    j: int,
)
    requires
        sorted_by_key(events),
        0 <= t < events.len(),
        0 <= k < s.len(),
        0 <= j < s.len(),
        events[t] == start_event(s, k),
        s[k].axis == Axis::Horizontal,
        s[j].axis == Axis::Vertical,
        events.contains(start_event(s, j)),
        events.contains(end_event(s, j)),
    ensures
        (processed(events, start_event(s, j), t) && !processed(events, end_event(s, j), t)
            && band_le(band_start(s, j), band_end(s, k)) && band_le(band_start(s, k), band_end(s, j)))
            <==> (is_contact(s, k, j) && processed(events, start_event(s, j), t)),
{
    lemma_processed_order(events, start_event(s, j), t);
    lemma_processed_order(events, end_event(s, j), t);
}

/// At a west-east start, a north-south splitter's slot matches the query
/// exactly when the two touch and the north-south splitter started earlier.
proof fn lemma_west_east_start(
    s: Seq<IndexedSplitter>,
    events: Seq<SweepEvent>,
    t: int,
    k: int,
    i: int,
)
    requires
        sorted_by_key(events),
        0 <= t < events.len(),
        0 <= k < s.len(),
        0 <= i < s.len(),
        events[t] == start_event(s, k),
        s[k].axis == Axis::Vertical,
        s[i].axis == Axis::Horizontal,
        events.contains(start_event(s, i)),
        events.contains(end_event(s, i)),
    ensures
        (processed(events, start_event(s, i), t) && !processed(events, end_event(s, i), t)
            && band_le(band_start(s, i), band_end(s, k)) && band_le(band_start(s, k), band_end(s, i)))
            <==> (is_contact(s, i, k) && processed(events, start_event(s, i), t)),
{
    lemma_processed_order(events, start_event(s, i), t);
    lemma_processed_order(events, end_event(s, i), t);
}

/// A splitter's end event comes after its start event.
proof fn lemma_end_after_start(s: Seq<IndexedSplitter>, events: Seq<SweepEvent>, t: int, k: int)
    requires
        sorted_by_key(events),
        0 <= t < events.len(),
        0 <= k < s.len(),
        events[t] == start_event(s, k),
        events.contains(end_event(s, k)),
    ensures
        !processed(events, end_event(s, k), t),
{
    lemma_processed_order(events, end_event(s, k), t);
}

fn sweep_events(s: &[IndexedSplitter]) -> (r: Vec<SweepEvent>)
    ensures
        sorted_by_key(r@),
        forall|k: int|
            0 <= k < s@.len() ==> r@.contains(start_event(s@, k)) && r@.contains(end_event(s@, k)),
        forall|a: int|
            0 <= a < r@.len() ==> (r@[a].member < s@.len() && (r@[a] == start_event(
                s@,
                r@[a].member as int,
            ) || r@[a] == end_event(s@, r@[a].member as int))),
{
    let mut events: Vec<SweepEvent> = Vec::new();
    let mut k: usize = 0;
    while k < s.len()
        invariant
            k <= s@.len(),
            forall|a: int|
                0 <= a < events@.len() ==> (events@[a].member < k && (events@[a] == start_event(
                    s@,
                    events@[a].member as int,
                ) || events@[a] == end_event(s@, events@[a].member as int))),
            forall|q: int|
                0 <= q < k ==> events@.contains(start_event(s@, q)) && events@.contains(
                    end_event(s@, q),
                ),
        decreases s@.len() - k,
    {
        let phase: u8 = match s[k].axis {
            Axis::Horizontal => 0,
            Axis::Vertical => 1,
        };
        let start = SweepEvent { x: s[k].draw.x as i64, phase, member: k };
        let end = SweepEvent { x: s[k].draw.max_x(), phase: phase + 2, member: k };
        let ghost before = events@;
        events.push(start);
        events.push(end);
        proof {
            assert(start == start_event(s@, k as int));
            assert(end == end_event(s@, k as int));
            lemma_push_contains(before, start, start);
            lemma_push_contains(before.push(start), end, end);
            lemma_push_contains(before.push(start), end, start);
            assert forall|q: int| 0 <= q < k implies events@.contains(start_event(s@, q))
                && events@.contains(end_event(s@, q)) by {
                lemma_push_contains(before, start, start_event(s@, q));
                lemma_push_contains(before.push(start), end, start_event(s@, q));
                lemma_push_contains(before, start, end_event(s@, q));
                lemma_push_contains(before.push(start), end, end_event(s@, q));
            }
        }
        k = k + 1;
    }
    let sorted = sort_by_key(events.as_slice());
    proof {
        assert forall|q: int| 0 <= q < s@.len() implies sorted@.contains(start_event(s@, q))
            && sorted@.contains(end_event(s@, q)) by {
            vstd::seq_lib::to_multiset_contains(events@, start_event(s@, q));
            vstd::seq_lib::to_multiset_contains(sorted@, start_event(s@, q));
            vstd::seq_lib::to_multiset_contains(events@, end_event(s@, q));
            vstd::seq_lib::to_multiset_contains(sorted@, end_event(s@, q));
        }
        assert forall|a: int| 0 <= a < sorted@.len() implies (sorted@[a].member < s@.len() && (
        sorted@[a] == start_event(s@, sorted@[a].member as int) || sorted@[a] == end_event(
            s@,
            sorted@[a].member as int,
        ))) by {
            vstd::seq_lib::to_multiset_contains(sorted@, sorted@[a]);
            vstd::seq_lib::to_multiset_contains(events@, sorted@[a]);
            let b = choose|b: int| 0 <= b < events@.len() && events@[b] == sorted@[a];
        }
    }
    sorted
}

/// Facts about an index built from the slots of one axis.
pub open spec fn index_of_axis(
    s: Seq<IndexedSplitter>,
    axis: Axis,
    members: Seq<usize>,
    starts: Seq<BandKey>,
    ends: Seq<BandKey>,
    positions: Seq<usize>,
) -> bool {
    &&& members.len() == starts.len()
    &&& members.len() == ends.len()
    &&& positions.len() == s.len()
    &&& forall|p: int|
        0 <= p < members.len() ==> {
            &&& (#[trigger] members[p]) < s.len()
            &&& s[members[p] as int].axis == axis
            &&& starts[p] == band_start(s, members[p] as int)
            &&& ends[p] == band_end(s, members[p] as int)
        }
    &&& forall|p: int, q: int| 0 <= p < q < members.len() ==> members[p] != members[q]
    &&& forall|k: int|
        0 <= k < s.len() && s[k].axis == axis ==> {
            &&& (#[trigger] positions[k]) < members.len()
            &&& members[positions[k] as int] == k
        }
}

fn axis_index(s: &[IndexedSplitter], axis: Axis) -> (r: (IntervalIndex, Vec<usize>))
    ensures
        r.0.wf(),
        forall|p: int| 0 <= p < r.0.slot_count() ==> !r.0.active_view()[p],
        r.0.members_view().len() == r.0.slot_count(),
        index_of_axis(
            s@,
            axis,
            r.0.members_view(),
            r.0.starts_view(),
            r.0.ends_view(),
            r.1@,
        ),
{
    let slots = axis_slots(s, axis);
    let index = IntervalIndex::new(slots.as_slice());
    proof {
        index.lemma_wf_lengths();
        assert(slots@.no_duplicates()) by {
            assert forall|a: int, b: int|
                0 <= a < slots@.len() && 0 <= b < slots@.len() && a != b implies slots@[a]
                != slots@[b] by {
                if a < b {
                    assert(slots@[a].member < slots@[b].member);
                } else {
                    assert(slots@[b].member < slots@[a].member);
                }
            }
        }
        assert forall|p: int| 0 <= p < index.slot_count() implies {
            &&& (#[trigger] index.members_view()[p]) < s@.len()
            &&& s@[index.members_view()[p] as int].axis == axis
            &&& index.starts_view()[p] == band_start(s@, index.members_view()[p] as int)
            &&& index.ends_view()[p] == band_end(s@, index.members_view()[p] as int)
        } by {
            let x = IntervalSlot {
                start: index.starts_view()[p],
                end: index.ends_view()[p],
                member: index.members_view()[p],
            };
            let a = choose|a: int| 0 <= a < slots@.len() && slots@[a] == x;
            assert(slots@[a] == slot_of(s@, slots@[a].member as int));
        }
        assert forall|p: int, q: int|
            0 <= p < q < index.slot_count() implies index.members_view()[p]
            != index.members_view()[q] by {
            if index.members_view()[p] == index.members_view()[q] {
                let m = index.members_view()[p] as int;
                assert(index.starts_view()[p] == band_start(s@, m));
                assert(index.starts_view()[q] == band_start(s@, m));
            }
        }
    }
    let positions = member_positions(&index, s.len());
    proof {
        assert forall|k: int| 0 <= k < s@.len() && s@[k].axis == axis implies {
            &&& (#[trigger] positions@[k]) < index.members_view().len()
            &&& index.members_view()[positions@[k] as int] == k
        } by {
            assert(slots@.contains(slot_of(s@, k)));
            let p = choose|p: int|
                0 <= p < slots@.len() && #[trigger] index.members_view()[p] == slot_of(
                    s@,
                    k,
                ).member && index.starts_view()[p] == slot_of(s@, k).start
                    && index.ends_view()[p] == slot_of(s@, k).end;
            assert(positions@[index.members_view()[p] as int] == p);
        }
    }
    (index, positions)
}

/// Reports every touching pair of a north-south and a west-east splitter of
/// one root and layer, as `(north_south, west_east)` indices into `s`.
#[verifier::loop_isolation(false)]
pub fn sweep_contacts(s: &[IndexedSplitter]) -> (r: (Vec<(usize, usize)>, SweepMetrics))
    ensures
        forall|i: usize, j: usize|
            #[trigger] r.0@.contains((i, j)) <==> is_contact(s@, i as int, j as int),
        r.1.broad_phase_pairs == r.1.structural_contacts,
        r.1.structural_contacts == r.0@.len(),
{
    let events = sweep_events(s);
    let (mut north_south, ns_positions) = axis_index(s, Axis::Horizontal);
    let (mut west_east, we_positions) = axis_index(s, Axis::Vertical);
    let ghost ns_members = north_south.members_view();
    let ghost ns_starts = north_south.starts_view();
    let ghost ns_ends = north_south.ends_view();
    let ghost we_members = west_east.members_view();
    let ghost we_starts = west_east.starts_view();
    let ghost we_ends = west_east.ends_view();
    let mut contacts: Vec<(usize, usize)> = Vec::new();
    let mut metrics = SweepMetrics {
        interval_nodes_visited: 0,
        broad_phase_pairs: 0,
        structural_contacts: 0,
    };
    let mut t: usize = 0;
    while t < events.len()
        invariant
            t <= events@.len(),
            north_south.wf(),
            west_east.wf(),
            north_south.members_view() == ns_members,
            north_south.starts_view() == ns_starts,
            north_south.ends_view() == ns_ends,
            north_south.slot_count() == ns_members.len(),
            west_east.members_view() == we_members,
            west_east.starts_view() == we_starts,
            west_east.ends_view() == we_ends,
            west_east.slot_count() == we_members.len(),
            forall|p: int|
                0 <= p < ns_members.len() ==> (#[trigger] north_south.active_view()[p] <==> (
                processed(events@, start_event(s@, ns_members[p] as int), t as int) && !processed(
                    events@,
                    end_event(s@, ns_members[p] as int),
                    t as int,
                ))),
            forall|p: int|
                0 <= p < we_members.len() ==> (#[trigger] west_east.active_view()[p] <==> (
                processed(events@, start_event(s@, we_members[p] as int), t as int) && !processed(
                    events@,
                    end_event(s@, we_members[p] as int),
                    t as int,
                ))),
            forall|i: usize, j: usize|
                #[trigger] contacts@.contains((i, j)) <==> (is_contact(s@, i as int, j as int)
                    && processed(events@, start_event(s@, i as int), t as int) && processed(
                    events@,
                    start_event(s@, j as int),
                    t as int,
                )),
            metrics.broad_phase_pairs == metrics.structural_contacts,
            metrics.structural_contacts == contacts@.len(),
        decreases events@.len() - t,
    {
        let event = events[t];
        let k = event.member;
        proof {
            assert(event == start_event(s@, k as int) || event == end_event(s@, k as int));
            north_south.lemma_wf_lengths();
            west_east.lemma_wf_lengths();
        }
        let ghost before_contacts = contacts@;
        if event.phase == 0 || event.phase == 1 {
            let from_north_south = event.phase == 0;
            let qs = band_start_exec(s, k);
            let qe = band_end_exec(s, k);
            let mut found: Vec<usize> = Vec::new();
            let ghost empty = found@;
            if from_north_south {
                west_east.query(qs, qe, &mut found, &mut metrics.interval_nodes_visited);
            } else {
                north_south.query(qs, qe, &mut found, &mut metrics.interval_nodes_visited);
            }
            proof {
                assert forall|x: usize| #[trigger] found@.contains(x) implies (x < s@.len() && (
                if from_north_south {
                    is_contact(s@, k as int, x as int)
                } else {
                    is_contact(s@, x as int, k as int)
                }) && processed(events@, start_event(s@, x as int), t as int)) by {
                    assert(!empty.contains(x));
                    if from_north_south {
                        let p = choose|p: int|
                            0 <= p < we_members.len() && slot_matches(
                                we_starts,
                                we_ends,
                                west_east.active_view(),
                                p,
                                qs,
                                qe,
                            ) && #[trigger] we_members[p] == x;
                        lemma_north_south_start(s@, events@, t as int, k as int, x as int);
                    } else {
                        let p = choose|p: int|
                            0 <= p < ns_members.len() && slot_matches(
                                ns_starts,
                                ns_ends,
                                north_south.active_view(),
                                p,
                                qs,
                                qe,
                            ) && #[trigger] ns_members[p] == x;
                        lemma_west_east_start(s@, events@, t as int, k as int, x as int);
                    }
                }
            }
            let mut f: usize = 0;
            while f < found.len()
                invariant
                    f <= found@.len(),
                    metrics.broad_phase_pairs == metrics.structural_contacts,
                    metrics.structural_contacts == contacts@.len(),
                    forall|i: usize, j: usize|
                        #[trigger] contacts@.contains((i, j)) <==> (before_contacts.contains((i, j))
                            || exists|g: int|
                            0 <= g < f && (if from_north_south {
                                i == k && j == found@[g]
                            } else {
                                j == k && i == found@[g]
                            })),
                decreases found@.len() - f,
            {
                let other = found[f];
                proof {
                    assert(found@.contains(other));
                }
                metrics.broad_phase_pairs = metrics.broad_phase_pairs.saturating_add(1);
                let pair = if from_north_south {
                    (k, other)
                } else {
                    (other, k)
                };
                if closed_rectangles_touch(s[pair.0].draw, s[pair.1].draw) {
                    let ghost previous = contacts@;
                    contacts.push(pair);
                    let pushed: usize = contacts.len();
                    proof {
                        assert(pushed == previous.len() + 1);
                    }
                    metrics.structural_contacts = metrics.structural_contacts.saturating_add(1);
                    proof {
                        assert forall|i: usize, j: usize| #[trigger]
                            contacts@.contains((i, j)) <==> (before_contacts.contains((i, j))
                                || exists|g: int|
                                0 <= g < f + 1 && (if from_north_south {
                                    i == k && j == found@[g]
                                } else {
                                    j == k && i == found@[g]
                                })) by {
                            lemma_push_contains(previous, pair, (i, j));
                        }
                    }
                } else {
                    proof {
                        assert(false);
                    }
                }
                f = f + 1;
            }
            if from_north_south {
                north_south.set_active(ns_positions[k], true);
            } else {
                west_east.set_active(we_positions[k], true);
            }
            proof {
                assert forall|i: usize, j: usize|
                    #[trigger] contacts@.contains((i, j)) <==> (is_contact(s@, i as int, j as int)
                        && processed(events@, start_event(s@, i as int), t + 1) && processed(
                        events@,
                        start_event(s@, j as int),
                        t + 1,
                    )) by {
                    lemma_processed_step(events@, start_event(s@, i as int), t as int);
                    lemma_processed_step(events@, start_event(s@, j as int), t as int);
                    if is_contact(s@, i as int, j as int) {
                        if from_north_south && i == k {
                            if processed(events@, start_event(s@, j as int), t as int) {
                                lemma_north_south_start(s@, events@, t as int, k as int, j as int);
                                let p = we_positions@[j as int] as int;
                                assert(slot_matches(
                                    we_starts,
                                    we_ends,
                                    west_east.active_view(),
                                    p,
                                    qs,
                                    qe,
                                ));
                                assert(found@.contains(j));
                                let g = choose|g: int| 0 <= g < found@.len() && found@[g] == j;
                                assert(contacts@.contains((i, j)));
                            }
                        }
                        if !from_north_south && j == k {
                            if processed(events@, start_event(s@, i as int), t as int) {
                                lemma_west_east_start(s@, events@, t as int, k as int, i as int);
                                let p = ns_positions@[i as int] as int;
                                assert(slot_matches(
                                    ns_starts,
                                    ns_ends,
                                    north_south.active_view(),
                                    p,
                                    qs,
                                    qe,
                                ));
                                assert(found@.contains(i));
                                let g = choose|g: int| 0 <= g < found@.len() && found@[g] == i;
                                assert(contacts@.contains((i, j)));
                            }
                        }
                    }
                    if contacts@.contains((i, j)) && !before_contacts.contains((i, j)) {
                        let g = choose|g: int|
                            0 <= g < found@.len() && (if from_north_south {
                                i == k && j == found@[g]
                            } else {
                                j == k && i == found@[g]
                            });
                        assert(found@.contains(found@[g]));
                    }
                }
            }
        } else if event.phase == 2 {
            north_south.set_active(ns_positions[k], false);
        } else {
            west_east.set_active(we_positions[k], false);
        }
        proof {
            assert forall|p: int|
                0 <= p < ns_members.len() implies (#[trigger] north_south.active_view()[p] <==> (
                processed(events@, start_event(s@, ns_members[p] as int), t + 1) && !processed(
                    events@,
                    end_event(s@, ns_members[p] as int),
                    t + 1,
                ))) by {
                let m = ns_members[p] as int;
                lemma_processed_step(events@, start_event(s@, m), t as int);
                lemma_processed_step(events@, end_event(s@, m), t as int);
                if m == k && event == start_event(s@, m) {
                    lemma_end_after_start(s@, events@, t as int, m);
                }
            }
            assert forall|p: int|
                0 <= p < we_members.len() implies (#[trigger] west_east.active_view()[p] <==> (
                processed(events@, start_event(s@, we_members[p] as int), t + 1) && !processed(
                    events@,
                    end_event(s@, we_members[p] as int),
                    t + 1,
                ))) by {
                let m = we_members[p] as int;
                lemma_processed_step(events@, start_event(s@, m), t as int);
                lemma_processed_step(events@, end_event(s@, m), t as int);
                if m == k && event == start_event(s@, m) {
                    lemma_end_after_start(s@, events@, t as int, m);
                }
            }
            if event.phase >= 2 {
                assert forall|i: usize, j: usize|
                    #[trigger] contacts@.contains((i, j)) <==> (is_contact(s@, i as int, j as int)
                        && processed(events@, start_event(s@, i as int), t + 1) && processed(
                        events@,
                        start_event(s@, j as int),
                        t + 1,
                    )) by {
                    lemma_processed_step(events@, start_event(s@, i as int), t as int);
                    lemma_processed_step(events@, start_event(s@, j as int), t as int);
                }
            }
        }
        t = t + 1;
    }
    proof {
        assert forall|i: usize, j: usize|
            #[trigger] contacts@.contains((i, j)) <==> is_contact(s@, i as int, j as int) by {
            if is_contact(s@, i as int, j as int) {
                assert(events@.subrange(0, t as int) =~= events@);
            }
        }
    }
    (contacts, metrics)
}

} // verus!
