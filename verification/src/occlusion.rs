//! Contained-presentation occlusion and exact authoritative-area queries.

use vstd::prelude::*;

use crate::geometry::{HitRegion, LogicalRect};
use crate::ids::{FloatingPresentationId, SceneLayerKey};

verus! {

/// Region covered by one contained presentation on its semantic layer.
#[derive(Debug, Clone, Copy, PartialEq, Eq, Structural)]
pub struct DropOcclusionRecord {
    floating: FloatingPresentationId,
    region: HitRegion,
    layer: SceneLayerKey,
}

impl DropOcclusionRecord {
    /// Exact identity behind [`Self::floating`].
    pub closed spec fn spec_floating(self) -> FloatingPresentationId {
        self.floating
    }

    /// Exact region behind [`Self::region`].
    pub closed spec fn spec_region(self) -> HitRegion {
        self.region
    }

    /// Exact layer behind [`Self::layer`].
    pub closed spec fn spec_layer(self) -> SceneLayerKey {
        self.layer
    }

    /// Creates one occlusion record.
    pub fn new(floating: FloatingPresentationId, region: HitRegion, layer: SceneLayerKey) -> (r:
        Self)
        ensures
            r.floating() == floating,
            r.region() == region,
            r.layer() == layer,
    {
        DropOcclusionRecord { floating, region, layer }
    }

    /// Returns the occluding contained presentation.
    #[verifier::when_used_as_spec(spec_floating)]
    pub fn floating(self) -> (r: FloatingPresentationId)
        ensures
            r == self.spec_floating(),
    {
        self.floating
    }

    /// Returns the occluded half-open region.
    #[verifier::when_used_as_spec(spec_region)]
    pub fn region(self) -> (r: HitRegion)
        ensures
            r == self.spec_region(),
    {
        self.region
    }

    /// Returns the layer of the occluding presentation.
    #[verifier::when_used_as_spec(spec_layer)]
    pub fn layer(self) -> (r: SceneLayerKey)
        ensures
            r == self.spec_layer(),
    {
        self.layer
    }
}

/// Whether the unit lattice cell with corner `(x, y)` lies in the rectangle.
pub open spec fn rect_has_cell(r: LogicalRect, x: int, y: int) -> bool {
    r.x <= x < r.right() && r.y <= y < r.bottom()
}

/// Whether an occlusion above `layer` covers the unit cell at `(x, y)`.
pub open spec fn cell_occluded(
    occlusions: Seq<DropOcclusionRecord>,
    layer: SceneLayerKey,
    x: int,
    y: int,
) -> bool {
    exists|i: int|
        0 <= i < occlusions.len() && occlusions[i].layer().0 > layer.0 && #[trigger] rect_has_cell(
            occlusions[i].region().rect,
            x,
            y,
        )
}

/// Whether `region` keeps a positive-area part that no higher-layer occlusion covers.
///
/// An empty region has nothing to occlude and is treated as unobstructed.
pub open spec fn has_authoritative_area(
    region: LogicalRect,
    layer: SceneLayerKey,
    occlusions: Seq<DropOcclusionRecord>,
) -> bool {
    !region.has_area() || exists|x: int, y: int|
        #[trigger] rect_has_cell(region, x, y) && !cell_occluded(occlusions, layer, x, y)
}

/// Whether two rectangles intersect in a positive-area rectangle.
pub open spec fn overlaps_with_area(a: LogicalRect, b: LogicalRect) -> bool {
    max_int(a.x as int, b.x as int) < min_int(a.right(), b.right()) && max_int(
        a.y as int,
        b.y as int,
    ) < min_int(a.bottom(), b.bottom())
}

/// Larger of two integers.
pub open spec fn max_int(a: int, b: int) -> int {
    if a >= b {
        a
    } else {
        b
    }
}

/// Smaller of two integers.
pub open spec fn min_int(a: int, b: int) -> int {
    if a <= b {
        a
    } else {
        b
    }
}

proof fn lemma_shared_cell_overlaps(a: LogicalRect, b: LogicalRect, x: int, y: int)
    requires
        rect_has_cell(a, x, y),
        rect_has_cell(b, x, y),
    ensures
        overlaps_with_area(a, b),
{
}

/// Returns whether two rectangles intersect in a positive-area rectangle.
pub fn rects_overlap_with_area(a: LogicalRect, b: LogicalRect) -> (r: bool)
    ensures
        r == overlaps_with_area(a, b),
{
    let min_x = if a.x >= b.x {
        a.x as i64
    } else {
        b.x as i64
    };
    let max_x = if a.max_x() <= b.max_x() {
        a.max_x()
    } else {
        b.max_x()
    };
    let min_y = if a.y >= b.y {
        a.y as i64
    } else {
        b.y as i64
    };
    let max_y = if a.max_y() <= b.max_y() {
        a.max_y()
    } else {
        b.max_y()
    };
    min_x < max_x && min_y < max_y
}

/// Inserts `value` into a strictly increasing vector unless it is already present.
fn insert_edge(edges: &mut Vec<i64>, value: i64)
    requires
        forall|i: int, j: int| 0 <= i < j < old(edges)@.len() ==> old(edges)@[i] < old(edges)@[j],
    ensures
        forall|i: int, j: int|
            0 <= i < j < final(edges)@.len() ==> final(edges)@[i] < final(edges)@[j],
        forall|e: i64| #[trigger]
            final(edges)@.contains(e) <==> (old(edges)@.contains(e) || e == value),
{
    let mut position: usize = 0;
    while position < edges.len() && edges[position] < value
        invariant
            position <= edges@.len(),
            forall|i: int| 0 <= i < position ==> #[trigger] edges@[i] < value,
        decreases edges@.len() - position,
    {
        position = position + 1;
    }
    if position < edges.len() && edges[position] == value {
        assert(edges@[position as int] == value);
        return;
    }
    let ghost before = edges@;
    edges.insert(position, value);
    proof {
        assert forall|e: i64| #[trigger] edges@.contains(e) implies (before.contains(e) || e
            == value) by {
            let k = choose|k: int| 0 <= k < edges@.len() && edges@[k] == e;
            if k < position {
                assert(before[k] == e);
            } else if k > position {
                assert(before[k - 1] == e);
            }
        }
        assert forall|e: i64| #[trigger] before.contains(e) implies edges@.contains(e) by {
            let k = choose|k: int| 0 <= k < before.len() && before[k] == e;
            if k < position {
                assert(edges@[k] == e);
            } else {
                assert(edges@[k + 1] == e);
            }
        }
        assert(edges@[position as int] == value);
    }
}

/// Inserts an interval keeping the vector ordered by interval start.
fn insert_interval(intervals: &mut Vec<(i64, i64)>, value: (i64, i64))
    requires
        forall|i: int, j: int|
            0 <= i < j < old(intervals)@.len() ==> old(intervals)@[i].0 <= old(intervals)@[j].0,
    ensures
        forall|i: int, j: int|
            0 <= i < j < final(intervals)@.len() ==> final(intervals)@[i].0 <= final(intervals)@[j].0,
        forall|v: (i64, i64)| #[trigger]
            final(intervals)@.contains(v) <==> (old(intervals)@.contains(v) || v == value),
{
    let mut position: usize = 0;
    while position < intervals.len() && intervals[position].0 <= value.0
        invariant
            position <= intervals@.len(),
            forall|i: int| 0 <= i < position ==> #[trigger] intervals@[i].0 <= value.0,
        decreases intervals@.len() - position,
    {
        position = position + 1;
    }
    let ghost before = intervals@;
    intervals.insert(position, value);
    proof {
        assert forall|v: (i64, i64)| #[trigger] intervals@.contains(v) implies (before.contains(v)
            || v == value) by {
            let k = choose|k: int| 0 <= k < intervals@.len() && intervals@[k] == v;
            if k < position {
                assert(before[k] == v);
            } else if k > position {
                assert(before[k - 1] == v);
            }
        }
        assert forall|v: (i64, i64)| #[trigger] before.contains(v) implies intervals@.contains(v) by {
            let k = choose|k: int| 0 <= k < before.len() && before[k] == v;
            if k < position {
                assert(intervals@[k] == v);
            } else {
                assert(intervals@[k + 1] == v);
            }
        }
        assert(intervals@[position as int] == value);
    }
}

/// Whether an occluder rectangle spans the complete horizontal strip `[lo, hi)`.
pub open spec fn spans_strip(r: LogicalRect, lo: int, hi: int) -> bool {
    r.x <= lo && r.right() >= hi
}

/// Whether one of the first `count` intervals covers row `y`.
pub open spec fn row_covered(intervals: Seq<(i64, i64)>, count: int, y: int) -> bool {
    exists|a: int| 0 <= a < count && #[trigger] intervals[a].0 <= y < intervals[a].1
}

/// Whether one strictly increasing edge list is exactly sorted.
pub open spec fn strictly_increasing(s: Seq<i64>) -> bool {
    forall|i: int, j: int| 0 <= i < j < s.len() ==> s[i] < s[j]
}

/// Every unit cell of column strip `k` inside the region is occluded.
pub open spec fn strip_occluded(
    region: LogicalRect,
    layer: SceneLayerKey,
    occlusions: Seq<DropOcclusionRecord>,
    edges: Seq<i64>,
    k: int,
) -> bool {
    forall|x: int, y: int|
        edges[k] <= x < edges[k + 1] && region.y <= y < region.bottom() ==> #[trigger] cell_occluded(
            occlusions,
            layer,
            x,
            y,
        )
}

proof fn lemma_next_edge(s: Seq<i64>, k: int, v: i64)
    requires
        strictly_increasing(s),
        0 <= k < s.len() - 1,
        s.contains(v),
        v > s[k],
    ensures
        v >= s[k + 1],
{
    let m = choose|m: int| 0 <= m < s.len() && s[m] == v;
    if m <= k {
        if m < k {
            assert(s[m] < s[k]);
        }
    } else if m > k + 1 {
        assert(s[k + 1] < s[m]);
    }
}

proof fn lemma_locate_strip(s: Seq<i64>, x: int) -> (k: int)
    requires
        strictly_increasing(s),
        s.len() >= 2,
        s[0] <= x < s[s.len() - 1],
    ensures
        0 <= k < s.len() - 1,
        s[k] <= x < s[k + 1],
    decreases s.len(),
{
    if x < s[1] {
        0
    } else {
        let t = s.subrange(1, s.len() as int);
        assert(strictly_increasing(t));
        let k = lemma_locate_strip(t, x);
        k + 1
    }
}

/// Returns whether `region` keeps a positive-area part that no occlusion on a
/// layer above `layer` covers.
///
/// Occluders that overlap the region are cut into vertical strips at every
/// clamped occluder edge; inside each strip the occluders spanning it are
/// swept in start order, and the first uncovered gap proves authority.
pub fn region_has_authoritative_area(
    region: LogicalRect,
    layer: SceneLayerKey,
    occlusions: &[DropOcclusionRecord],
) -> (r: bool)
    ensures
        r == has_authoritative_area(region, layer, occlusions@),
{
    let ghost occ = occlusions@;
    let mut occluders: Vec<LogicalRect> = Vec::new();
    let mut index: usize = 0;
    while index < occlusions.len()
        invariant
            index <= occ.len(),
            occ == occlusions@,
            forall|rect: LogicalRect| #[trigger]
                occluders@.contains(rect) <==> exists|i: int|
                    0 <= i < index && occ[i].layer().0 > layer.0 && overlaps_with_area(
                        region,
                        occ[i].region().rect,
                    ) && occ[i].region().rect == rect,
        decreases occ.len() - index,
    {
        let occlusion = occlusions[index];
        let rect = occlusion.region().rect();
        let ghost before = occluders@;
        if occlusion.layer().get() > layer.get() && rects_overlap_with_area(region, rect) {
            occluders.push(rect);
            proof {
                assert(occluders@[before.len() as int] == rect);
                assert forall|q: LogicalRect| #[trigger] occluders@.contains(q) implies exists|i: int|
                    0 <= i < index + 1 && occ[i].layer().0 > layer.0 && overlaps_with_area(
                        region,
                        occ[i].region().rect,
                    ) && occ[i].region().rect == q by {
                    if q != rect {
                        let k = choose|k: int| 0 <= k < occluders@.len() && occluders@[k] == q;
                        assert(before[k] == q);
                        assert(before.contains(q));
                    }
                }
                assert forall|q: LogicalRect| (exists|i: int|
                    0 <= i < index + 1 && occ[i].layer().0 > layer.0 && overlaps_with_area(
                        region,
                        occ[i].region().rect,
                    ) && occ[i].region().rect == q) implies #[trigger] occluders@.contains(q) by {
                    if q != rect {
                        assert(before.contains(q));
                        let k = choose|k: int| 0 <= k < before.len() && before[k] == q;
                        assert(occluders@[k] == q);
                    }
                }
            }
        } else {
            proof {
                assert forall|q: LogicalRect| (exists|i: int|
                    0 <= i < index + 1 && occ[i].layer().0 > layer.0 && overlaps_with_area(
                        region,
                        occ[i].region().rect,
                    ) && occ[i].region().rect == q) implies #[trigger] occluders@.contains(q) by {
                    let i = choose|i: int|
                        0 <= i < index + 1 && occ[i].layer().0 > layer.0 && overlaps_with_area(
                            region,
                            occ[i].region().rect,
                        ) && occ[i].region().rect == q;
                    assert(i < index);
                }
            }
        }
        index = index + 1;
    }
    if occluders.len() == 0 {
        proof {
            if region.has_area() {
                assert(rect_has_cell(region, region.x as int, region.y as int));
                assert(!cell_occluded(occ, layer, region.x as int, region.y as int)) by {
                    if cell_occluded(occ, layer, region.x as int, region.y as int) {
                        let i = choose|i: int|
                            0 <= i < occ.len() && occ[i].layer().0 > layer.0
                                && #[trigger] rect_has_cell(
                                occ[i].region().rect,
                                region.x as int,
                                region.y as int,
                            );
                        lemma_shared_cell_overlaps(
                            region,
                            occ[i].region().rect,
                            region.x as int,
                            region.y as int,
                        );
                        assert(occluders@.contains(occ[i].region().rect));
                    }
                }
            }
        }
        return true;
    }
    proof {
        let q = occluders@[0];
        assert(occluders@.contains(q));
    }
    let region_right = region.max_x();
    let region_bottom = region.max_y();
    let mut edges: Vec<i64> = Vec::new();
    insert_edge(&mut edges, region.x as i64);
    insert_edge(&mut edges, region_right);
    let mut cursor: usize = 0;
    while cursor < occluders.len()
        invariant
            cursor <= occluders@.len(),
            region_right == region.right(),
            strictly_increasing(edges@),
            edges@.contains(region.x as i64),
            edges@.contains(region_right),
            forall|e: i64| #[trigger] edges@.contains(e) ==> region.x <= e <= region.right(),
            forall|j: int|
                0 <= j < cursor ==> edges@.contains(
                    max_int(#[trigger] occluders@[j].x as int, region.x as int) as i64,
                ) && edges@.contains(min_int(occluders@[j].right(), region.right()) as i64),
            forall|rect: LogicalRect| #[trigger]
                occluders@.contains(rect) ==> overlaps_with_area(region, rect),
        decreases occluders@.len() - cursor,
    {
        let occluder = occluders[cursor];
        assert(occluders@.contains(occluder));
        let low = if occluder.x >= region.x {
            occluder.x as i64
        } else {
            region.x as i64
        };
        let high = if occluder.max_x() <= region_right {
            occluder.max_x()
        } else {
            region_right
        };
        insert_edge(&mut edges, low);
        insert_edge(&mut edges, high);
        cursor = cursor + 1;
    }
    proof {
        let n = edges@.len() as int;
        let a = choose|m: int| 0 <= m < n && edges@[m] == region.x as i64;
        let b = choose|m: int| 0 <= m < n && edges@[m] == region_right;
        if a > 0 {
            assert(edges@.contains(edges@[0]));
            assert(edges@[0] < edges@[a]);
        }
        if b < n - 1 {
            assert(edges@.contains(edges@[n - 1]));
            assert(edges@[b] < edges@[n - 1]);
        }
        let q = occluders@[0];
        assert(overlaps_with_area(region, q));
        assert(n >= 2) by {
            if n < 2 {
                assert(a == 0 && b == 0);
            }
        }
    }
    let mut strip: usize = 0;
    let strip_count = edges.len() - 1;
    while strip < strip_count
        invariant
            strip_count == edges@.len() - 1,
            edges@.len() >= 2,
            strip + 1 <= edges@.len(),
            region_right == region.right(),
            region_bottom == region.bottom(),
            region.has_area(),
            strictly_increasing(edges@),
            edges@[0] == region.x,
            edges@[edges@.len() - 1] == region.right(),
            forall|e: i64| #[trigger] edges@.contains(e) ==> region.x <= e <= region.right(),
            forall|j: int|
                0 <= j < occluders@.len() ==> edges@.contains(
                    max_int(#[trigger] occluders@[j].x as int, region.x as int) as i64,
                ) && edges@.contains(min_int(occluders@[j].right(), region.right()) as i64),
            forall|rect: LogicalRect| #[trigger]
                occluders@.contains(rect) <==> exists|i: int|
                    0 <= i < occ.len() && occ[i].layer().0 > layer.0 && overlaps_with_area(
                        region,
                        occ[i].region().rect,
                    ) && occ[i].region().rect == rect,
            occ == occlusions@,
            forall|k: int| 0 <= k < strip ==> strip_occluded(region, layer, occ, edges@, k),
        decreases edges@.len() - strip,
    {
        let strip_min = edges[strip];
        let strip_max = edges[strip + 1];
        let mut intervals: Vec<(i64, i64)> = Vec::new();
        let mut j: usize = 0;
        #[verifier::loop_isolation(false)]
        while j < occluders.len()
            invariant
                j <= occluders@.len(),
                region_bottom == region.bottom(),
                forall|a: int, b: int|
                    0 <= a < b < intervals@.len() ==> intervals@[a].0 <= intervals@[b].0,
                forall|v: (i64, i64)| #[trigger]
                    intervals@.contains(v) <==> exists|m: int|
                        0 <= m < j && spans_strip(occluders@[m], strip_min as int, strip_max as int)
                            && v.0 == max_int(occluders@[m].y as int, region.y as int) && v.1
                            == min_int(occluders@[m].bottom(), region.bottom()),
            decreases occluders@.len() - j,
        {
            let occluder = occluders[j];
            let ghost before = intervals@;
            if (occluder.x as i64) <= strip_min && occluder.max_x() >= strip_max {
                let low = if occluder.y >= region.y {
                    occluder.y as i64
                } else {
                    region.y as i64
                };
                let high = if occluder.max_y() <= region_bottom {
                    occluder.max_y()
                } else {
                    region_bottom
                };
                insert_interval(&mut intervals, (low, high));
                proof {
                    assert forall|v: (i64, i64)| #[trigger] intervals@.contains(v) implies exists|m: int|
                        0 <= m < j + 1 && spans_strip(
                            occluders@[m],
                            strip_min as int,
                            strip_max as int,
                        ) && v.0 == max_int(occluders@[m].y as int, region.y as int) && v.1
                            == min_int(occluders@[m].bottom(), region.bottom()) by {
                        if v != (low, high) {
                            assert(before.contains(v));
                        }
                    }
                    assert forall|v: (i64, i64)| (exists|m: int|
                        0 <= m < j + 1 && spans_strip(
                            occluders@[m],
                            strip_min as int,
                            strip_max as int,
                        ) && v.0 == max_int(occluders@[m].y as int, region.y as int) && v.1
                            == min_int(
                            occluders@[m].bottom(),
                            region.bottom(),
                        )) implies #[trigger] intervals@.contains(v) by {
                        let m = choose|m: int|
                            0 <= m < j + 1 && spans_strip(
                                occluders@[m],
                                strip_min as int,
                                strip_max as int,
                            ) && v.0 == max_int(occluders@[m].y as int, region.y as int) && v.1
                                == min_int(occluders@[m].bottom(), region.bottom());
                        if m < j {
                            assert(before.contains(v));
                        }
                    }
                }
            } else {
                proof {
                    assert forall|v: (i64, i64)| (exists|m: int|
                        0 <= m < j + 1 && spans_strip(
                            occluders@[m],
                            strip_min as int,
                            strip_max as int,
                        ) && v.0 == max_int(occluders@[m].y as int, region.y as int) && v.1
                            == min_int(
                            occluders@[m].bottom(),
                            region.bottom(),
                        )) implies #[trigger] intervals@.contains(v) by {
                        let m = choose|m: int|
                            0 <= m < j + 1 && spans_strip(
                                occluders@[m],
                                strip_min as int,
                                strip_max as int,
                            ) && v.0 == max_int(occluders@[m].y as int, region.y as int) && v.1
                                == min_int(occluders@[m].bottom(), region.bottom());
                        assert(m < j);
                    }
                }
            }
            j = j + 1;
        }
        let mut covered_to: i64 = region.y as i64;
        let mut cursor: usize = 0;
        #[verifier::loop_isolation(false)]
        while cursor < intervals.len() && covered_to < region_bottom
            invariant
                cursor <= intervals@.len(),
                region_bottom == region.bottom(),
                region.y <= covered_to <= region.bottom(),
                forall|a: int, b: int|
                    0 <= a < b < intervals@.len() ==> intervals@[a].0 <= intervals@[b].0,
                forall|v: (i64, i64)| #[trigger]
                    intervals@.contains(v) ==> v.1 <= region.bottom(),
                forall|a: int| 0 <= a < cursor ==> #[trigger] intervals@[a].1 <= covered_to,
                forall|y: int|
                    region.y <= y < covered_to ==> #[trigger] row_covered(intervals@, cursor as int, y),
            decreases intervals@.len() - cursor,
        {
            let (low, high) = intervals[cursor];
            if low > covered_to {
                proof {
                    assert forall|a: int| 0 <= a < intervals@.len() implies !(
                    #[trigger] intervals@[a].0 <= covered_to < intervals@[a].1) by {
                        if a > cursor {
                            assert(intervals@[cursor as int].0 <= intervals@[a].0);
                        }
                    }
                    self::lemma_gap_is_authoritative(
                        region,
                        layer,
                        occ,
                        occluders@,
                        edges@,
                        strip as int,
                        intervals@,
                        covered_to as int,
                    );
                }
                return true;
            }
            let ghost previous = covered_to;
            if high > covered_to {
                covered_to = high;
            }
            proof {
                assert(intervals@.contains(intervals@[cursor as int]));
                assert forall|y: int| region.y <= y < covered_to implies #[trigger] row_covered(
                    intervals@,
                    cursor + 1,
                    y,
                ) by {
                    if y >= previous {
                        assert(intervals@[cursor as int].0 <= y < intervals@[cursor as int].1);
                    } else {
                        assert(row_covered(intervals@, cursor as int, y));
                    }
                }
            }
            cursor = cursor + 1;
        }
        if covered_to < region_bottom {
            proof {
                assert forall|a: int| 0 <= a < intervals@.len() implies !(
                #[trigger] intervals@[a].0 <= covered_to < intervals@[a].1) by {
                    assert(a < cursor);
                }
                self::lemma_gap_is_authoritative(
                    region,
                    layer,
                    occ,
                    occluders@,
                    edges@,
                    strip as int,
                    intervals@,
                    covered_to as int,
                );
            }
            return true;
        }
        proof {
            assert forall|x: int, y: int|
                edges@[strip as int] <= x < edges@[strip + 1] && region.y <= y
                    < region.bottom() implies #[trigger] cell_occluded(occ, layer, x, y) by {
                assert(row_covered(intervals@, cursor as int, y));
                let a = choose|a: int|
                    0 <= a < cursor && #[trigger] intervals@[a].0 <= y < intervals@[a].1;
                assert(intervals@.contains(intervals@[a]));
                let m = choose|m: int|
                    0 <= m < occluders@.len() && spans_strip(
                        occluders@[m],
                        strip_min as int,
                        strip_max as int,
                    ) && intervals@[a].0 == max_int(occluders@[m].y as int, region.y as int)
                        && intervals@[a].1 == min_int(occluders@[m].bottom(), region.bottom());
                let rect = occluders@[m];
                assert(occluders@.contains(rect));
                let i = choose|i: int|
                    0 <= i < occ.len() && occ[i].layer().0 > layer.0 && overlaps_with_area(
                        region,
                        occ[i].region().rect,
                    ) && occ[i].region().rect == rect;
                assert(rect_has_cell(occ[i].region().rect, x, y));
            }
        }
        strip = strip + 1;
    }
    proof {
        assert(!exists|x: int, y: int|
            #[trigger] rect_has_cell(region, x, y) && !cell_occluded(occ, layer, x, y)) by {
            if exists|x: int, y: int|
                #[trigger] rect_has_cell(region, x, y) && !cell_occluded(occ, layer, x, y) {
                let (x, y) = choose|x: int, y: int|
                    #[trigger] rect_has_cell(region, x, y) && !cell_occluded(occ, layer, x, y);
                let k = lemma_locate_strip(edges@, x);
                assert(strip_occluded(region, layer, occ, edges@, k));
                assert(cell_occluded(occ, layer, x, y));
            }
        }
    }
    false
}

/// A row `y` of strip `k` that no spanning interval covers is an authoritative cell.
proof fn lemma_gap_is_authoritative(
    region: LogicalRect,
    layer: SceneLayerKey,
    occ: Seq<DropOcclusionRecord>,
    occluders: Seq<LogicalRect>,
    edges: Seq<i64>,
    k: int,
    intervals: Seq<(i64, i64)>,
    y: int,
)
    requires
        edges.len() >= 2,
        0 <= k < edges.len() - 1,
        strictly_increasing(edges),
        edges[edges.len() - 1] == region.right(),
        forall|e: i64| #[trigger] edges.contains(e) ==> region.x <= e <= region.right(),
        forall|j: int|
            0 <= j < occluders.len() ==> edges.contains(
                max_int(#[trigger] occluders[j].x as int, region.x as int) as i64,
            ) && edges.contains(min_int(occluders[j].right(), region.right()) as i64),
        forall|rect: LogicalRect| #[trigger]
            occluders.contains(rect) <==> exists|i: int|
                0 <= i < occ.len() && occ[i].layer().0 > layer.0 && overlaps_with_area(
                    region,
                    occ[i].region().rect,
                ) && occ[i].region().rect == rect,
        forall|v: (i64, i64)| #[trigger]
            intervals.contains(v) <==> exists|m: int|
                0 <= m < occluders.len() && spans_strip(
                    occluders[m],
                    edges[k] as int,
                    edges[k + 1] as int,
                ) && v.0 == max_int(occluders[m].y as int, region.y as int) && v.1 == min_int(
                    occluders[m].bottom(),
                    region.bottom(),
                ),
        region.y <= y < region.bottom(),
        forall|a: int| 0 <= a < intervals.len() ==> !(#[trigger] intervals[a].0 <= y < intervals[a].1),
    ensures
        has_authoritative_area(region, layer, occ),
{
    let x = edges[k] as int;
    assert(edges.contains(edges[k]));
    assert(edges[k] < edges[k + 1]);
    assert(edges.contains(edges[k + 1]));
    assert(rect_has_cell(region, x, y));
    assert(!cell_occluded(occ, layer, x, y)) by {
        if cell_occluded(occ, layer, x, y) {
            let i = choose|i: int|
                0 <= i < occ.len() && occ[i].layer().0 > layer.0 && #[trigger] rect_has_cell(
                    occ[i].region().rect,
                    x,
                    y,
                );
            let rect = occ[i].region().rect;
            lemma_shared_cell_overlaps(region, rect, x, y);
            assert(occluders.contains(rect));
            let m = choose|m: int| 0 <= m < occluders.len() && occluders[m] == rect;
            let high = min_int(rect.right(), region.right()) as i64;
            assert(edges.contains(high));
            lemma_next_edge(edges, k, high);
            assert(spans_strip(rect, edges[k] as int, edges[k + 1] as int));
            let v = (
                max_int(rect.y as int, region.y as int) as i64,
                min_int(rect.bottom(), region.bottom()) as i64,
            );
            assert(intervals.contains(v));
            let a = choose|a: int| 0 <= a < intervals.len() && intervals[a] == v;
            assert(intervals[a].0 <= y < intervals[a].1);
        }
    }
}

/// Adding an occlusion never gives a region authority it did not have.
pub proof fn lemma_occlusion_only_removes_authority(
    region: LogicalRect,
    layer: SceneLayerKey,
    occlusions: Seq<DropOcclusionRecord>,
    extra: DropOcclusionRecord,
)
    ensures
        has_authoritative_area(region, layer, occlusions.push(extra)) ==> has_authoritative_area(
            region,
            layer,
            occlusions,
        ),
{
    let more = occlusions.push(extra);
    if region.has_area() && has_authoritative_area(region, layer, more) {
        let (x, y) = choose|x: int, y: int|
            #[trigger] rect_has_cell(region, x, y) && !cell_occluded(more, layer, x, y);
        if cell_occluded(occlusions, layer, x, y) {
            let i = choose|i: int|
                0 <= i < occlusions.len() && occlusions[i].layer().0 > layer.0
                    && #[trigger] rect_has_cell(occlusions[i].region().rect, x, y);
            assert(more[i] == occlusions[i]);
        }
    }
}

/// An occlusion on a higher layer that covers the whole region leaves it no
/// authoritative area.
pub proof fn lemma_covering_occlusion_removes_authority(
    region: LogicalRect,
    layer: SceneLayerKey,
    occlusions: Seq<DropOcclusionRecord>,
    i: int,
)
    requires
        region.has_area(),
        0 <= i < occlusions.len(),
        occlusions[i].layer().0 > layer.0,
        occlusions[i].region().rect.x <= region.x,
        occlusions[i].region().rect.y <= region.y,
        region.right() <= occlusions[i].region().rect.right(),
        region.bottom() <= occlusions[i].region().rect.bottom(),
    ensures
        !has_authoritative_area(region, layer, occlusions),
{
    assert forall|x: int, y: int| #[trigger] rect_has_cell(region, x, y) implies cell_occluded(
        occlusions,
        layer,
        x,
        y,
    ) by {
        assert(rect_has_cell(occlusions[i].region().rect, x, y));
    }
}

/// Occlusions on the region's own layer or below never remove authority.
pub proof fn lemma_lower_occlusions_are_ignored(
    region: LogicalRect,
    layer: SceneLayerKey,
    occlusions: Seq<DropOcclusionRecord>,
)
    requires
        forall|i: int| 0 <= i < occlusions.len() ==> occlusions[i].layer().0 <= layer.0,
    ensures
        has_authoritative_area(region, layer, occlusions),
{
    if region.has_area() {
        assert(rect_has_cell(region, region.x as int, region.y as int));
        assert(!cell_occluded(occlusions, layer, region.x as int, region.y as int));
    }
}

} // verus!
