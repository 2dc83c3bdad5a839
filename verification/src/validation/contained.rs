//! Contained-presentation records: one record for each contained
//! presentation of the surface's roster that overlaps the surface, in roster
//! order, each partitioned exactly inside its clipped placement.

use vstd::prelude::*;

use crate::geometry::LogicalRect;
use crate::ids::{FloatingPresentationId, RootId, SceneLayerKey};
use crate::occlusion::{overlaps_with_area, rects_overlap_with_area};
use crate::plan::PresentationPlan;
use crate::records::contained::{
    ContainedMinimumMeasurement, ContainedRecord, ContainedResizeDirection,
};
use crate::geometry::LogicalSize;
use crate::validation::tab_bars::{
    exact_intersection, rect_contains, rect_is_exact_intersection, rect_within,
};
use crate::validation::SceneBuildError;

verus! {

/// Where the workspace places one contained presentation of a surface.
#[derive(Debug, Clone, Copy, PartialEq, Eq, Structural)]
pub struct IndexedContained {
    /// The contained presentation.
    pub floating: FloatingPresentationId,
    /// Its root.
    pub root: RootId,
    /// Its durable placement on the surface.
    pub rect: LogicalRect,
}

/// The roster entries overlapping `bounds`, each with its roster ordinal, in
/// roster order.
pub open spec fn visible_contained(bounds: LogicalRect, roster: Seq<IndexedContained>) -> Seq<
    (IndexedContained, int),
>
    decreases roster.len(),
{
    if roster.len() == 0 {
        Seq::empty()
    } else {
        let rest = visible_contained(bounds, roster.drop_last());
        if overlaps_with_area(bounds, roster.last().rect) {
            rest.push((roster.last(), roster.len() - 1))
        } else {
            rest
        }
    }
}

/// The minimum size measured last for `floating`, if any.
pub open spec fn last_minimum(
    minimums: Seq<ContainedMinimumMeasurement>,
    floating: FloatingPresentationId,
) -> Option<LogicalSize>
    decreases minimums.len(),
{
    if minimums.len() == 0 {
        None
    } else if minimums.last().floating() == floating {
        Some(minimums.last().minimum_size())
    } else {
        last_minimum(minimums.drop_last(), floating)
    }
}

/// The canonical direction of the `k`-th resize region.
pub open spec fn resize_direction(k: int) -> ContainedResizeDirection {
    if k == 0 {
        ContainedResizeDirection::NorthWest
    } else if k == 1 {
        ContainedResizeDirection::North
    } else if k == 2 {
        ContainedResizeDirection::NorthEast
    } else if k == 3 {
        ContainedResizeDirection::East
    } else if k == 4 {
        ContainedResizeDirection::SouthEast
    } else if k == 5 {
        ContainedResizeDirection::South
    } else if k == 6 {
        ContainedResizeDirection::SouthWest
    } else {
        ContainedResizeDirection::West
    }
}

fn resize_direction_exec(k: usize) -> (r: ContainedResizeDirection)
    ensures
        r == resize_direction(k as int),
{
    if k == 0 {
        ContainedResizeDirection::NorthWest
    } else if k == 1 {
        ContainedResizeDirection::North
    } else if k == 2 {
        ContainedResizeDirection::NorthEast
    } else if k == 3 {
        ContainedResizeDirection::East
    } else if k == 4 {
        ContainedResizeDirection::SouthEast
    } else if k == 5 {
        ContainedResizeDirection::South
    } else if k == 6 {
        ContainedResizeDirection::SouthWest
    } else {
        ContainedResizeDirection::West
    }
}

/// A contained record is the `ordinal`-th roster presentation `entry`: same
/// identity and root, the layer of roster position `ordinal`, and its
/// measured minimum size; its outer bounds are the
/// placement clipped to the surface and enclose its inner, title, content,
/// drag, and close partition; its eight resize regions lie inside it in
/// canonical direction order without overlapping.
pub open spec fn contained_record_valid(
    plan: &PresentationPlan,
    minimums: Seq<ContainedMinimumMeasurement>,
    record: ContainedRecord,
    entry: IndexedContained,
    ordinal: int,
) -> bool {
    let outer = record.outer_bounds();
    let title = record.title_bounds();
    let drag = record.title_drag_hit().rect;
    let resize = record.spec_resize()@;
    &&& record.floating() == entry.floating
    &&& record.ordinal() == ordinal
    &&& record.root() == entry.root
    &&& 0 <= ordinal <= usize::MAX
    &&& SceneLayerKey::spec_contained(ordinal as usize) == Some(record.layer())
    &&& last_minimum(minimums, entry.floating) == Some(record.minimum_size())
    &&& exact_intersection(outer, plan.bounds(), entry.rect)
    &&& outer.has_area()
    &&& rect_within(outer, record.inner_bounds())
    &&& rect_within(record.inner_bounds(), title)
    &&& rect_within(record.inner_bounds(), record.content_bounds())
    &&& rect_within(title, drag)
    &&& !overlaps_with_area(title, record.content_bounds())
    &&& match record.close_bounds() {
        Some(close) => close.has_area() && rect_within(title, close) && !overlaps_with_area(
            close,
            drag,
        ),
        None => true,
    }
    &&& forall|k: int|
        0 <= k < 8 ==> (#[trigger] resize[k]).direction() == resize_direction(k) && rect_within(
            outer,
            resize[k].hit().rect,
        )
    &&& forall|k: int, l: int|
        0 <= k < l < 8 ==> !overlaps_with_area(
            (#[trigger] resize[k]).hit().rect,
            (#[trigger] resize[l]).hit().rect,
        )
}

/// `i` is the first position of a contained record that does not match its
/// visible roster presentation.
pub open spec fn first_invalid_contained(
    plan: &PresentationPlan,
    roster: Seq<IndexedContained>,
    i: int,
) -> bool {
    let expected = visible_contained(plan.bounds(), roster);
    let records = plan.contained_view();
    &&& 0 <= i < records.len()
    &&& !contained_record_valid(plan, plan.minimums_view(), records[i], expected[i].0, expected[i].1)
    &&& forall|j: int|
        0 <= j < i ==> contained_record_valid(
            plan,
            plan.minimums_view(),
            #[trigger] records[j],
            expected[j].0,
            expected[j].1,
        )
}

/// How the plan's contained records fail to match the visible roster: first
/// a count mismatch, then the first record that differs from its
/// presentation.
pub open spec fn contained_records_error(plan: &PresentationPlan, roster: Seq<IndexedContained>) -> Option<
    SceneBuildError,
> {
    let expected = visible_contained(plan.bounds(), roster);
    let records = plan.contained_view();
    if records.len() != expected.len() {
        Some(SceneBuildError::ContainedRecordSetMismatch { surface: plan.surface() })
    } else if exists|i: int| first_invalid_contained(plan, roster, i) {
        let i = choose|i: int| first_invalid_contained(plan, roster, i);
        Some(
            SceneBuildError::InvalidContainedRecord {
                surface: plan.surface(),
                floating: records[i].floating(),
            },
        )
    } else {
        None
    }
}

fn visible_contained_exec(bounds: LogicalRect, roster: &[IndexedContained]) -> (r: Vec<
    (IndexedContained, usize),
>)
    ensures
        r@.len() == visible_contained(bounds, roster@).len(),
        forall|i: int|
            0 <= i < r@.len() ==> (#[trigger] r@[i]).0 == visible_contained(bounds, roster@)[i].0
                && r@[i].1 == visible_contained(bounds, roster@)[i].1,
{
    let mut out: Vec<(IndexedContained, usize)> = Vec::new();
    let mut k: usize = 0;
    while k < roster.len()
        invariant
            k <= roster@.len(),
            out@.len() == visible_contained(bounds, roster@.take(k as int)).len(),
            forall|i: int|
                0 <= i < out@.len() ==> (#[trigger] out@[i]).0 == visible_contained(
                    bounds,
                    roster@.take(k as int),
                )[i].0 && out@[i].1 == visible_contained(bounds, roster@.take(k as int))[i].1,
        decreases roster@.len() - k,
    {
        proof {
            assert(roster@.take(k + 1).drop_last() =~= roster@.take(k as int));
            assert(roster@.take(k + 1).last() == roster@[k as int]);
        }
        let entry = roster[k];
        if rects_overlap_with_area(bounds, entry.rect) {
            out.push((entry, k));
        }
        k = k + 1;
    }
    proof {
        assert(roster@.take(k as int) =~= roster@);
    }
    out
}

fn last_minimum_exec(minimums: &[ContainedMinimumMeasurement], floating: FloatingPresentationId) -> (r:
    Option<LogicalSize>)
    ensures
        r == last_minimum(minimums@, floating),
{
    let mut found: Option<LogicalSize> = None;
    let mut k: usize = 0;
    while k < minimums.len()
        invariant
            k <= minimums@.len(),
            found == last_minimum(minimums@.take(k as int), floating),
        decreases minimums@.len() - k,
    {
        proof {
            assert(minimums@.take(k + 1).drop_last() =~= minimums@.take(k as int));
            assert(minimums@.take(k + 1).last() == minimums@[k as int]);
        }
        if minimums[k].floating() == floating {
            found = Some(minimums[k].minimum_size());
        }
        k = k + 1;
    }
    proof {
        assert(minimums@.take(k as int) =~= minimums@);
    }
    found
}

fn contained_record_matches(
    ready: &PresentationPlan,
    record: &ContainedRecord,
    entry: IndexedContained,
    ordinal: usize,
) -> (r: bool)
    ensures
        r == contained_record_valid(ready, ready.minimums_view(), *record, entry, ordinal as int),
{
    let outer = record.outer_bounds();
    let inner = record.inner_bounds();
    let title = record.title_bounds();
    let content = record.content_bounds();
    let drag = record.title_drag_hit().rect();
    let layer_matches = match SceneLayerKey::contained(ordinal) {
        Some(layer) => layer == record.layer(),
        None => false,
    };
    let valid_identity = record.floating() == entry.floating && record.ordinal() == ordinal
        && record.root() == entry.root && layer_matches && match last_minimum_exec(
        ready.contained_minimums(),
        entry.floating,
    ) {
        Some(size) => size == record.minimum_size(),
        None => false,
    };
    let valid_partition = rect_is_exact_intersection(outer, ready.bounds(), entry.rect)
        && outer.is_positive() && rect_contains(outer, inner) && rect_contains(inner, title)
        && rect_contains(inner, content) && rect_contains(title, drag) && !rects_overlap_with_area(
        title,
        content,
    ) && match record.close_bounds() {
        Some(close) => close.is_positive() && rect_contains(title, close)
            && !rects_overlap_with_area(close, drag),
        None => true,
    };
    if !valid_identity || !valid_partition {
        return false;
    }
    let resize = record.resize();
    let mut k: usize = 0;
    while k < 8
        invariant
            k <= 8,
            *resize == record.spec_resize(),
            outer == record.outer_bounds(),
            forall|j: int|
                0 <= j < k ==> (#[trigger] resize@[j]).direction() == resize_direction(j)
                    && rect_within(outer, resize@[j].hit().rect),
            forall|j: int, l: int|
                0 <= j < l < k ==> !overlaps_with_area(
                    (#[trigger] resize@[j]).hit().rect,
                    (#[trigger] resize@[l]).hit().rect,
                ),
        decreases 8 - k,
    {
        let region = resize[k];
        if region.direction() != resize_direction_exec(k) || !rect_contains(outer, region.hit().rect()) {
            return false;
        }
        let mut j: usize = 0;
        while j < k
            invariant
                j <= k < 8,
                *resize == record.spec_resize(),
                region == resize@[k as int],
                forall|m: int| 0 <= m < j ==> !overlaps_with_area(
                    (#[trigger] resize@[m]).hit().rect,
                    region.hit().rect,
                ),
            decreases k - j,
        {
            if rects_overlap_with_area(resize[j].hit().rect(), region.hit().rect()) {
                return false;
            }
            j = j + 1;
        }
        k = k + 1;
    }
    true
}

/// Rejects a plan whose contained records are not exactly the contained
/// presentations of the surface's roster that overlap the surface, in roster
/// order, each matching its placement.
pub fn validate_contained_records(ready: &PresentationPlan, roster: &[IndexedContained]) -> (r:
    Result<(), SceneBuildError>)
    ensures
        r == match contained_records_error(ready, roster@) {
            Some(error) => Err(error),
            None => Ok(()),
        },
{
    let expected = visible_contained_exec(ready.bounds(), roster);
    let ghost spec_expected = visible_contained(ready.bounds(), roster@);
    let records = ready.contained_records();
    if records.len() != expected.len() {
        return Err(SceneBuildError::ContainedRecordSetMismatch { surface: ready.surface() });
    }
    let mut i: usize = 0;
    while i < records.len()
        invariant
            i <= records@.len(),
            records@ == ready.contained_view(),
            spec_expected == visible_contained(ready.bounds(), roster@),
            records@.len() == expected@.len(),
            expected@.len() == spec_expected.len(),
            forall|k: int|
                0 <= k < expected@.len() ==> (#[trigger] expected@[k]).0 == spec_expected[k].0
                    && expected@[k].1 == spec_expected[k].1,
            forall|j: int|
                0 <= j < i ==> contained_record_valid(
                    ready,
                    ready.minimums_view(),
                    #[trigger] records@[j],
                    spec_expected[j].0,
                    spec_expected[j].1,
                ),
        decreases records@.len() - i,
    {
        let (entry, ordinal) = expected[i];
        proof {
            assert(expected@[i as int].0 == spec_expected[i as int].0);
        }
        if !contained_record_matches(ready, &records[i], entry, ordinal) {
            proof {
                assert(first_invalid_contained(ready, roster@, i as int));
                let c = choose|c: int| first_invalid_contained(ready, roster@, c);
                if c < i {
                    assert(contained_record_valid(
                        ready,
                        ready.minimums_view(),
                        records@[c],
                        spec_expected[c].0,
                        spec_expected[c].1,
                    ));
                }
                if c > i {
                    assert(contained_record_valid(
                        ready,
                        ready.minimums_view(),
                        records@[i as int],
                        spec_expected[i as int].0,
                        spec_expected[i as int].1,
                    ));
                }
            }
            return Err(
                SceneBuildError::InvalidContainedRecord {
                    surface: ready.surface(),
                    floating: records[i].floating(),
                },
            );
        }
        i = i + 1;
    }
    proof {
        assert forall|j: int| !#[trigger] first_invalid_contained(ready, roster@, j) by {
            if first_invalid_contained(ready, roster@, j) {
                assert(contained_record_valid(
                    ready,
                    ready.minimums_view(),
                    records@[j],
                    spec_expected[j].0,
                    spec_expected[j].1,
                ));
            }
        }
    }
    Ok(())
}

/// Each visible presentation carries its roster entry and roster ordinal and
/// overlaps `bounds` with area, the ordinals strictly increase, and every
/// roster entry overlapping `bounds` with area is visible.
pub proof fn lemma_visible_contained_ordinals(bounds: LogicalRect, roster: Seq<IndexedContained>)
    ensures
        forall|i: int|
            0 <= i < visible_contained(bounds, roster).len() ==> {
                let v = #[trigger] visible_contained(bounds, roster)[i];
                &&& 0 <= v.1 < roster.len()
                &&& v.0 == roster[v.1]
                &&& overlaps_with_area(bounds, v.0.rect)
            },
        forall|i: int, j: int|
            0 <= i < j < visible_contained(bounds, roster).len() ==> (#[trigger] visible_contained(
                bounds,
                roster,
            )[i]).1 < (#[trigger] visible_contained(bounds, roster)[j]).1,
        forall|k: int|
            0 <= k < roster.len() && overlaps_with_area(bounds, (#[trigger] roster[k]).rect) ==> exists|
                i: int,
            |
                0 <= i < visible_contained(bounds, roster).len() && visible_contained(bounds, roster)[i].1
                    == k,
    decreases roster.len(),
{
    if roster.len() > 0 {
        let rest = roster.drop_last();
        lemma_visible_contained_ordinals(bounds, rest);
        let vr = visible_contained(bounds, rest);
        let v = visible_contained(bounds, roster);
        assert forall|i: int| 0 <= i < vr.len() implies #[trigger] roster[vr[i].1] == rest[vr[i].1] by {}
        if overlaps_with_area(bounds, roster.last().rect) {
            assert(v == vr.push((roster.last(), roster.len() - 1)));
            assert forall|i: int| 0 <= i < v.len() implies {
                let e = #[trigger] v[i];
                &&& 0 <= e.1 < roster.len()
                &&& e.0 == roster[e.1]
                &&& overlaps_with_area(bounds, e.0.rect)
            } by {
                if i < vr.len() {
                    assert(v[i] == vr[i]);
                    assert(roster[vr[i].1] == rest[vr[i].1]);
                }
            }
            assert forall|i: int, j: int| 0 <= i < j < v.len() implies (#[trigger] v[i]).1 < (#[trigger] v[j]).1 by {
                if j < vr.len() {
                    assert(v[i] == vr[i] && v[j] == vr[j]);
                } else {
                    assert(v[i] == vr[i]);
                }
            }
            assert forall|k: int|
                0 <= k < roster.len() && overlaps_with_area(bounds, (#[trigger] roster[k]).rect) implies exists|
                    i: int,
                | 0 <= i < v.len() && v[i].1 == k by {
                if k == roster.len() - 1 {
                    assert(v[vr.len() as int].1 == k);
                } else {
                    assert(roster[k] == rest[k]);
                    let i = choose|i: int| 0 <= i < vr.len() && vr[i].1 == k;
                    assert(v[i] == vr[i]);
                }
            }
        } else {
            assert forall|i: int| 0 <= i < v.len() implies {
                let e = #[trigger] v[i];
                &&& 0 <= e.1 < roster.len()
                &&& e.0 == roster[e.1]
                &&& overlaps_with_area(bounds, e.0.rect)
            } by {
                assert(roster[vr[i].1] == rest[vr[i].1]);
            }
            assert forall|k: int|
                0 <= k < roster.len() && overlaps_with_area(bounds, (#[trigger] roster[k]).rect) implies exists|
                    i: int,
                | 0 <= i < v.len() && v[i].1 == k by {
                assert(k != roster.len() - 1);
                assert(roster[k] == rest[k]);
            }
        }
    }
}

/// The last minimum measured for a presentation is one of its measurements.
pub proof fn lemma_last_minimum_measured(
    minimums: Seq<ContainedMinimumMeasurement>,
    floating: FloatingPresentationId,
)
    ensures
        last_minimum(minimums, floating) matches Some(size) ==> exists|j: int|
            0 <= j < minimums.len() && (#[trigger] minimums[j]).floating() == floating
                && minimums[j].minimum_size() == size,
    decreases minimums.len(),
{
    if minimums.len() > 0 {
        lemma_last_minimum_measured(minimums.drop_last(), floating);
        if minimums.last().floating() != floating {
            if let Some(size) = last_minimum(minimums, floating) {
                let j = choose|j: int|
                    0 <= j < minimums.drop_last().len() && (#[trigger] minimums.drop_last()[j]).floating()
                        == floating && minimums.drop_last()[j].minimum_size() == size;
                assert(minimums[j] == minimums.drop_last()[j]);
            }
        } else {
            assert(minimums[minimums.len() - 1] == minimums.last());
        }
    }
}

proof fn lemma_first_invalid_contained_exists(
    plan: &PresentationPlan,
    roster: Seq<IndexedContained>,
    i: int,
)
    requires
        0 <= i < plan.contained_view().len(),
        !contained_record_valid(
            plan,
            plan.minimums_view(),
            plan.contained_view()[i],
            visible_contained(plan.bounds(), roster)[i].0,
            visible_contained(plan.bounds(), roster)[i].1,
        ),
    ensures
        exists|k: int| first_invalid_contained(plan, roster, k),
    decreases i,
{
    let expected = visible_contained(plan.bounds(), roster);
    let records = plan.contained_view();
    if forall|j: int|
        0 <= j < i ==> contained_record_valid(
            plan,
            plan.minimums_view(),
            #[trigger] records[j],
            expected[j].0,
            expected[j].1,
        ) {
        assert(first_invalid_contained(plan, roster, i));
    } else {
        let j = choose|j: int|
            0 <= j < i && !contained_record_valid(
                plan,
                plan.minimums_view(),
                #[trigger] records[j],
                expected[j].0,
                expected[j].1,
            );
        lemma_first_invalid_contained_exists(plan, roster, j);
    }
}

/// No presentation occurs twice in the roster.
pub open spec fn roster_floatings_distinct(roster: Seq<IndexedContained>) -> bool {
    forall|i: int, j: int|
        0 <= i < j < roster.len() ==> (#[trigger] roster[i]).floating != (#[trigger] roster[j]).floating
}

/// Contained records that pass validation are exactly the visible roster
/// presentations in roster order: record `i` is the `i`-th presentation that
/// overlaps the surface, with its roster ordinal, ordinals strictly increase,
/// and over a roster without repeats no presentation is published twice.
pub proof fn lemma_validated_contained_follow_roster(plan: &PresentationPlan, roster: Seq<IndexedContained>)
    requires
        contained_records_error(plan, roster) is None,
    ensures
        plan.contained_view().len() == visible_contained(plan.bounds(), roster).len(),
        forall|i: int|
            0 <= i < plan.contained_view().len() ==> contained_record_valid(
                plan,
                plan.minimums_view(),
                #[trigger] plan.contained_view()[i],
                visible_contained(plan.bounds(), roster)[i].0,
                visible_contained(plan.bounds(), roster)[i].1,
            ),
        forall|i: int|
            0 <= i < plan.contained_view().len() ==> {
                let v = visible_contained(plan.bounds(), roster)[i];
                &&& (#[trigger] plan.contained_view()[i]).floating() == v.0.floating
                &&& plan.contained_view()[i].ordinal() == v.1
                &&& v.0 == roster[v.1]
            },
        forall|i: int, j: int|
            0 <= i < j < plan.contained_view().len() ==> (#[trigger] plan.contained_view()[i]).ordinal()
                < (#[trigger] plan.contained_view()[j]).ordinal(),
        roster_floatings_distinct(roster) ==> forall|i: int, j: int|
            0 <= i < j < plan.contained_view().len() ==> (#[trigger] plan.contained_view()[i]).floating()
                != (#[trigger] plan.contained_view()[j]).floating(),
{
    let expected = visible_contained(plan.bounds(), roster);
    let records = plan.contained_view();
    lemma_visible_contained_ordinals(plan.bounds(), roster);
    assert forall|i: int| 0 <= i < records.len() implies contained_record_valid(
        plan,
        plan.minimums_view(),
        records[i],
        expected[i].0,
        expected[i].1,
    ) by {
        if !contained_record_valid(plan, plan.minimums_view(), records[i], expected[i].0, expected[i].1) {
            lemma_first_invalid_contained_exists(plan, roster, i);
        }
    }
    assert forall|i: int, j: int| 0 <= i < j < records.len() implies (#[trigger] records[i]).ordinal()
        < (#[trigger] records[j]).ordinal() by {
        assert(contained_record_valid(plan, plan.minimums_view(), records[i], expected[i].0, expected[i].1));
        assert(contained_record_valid(plan, plan.minimums_view(), records[j], expected[j].0, expected[j].1));
        assert(expected[i].1 < expected[j].1);
    }
    if roster_floatings_distinct(roster) {
        assert forall|i: int, j: int| 0 <= i < j < records.len() implies (#[trigger] records[i]).floating()
            != (#[trigger] records[j]).floating() by {
            assert(contained_record_valid(plan, plan.minimums_view(), records[i], expected[i].0, expected[i].1));
            assert(contained_record_valid(plan, plan.minimums_view(), records[j], expected[j].0, expected[j].1));
            assert(expected[i].1 < expected[j].1);
            assert(roster[expected[i].1].floating != roster[expected[j].1].floating);
        }
    }
}

} // verus!
