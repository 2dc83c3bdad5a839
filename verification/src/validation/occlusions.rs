//! Drop occlusions and minimum measurements of a surface's contained
//! presentations: exactly one of each for every rostered presentation.

use vstd::prelude::*;

use crate::ids::{FloatingPresentationId, SceneLayerKey};
use crate::occlusion::DropOcclusionRecord;
use crate::plan::PresentationPlan;
use crate::records::contained::ContainedMinimumMeasurement;
use crate::validation::contained::IndexedContained;
use crate::validation::SceneBuildError;

verus! {

/// `floating` is a presentation of the roster.
pub open spec fn rostered(roster: Seq<IndexedContained>, floating: FloatingPresentationId) -> bool {
    exists|i: int| 0 <= i < roster.len() && (#[trigger] roster[i]).floating == floating
}

/// The first roster position of `floating`, if any.
pub open spec fn placement_index(roster: Seq<IndexedContained>, floating: FloatingPresentationId) -> Option<
    int,
>
    decreases roster.len(),
{
    if roster.len() == 0 {
        None
    } else if roster[0].floating == floating {
        Some(0)
    } else {
        match placement_index(roster.subrange(1, roster.len() as int), floating) {
            Some(i) => Some(i + 1),
            None => None,
        }
    }
}

proof fn lemma_placement_index_bounds(roster: Seq<IndexedContained>, floating: FloatingPresentationId)
    ensures
        placement_index(roster, floating) matches Some(i) ==> 0 <= i < roster.len()
            && roster[i].floating == floating,
    decreases roster.len(),
{
    if roster.len() > 0 && roster[0].floating != floating {
        let rest = roster.subrange(1, roster.len() as int);
        lemma_placement_index_bounds(rest, floating);
    }
}

/// Some occlusion of `occlusions` names `floating`.
pub open spec fn occludes(occlusions: Seq<DropOcclusionRecord>, floating: FloatingPresentationId) -> bool {
    exists|i: int| 0 <= i < occlusions.len() && (#[trigger] occlusions[i]).floating() == floating
}

/// Some measurement of `minimums` names `floating`.
pub open spec fn measures(
    minimums: Seq<ContainedMinimumMeasurement>,
    floating: FloatingPresentationId,
) -> bool {
    exists|i: int| 0 <= i < minimums.len() && (#[trigger] minimums[i]).floating() == floating
}

/// `i` is the first roster position whose presentation `covered` misses.
pub open spec fn first_uncovered(
    roster: Seq<IndexedContained>,
    covered: spec_fn(FloatingPresentationId) -> bool,
    i: int,
) -> bool {
    &&& 0 <= i < roster.len()
    &&& !covered(roster[i].floating)
    &&& forall|j: int| 0 <= j < i ==> covered(#[trigger] roster[j].floating)
}

/// What is wrong with one occlusion against the roster: an unrostered
/// presentation, a roster position without a representable layer, then a
/// mismatch with the layer of its roster position, an empty region, or a
/// region other than the durable placement, in that order.
pub open spec fn occlusion_error(
    plan: &PresentationPlan,
    roster: Seq<IndexedContained>,
    occlusion: DropOcclusionRecord,
) -> Option<SceneBuildError> {
    let surface = plan.surface();
    let floating = occlusion.floating();
    let region = occlusion.region().rect;
    match placement_index(roster, floating) {
        None => Some(SceneBuildError::InvalidDropOcclusion { surface, floating }),
        Some(index) => match SceneLayerKey::spec_contained(index as usize) {
            None => Some(SceneBuildError::ContainedLayerCapacityExceeded { surface, floating }),
            Some(layer) => if occlusion.layer() != layer {
                Some(
                    SceneBuildError::DropOcclusionLayerMismatch {
                        surface,
                        floating,
                        expected: layer,
                        actual: occlusion.layer(),
                    },
                )
            } else if !region.has_area() {
                Some(SceneBuildError::EmptyDropOcclusionRegion { surface, floating })
            } else if region != roster[index].rect {
                Some(
                    SceneBuildError::DropOcclusionGeometryMismatch {
                        surface,
                        floating,
                        expected: roster[index].rect,
                        actual: region,
                    },
                )
            } else {
                None
            },
        },
    }
}

/// `j` is the first occlusion position with an error.
pub open spec fn first_bad_occlusion(plan: &PresentationPlan, roster: Seq<IndexedContained>, j: int) -> bool {
    let occlusions = plan.occlusions_view();
    &&& 0 <= j < occlusions.len()
    &&& occlusion_error(plan, roster, occlusions[j]) is Some
    &&& forall|k: int| 0 <= k < j ==> occlusion_error(plan, roster, #[trigger] occlusions[k]) is None
}

/// How the plan's occlusions fail to cover the roster exactly: first the
/// first rostered presentation without an occlusion, then the first
/// occlusion that does not match its presentation.
pub open spec fn drop_occlusions_error(plan: &PresentationPlan, roster: Seq<IndexedContained>) -> Option<
    SceneBuildError,
> {
    let covered = |f: FloatingPresentationId| occludes(plan.occlusions_view(), f);
    if exists|i: int| first_uncovered(roster, covered, i) {
        let i = choose|i: int| first_uncovered(roster, covered, i);
        Some(
            SceneBuildError::MissingDropOcclusion {
                surface: plan.surface(),
                floating: roster[i].floating,
            },
        )
    } else if exists|j: int| first_bad_occlusion(plan, roster, j) {
        let j = choose|j: int| first_bad_occlusion(plan, roster, j);
        occlusion_error(plan, roster, plan.occlusions_view()[j])
    } else {
        None
    }
}

/// `floating` is measured but unrostered, and no smaller presentation is.
pub open spec fn least_unexpected(
    roster: Seq<IndexedContained>,
    minimums: Seq<ContainedMinimumMeasurement>,
    floating: FloatingPresentationId,
) -> bool {
    &&& measures(minimums, floating)
    &&& !rostered(roster, floating)
    &&& forall|i: int|
        0 <= i < minimums.len() && !rostered(roster, (#[trigger] minimums[i]).floating())
            ==> floating.0 <= minimums[i].floating().0
}

/// How the plan's minimum measurements fail to cover the roster exactly:
/// first the least unrostered measurement, then the first rostered
/// presentation without one.
pub open spec fn contained_minimums_error(plan: &PresentationPlan, roster: Seq<IndexedContained>) -> Option<
    SceneBuildError,
> {
    let minimums = plan.minimums_view();
    let covered = |f: FloatingPresentationId| measures(minimums, f);
    if exists|f: FloatingPresentationId| least_unexpected(roster, minimums, f) {
        let f = choose|f: FloatingPresentationId| least_unexpected(roster, minimums, f);
        Some(SceneBuildError::UnexpectedContainedMinimumMeasurement { surface: plan.surface(), floating: f })
    } else if exists|i: int| first_uncovered(roster, covered, i) {
        let i = choose|i: int| first_uncovered(roster, covered, i);
        Some(
            SceneBuildError::MissingContainedMinimumMeasurement {
                surface: plan.surface(),
                floating: roster[i].floating,
            },
        )
    } else {
        None
    }
}

fn find_placement(roster: &[IndexedContained], floating: FloatingPresentationId) -> (r: Option<
    usize,
>)
    ensures
        match r {
            Some(i) => placement_index(roster@, floating) == Some(i as int) && i < roster@.len(),
            None => placement_index(roster@, floating) is None,
        },
{
    let mut k: usize = 0;
    proof {
        assert(roster@.subrange(0, roster@.len() as int) =~= roster@);
    }
    while k < roster.len()
        invariant
            k <= roster@.len(),
            placement_index(roster@, floating) == match placement_index(
                roster@.subrange(k as int, roster@.len() as int),
                floating,
            ) {
                Some(i) => Some(i + k),
                None => None,
            },
        decreases roster@.len() - k,
    {
        let ghost rest = roster@.subrange(k as int, roster@.len() as int);
        proof {
            assert(rest[0] == roster@[k as int]);
        }
        if roster[k].floating == floating {
            return Some(k);
        }
        proof {
            assert(rest.subrange(1, rest.len() as int) =~= roster@.subrange(
                k + 1,
                roster@.len() as int,
            ));
        }
        k = k + 1;
    }
    None
}

fn occludes_exec(occlusions: &[DropOcclusionRecord], floating: FloatingPresentationId) -> (r: bool)
    ensures
        r == occludes(occlusions@, floating),
{
    let mut k: usize = 0;
    while k < occlusions.len()
        invariant
            k <= occlusions@.len(),
            forall|i: int| 0 <= i < k ==> (#[trigger] occlusions@[i]).floating() != floating,
        decreases occlusions@.len() - k,
    {
        if occlusions[k].floating() == floating {
            return true;
        }
        k = k + 1;
    }
    false
}

fn measures_exec(minimums: &[ContainedMinimumMeasurement], floating: FloatingPresentationId) -> (r:
    bool)
    ensures
        r == measures(minimums@, floating),
{
    let mut k: usize = 0;
    while k < minimums.len()
        invariant
            k <= minimums@.len(),
            forall|i: int| 0 <= i < k ==> (#[trigger] minimums@[i]).floating() != floating,
        decreases minimums@.len() - k,
    {
        if minimums[k].floating() == floating {
            return true;
        }
        k = k + 1;
    }
    false
}

fn rostered_exec(roster: &[IndexedContained], floating: FloatingPresentationId) -> (r: bool)
    ensures
        r == rostered(roster@, floating),
{
    let mut k: usize = 0;
    while k < roster.len()
        invariant
            k <= roster@.len(),
            forall|i: int| 0 <= i < k ==> (#[trigger] roster@[i]).floating != floating,
        decreases roster@.len() - k,
    {
        if roster[k].floating == floating {
            return true;
        }
        k = k + 1;
    }
    false
}

fn check_occlusion(
    ready: &PresentationPlan,
    roster: &[IndexedContained],
    occlusion: DropOcclusionRecord,
) -> (r: Option<SceneBuildError>)
    ensures
        r == occlusion_error(ready, roster@, occlusion),
{
    let surface = ready.surface();
    let floating = occlusion.floating();
    let region = occlusion.region().rect();
    match find_placement(roster, floating) {
        None => Some(SceneBuildError::InvalidDropOcclusion { surface, floating }),
        Some(index) => {
            match SceneLayerKey::contained(index) {
                None => Some(SceneBuildError::ContainedLayerCapacityExceeded { surface, floating }),
                Some(layer) => {
                    let placed = roster[index].rect;
                    if occlusion.layer() != layer {
                        Some(
                            SceneBuildError::DropOcclusionLayerMismatch {
                                surface,
                                floating,
                                expected: layer,
                                actual: occlusion.layer(),
                            },
                        )
                    } else if !region.is_positive() {
                        Some(SceneBuildError::EmptyDropOcclusionRegion { surface, floating })
                    } else if region != placed {
                        Some(
                            SceneBuildError::DropOcclusionGeometryMismatch {
                                surface,
                                floating,
                                expected: placed,
                                actual: region,
                            },
                        )
                    } else {
                        None
                    }
                },
            }
        },
    }
}

/// Rejects a plan whose drop occlusions are not exactly one matching
/// occlusion for every presentation of the surface's contained roster.
pub fn validate_drop_occlusions(ready: &PresentationPlan, roster: &[IndexedContained]) -> (r: Result<
    (),
    SceneBuildError,
>)
    ensures
        r == match drop_occlusions_error(ready, roster@) {
            Some(error) => Err(error),
            None => Ok(()),
        },
{
    let occlusions = ready.drop_occlusions();
    let ghost covered = |f: FloatingPresentationId| occludes(ready.occlusions_view(), f);
    let mut i: usize = 0;
    while i < roster.len()
        invariant
            i <= roster@.len(),
            occlusions@ == ready.occlusions_view(),
            covered == (|f: FloatingPresentationId| occludes(ready.occlusions_view(), f)),
            forall|j: int| 0 <= j < i ==> covered(#[trigger] roster@[j].floating),
        decreases roster@.len() - i,
    {
        let floating = roster[i].floating;
        if !occludes_exec(occlusions, floating) {
            proof {
                assert(first_uncovered(roster@, covered, i as int));
                let c = choose|c: int| first_uncovered(roster@, covered, c);
                if c < i {
                    assert(covered(roster@[c].floating));
                }
                if c > i {
                    assert(covered(roster@[i as int].floating));
                }
            }
            return Err(SceneBuildError::MissingDropOcclusion { surface: ready.surface(), floating });
        }
        i = i + 1;
    }
    proof {
        assert forall|c: int| !#[trigger] first_uncovered(roster@, covered, c) by {
            if first_uncovered(roster@, covered, c) {
                assert(covered(roster@[c].floating));
            }
        }
    }
    let mut j: usize = 0;
    while j < occlusions.len()
        invariant
            j <= occlusions@.len(),
            occlusions@ == ready.occlusions_view(),
            covered == (|f: FloatingPresentationId| occludes(ready.occlusions_view(), f)),
            forall|c: int| !#[trigger] first_uncovered(roster@, covered, c),
            forall|k: int|
                0 <= k < j ==> occlusion_error(ready, roster@, #[trigger] occlusions@[k]) is None,
        decreases occlusions@.len() - j,
    {
        match check_occlusion(ready, roster, occlusions[j]) {
            Some(error) => {
                proof {
                    assert(first_bad_occlusion(ready, roster@, j as int));
                    let c = choose|c: int| first_bad_occlusion(ready, roster@, c);
                    if c < j {
                        assert(occlusion_error(ready, roster@, occlusions@[c]) is None);
                    }
                    if c > j {
                        assert(occlusion_error(ready, roster@, occlusions@[j as int]) is None);
                    }
                }
                return Err(error);
            },
            None => {},
        }
        j = j + 1;
    }
    proof {
        assert forall|c: int| !#[trigger] first_bad_occlusion(ready, roster@, c) by {
            if first_bad_occlusion(ready, roster@, c) {
                assert(occlusion_error(ready, roster@, occlusions@[c]) is None);
            }
        }
    }
    Ok(())
}

/// Rejects a plan whose minimum measurements are not exactly one for every
/// presentation of the surface's contained roster.
pub fn validate_contained_minimums(ready: &PresentationPlan, roster: &[IndexedContained]) -> (r:
    Result<(), SceneBuildError>)
    ensures
        r == match contained_minimums_error(ready, roster@) {
            Some(error) => Err(error),
            None => Ok(()),
        },
{
    let minimums = ready.contained_minimums();
    let ghost ms = ready.minimums_view();
    let mut least: Option<FloatingPresentationId> = None;
    let mut k: usize = 0;
    while k < minimums.len()
        invariant
            k <= minimums@.len(),
            minimums@ == ms,
            ms == ready.minimums_view(),
            match least {
                None => forall|i: int| 0 <= i < k ==> rostered(roster@, (#[trigger] ms[i]).floating()),
                Some(f) => {
                    &&& measures(ms, f)
                    &&& !rostered(roster@, f)
                    &&& forall|i: int|
                        0 <= i < k && !rostered(roster@, (#[trigger] ms[i]).floating()) ==> f.0
                            <= ms[i].floating().0
                },
            },
        decreases minimums@.len() - k,
    {
        let floating = minimums[k].floating();
        if !rostered_exec(roster, floating) {
            let better = match least {
                None => true,
                Some(f) => floating.0 < f.0,
            };
            if better {
                least = Some(floating);
            }
        }
        k = k + 1;
    }
    if let Some(floating) = least {
        proof {
            assert(least_unexpected(roster@, ms, floating));
            let c = choose|c: FloatingPresentationId| least_unexpected(roster@, ms, c);
            assert(least_unexpected(roster@, ms, c));
            let i = choose|i: int| 0 <= i < ms.len() && (#[trigger] ms[i]).floating() == c;
            let m = choose|m: int| 0 <= m < ms.len() && (#[trigger] ms[m]).floating() == floating;
            assert(floating.0 <= ms[i].floating().0);
            assert(c.0 <= ms[m].floating().0);
        }
        return Err(
            SceneBuildError::UnexpectedContainedMinimumMeasurement { surface: ready.surface(), floating },
        );
    }
    proof {
        assert forall|f: FloatingPresentationId| !#[trigger] least_unexpected(roster@, ms, f) by {
            if least_unexpected(roster@, ms, f) {
                let i = choose|i: int| 0 <= i < ms.len() && (#[trigger] ms[i]).floating() == f;
                assert(rostered(roster@, ms[i].floating()));
            }
        }
    }
    let ghost covered = |f: FloatingPresentationId| measures(ms, f);
    let mut i: usize = 0;
    while i < roster.len()
        invariant
            i <= roster@.len(),
            minimums@ == ms,
            ms == ready.minimums_view(),
            covered == (|f: FloatingPresentationId| measures(ms, f)),
            forall|f: FloatingPresentationId| !#[trigger] least_unexpected(roster@, ms, f),
            forall|j: int| 0 <= j < i ==> covered(#[trigger] roster@[j].floating),
        decreases roster@.len() - i,
    {
        let floating = roster[i].floating;
        if !measures_exec(minimums, floating) {
            proof {
                assert(first_uncovered(roster@, covered, i as int));
                let c = choose|c: int| first_uncovered(roster@, covered, c);
                if c < i {
                    assert(covered(roster@[c].floating));
                }
                if c > i {
                    assert(covered(roster@[i as int].floating));
                }
            }
            return Err(
                SceneBuildError::MissingContainedMinimumMeasurement {
                    surface: ready.surface(),
                    floating,
                },
            );
        }
        i = i + 1;
    }
    proof {
        assert forall|c: int| !#[trigger] first_uncovered(roster@, covered, c) by {
            if first_uncovered(roster@, covered, c) {
                assert(covered(roster@[c].floating));
            }
        }
    }
    Ok(())
}

} // verus!
