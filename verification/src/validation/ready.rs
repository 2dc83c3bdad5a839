//! The plan-local validation of one ready plan, in its fixed order, followed
//! by canonical ordering of every record list.

use vstd::prelude::*;

use crate::collections::{canonical, entry_keys, CanonicalKey, KeyMap, KeySet};
use crate::plan::{canonically_reordered, PresentationPlan};
use crate::ids::RootId;
use crate::records::splitter::Axis;
use crate::records::tab::PaneSceneId;
use crate::occlusion::overlaps_with_area;
use crate::sorting::{
    lemma_reorder_keeps_keys_distinct, lemma_sorted_distinct_is_strict, order_keys_distinct,
    OrderedRecord,
};
use crate::validation::contained::{
    contained_records_error, contained_record_valid, lemma_last_minimum_measured,
    lemma_validated_contained_follow_roster, lemma_visible_contained_ordinals, roster_floatings_distinct,
    validate_contained_records, visible_contained, IndexedContained,
};
use crate::validation::occlusions::{
    contained_minimums_error, drop_occlusions_error, validate_contained_minimums,
    validate_drop_occlusions,
};
use crate::validation::pane_laws::lemma_validated_panes_are_compiled_leaves;
use crate::validation::panes::{
    pane_records_error, root_compiled_on, validate_pane_records, ExpectedPane,
};
use crate::validation::splitters::{splitter_records_error, validate_splitter_records, IndexedSplit};
use crate::validation::{
    lemma_validated_canonical_order, popup_plane_matches, uniqueness_error, validate_popup_plane,
    validate_semantic_uniqueness, SceneBuildError,
};

verus! {

/// The first rule a ready plan breaks, checked in a fixed order: identity
/// uniqueness, the popup plane, positive surface bounds, contained records,
/// pane, tab-bar, and tab records, splitter records, drop occlusions, and contained
/// minimum measurements.
pub open spec fn ready_plan_error(
    plan: &PresentationPlan,
    roster: Seq<IndexedContained>,
    main_root: Option<RootId>,
    panes: Seq<(PaneSceneId, ExpectedPane)>,
    splits: Seq<IndexedSplit>,
    allowed: Seq<Axis>,
) -> Option<SceneBuildError> {
    if uniqueness_error(plan) is Some {
        uniqueness_error(plan)
    } else if !popup_plane_matches(plan) {
        Some(SceneBuildError::PopupPlaneRecordSetMismatch { surface: plan.surface() })
    } else if !plan.bounds().has_area() {
        Some(SceneBuildError::EmptyReadySurfaceBounds { surface: plan.surface() })
    } else if contained_records_error(plan, roster) is Some {
        contained_records_error(plan, roster)
    } else if pane_records_error(plan, main_root, panes) is Some {
        pane_records_error(plan, main_root, panes)
    } else if splitter_records_error(plan, splits, allowed) is Some {
        splitter_records_error(plan, splits, allowed)
    } else if drop_occlusions_error(plan, roster) is Some {
        drop_occlusions_error(plan, roster)
    } else {
        contained_minimums_error(plan, roster)
    }
}

/// The contained records of a plan in canonical order follow its roster:
/// ordinals strictly increase; each record is the roster presentation at its
/// ordinal (same presentation and root) and that presentation overlaps the
/// plan with area; every roster presentation overlapping the plan with area
/// has a record; over a roster without repeats no presentation is published
/// twice; and each record carries the one minimum measured for its
/// presentation.
pub open spec fn contained_follow_roster(plan: PresentationPlan, roster: Seq<IndexedContained>) -> bool {
    let records = plan.contained_view();
    let minimums = plan.minimums_view();
    &&& forall|i: int, j: int|
        0 <= i < j < records.len() ==> (#[trigger] records[i]).ordinal() < (#[trigger] records[j]).ordinal()
    &&& forall|i: int|
        0 <= i < records.len() ==> {
            let r = #[trigger] records[i];
            &&& r.ordinal() < roster.len()
            &&& r.floating() == roster[r.ordinal() as int].floating
            &&& r.root() == roster[r.ordinal() as int].root
            &&& overlaps_with_area(plan.bounds(), roster[r.ordinal() as int].rect)
            &&& exists|m: int|
                0 <= m < minimums.len() && (#[trigger] minimums[m]).floating() == r.floating()
                    && minimums[m].minimum_size() == r.minimum_size()
        }
    &&& forall|k: int|
        0 <= k < roster.len() && overlaps_with_area(plan.bounds(), (#[trigger] roster[k]).rect) ==> exists|
            i: int,
        | 0 <= i < records.len() && records[i].ordinal() == k
    &&& roster_floatings_distinct(roster) ==> forall|i: int, j: int|
        0 <= i < j < records.len() ==> (#[trigger] records[i]).floating() != (#[trigger] records[j]).floating()
    &&& forall|a: int, b: int|
        0 <= a < b < minimums.len() ==> (#[trigger] minimums[a]).floating() != (#[trigger] minimums[b]).floating()
}

/// Canonical ordering of a plan whose identities are unique and whose
/// contained records follow the roster keeps them following the roster.
pub proof fn lemma_canonical_contained_follow_roster(
    after: PresentationPlan,
    before: PresentationPlan,
    roster: Seq<IndexedContained>,
)
    requires
        uniqueness_error(&before) is None,
        contained_records_error(&before, roster) is None,
        canonically_reordered(after, before),
    ensures
        contained_follow_roster(after, roster),
{
    broadcast use vstd::seq_lib::group_to_multiset_ensures;

    let b = before.contained_view();
    let a = after.contained_view();
    let vis = visible_contained(before.bounds(), roster);
    lemma_validated_contained_follow_roster(&before, roster);
    lemma_visible_contained_ordinals(before.bounds(), roster);
    lemma_validated_canonical_order(after, before);
    assert(order_keys_distinct(b)) by {
        assert forall|i: int, j: int| 0 <= i < j < b.len() implies (#[trigger] b[i]).order_key()
            != (#[trigger] b[j]).order_key() by {
            assert(b[i].ordinal() < b[j].ordinal());
        }
    }
    lemma_reorder_keeps_keys_distinct(a, b);
    lemma_sorted_distinct_is_strict(a);
    assert forall|i: int, j: int| 0 <= i < j < a.len() implies (#[trigger] a[i]).ordinal() < (#[trigger] a[j]).ordinal() by {
        assert(a[i].order_key().key_lt(a[j].order_key()));
    }
    let am = after.minimums_view();
    let bm = before.minimums_view();
    assert forall|i: int| 0 <= i < a.len() implies {
        let r = #[trigger] a[i];
        &&& r.ordinal() < roster.len()
        &&& r.floating() == roster[r.ordinal() as int].floating
        &&& r.root() == roster[r.ordinal() as int].root
        &&& overlaps_with_area(after.bounds(), roster[r.ordinal() as int].rect)
        &&& exists|m: int|
            0 <= m < am.len() && (#[trigger] am[m]).floating() == r.floating() && am[m].minimum_size()
                == r.minimum_size()
    } by {
        assert(a.contains(a[i]));
        assert(b.to_multiset().contains(a[i]));
        assert(b.contains(a[i]));
        let j = choose|j: int| 0 <= j < b.len() && b[j] == a[i];
        assert(contained_record_valid(&before, bm, b[j], vis[j].0, vis[j].1));
        let r = a[i];
        lemma_last_minimum_measured(bm, vis[j].0.floating);
        let jm = choose|jm: int|
            0 <= jm < bm.len() && (#[trigger] bm[jm]).floating() == vis[j].0.floating
                && bm[jm].minimum_size() == r.minimum_size();
        assert(bm.contains(bm[jm]));
        assert(am.to_multiset().contains(bm[jm]));
        assert(am.contains(bm[jm]));
        let m = choose|m: int| 0 <= m < am.len() && am[m] == bm[jm];
        assert(am[m].floating() == r.floating());
    }
    assert forall|k: int|
        0 <= k < roster.len() && overlaps_with_area(after.bounds(), (#[trigger] roster[k]).rect) implies exists|
            i: int,
        | 0 <= i < a.len() && a[i].ordinal() == k by {
        let v = choose|v: int| 0 <= v < vis.len() && vis[v].1 == k;
        assert(b[v].ordinal() == vis[v].1);
        assert(b.contains(b[v]));
        assert(a.to_multiset().contains(b[v]));
        assert(a.contains(b[v]));
        let i = choose|i: int| 0 <= i < a.len() && a[i] == b[v];
        assert(a[i].ordinal() == k);
    }
    if roster_floatings_distinct(roster) {
        assert forall|i: int, j: int| 0 <= i < j < a.len() implies (#[trigger] a[i]).floating()
            != (#[trigger] a[j]).floating() by {
            assert(a[i].ordinal() < a[j].ordinal());
            assert(roster[a[i].ordinal() as int].floating != roster[a[j].ordinal() as int].floating);
        }
    }
    assert forall|x: int, y: int| 0 <= x < y < am.len() implies (#[trigger] am[x]).floating()
        != (#[trigger] am[y]).floating() by {
        assert(am[x].order_key().key_lt(am[y].order_key()));
    }
}

/// The plan publishes a pane exactly for every leaf of a compiled root: the
/// main root, or a contained root whose content has area.
pub open spec fn panes_are_compiled_leaves(
    plan: PresentationPlan,
    main_root: Option<RootId>,
    leaves: Seq<(PaneSceneId, ExpectedPane)>,
) -> bool {
    forall|id: PaneSceneId|
        #![trigger root_compiled_on(&plan, main_root, id.root)]
        (exists|i: int| 0 <= i < plan.panes_view().len() && (#[trigger] plan.panes_view()[i]).id() == id)
            <==> (exists|b: int| 0 <= b < leaves.len() && (#[trigger] leaves[b]).0 == id)
            && root_compiled_on(&plan, main_root, id.root)
}

/// Canonical ordering of a plan whose pane records pass validation keeps
/// its panes exactly the leaves of its compiled roots.
pub proof fn lemma_canonical_panes_are_compiled_leaves(
    after: PresentationPlan,
    before: PresentationPlan,
    main_root: Option<RootId>,
    leaves: Seq<(PaneSceneId, ExpectedPane)>,
)
    requires
        canonical(entry_keys(leaves)),
        pane_records_error(&before, main_root, leaves) is None,
        canonically_reordered(after, before),
    ensures
        panes_are_compiled_leaves(after, main_root, leaves),
{
    broadcast use vstd::seq_lib::group_to_multiset_ensures;

    let ap = after.panes_view();
    let bp = before.panes_view();
    let ac = after.contained_view();
    let bc = before.contained_view();
    assert forall|id: PaneSceneId|
        (exists|i: int| 0 <= i < ap.len() && (#[trigger] ap[i]).id() == id) <==> (exists|b: int|
            0 <= b < leaves.len() && (#[trigger] leaves[b]).0 == id) && root_compiled_on(
            &after,
            main_root,
            id.root,
        ) by {
        lemma_validated_panes_are_compiled_leaves(&before, main_root, leaves, id);
        if exists|i: int| 0 <= i < ap.len() && (#[trigger] ap[i]).id() == id {
            let i = choose|i: int| 0 <= i < ap.len() && (#[trigger] ap[i]).id() == id;
            assert(ap.contains(ap[i]));
            assert(bp.to_multiset().contains(ap[i]));
            assert(bp.contains(ap[i]));
        }
        if exists|i: int| 0 <= i < bp.len() && (#[trigger] bp[i]).id() == id {
            let i = choose|i: int| 0 <= i < bp.len() && (#[trigger] bp[i]).id() == id;
            assert(bp.contains(bp[i]));
            assert(ap.to_multiset().contains(bp[i]));
            assert(ap.contains(bp[i]));
        }
        if root_compiled_on(&after, main_root, id.root) && main_root != Some(id.root) {
            let j = choose|j: int| 0 <= j < ac.len() && (#[trigger] ac[j]).root() == id.root
                && ac[j].content_bounds().has_area();
            assert(ac.contains(ac[j]));
            assert(bc.to_multiset().contains(ac[j]));
            assert(bc.contains(ac[j]));
        }
        if root_compiled_on(&before, main_root, id.root) && main_root != Some(id.root) {
            let j = choose|j: int| 0 <= j < bc.len() && (#[trigger] bc[j]).root() == id.root
                && bc[j].content_bounds().has_area();
            assert(bc.contains(bc[j]));
            assert(ac.to_multiset().contains(bc[j]));
            assert(ac.contains(bc[j]));
        }
    }
}

/// Validates one ready plan against the surface's contained roster, its main
/// root and the tabs leaves of its roots, the workspace's split nodes, and the
/// axes the policy lets splitters resize along, and returns it with every
/// record list in canonical order.
pub fn validate_and_canonicalize(
    ready: PresentationPlan,
    roster: &[IndexedContained],
    main_root: Option<RootId>,
    panes: &KeyMap<PaneSceneId, ExpectedPane>,
    splits: &[IndexedSplit],
    resize_allowed: &KeySet<Axis>,
) -> (r: Result<PresentationPlan, SceneBuildError>)
    ensures
        match ready_plan_error(&ready, roster@, main_root, panes.view_seq(), splits@, resize_allowed.view_seq()) {
            Some(e) => r == Err::<PresentationPlan, SceneBuildError>(e),
            None => r matches Ok(p) && canonically_reordered(p, ready),
        },
        r matches Ok(p) ==> contained_follow_roster(p, roster@),
        r matches Ok(p) ==> panes_are_compiled_leaves(p, main_root, panes.view_seq()),
{
    validate_semantic_uniqueness(&ready)?;
    validate_popup_plane(&ready)?;
    if !ready.bounds().is_positive() {
        return Err(SceneBuildError::EmptyReadySurfaceBounds { surface: ready.surface() });
    }
    validate_contained_records(&ready, roster)?;
    validate_pane_records(&ready, main_root, panes)?;
    validate_splitter_records(&ready, splits, resize_allowed)?;
    validate_drop_occlusions(&ready, roster)?;
    validate_contained_minimums(&ready, roster)?;
    let ghost before = ready;
    let leaf_entries = panes.entries();
    let mut plan = ready;
    plan.canonicalize_ready();
    proof {
        lemma_canonical_contained_follow_roster(plan, before, roster@);
        lemma_canonical_panes_are_compiled_leaves(plan, before, main_root, leaf_entries@);
    }
    Ok(plan)
}

} // verus!
