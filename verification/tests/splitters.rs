use dockspace::collections::{KeyMap, KeySet};
use dockspace::geometry::{HitRegion, LogicalRect};
use dockspace::ids::{
    EngineAuthorityDomainId, FloatingPresentationId, NodeId, PolicyRevision,
    PresentationConfigRevision, RootId, SceneLayerKey, SurfaceId, SurfaceRequirementRevision,
    WorkspaceEpoch,
};
use dockspace::manifest::keys::SurfaceMeasurementTicket;
use dockspace::occlusion::DropOcclusionRecord;
use dockspace::plan::PresentationPlan;
use dockspace::records::splitter::{
    Axis, SplitWeight, SplitterExtentLimits, SplitterGapPresentation, SplitterGapRecord,
    SplitterRecord, SplitterSceneId,
};
use dockspace::policy::{TabBarInteraction, TabBarPolicy, TabBarVisibility};
use dockspace::records::tab::{PaneRecord, PaneSceneId};
use dockspace::tab_strip::PopupPlaneRequirement;
use dockspace::validation::panes::ExpectedPane;
use dockspace::validation::ready::validate_and_canonicalize;
use dockspace::validation::splitters::{validate_splitter_records, IndexedSplit};
use dockspace::validation::SceneBuildError;

const SURFACE: SurfaceId = SurfaceId(31);

fn rect(x: i64, y: i64, width: i64, height: i64) -> LogicalRect {
    LogicalRect::new(x, y, width, height).expect("test rectangle is valid")
}

fn empty_plan() -> PresentationPlan {
    plan_with_bounds(rect(0, 0, 640, 480))
}

fn plan_with_bounds(bounds: LogicalRect) -> PresentationPlan {
    let ticket = SurfaceMeasurementTicket::new(
        EngineAuthorityDomainId::new(1),
        WorkspaceEpoch::new(1),
        PresentationConfigRevision::new(1),
        PolicyRevision::new(1),
        SurfaceRequirementRevision::new(1),
        SURFACE,
    );
    PresentationPlan::from_measurements(
        ticket,
        PopupPlaneRequirement::inactive(),
        bounds,
        None,
    )
}

fn gap_id(index: usize) -> SplitterSceneId {
    SplitterSceneId { root: RootId::new(1), split: NodeId::new(2), index }
}

fn split(children: usize) -> IndexedSplit {
    IndexedSplit {
        root: RootId::new(1),
        split: NodeId::new(2),
        axis: Axis::Horizontal,
        children,
        layer: SceneLayerKey::surface_base(),
    }
}

fn pane(tabs: u64, x: i64) -> PaneRecord {
    let bounds = rect(x, 0, 320, 480);
    PaneRecord::new(
        PaneSceneId { root: RootId::new(1), tabs: NodeId::new(tabs) },
        bounds,
        bounds,
        None,
        SceneLayerKey::surface_base(),
    )
}

struct Handle {
    weights: Option<Vec<SplitWeight>>,
    index: usize,
    extents: Vec<u32>,
    layer: SceneLayerKey,
    operable: bool,
}

fn handle(index: usize) -> Handle {
    Handle { weights: None, index, extents: vec![320, 320], layer: SceneLayerKey::surface_base(), operable: true }
}

fn record(h: Handle) -> SplitterRecord {
    let at = 320 * (h.index as i64 + 1);
    let children = h.extents.len();
    SplitterRecord::new(
        gap_id(h.index),
        rect(at - 1, 0, 2, 480),
        HitRegion::new(rect(at - 4, 0, 8, 480)),
        Axis::Horizontal,
        rect(0, 0, 320, 480),
        rect(320, 0, 320, 480),
        SplitterExtentLimits {
            before_minimum: 10,
            after_minimum: 10,
            before_maximum: 1000,
            after_maximum: 1000,
        },
        h.extents,
        None,
        h.weights.unwrap_or_else(|| vec![SplitWeight((1_000_000 / children) as u32); children]),
        h.layer,
        h.operable,
    )
}

fn horizontal_allowed() -> KeySet<Axis> {
    let mut allowed = KeySet::new();
    allowed.insert(Axis::Horizontal);
    allowed
}

fn two_pane_plan() -> PresentationPlan {
    let mut plan = empty_plan();
    plan.push_pane_record(pane(3, 0));
    plan.push_pane_record(pane(4, 320));
    plan
}

fn leaves() -> KeyMap<PaneSceneId, ExpectedPane> {
    let mut map = KeyMap::new();
    for tabs in [3, 4] {
        map.insert_new(
            PaneSceneId { root: RootId::new(1), tabs: NodeId::new(tabs) },
            ExpectedPane {
                items: Vec::new(),
                selected: None,
                closable: KeySet::new(),
                layer: SceneLayerKey::surface_base(),
                policy: TabBarPolicy::new(TabBarVisibility::Hidden, TabBarInteraction::Enabled),
            },
        );
    }
    map
}

fn invalid(index: usize) -> Result<(), SceneBuildError> {
    Err(SceneBuildError::InvalidSplitterRecord { surface: SURFACE, id: gap_id(index) })
}

#[test]
fn rendered_gap_with_consistent_record_is_accepted() {
    let mut plan = two_pane_plan();
    plan.push_splitter_gap_record(SplitterGapRecord::new(gap_id(0), SplitterGapPresentation::Rendered));
    plan.push_splitter_record(record(handle(0)));
    assert_eq!(validate_splitter_records(&plan, &[split(2)], &horizontal_allowed()), Ok(()));
}

#[test]
fn missing_gap_record_is_a_gap_set_mismatch() {
    let plan = two_pane_plan();
    assert_eq!(
        validate_splitter_records(&plan, &[split(2)], &horizontal_allowed()),
        Err(SceneBuildError::SplitterGapRecordSetMismatch { surface: SURFACE })
    );
}

#[test]
fn gaps_of_uncompiled_roots_are_not_expected() {
    let plan = empty_plan();
    assert_eq!(validate_splitter_records(&plan, &[split(2)], &horizontal_allowed()), Ok(()));
    let mut stray = empty_plan();
    stray.push_splitter_gap_record(SplitterGapRecord::new(gap_id(0), SplitterGapPresentation::Collapsed));
    assert_eq!(
        validate_splitter_records(&stray, &[split(2)], &horizontal_allowed()),
        Err(SceneBuildError::SplitterGapRecordSetMismatch { surface: SURFACE })
    );
}

#[test]
fn collapsed_gap_must_not_carry_a_splitter_record() {
    let mut plan = two_pane_plan();
    plan.push_splitter_gap_record(SplitterGapRecord::new(gap_id(0), SplitterGapPresentation::Collapsed));
    assert_eq!(validate_splitter_records(&plan, &[split(2)], &horizontal_allowed()), Ok(()));
    plan.push_splitter_record(record(handle(0)));
    assert_eq!(
        validate_splitter_records(&plan, &[split(2)], &horizontal_allowed()),
        Err(SceneBuildError::SplitterRecordSetMismatch { surface: SURFACE })
    );
}

#[test]
fn splitter_on_another_layer_than_its_root_is_rejected() {
    let mut plan = two_pane_plan();
    plan.push_splitter_gap_record(SplitterGapRecord::new(gap_id(0), SplitterGapPresentation::Rendered));
    plan.push_splitter_record(record(Handle { layer: SceneLayerKey::new(2), ..handle(0) }));
    assert_eq!(
        validate_splitter_records(&plan, &[split(2)], &horizontal_allowed()),
        Err(SceneBuildError::SemanticLayerMismatch {
            surface: SURFACE,
            root: RootId::new(1),
            expected: SceneLayerKey::new(1),
            actual: SceneLayerKey::new(2),
        })
    );
}

#[test]
fn operability_follows_resize_policy_and_remaining_area() {
    let mut plan = two_pane_plan();
    plan.push_splitter_gap_record(SplitterGapRecord::new(gap_id(0), SplitterGapPresentation::Rendered));
    plan.push_splitter_record(record(handle(0)));
    assert_eq!(validate_splitter_records(&plan, &[split(2)], &KeySet::new()), invalid(0));

    let mut locked = two_pane_plan();
    locked.push_splitter_gap_record(SplitterGapRecord::new(gap_id(0), SplitterGapPresentation::Rendered));
    locked.push_splitter_record(record(Handle { operable: false, ..handle(0) }));
    assert_eq!(validate_splitter_records(&locked, &[split(2)], &KeySet::new()), Ok(()));
    assert_eq!(validate_splitter_records(&locked, &[split(2)], &horizontal_allowed()), invalid(0));

    let mut covered = two_pane_plan();
    covered.push_splitter_gap_record(SplitterGapRecord::new(gap_id(0), SplitterGapPresentation::Rendered));
    covered.push_splitter_record(record(Handle { operable: false, ..handle(0) }));
    covered.push_drop_occlusion(DropOcclusionRecord::new(
        FloatingPresentationId::new(9),
        HitRegion::new(rect(300, 0, 40, 480)),
        SceneLayerKey::new(2),
    ));
    assert_eq!(validate_splitter_records(&covered, &[split(2)], &horizontal_allowed()), Ok(()));
}

#[test]
fn extents_outside_their_constraints_are_rejected() {
    let mut plan = two_pane_plan();
    plan.push_splitter_gap_record(SplitterGapRecord::new(gap_id(0), SplitterGapPresentation::Rendered));
    plan.push_splitter_record(record(Handle { extents: vec![5, 320], ..handle(0) }));
    assert_eq!(validate_splitter_records(&plan, &[split(2)], &horizontal_allowed()), invalid(0));
}

#[test]
fn splitter_with_wrong_child_count_is_rejected() {
    let mut plan = two_pane_plan();
    plan.push_splitter_gap_record(SplitterGapRecord::new(gap_id(0), SplitterGapPresentation::Rendered));
    plan.push_splitter_record(record(Handle { extents: vec![320, 320, 320], ..handle(0) }));
    assert_eq!(validate_splitter_records(&plan, &[split(2)], &horizontal_allowed()), invalid(0));
}

#[test]
fn least_failing_splitter_identity_is_reported() {
    let mut plan = two_pane_plan();
    plan.push_splitter_gap_record(SplitterGapRecord::new(gap_id(1), SplitterGapPresentation::Rendered));
    plan.push_splitter_gap_record(SplitterGapRecord::new(gap_id(0), SplitterGapPresentation::Rendered));
    plan.push_splitter_record(record(Handle { extents: vec![320, 320, 0], ..handle(1) }));
    plan.push_splitter_record(record(Handle { extents: vec![320, 320, 320], operable: false, ..handle(0) }));
    assert_eq!(validate_splitter_records(&plan, &[split(3)], &horizontal_allowed()), invalid(0));
}

#[test]
fn validated_plan_is_returned_in_canonical_order() {
    let mut plan = empty_plan();
    plan.push_pane_record(pane(4, 320));
    plan.push_pane_record(pane(3, 0));
    plan.push_splitter_gap_record(SplitterGapRecord::new(gap_id(0), SplitterGapPresentation::Rendered));
    plan.push_splitter_record(record(handle(0)));
    let ready = validate_and_canonicalize(plan, &[], Some(RootId::new(1)), &leaves(), &[split(2)], &horizontal_allowed())
        .expect("consistent plan is accepted");
    let tabs: Vec<u64> = ready.pane_records().iter().map(|pane| pane.id().tabs.0).collect();
    assert_eq!(tabs, vec![3, 4]);
}

#[test]
fn ready_plan_without_area_is_rejected() {
    let plan = plan_with_bounds(rect(0, 0, 0, 480));
    assert_eq!(
        validate_and_canonicalize(plan, &[], None, &KeyMap::new(), &[], &horizontal_allowed()).err(),
        Some(SceneBuildError::EmptyReadySurfaceBounds { surface: SURFACE })
    );
}

#[test]
fn duplicate_identities_are_rejected_before_splitter_rules() {
    let mut plan = two_pane_plan();
    plan.push_pane_record(pane(3, 0));
    assert_eq!(
        validate_and_canonicalize(plan, &[], Some(RootId::new(1)), &leaves(), &[split(2)], &horizontal_allowed()).err(),
        Some(SceneBuildError::DuplicatePane {
            id: PaneSceneId { root: RootId::new(1), tabs: NodeId::new(3) }
        })
    );
}

#[test]
fn weights_must_share_one_whole() {
    let mut plan = two_pane_plan();
    plan.push_splitter_gap_record(SplitterGapRecord::new(gap_id(0), SplitterGapPresentation::Rendered));
    plan.push_splitter_record(record(Handle {
        weights: Some(vec![SplitWeight(1), SplitWeight(1)]),
        ..handle(0)
    }));
    assert_eq!(validate_splitter_records(&plan, &[split(2)], &horizontal_allowed()), invalid(0));

    let mut near = two_pane_plan();
    near.push_splitter_gap_record(SplitterGapRecord::new(gap_id(0), SplitterGapPresentation::Rendered));
    near.push_splitter_record(record(Handle {
        weights: Some(vec![SplitWeight(500_005), SplitWeight(500_004)]),
        ..handle(0)
    }));
    assert_eq!(validate_splitter_records(&near, &[split(2)], &horizontal_allowed()), Ok(()));
}
