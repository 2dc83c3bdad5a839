use dockspace::geometry::{HitRegion, LogicalRect};
use dockspace::ids::{
    EngineAuthorityDomainId, FloatingPresentationId, NodeId, PolicyRevision,
    PresentationConfigRevision, RootId, SceneLayerKey, SurfaceId, SurfaceRequirementRevision,
    WorkspaceEpoch,
};
use dockspace::manifest::keys::SurfaceMeasurementTicket;
use dockspace::occlusion::DropOcclusionRecord;
use dockspace::plan::PresentationPlan;
use dockspace::records::splitter::{
    Axis, SplitterExtentLimits, SplitterGapPresentation, SplitterGapRecord, SplitterJunctionId,
    SplitterJunctionRecord, SplitterRecord, SplitterSceneId,
};
use dockspace::records::tab::{
    PaneRecord, PaneSceneId, TabBarSceneId, TabListMenuBackdropRecord, TabListMenuRecord,
};
use dockspace::tab_strip::{
    PopupPlaneRequirement, PopupRoutingRevision, TabListMenuSessionId, TabStripStateKey,
};
use dockspace::validation::junctions::validate_splitter_junction_records;
use dockspace::validation::{
    stable_duplicate, validate_popup_plane, validate_semantic_uniqueness, SceneBuildError,
};

const SURFACE: SurfaceId = SurfaceId(21);

fn rect(x: i64, y: i64, width: i64, height: i64) -> LogicalRect {
    LogicalRect::new(x, y, width, height).expect("test rectangle is valid")
}

fn plan_with(popup: PopupPlaneRequirement, plane: Option<LogicalRect>) -> PresentationPlan {
    let ticket = SurfaceMeasurementTicket::new(
        EngineAuthorityDomainId::new(1),
        WorkspaceEpoch::new(1),
        PresentationConfigRevision::new(1),
        PolicyRevision::new(1),
        SurfaceRequirementRevision::new(1),
        SURFACE,
    );
    PresentationPlan::from_measurements(ticket, popup, rect(0, 0, 640, 480), plane)
}

fn inactive_plan() -> PresentationPlan {
    plan_with(PopupPlaneRequirement::inactive(), None)
}

fn pane(root: u64, tabs: u64) -> PaneRecord {
    let bounds = rect(0, 0, 100, 100);
    PaneRecord::new(
        PaneSceneId { root: RootId::new(root), tabs: NodeId::new(tabs) },
        bounds,
        bounds,
        None,
        SceneLayerKey::new(0),
    )
}

fn occlusion(floating: u64) -> DropOcclusionRecord {
    DropOcclusionRecord::new(
        FloatingPresentationId::new(floating),
        HitRegion::new(rect(0, 0, 10, 10)),
        SceneLayerKey::new(1),
    )
}

fn gap(index: usize) -> SplitterGapRecord {
    SplitterGapRecord::new(
        SplitterSceneId { root: RootId::new(1), split: NodeId::new(2), index },
        SplitterGapPresentation::Rendered,
    )
}

fn owner_key(surface: SurfaceId) -> TabStripStateKey {
    TabStripStateKey::new(surface, TabBarSceneId { root: RootId::new(1), tabs: NodeId::new(3) })
}

fn active(surface: SurfaceId) -> (PopupPlaneRequirement, TabListMenuSessionId) {
    let owner = owner_key(surface);
    let session = TabListMenuSessionId::new(owner, 4);
    (
        PopupPlaneRequirement::Active { revision: PopupRoutingRevision::new(2), session, owner },
        session,
    )
}

fn menu(session: TabListMenuSessionId) -> TabListMenuRecord {
    TabListMenuRecord::new(
        session,
        session.key().bar(),
        rect(10, 10, 100, 100),
        rect(10, 10, 100, 100),
        0,
        0,
        Vec::new(),
        SceneLayerKey::new(9),
    )
}

#[test]
fn stable_duplicate_names_the_least_repeated_key() {
    let keys = [SurfaceId(5), SurfaceId(3), SurfaceId(5), SurfaceId(3), SurfaceId(1)];
    assert_eq!(stable_duplicate(&keys), Some(SurfaceId(3)));
    assert_eq!(stable_duplicate(&[SurfaceId(2), SurfaceId(1)]), None);
    assert_eq!(stable_duplicate::<SurfaceId>(&[]), None);
}

#[test]
fn unique_plan_passes_identity_validation() {
    let mut plan = inactive_plan();
    plan.push_pane_record(pane(1, 2));
    plan.push_pane_record(pane(1, 3));
    plan.push_drop_occlusion(occlusion(4));
    assert_eq!(validate_semantic_uniqueness(&plan), Ok(()));
}

#[test]
fn duplicate_panes_are_reported_before_later_record_kinds() {
    let mut plan = inactive_plan();
    plan.push_pane_record(pane(2, 7));
    plan.push_pane_record(pane(1, 9));
    plan.push_pane_record(pane(2, 7));
    plan.push_pane_record(pane(1, 9));
    plan.push_drop_occlusion(occlusion(4));
    plan.push_drop_occlusion(occlusion(4));
    assert_eq!(
        validate_semantic_uniqueness(&plan),
        Err(SceneBuildError::DuplicatePane {
            id: PaneSceneId { root: RootId::new(1), tabs: NodeId::new(9) },
        })
    );
}

#[test]
fn duplicate_gaps_and_occlusions_are_named() {
    let mut plan = inactive_plan();
    plan.push_splitter_gap_record(gap(1));
    plan.push_splitter_gap_record(gap(1));
    assert_eq!(
        validate_semantic_uniqueness(&plan),
        Err(SceneBuildError::DuplicateSplitterGap {
            id: SplitterSceneId { root: RootId::new(1), split: NodeId::new(2), index: 1 },
        })
    );

    let mut plan = inactive_plan();
    plan.push_drop_occlusion(occlusion(8));
    plan.push_drop_occlusion(occlusion(6));
    plan.push_drop_occlusion(occlusion(8));
    assert_eq!(
        validate_semantic_uniqueness(&plan),
        Err(SceneBuildError::DuplicateDropOcclusion { floating: FloatingPresentationId::new(8) })
    );
}

#[test]
fn inactive_popup_rejects_any_popup_record() {
    assert_eq!(validate_popup_plane(&inactive_plan()), Ok(()));

    let stray_plane = plan_with(PopupPlaneRequirement::inactive(), Some(rect(0, 0, 640, 480)));
    assert_eq!(
        validate_popup_plane(&stray_plane),
        Err(SceneBuildError::PopupPlaneRecordSetMismatch { surface: SURFACE })
    );

    let (_, session) = active(SURFACE);
    let mut stray_backdrop = inactive_plan();
    stray_backdrop.push_tab_list_menu_backdrop_record(TabListMenuBackdropRecord::new(
        session,
        PopupRoutingRevision::new(2),
        rect(0, 0, 640, 480),
    ));
    assert_eq!(
        validate_popup_plane(&stray_backdrop),
        Err(SceneBuildError::PopupPlaneRecordSetMismatch { surface: SURFACE })
    );
}

#[test]
fn active_popup_on_its_owner_surface_needs_backdrop_and_menu() {
    let plane = rect(0, 0, 640, 480);
    let (popup, session) = active(SURFACE);

    let mut complete = plan_with(popup, Some(plane));
    complete.push_tab_list_menu_backdrop_record(TabListMenuBackdropRecord::new(
        session,
        PopupRoutingRevision::new(2),
        plane,
    ));
    complete.push_tab_list_menu_record(menu(session));
    assert_eq!(validate_popup_plane(&complete), Ok(()));

    let mut menuless = plan_with(popup, Some(plane));
    menuless.push_tab_list_menu_backdrop_record(TabListMenuBackdropRecord::new(
        session,
        PopupRoutingRevision::new(2),
        plane,
    ));
    assert_eq!(
        validate_popup_plane(&menuless),
        Err(SceneBuildError::PopupPlaneRecordSetMismatch { surface: SURFACE })
    );

    let mut stale_backdrop = plan_with(popup, Some(plane));
    stale_backdrop.push_tab_list_menu_backdrop_record(TabListMenuBackdropRecord::new(
        session,
        PopupRoutingRevision::new(1),
        plane,
    ));
    stale_backdrop.push_tab_list_menu_record(menu(session));
    assert_eq!(
        validate_popup_plane(&stale_backdrop),
        Err(SceneBuildError::PopupPlaneRecordSetMismatch { surface: SURFACE })
    );

    let unmeasured = plan_with(popup, None);
    assert_eq!(
        validate_popup_plane(&unmeasured),
        Err(SceneBuildError::PopupPlaneRecordSetMismatch { surface: SURFACE })
    );

    let empty = rect(0, 0, 0, 480);
    let mut empty_plane = plan_with(popup, Some(empty));
    empty_plane.push_tab_list_menu_backdrop_record(TabListMenuBackdropRecord::new(
        session,
        PopupRoutingRevision::new(2),
        empty,
    ));
    empty_plane.push_tab_list_menu_record(menu(session));
    assert_eq!(
        validate_popup_plane(&empty_plane),
        Err(SceneBuildError::PopupPlaneRecordSetMismatch { surface: SURFACE })
    );
}

#[test]
fn active_popup_on_another_surface_publishes_only_its_backdrop() {
    let plane = rect(0, 0, 640, 480);
    let (popup, session) = active(SurfaceId(99));

    let mut sibling = plan_with(popup, Some(plane));
    sibling.push_tab_list_menu_backdrop_record(TabListMenuBackdropRecord::new(
        session,
        PopupRoutingRevision::new(2),
        plane,
    ));
    assert_eq!(validate_popup_plane(&sibling), Ok(()));

    sibling.push_tab_list_menu_record(menu(session));
    assert_eq!(
        validate_popup_plane(&sibling),
        Err(SceneBuildError::PopupPlaneRecordSetMismatch { surface: SURFACE })
    );
}

fn splitter_id(index: usize) -> SplitterSceneId {
    SplitterSceneId { root: RootId::new(1), split: NodeId::new(2), index }
}

fn splitter(index: usize, axis: Axis, draw: LogicalRect, hit: LogicalRect) -> SplitterRecord {
    SplitterRecord::new(
        splitter_id(index),
        draw,
        HitRegion::new(hit),
        axis,
        rect(0, 0, 5, 5),
        rect(15, 0, 5, 5),
        SplitterExtentLimits {
            before_minimum: 0,
            after_minimum: 0,
            before_maximum: 100,
            after_maximum: 100,
        },
        vec![5, 5],
        None,
        Vec::new(),
        SceneLayerKey::new(0),
        true,
    )
}

fn t_junction_plan() -> PresentationPlan {
    let mut plan = inactive_plan();
    plan.push_splitter_record(splitter(0, Axis::Horizontal, rect(9, 0, 2, 20), rect(7, 0, 6, 20)));
    plan.push_splitter_record(splitter(1, Axis::Vertical, rect(0, 9, 9, 2), rect(0, 7, 13, 6)));
    plan
}

fn t_junction_id() -> SplitterJunctionId {
    SplitterJunctionId::new(Some(splitter_id(0)), None, Some(splitter_id(0)), Some(splitter_id(1)))
}

#[test]
fn derived_junction_record_passes_validation() {
    let mut plan = t_junction_plan();
    plan.push_splitter_junction_record(SplitterJunctionRecord::new(
        t_junction_id(),
        HitRegion::new(rect(7, 7, 6, 6)),
        SceneLayerKey::new(0),
    ));
    assert_eq!(validate_splitter_junction_records(&plan), Ok(()));
}

#[test]
fn missing_junction_record_is_a_set_mismatch() {
    let plan = t_junction_plan();
    assert_eq!(
        validate_splitter_junction_records(&plan),
        Err(SceneBuildError::SplitterJunctionRecordSetMismatch { surface: SURFACE })
    );
}

#[test]
fn junction_record_with_another_hit_is_invalid() {
    let mut plan = t_junction_plan();
    plan.push_splitter_junction_record(SplitterJunctionRecord::new(
        t_junction_id(),
        HitRegion::new(rect(7, 7, 6, 5)),
        SceneLayerKey::new(0),
    ));
    assert_eq!(
        validate_splitter_junction_records(&plan),
        Err(SceneBuildError::InvalidSplitterJunctionRecord { surface: SURFACE, id: t_junction_id() })
    );
}

#[test]
fn occluded_junction_must_not_be_published() {
    let mut covered = t_junction_plan();
    covered.push_drop_occlusion(DropOcclusionRecord::new(
        FloatingPresentationId::new(3),
        HitRegion::new(rect(0, 0, 40, 40)),
        SceneLayerKey::new(1),
    ));
    assert_eq!(validate_splitter_junction_records(&covered), Ok(()));
    covered.push_splitter_junction_record(SplitterJunctionRecord::new(
        t_junction_id(),
        HitRegion::new(rect(7, 7, 6, 6)),
        SceneLayerKey::new(0),
    ));
    assert_eq!(
        validate_splitter_junction_records(&covered),
        Err(SceneBuildError::SplitterJunctionRecordSetMismatch { surface: SURFACE })
    );
}
