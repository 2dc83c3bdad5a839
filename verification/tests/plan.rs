use dockspace::geometry::{HitRegion, LogicalPoint, LogicalRect};
use dockspace::ids::{
    EngineAuthorityDomainId, FloatingPresentationId, NodeId, PolicyRevision,
    PresentationConfigRevision, RootId, SceneLayerKey, SurfaceId, SurfaceRequirementRevision,
    WorkspaceEpoch,
};
use dockspace::manifest::keys::SurfaceMeasurementTicket;
use dockspace::occlusion::DropOcclusionRecord;
use dockspace::plan::PresentationPlan;
use dockspace::policy::TabBarInteraction;
use dockspace::records::splitter::{
    Axis, SplitterExtentLimits, SplitterJunctionId, SplitterJunctionRecord, SplitterRecord,
    SplitterResizeHitError, SplitterResizeTarget, SplitterSceneId,
};
use dockspace::records::tab::{
    TabBarRecord, TabBarSceneId, TabListMenuBackdropRecord, TabListMenuGeometryAvailability,
};
use dockspace::tab_strip::{
    PopupPlaneRequirement, PopupRoutingRevision, TabListMenuSessionId, TabStripStateKey,
};

const SURFACE: SurfaceId = SurfaceId(9);

fn rect(x: i64, y: i64, width: i64, height: i64) -> LogicalRect {
    LogicalRect::new(x, y, width, height).expect("test rectangle is valid")
}

fn point(x: i32, y: i32) -> LogicalPoint {
    LogicalPoint::new(x, y)
}

fn plan() -> PresentationPlan {
    let ticket = SurfaceMeasurementTicket::new(
        EngineAuthorityDomainId::new(1),
        WorkspaceEpoch::new(2),
        PresentationConfigRevision::new(3),
        PolicyRevision::new(4),
        SurfaceRequirementRevision::new(5),
        SURFACE,
    );
    PresentationPlan::from_measurements(
        ticket,
        PopupPlaneRequirement::inactive(),
        rect(0, 0, 800, 600),
        None,
    )
}

fn occlusion(floating: u64, region: LogicalRect, layer: u64) -> DropOcclusionRecord {
    DropOcclusionRecord::new(
        FloatingPresentationId::new(floating),
        HitRegion::new(region),
        SceneLayerKey::new(layer),
    )
}

fn bar_id(tabs: u64) -> TabBarSceneId {
    TabBarSceneId { root: RootId::new(1), tabs: NodeId::new(tabs) }
}

fn bar(tabs: u64, viewport: LogicalRect, layer: u64) -> TabBarRecord {
    TabBarRecord::new(
        bar_id(tabs),
        viewport,
        viewport,
        0,
        0,
        Vec::new(),
        Vec::new(),
        None,
        None,
        TabBarInteraction::Enabled,
        TabListMenuGeometryAvailability::Available,
        SceneLayerKey::new(layer),
    )
}

fn splitter_id(index: usize) -> SplitterSceneId {
    SplitterSceneId { root: RootId::new(1), split: NodeId::new(2), index }
}

fn handle(index: usize, hit: LogicalRect, layer: u64, operable: bool) -> SplitterRecord {
    SplitterRecord::new(
        splitter_id(index),
        hit,
        HitRegion::new(hit),
        Axis::Horizontal,
        rect(0, 0, 10, 10),
        rect(20, 0, 10, 10),
        SplitterExtentLimits {
            before_minimum: 0,
            after_minimum: 0,
            before_maximum: 100,
            after_maximum: 100,
        },
        vec![10, 10],
        None,
        Vec::new(),
        SceneLayerKey::new(layer),
        operable,
    )
}

fn junction(north: usize, hit: LogicalRect, layer: u64) -> SplitterJunctionRecord {
    SplitterJunctionRecord::new(
        SplitterJunctionId::new(
            Some(splitter_id(north)),
            Some(splitter_id(north + 1)),
            Some(splitter_id(north + 2)),
            None,
        ),
        HitRegion::new(hit),
        SceneLayerKey::new(layer),
    )
}

#[test]
fn plan_starts_empty_and_answers_its_ticket() {
    let plan = plan();
    assert_eq!(plan.surface(), SURFACE);
    assert_eq!(plan.measurement_ticket().surface(), SURFACE);
    assert_eq!(plan.bounds(), rect(0, 0, 800, 600));
    assert_eq!(plan.popup_plane_bounds(), None);
    assert!(plan.tab_bar_records().is_empty());
    assert!(plan.splitter_records().is_empty());
    assert!(plan.drop_occlusions().is_empty());
}

#[test]
fn frontmost_layer_is_the_highest_covering_occlusion() {
    let mut plan = plan();
    assert_eq!(plan.frontmost_layer_at(point(50, 50)), SceneLayerKey::surface_base());
    plan.push_drop_occlusion(occlusion(1, rect(0, 0, 100, 100), 3));
    plan.push_drop_occlusion(occlusion(2, rect(40, 40, 100, 100), 2));
    assert_eq!(plan.frontmost_layer_at(point(50, 50)), SceneLayerKey::new(3));
    assert_eq!(plan.frontmost_layer_at(point(120, 120)), SceneLayerKey::new(2));
    assert_eq!(plan.frontmost_layer_at(point(500, 500)), SceneLayerKey::new(1));
    assert!(plan.point_is_on_authoritative_layer(point(50, 50), SceneLayerKey::new(3)));
    assert!(!plan.point_is_on_authoritative_layer(point(50, 50), SceneLayerKey::new(2)));
    assert!(!plan.point_is_on_authoritative_layer(point(900, 50), SceneLayerKey::new(1)));
}

#[test]
fn region_operability_ignores_lower_and_equal_layers() {
    let mut plan = plan();
    plan.push_drop_occlusion(occlusion(1, rect(0, 0, 100, 100), 2));
    assert!(!plan.region_is_operable(rect(10, 10, 20, 20), SceneLayerKey::new(1)));
    assert!(plan.region_is_operable(rect(10, 10, 20, 20), SceneLayerKey::new(2)));
    assert!(plan.region_is_operable(rect(90, 90, 20, 20), SceneLayerKey::new(1)));
}

#[test]
fn scroll_owner_is_the_sole_authoritative_bar() {
    let mut plan = plan();
    plan.push_tab_bar_record(bar(10, rect(0, 0, 200, 30), 1));
    plan.push_tab_bar_record(bar(11, rect(300, 0, 200, 30), 1));
    assert_eq!(plan.tab_scroll_owner_at(point(10, 10)), Some(bar_id(10)));
    assert_eq!(plan.tab_scroll_owner_at(point(310, 10)), Some(bar_id(11)));
    assert_eq!(plan.tab_scroll_owner_at(point(250, 10)), None);
}

#[test]
fn scroll_owner_is_withheld_under_a_covering_occlusion() {
    let mut plan = plan();
    plan.push_tab_bar_record(bar(10, rect(0, 0, 200, 30), 1));
    plan.push_drop_occlusion(occlusion(1, rect(0, 0, 50, 50), 2));
    assert_eq!(plan.tab_scroll_owner_at(point(10, 10)), None);
    assert_eq!(plan.tab_scroll_owner_at(point(100, 10)), Some(bar_id(10)));
}

#[test]
fn overlapping_bars_on_one_layer_have_no_scroll_owner() {
    let mut plan = plan();
    plan.push_tab_bar_record(bar(10, rect(0, 0, 200, 30), 1));
    plan.push_tab_bar_record(bar(11, rect(100, 0, 200, 30), 1));
    assert_eq!(plan.tab_scroll_owner_at(point(150, 10)), None);
    assert_eq!(plan.tab_scroll_owner_at(point(50, 10)), Some(bar_id(10)));
}

#[test]
fn open_menu_backdrop_captures_wheel_input() {
    let mut plan = plan();
    plan.push_tab_bar_record(bar(10, rect(0, 0, 200, 30), 1));
    let session = TabListMenuSessionId::new(TabStripStateKey::new(SURFACE, bar_id(10)), 1);
    plan.push_tab_list_menu_backdrop_record(TabListMenuBackdropRecord::new(
        session,
        PopupRoutingRevision::new(1),
        rect(0, 0, 800, 600),
    ));
    assert_eq!(plan.tab_scroll_owner_at(point(10, 10)), None);
}

#[test]
fn junction_takes_precedence_over_handles() {
    let mut plan = plan();
    plan.push_splitter_record(handle(0, rect(100, 0, 10, 600), 1, true));
    plan.push_splitter_junction_record(junction(0, rect(95, 295, 20, 20), 1));
    assert_eq!(
        plan.splitter_resize_target_at(point(105, 300)),
        Ok(Some(SplitterResizeTarget::Junction(SplitterJunctionId::new(
            Some(splitter_id(0)),
            Some(splitter_id(1)),
            Some(splitter_id(2)),
            None,
        ))))
    );
    assert_eq!(
        plan.splitter_resize_target_at(point(105, 10)),
        Ok(Some(SplitterResizeTarget::Handle(splitter_id(0))))
    );
    assert_eq!(plan.splitter_resize_target_at(point(10, 10)), Ok(None));
    assert_eq!(plan.splitter_resize_target_at(point(1000, 10)), Ok(None));
}

#[test]
fn ambiguous_handles_are_rejected_with_their_count() {
    let mut plan = plan();
    plan.push_splitter_record(handle(0, rect(100, 0, 10, 600), 1, true));
    plan.push_splitter_record(handle(1, rect(0, 100, 800, 10), 1, true));
    plan.push_splitter_record(handle(2, rect(0, 100, 800, 10), 1, false));
    assert_eq!(
        plan.splitter_resize_target_at(point(105, 105)),
        Err(SplitterResizeHitError::AmbiguousHandles {
            surface: SURFACE,
            layer: SceneLayerKey::new(1),
            count: 2,
        })
    );
}

#[test]
fn ambiguous_junctions_are_rejected_with_their_count() {
    let mut plan = plan();
    plan.push_splitter_junction_record(junction(0, rect(90, 90, 20, 20), 1));
    plan.push_splitter_junction_record(junction(3, rect(100, 100, 20, 20), 1));
    assert_eq!(
        plan.splitter_resize_target_at(point(105, 105)),
        Err(SplitterResizeHitError::AmbiguousJunctions {
            surface: SURFACE,
            layer: SceneLayerKey::new(1),
            count: 2,
        })
    );
}

#[test]
fn resize_target_is_resolved_on_the_frontmost_layer_only() {
    let mut plan = plan();
    plan.push_splitter_record(handle(0, rect(100, 0, 10, 600), 1, true));
    plan.push_splitter_record(handle(1, rect(100, 0, 10, 600), 2, true));
    plan.push_drop_occlusion(occlusion(1, rect(50, 0, 100, 100), 2));
    assert_eq!(
        plan.splitter_resize_target_at(point(105, 50)),
        Ok(Some(SplitterResizeTarget::Handle(splitter_id(1))))
    );
    assert_eq!(
        plan.splitter_resize_target_at(point(105, 300)),
        Ok(Some(SplitterResizeTarget::Handle(splitter_id(0))))
    );
}

#[test]
fn operability_is_withdrawn_only_from_fully_covered_handles() {
    let mut plan = plan();
    plan.push_splitter_record(handle(0, rect(100, 0, 10, 100), 1, true));
    plan.push_splitter_record(handle(1, rect(300, 0, 10, 100), 1, true));
    plan.push_splitter_record(handle(2, rect(500, 0, 10, 100), 1, false));
    plan.push_drop_occlusion(occlusion(1, rect(90, 0, 30, 200), 2));
    plan.push_drop_occlusion(occlusion(2, rect(300, 0, 5, 200), 2));
    plan.derive_splitter_operability();
    let records = plan.splitter_records();
    assert_eq!(records.len(), 3);
    assert!(!records[0].operable());
    assert!(records[1].operable());
    assert!(!records[2].operable());
    assert_eq!(*records[1].id(), splitter_id(1));
    assert_eq!(plan.splitter_record(splitter_id(1)).map(|r| r.operable()), Some(true));
    assert!(plan.splitter_record(splitter_id(7)).is_none());
}

#[test]
fn canonicalization_orders_every_record_list() {
    let mut plan = plan();
    plan.push_splitter_record(handle(2, rect(300, 0, 10, 100), 1, true));
    plan.push_splitter_record(handle(0, rect(100, 0, 10, 100), 1, true));
    plan.push_splitter_record(handle(1, rect(200, 0, 10, 100), 1, false));
    plan.push_tab_bar_record(bar(12, rect(0, 0, 10, 10), 1));
    plan.push_tab_bar_record(bar(10, rect(20, 0, 10, 10), 1));
    plan.push_drop_occlusion(occlusion(5, rect(0, 0, 10, 10), 1));
    plan.push_drop_occlusion(occlusion(2, rect(0, 0, 20, 20), 2));
    plan.push_drop_occlusion(occlusion(4, rect(0, 0, 30, 30), 3));
    plan.canonicalize_ready();

    let splitters: Vec<SplitterSceneId> = plan.splitter_records().iter().map(|r| *r.id()).collect();
    assert_eq!(splitters, vec![splitter_id(0), splitter_id(1), splitter_id(2)]);
    assert!(!plan.splitter_records()[1].operable());
    let bars: Vec<TabBarSceneId> = plan.tab_bar_records().iter().map(|r| *r.id()).collect();
    assert_eq!(bars, vec![bar_id(10), bar_id(12)]);
    let occlusions: Vec<u64> = plan.drop_occlusions().iter().map(|r| r.floating().0).collect();
    assert_eq!(occlusions, vec![2, 4, 5]);
    assert_eq!(plan.surface(), SURFACE);
}

#[test]
fn resize_target_does_not_depend_on_record_order() {
    let handles = [
        handle(0, rect(100, 0, 10, 600), 1, true),
        handle(1, rect(0, 100, 800, 10), 1, true),
        handle(2, rect(300, 0, 10, 600), 1, true),
    ];
    let mut forward = plan();
    let mut backward = plan();
    for record in handles.iter() {
        forward.push_splitter_record(record.clone());
    }
    for record in handles.iter().rev() {
        backward.push_splitter_record(record.clone());
    }
    for point in [point(105, 105), point(305, 50), point(50, 105), point(10, 10)] {
        assert_eq!(
            forward.splitter_resize_target_at(point),
            backward.splitter_resize_target_at(point)
        );
    }
    assert!(forward.splitter_resize_target_at(point(105, 105)).is_err());
    assert_eq!(
        backward.splitter_resize_target_at(point(305, 50)),
        Ok(Some(SplitterResizeTarget::Handle(splitter_id(2))))
    );
}

#[test]
fn scroll_owner_does_not_depend_on_record_order() {
    let bars = [
        bar(10, rect(0, 0, 200, 30), 1),
        bar(11, rect(100, 0, 200, 30), 1),
        bar(12, rect(400, 0, 200, 30), 1),
    ];
    let mut forward = plan();
    let mut backward = plan();
    for record in bars.iter() {
        forward.push_tab_bar_record(record.clone());
    }
    for record in bars.iter().rev() {
        backward.push_tab_bar_record(record.clone());
    }
    for point in [point(50, 10), point(150, 10), point(250, 10), point(450, 10), point(350, 10)] {
        assert_eq!(forward.tab_scroll_owner_at(point), backward.tab_scroll_owner_at(point));
    }
    assert_eq!(forward.tab_scroll_owner_at(point(150, 10)), None);
    assert_eq!(backward.tab_scroll_owner_at(point(250, 10)), Some(bar_id(11)));
}
