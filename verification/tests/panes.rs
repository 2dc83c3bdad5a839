use dockspace::collections::{KeyMap, KeySet};
use dockspace::geometry::{HitRegion, LogicalRect};
use dockspace::ids::{
    EngineAuthorityDomainId, ItemId, NodeId, PolicyRevision, PresentationConfigRevision, RootId,
    SceneLayerKey, SurfaceId, SurfaceRequirementRevision, WorkspaceEpoch,
};
use dockspace::manifest::keys::SurfaceMeasurementTicket;
use dockspace::plan::PresentationPlan;
use dockspace::policy::{TabBarInteraction, TabBarPolicy, TabBarVisibility};
use dockspace::records::tab::{
    PaneRecord, PaneSceneId, TabBarRecord, TabBarSceneId, TabGroupDragRecord,
    TabListMenuGeometryAvailability, TabListMenuRecord, TabRecord, TabSceneId,
    TabStripControlRecord, TabStripMemberRecord, TabStripMemberVisibility,
};
use dockspace::tab_strip::{
    PopupPlaneRequirement, TabListMenuSessionId, TabStripControlId, TabStripStateKey,
};
use dockspace::validation::panes::{count_distinct, validate_pane_records, ExpectedPane};
use dockspace::validation::SceneBuildError;

const SURFACE: SurfaceId = SurfaceId(41);

fn main_root() -> Option<RootId> {
    Some(RootId::new(1))
}

fn rect(x: i64, y: i64, width: i64, height: i64) -> LogicalRect {
    LogicalRect::new(x, y, width, height).expect("test rectangle is valid")
}

fn plan() -> PresentationPlan {
    let ticket = SurfaceMeasurementTicket::new(
        EngineAuthorityDomainId::new(1),
        WorkspaceEpoch::new(1),
        PresentationConfigRevision::new(1),
        PolicyRevision::new(1),
        SurfaceRequirementRevision::new(1),
        SURFACE,
    );
    PresentationPlan::from_measurements(
        ticket,
        PopupPlaneRequirement::inactive(),
        rect(0, 0, 800, 600),
        None,
    )
}

fn pane_id(tabs: u64) -> PaneSceneId {
    PaneSceneId { root: RootId::new(1), tabs: NodeId::new(tabs) }
}

fn pane(tabs: u64, bounds: LogicalRect, selected: Option<u64>) -> PaneRecord {
    PaneRecord::new(
        pane_id(tabs),
        bounds,
        bounds,
        selected.map(ItemId::new),
        SceneLayerKey::surface_base(),
    )
}

fn bar(tabs: u64, bounds: LogicalRect, scroll: u32, maximum: u32) -> TabBarRecord {
    TabBarRecord::new(
        TabBarSceneId { root: RootId::new(1), tabs: NodeId::new(tabs) },
        bounds,
        bounds,
        scroll,
        maximum,
        Vec::new(),
        Vec::new(),
        None,
        None,
        TabBarInteraction::Enabled,
        TabListMenuGeometryAvailability::Unavailable,
        SceneLayerKey::surface_base(),
    )
}

fn expected(entries: &[(u64, Option<u64>, TabBarVisibility)]) -> KeyMap<PaneSceneId, ExpectedPane> {
    let mut map = KeyMap::new();
    for (tabs, selected, visibility) in entries {
        map.insert_new(
            pane_id(*tabs),
            ExpectedPane {
                items: Vec::new(),
                selected: selected.map(ItemId::new),
                closable: KeySet::new(),
                layer: SceneLayerKey::surface_base(),
                policy: TabBarPolicy::new(*visibility, TabBarInteraction::Enabled),
            },
        );
    }
    map
}

fn visible_left_pane_plan() -> PresentationPlan {
    let mut ready = plan();
    ready.push_pane_record(pane(3, rect(0, 0, 400, 600), Some(7)));
    ready.push_pane_record(pane(4, rect(400, 0, 400, 600), None));
    ready.push_tab_bar_record(bar(3, rect(0, 0, 400, 30), 0, 0));
    ready
}

fn two_leaves() -> KeyMap<PaneSceneId, ExpectedPane> {
    expected(&[(3, Some(7), TabBarVisibility::Visible), (4, None, TabBarVisibility::Hidden)])
}

#[test]
fn panes_and_visible_bars_matching_their_leaves_are_accepted() {
    assert_eq!(validate_pane_records(&visible_left_pane_plan(), main_root(), &two_leaves()), Ok(()));
}

#[test]
fn missing_or_extra_pane_is_a_pane_set_mismatch() {
    let mut ready = plan();
    ready.push_pane_record(pane(3, rect(0, 0, 400, 600), Some(7)));
    assert_eq!(
        validate_pane_records(&ready, main_root(), &two_leaves()),
        Err(SceneBuildError::PaneRecordSetMismatch { surface: SURFACE })
    );
    ready.push_pane_record(pane(5, rect(400, 0, 400, 600), None));
    assert_eq!(
        validate_pane_records(&ready, main_root(), &two_leaves()),
        Err(SceneBuildError::PaneRecordSetMismatch { surface: SURFACE })
    );
}

#[test]
fn pane_with_another_selection_is_invalid() {
    let mut ready = plan();
    ready.push_pane_record(pane(3, rect(0, 0, 400, 600), Some(8)));
    ready.push_pane_record(pane(4, rect(400, 0, 400, 600), None));
    assert_eq!(
        validate_pane_records(&ready, main_root(), &two_leaves()),
        Err(SceneBuildError::InvalidPaneRecord { surface: SURFACE, id: pane_id(3) })
    );
}

#[test]
fn pane_outside_the_surface_is_invalid() {
    let mut ready = plan();
    ready.push_pane_record(pane(3, rect(0, 0, 400, 600), Some(7)));
    ready.push_pane_record(pane(4, rect(500, 0, 400, 600), None));
    assert_eq!(
        validate_pane_records(&ready, main_root(), &two_leaves()),
        Err(SceneBuildError::InvalidPaneRecord { surface: SURFACE, id: pane_id(4) })
    );
}

#[test]
fn bar_count_must_match_the_visible_panes() {
    let mut ready = plan();
    ready.push_pane_record(pane(3, rect(0, 0, 400, 600), Some(7)));
    ready.push_pane_record(pane(4, rect(400, 0, 400, 600), None));
    assert_eq!(
        validate_pane_records(&ready, main_root(), &two_leaves()),
        Err(SceneBuildError::TabBarRecordSetMismatch { surface: SURFACE })
    );
}

#[test]
fn bar_of_a_hidden_pane_is_invalid() {
    let mut ready = plan();
    ready.push_pane_record(pane(3, rect(0, 0, 400, 600), Some(7)));
    ready.push_pane_record(pane(4, rect(400, 0, 400, 600), None));
    ready.push_tab_bar_record(bar(3, rect(0, 0, 400, 30), 0, 0));
    let leaves =
        expected(&[(3, Some(7), TabBarVisibility::Hidden), (4, None, TabBarVisibility::Visible)]);
    assert_eq!(
        validate_pane_records(&ready, main_root(), &leaves),
        Err(SceneBuildError::InvalidTabBarRecord {
            surface: SURFACE,
            id: TabBarSceneId { root: RootId::new(1), tabs: NodeId::new(3) }
        })
    );
}

#[test]
fn missing_bar_of_a_visible_pane_is_a_bar_set_mismatch() {
    let mut ready = plan();
    ready.push_pane_record(pane(3, rect(0, 0, 400, 600), Some(7)));
    ready.push_pane_record(pane(4, rect(400, 0, 400, 600), None));
    ready.push_tab_bar_record(bar(4, rect(400, 0, 400, 30), 0, 0));
    assert_eq!(
        validate_pane_records(&ready, main_root(), &two_leaves()),
        Err(SceneBuildError::TabBarRecordSetMismatch { surface: SURFACE })
    );
}

#[test]
fn bar_geometry_and_scroll_are_checked() {
    let bar_id = TabBarSceneId { root: RootId::new(1), tabs: NodeId::new(3) };
    let mut outside = plan();
    outside.push_pane_record(pane(3, rect(0, 0, 400, 600), Some(7)));
    outside.push_pane_record(pane(4, rect(400, 0, 400, 600), None));
    outside.push_tab_bar_record(bar(3, rect(0, 0, 500, 30), 0, 0));
    assert_eq!(
        validate_pane_records(&outside, main_root(), &two_leaves()),
        Err(SceneBuildError::InvalidTabBarRecord { surface: SURFACE, id: bar_id })
    );
    let mut overscrolled = plan();
    overscrolled.push_pane_record(pane(3, rect(0, 0, 400, 600), Some(7)));
    overscrolled.push_pane_record(pane(4, rect(400, 0, 400, 600), None));
    overscrolled.push_tab_bar_record(bar(3, rect(0, 0, 400, 30), 20, 10));
    assert_eq!(
        validate_pane_records(&overscrolled, main_root(), &two_leaves()),
        Err(SceneBuildError::InvalidTabBarRecord { surface: SURFACE, id: bar_id })
    );
}

#[test]
fn pane_without_area_shows_no_bar() {
    let mut ready = plan();
    ready.push_pane_record(pane(3, rect(0, 0, 0, 600), Some(7)));
    ready.push_pane_record(pane(4, rect(400, 0, 400, 600), None));
    assert_eq!(validate_pane_records(&ready, main_root(), &two_leaves()), Ok(()));
    ready.push_tab_bar_record(bar(3, rect(0, 0, 0, 30), 0, 0));
    assert_eq!(
        validate_pane_records(&ready, main_root(), &two_leaves()),
        Err(SceneBuildError::TabBarRecordSetMismatch { surface: SURFACE })
    );
}

#[test]
fn distinct_identities_are_counted_once() {
    assert_eq!(count_distinct(&[pane_id(3), pane_id(4), pane_id(3)]), 2);
    assert_eq!(count_distinct::<PaneSceneId>(&[]), 0);
}

fn bar_id(tabs: u64) -> TabBarSceneId {
    TabBarSceneId { root: RootId::new(1), tabs: NodeId::new(tabs) }
}

fn control(id: TabStripControlId) -> TabStripControlRecord {
    TabStripControlRecord::new(id, rect(370, 0, 30, 30), true, SceneLayerKey::surface_base())
}

fn menu(tabs: u64, session: u64) -> TabListMenuRecord {
    TabListMenuRecord::new(
        TabListMenuSessionId::new(TabStripStateKey::new(SURFACE, bar_id(tabs)), session),
        bar_id(tabs),
        rect(0, 30, 200, 200),
        rect(0, 30, 200, 200),
        0,
        0,
        Vec::new(),
        SceneLayerKey::new(9),
    )
}

#[test]
fn repeated_control_is_reported_on_its_bar() {
    let mut ready = visible_left_pane_plan();
    ready.push_tab_strip_control_record(control(TabStripControlId::TabListMenu(bar_id(3))));
    ready.push_tab_strip_control_record(control(TabStripControlId::TabListMenu(bar_id(3))));
    assert_eq!(
        validate_pane_records(&ready, main_root(), &two_leaves()),
        Err(SceneBuildError::InvalidTabBarRecord { surface: SURFACE, id: bar_id(3) })
    );
}

#[test]
fn at_most_one_menu_is_open() {
    let mut ready = visible_left_pane_plan();
    ready.push_tab_list_menu_record(menu(3, 1));
    ready.push_tab_list_menu_record(menu(4, 2));
    assert_eq!(
        validate_pane_records(&ready, main_root(), &two_leaves()),
        Err(SceneBuildError::InvalidTabBarRecord { surface: SURFACE, id: bar_id(3) })
    );
}

#[test]
fn controls_and_menus_must_name_published_bars() {
    let mut with_control = visible_left_pane_plan();
    with_control.push_tab_strip_control_record(control(TabStripControlId::ScrollForward(bar_id(6))));
    with_control.push_tab_strip_control_record(control(TabStripControlId::ScrollForward(bar_id(5))));
    assert_eq!(
        validate_pane_records(&with_control, main_root(), &two_leaves()),
        Err(SceneBuildError::InvalidTabBarRecord { surface: SURFACE, id: bar_id(5) })
    );
    let mut with_menu = visible_left_pane_plan();
    with_menu.push_tab_list_menu_record(menu(4, 1));
    assert_eq!(
        validate_pane_records(&with_menu, main_root(), &two_leaves()),
        Err(SceneBuildError::InvalidTabBarRecord { surface: SURFACE, id: bar_id(4) })
    );
}

fn item(value: u64) -> ItemId {
    ItemId::new(value)
}

fn tab_id(value: u64) -> TabSceneId {
    TabSceneId { root: RootId::new(1), tabs: NodeId::new(3), item: item(value) }
}

fn full_bar(
    members: Vec<TabStripMemberRecord>,
    hidden: Vec<ItemId>,
    availability: TabListMenuGeometryAvailability,
) -> TabBarRecord {
    let grip = rect(0, 0, 20, 30);
    TabBarRecord::new(
        bar_id(3),
        rect(0, 0, 400, 30),
        rect(20, 0, 360, 30),
        0,
        0,
        hidden,
        members,
        Some(grip),
        Some(TabGroupDragRecord::new(grip, None)),
        TabBarInteraction::Enabled,
        availability,
        SceneLayerKey::surface_base(),
    )
}

fn two_members() -> Vec<TabStripMemberRecord> {
    vec![
        TabStripMemberRecord::new(tab_id(7), 0, rect(20, 0, 100, 30), TabStripMemberVisibility::Visible),
        TabStripMemberRecord::new(tab_id(8), 1, rect(120, 0, 100, 30), TabStripMemberVisibility::Visible),
    ]
}

fn tab(value: u64, ordinal: usize, x: i64, selected: bool, close: Option<LogicalRect>) -> TabRecord {
    let full = rect(x, 0, 100, 30);
    TabRecord::new(
        tab_id(value),
        full,
        full,
        rect(x + 4, 4, 60, 20),
        HitRegion::new(rect(x, 0, 80, 30)),
        close,
        close,
        selected,
        ordinal,
        SceneLayerKey::surface_base(),
    )
}

fn full_leaves(closable: &[u64]) -> KeyMap<PaneSceneId, ExpectedPane> {
    let mut set = KeySet::new();
    for value in closable {
        set.insert(item(*value));
    }
    let mut map = KeyMap::new();
    map.insert_new(
        pane_id(3),
        ExpectedPane {
            items: vec![item(7), item(8)],
            selected: Some(item(7)),
            closable: set,
            layer: SceneLayerKey::surface_base(),
            policy: TabBarPolicy::new(TabBarVisibility::Visible, TabBarInteraction::Enabled),
        },
    );
    map
}

fn one_pane_plan(bar: TabBarRecord, tabs: Vec<TabRecord>) -> PresentationPlan {
    let mut ready = plan();
    ready.push_pane_record(pane(3, rect(0, 0, 400, 600), Some(7)));
    ready.push_tab_bar_record(bar);
    for record in tabs {
        ready.push_tab_record(record);
    }
    ready
}

fn two_tabs() -> Vec<TabRecord> {
    vec![tab(7, 0, 20, true, None), tab(8, 1, 120, false, None)]
}

#[test]
fn bar_holding_exactly_its_leaf_is_accepted() {
    let ready = one_pane_plan(
        full_bar(two_members(), Vec::new(), TabListMenuGeometryAvailability::Unavailable),
        two_tabs(),
    );
    assert_eq!(validate_pane_records(&ready, main_root(), &full_leaves(&[])), Ok(()));
}

#[test]
fn bar_members_and_hidden_items_follow_the_leaf() {
    let ready = one_pane_plan(
        full_bar(two_members(), vec![item(8)], TabListMenuGeometryAvailability::Unavailable),
        two_tabs(),
    );
    assert_eq!(
        validate_pane_records(&ready, main_root(), &full_leaves(&[])),
        Err(SceneBuildError::InvalidTabBarRecord { surface: SURFACE, id: bar_id(3) })
    );
    let short = one_pane_plan(
        full_bar(two_members()[..1].to_vec(), Vec::new(), TabListMenuGeometryAvailability::Unavailable),
        two_tabs(),
    );
    assert_eq!(
        validate_pane_records(&short, main_root(), &full_leaves(&[])),
        Err(SceneBuildError::InvalidTabBarRecord { surface: SURFACE, id: bar_id(3) })
    );
}

#[test]
fn available_menu_geometry_needs_a_menu_control() {
    let ready = one_pane_plan(
        full_bar(two_members(), Vec::new(), TabListMenuGeometryAvailability::Available),
        two_tabs(),
    );
    assert_eq!(
        validate_pane_records(&ready, main_root(), &full_leaves(&[])),
        Err(SceneBuildError::InvalidTabBarRecord { surface: SURFACE, id: bar_id(3) })
    );
}

#[test]
fn close_region_follows_the_close_policy() {
    let closing = vec![tab(7, 0, 20, true, Some(rect(100, 5, 15, 20))), tab(8, 1, 120, false, None)];
    let ready = one_pane_plan(
        full_bar(two_members(), Vec::new(), TabListMenuGeometryAvailability::Unavailable),
        closing,
    );
    assert_eq!(validate_pane_records(&ready, main_root(), &full_leaves(&[7])), Ok(()));
    assert_eq!(
        validate_pane_records(&ready, main_root(), &full_leaves(&[])),
        Err(SceneBuildError::InvalidTabRecord { surface: SURFACE, id: tab_id(7) })
    );
}

#[test]
fn tab_of_an_unpublished_bar_is_a_tab_set_mismatch() {
    let mut ready = one_pane_plan(
        full_bar(two_members(), Vec::new(), TabListMenuGeometryAvailability::Unavailable),
        two_tabs(),
    );
    ready.push_tab_record(TabRecord::new(
        TabSceneId { root: RootId::new(1), tabs: NodeId::new(9), item: item(1) },
        rect(0, 0, 10, 10),
        rect(0, 0, 10, 10),
        rect(0, 0, 10, 10),
        HitRegion::new(rect(0, 0, 10, 10)),
        None,
        None,
        false,
        0,
        SceneLayerKey::surface_base(),
    ));
    assert_eq!(
        validate_pane_records(&ready, main_root(), &full_leaves(&[])),
        Err(SceneBuildError::TabRecordSetMismatch { surface: SURFACE })
    );
}

#[test]
fn leaves_of_roots_not_compiled_are_not_expected() {
    let ready = plan();
    assert_eq!(validate_pane_records(&ready, None, &two_leaves()), Ok(()));
    assert_eq!(
        validate_pane_records(&ready, main_root(), &two_leaves()),
        Err(SceneBuildError::PaneRecordSetMismatch { surface: SURFACE })
    );
}
