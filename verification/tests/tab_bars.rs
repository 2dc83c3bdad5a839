use dockspace::collections::{KeyMap, KeySet};
use dockspace::geometry::{HitRegion, LogicalRect};
use dockspace::ids::{
    EngineAuthorityDomainId, ItemId, NodeId, PolicyRevision, PresentationConfigRevision, RootId,
    SceneLayerKey, SurfaceId, SurfaceRequirementRevision, WorkspaceEpoch,
};
use dockspace::manifest::keys::SurfaceMeasurementTicket;
use dockspace::plan::PresentationPlan;
use dockspace::policy::TabBarInteraction;
use dockspace::records::tab::{
    TabBarRecord, TabBarSceneId, TabGroupDragRecord, TabListMenuGeometryAvailability,
    TabListMenuRecord, TabListMenuRowRecord, TabRecord, TabSceneId, TabStripControlRecord,
    TabStripMemberRecord, TabStripMemberVisibility,
};
use dockspace::tab_strip::{
    PopupPlaneRequirement, TabListMenuSessionId, TabStripControlId, TabStripStateKey,
};
use dockspace::validation::tab_bars::{
    rect_contains, rect_is_exact_intersection, validate_tab_bar_members, validate_tab_records,
    validate_tab_strip_controls_and_menu,
};
use dockspace::validation::SceneBuildError;

const SURFACE: SurfaceId = SurfaceId(31);

fn rect(x: i64, y: i64, width: i64, height: i64) -> LogicalRect {
    LogicalRect::new(x, y, width, height).expect("test rectangle is valid")
}

fn bar_id() -> TabBarSceneId {
    TabBarSceneId { root: RootId::new(1), tabs: NodeId::new(2) }
}

fn plan(plane: Option<LogicalRect>) -> PresentationPlan {
    let ticket = SurfaceMeasurementTicket::new(
        EngineAuthorityDomainId::new(1),
        WorkspaceEpoch::new(1),
        PresentationConfigRevision::new(1),
        PolicyRevision::new(1),
        SurfaceRequirementRevision::new(1),
        SURFACE,
    );
    PresentationPlan::from_measurements(
        ticket,
        PopupPlaneRequirement::inactive(),
        rect(0, 0, 640, 480),
        plane,
    )
}

fn bar(scroll_offset: u32, maximum: u32, interaction: TabBarInteraction) -> TabBarRecord {
    TabBarRecord::new(
        bar_id(),
        rect(0, 0, 300, 30),
        rect(0, 0, 240, 30),
        scroll_offset,
        maximum,
        Vec::new(),
        Vec::new(),
        None,
        None,
        interaction,
        TabListMenuGeometryAvailability::Available,
        SceneLayerKey::new(0),
    )
}

fn controls(
    backward: bool,
    forward: bool,
    menu: bool,
) -> KeyMap<TabStripControlId, TabStripControlRecord> {
    let mut map = KeyMap::new();
    for (id, x, enabled) in [
        (TabStripControlId::ScrollBackward(bar_id()), 240, backward),
        (TabStripControlId::ScrollForward(bar_id()), 260, forward),
        (TabStripControlId::TabListMenu(bar_id()), 280, menu),
    ] {
        assert!(map.insert_new(
            id,
            TabStripControlRecord::new(id, rect(x, 0, 20, 30), enabled, SceneLayerKey::new(0)),
        ));
    }
    map
}

fn item(value: u64) -> ItemId {
    ItemId::new(value)
}

fn row(value: u64, ordinal: usize, y: i64, selected: bool, focused: bool) -> TabListMenuRowRecord {
    let bounds = rect(100, y, 200, 30);
    TabListMenuRowRecord::new(
        TabSceneId { root: RootId::new(1), tabs: NodeId::new(2), item: item(value) },
        ordinal,
        bounds,
        Some(HitRegion::new(bounds)),
        selected,
        focused,
    )
}

fn menu(rows: Vec<TabListMenuRowRecord>) -> TabListMenuRecord {
    TabListMenuRecord::new(
        TabListMenuSessionId::new(TabStripStateKey::new(SURFACE, bar_id()), 1),
        bar_id(),
        rect(100, 30, 200, 100),
        rect(100, 30, 200, 60),
        0,
        0,
        rows,
        SceneLayerKey::new(0),
    )
}

fn invalid() -> Result<(), SceneBuildError> {
    Err(SceneBuildError::InvalidTabBarRecord { surface: SURFACE, id: bar_id() })
}

#[test]
fn rectangle_containment_and_exact_intersection() {
    assert!(rect_contains(rect(0, 0, 10, 10), rect(2, 2, 8, 8)));
    assert!(!rect_contains(rect(0, 0, 10, 10), rect(2, 2, 9, 8)));
    assert!(rect_is_exact_intersection(rect(5, 0, 5, 10), rect(0, 0, 10, 10), rect(5, -5, 20, 15)));
    assert!(!rect_is_exact_intersection(rect(5, 0, 5, 9), rect(0, 0, 10, 10), rect(5, -5, 20, 15)));
    assert!(!rect_is_exact_intersection(rect(10, 0, 0, 10), rect(0, 0, 10, 10), rect(10, 0, 5, 10)));
}

#[test]
fn enabled_controls_follow_scroll_state_and_menu_availability() {
    let items = [item(1), item(2)];
    let plan = plan(None);
    let scrolled_start = bar(0, 50, TabBarInteraction::Enabled);
    let map = controls(false, true, true);
    assert_eq!(
        validate_tab_strip_controls_and_menu(&plan, &scrolled_start, &items, None, Some(&map), None),
        Ok(())
    );
    let wrong = controls(true, true, true);
    assert_eq!(
        validate_tab_strip_controls_and_menu(&plan, &scrolled_start, &items, None, Some(&wrong), None),
        invalid()
    );
    let inert = bar(0, 50, TabBarInteraction::Disabled);
    assert_eq!(
        validate_tab_strip_controls_and_menu(&plan, &inert, &items, None, Some(&map), None),
        invalid()
    );
    assert_eq!(
        validate_tab_strip_controls_and_menu(
            &plan,
            &inert,
            &items,
            None,
            Some(&controls(false, false, false)),
            None,
        ),
        Ok(())
    );
}

#[test]
fn controls_require_overflow_and_a_menu_control_when_the_menu_fits() {
    let items = [item(1)];
    let plan = plan(None);
    let no_overflow = bar(0, 0, TabBarInteraction::Enabled);
    assert_eq!(
        validate_tab_strip_controls_and_menu(
            &plan,
            &no_overflow,
            &items,
            None,
            Some(&controls(false, false, true)),
            None,
        ),
        invalid()
    );
    let mut scroll_only = KeyMap::new();
    let id = TabStripControlId::ScrollForward(bar_id());
    assert!(scroll_only.insert_new(
        id,
        TabStripControlRecord::new(id, rect(260, 0, 20, 30), true, SceneLayerKey::new(0)),
    ));
    assert_eq!(
        validate_tab_strip_controls_and_menu(
            &plan,
            &bar(0, 50, TabBarInteraction::Enabled),
            &items,
            None,
            Some(&scroll_only),
            None,
        ),
        invalid()
    );
    assert_eq!(
        validate_tab_strip_controls_and_menu(
            &plan,
            &bar(0, 50, TabBarInteraction::Enabled),
            &items,
            None,
            None,
            None,
        ),
        invalid()
    );
}

#[test]
fn overlapping_controls_are_rejected() {
    let items = [item(1)];
    let plan = plan(None);
    let mut map = KeyMap::new();
    for (id, x) in [
        (TabStripControlId::ScrollForward(bar_id()), 260),
        (TabStripControlId::TabListMenu(bar_id()), 270),
    ] {
        assert!(map.insert_new(
            id,
            TabStripControlRecord::new(id, rect(x, 0, 20, 30), true, SceneLayerKey::new(0)),
        ));
    }
    assert_eq!(
        validate_tab_strip_controls_and_menu(
            &plan,
            &bar(0, 50, TabBarInteraction::Enabled),
            &items,
            None,
            Some(&map),
            None,
        ),
        invalid()
    );
}

#[test]
fn open_menu_lists_every_item_with_one_focused_row() {
    let items = [item(1), item(2)];
    let plane = Some(rect(0, 0, 640, 480));
    let ready = plan(plane);
    let bar = bar(0, 50, TabBarInteraction::Enabled);
    let map = controls(false, true, true);
    let valid = menu(vec![row(1, 0, 30, false, true), row(2, 1, 60, true, false)]);
    assert_eq!(
        validate_tab_strip_controls_and_menu(&ready, &bar, &items, Some(item(2)), Some(&map), Some(&valid)),
        Ok(())
    );
    assert_eq!(
        validate_tab_strip_controls_and_menu(&ready, &bar, &items, Some(item(1)), Some(&map), Some(&valid)),
        invalid()
    );
    let doubly_focused = menu(vec![row(1, 0, 30, false, true), row(2, 1, 60, true, true)]);
    assert_eq!(
        validate_tab_strip_controls_and_menu(
            &ready,
            &bar,
            &items,
            Some(item(2)),
            Some(&map),
            Some(&doubly_focused),
        ),
        invalid()
    );
    let short = menu(vec![row(1, 0, 30, false, true)]);
    assert_eq!(
        validate_tab_strip_controls_and_menu(&ready, &bar, &items, Some(item(2)), Some(&map), Some(&short)),
        invalid()
    );
    let unmeasured = plan(None);
    assert_eq!(
        validate_tab_strip_controls_and_menu(
            &unmeasured,
            &bar,
            &items,
            Some(item(2)),
            Some(&map),
            Some(&valid),
        ),
        invalid()
    );
    assert_eq!(
        validate_tab_strip_controls_and_menu(&ready, &bar, &items, Some(item(2)), None, Some(&valid)),
        invalid()
    );
}

fn tab_id(value: u64) -> TabSceneId {
    TabSceneId { root: RootId::new(1), tabs: NodeId::new(2), item: item(value) }
}

fn member(value: u64, ordinal: usize, x: i64, visibility: TabStripMemberVisibility) -> TabStripMemberRecord {
    TabStripMemberRecord::new(tab_id(value), ordinal, rect(x, 0, 100, 30), visibility)
}

fn tab(value: u64, ordinal: usize, x: i64, visible_width: i64) -> TabRecord {
    let full = rect(x, 0, 100, 30);
    let shown = rect(x, 0, visible_width, 30);
    TabRecord::new(
        tab_id(value),
        full,
        shown,
        shown,
        HitRegion::new(shown),
        None,
        None,
        false,
        ordinal,
        SceneLayerKey::new(0),
    )
}

fn strip(hidden: Vec<ItemId>, members: Vec<TabStripMemberRecord>, grip: bool) -> TabBarRecord {
    let grip_bounds = rect(0, 0, 20, 30);
    TabBarRecord::new(
        bar_id(),
        rect(0, 0, 300, 30),
        rect(20, 0, 220, 30),
        0,
        50,
        hidden,
        members,
        if grip { Some(grip_bounds) } else { None },
        if grip { Some(TabGroupDragRecord::new(grip_bounds, None)) } else { None },
        TabBarInteraction::Enabled,
        TabListMenuGeometryAvailability::Available,
        SceneLayerKey::new(0),
    )
}

fn three_members(last: TabStripMemberVisibility) -> Vec<TabStripMemberRecord> {
    vec![
        member(1, 0, 20, TabStripMemberVisibility::Visible),
        member(2, 1, 120, TabStripMemberVisibility::Visible),
        member(3, 2, 220, last),
    ]
}

#[test]
fn strip_members_chain_from_the_scrolled_viewport_edge() {
    let ready = plan(None);
    let items = [item(1), item(2), item(3)];
    let visible = [tab(1, 0, 20, 100), tab(2, 1, 120, 100), tab(3, 2, 220, 20)];
    let bar = strip(Vec::new(), three_members(TabStripMemberVisibility::PartiallyVisible), true);
    assert_eq!(validate_tab_bar_members(&ready, &bar, &items, &visible), Ok(()));

    let fully_visible = strip(Vec::new(), three_members(TabStripMemberVisibility::Visible), true);
    assert_eq!(validate_tab_bar_members(&ready, &fully_visible, &items, &visible), invalid());

    let gap = strip(
        Vec::new(),
        vec![
            member(1, 0, 20, TabStripMemberVisibility::Visible),
            member(2, 1, 121, TabStripMemberVisibility::Visible),
            member(3, 2, 221, TabStripMemberVisibility::PartiallyVisible),
        ],
        true,
    );
    assert_eq!(validate_tab_bar_members(&ready, &gap, &items, &visible), invalid());
}

#[test]
fn items_without_a_tab_record_are_listed_as_hidden() {
    let ready = plan(None);
    let items = [item(1), item(2), item(3)];
    let visible = [tab(1, 0, 20, 100), tab(2, 1, 120, 100)];
    let unlisted = strip(Vec::new(), three_members(TabStripMemberVisibility::Hidden), true);
    assert_eq!(validate_tab_bar_members(&ready, &unlisted, &items, &visible), invalid());
    let listed = strip(vec![item(3)], three_members(TabStripMemberVisibility::Hidden), true);
    assert_eq!(validate_tab_bar_members(&ready, &listed, &items, &visible), Ok(()));
}

#[test]
fn group_grip_exists_exactly_while_the_bar_has_items() {
    let ready = plan(None);
    let items = [item(1), item(2), item(3)];
    let visible = [tab(1, 0, 20, 100), tab(2, 1, 120, 100), tab(3, 2, 220, 20)];
    let gripless = strip(Vec::new(), three_members(TabStripMemberVisibility::PartiallyVisible), false);
    assert_eq!(validate_tab_bar_members(&ready, &gripless, &items, &visible), invalid());
    let empty = strip(Vec::new(), Vec::new(), false);
    assert_eq!(validate_tab_bar_members(&ready, &empty, &[], &[]), Ok(()));
}

fn closable_tab(value: u64, ordinal: usize, x: i64, selected: bool, close: bool) -> TabRecord {
    let full = rect(x, 0, 100, 30);
    let close_rect = if close { Some(rect(x + 80, 5, 15, 20)) } else { None };
    TabRecord::new(
        tab_id(value),
        full,
        full,
        rect(x + 4, 4, 60, 20),
        HitRegion::new(rect(x, 0, 80, 30)),
        close_rect,
        close_rect,
        selected,
        ordinal,
        SceneLayerKey::new(0),
    )
}

fn closable(values: &[u64]) -> KeySet<ItemId> {
    let mut set = KeySet::new();
    for value in values {
        set.insert(item(*value));
    }
    set
}

#[test]
fn tab_records_follow_selection_and_close_policy() {
    let ready = plan(None);
    let items = [item(1), item(2)];
    let bar = strip(Vec::new(), Vec::new(), true);
    let tabs = [closable_tab(1, 0, 20, false, true), closable_tab(2, 1, 120, true, false)];
    assert_eq!(
        validate_tab_records(&ready, &bar, &items, Some(item(2)), &tabs, &closable(&[1])),
        Ok(())
    );
    assert_eq!(
        validate_tab_records(&ready, &bar, &items, Some(item(1)), &tabs, &closable(&[1])),
        Err(SceneBuildError::InvalidTabRecord { surface: SURFACE, id: tab_id(1) })
    );
    assert_eq!(
        validate_tab_records(&ready, &bar, &items, Some(item(2)), &tabs, &closable(&[1, 2])),
        Err(SceneBuildError::InvalidTabRecord { surface: SURFACE, id: tab_id(2) })
    );
    assert_eq!(
        validate_tab_records(&ready, &bar, &items, Some(item(2)), &tabs, &closable(&[])),
        Err(SceneBuildError::InvalidTabRecord { surface: SURFACE, id: tab_id(1) })
    );
}

#[test]
fn tab_record_visible_bounds_are_the_viewport_clip() {
    let ready = plan(None);
    let items = [item(1), item(2), item(3)];
    let bar = strip(Vec::new(), Vec::new(), true);
    let clipped = TabRecord::new(
        tab_id(3),
        rect(220, 0, 100, 30),
        rect(220, 0, 20, 30),
        rect(222, 4, 10, 20),
        HitRegion::new(rect(220, 0, 20, 30)),
        None,
        None,
        false,
        2,
        SceneLayerKey::new(0),
    );
    assert_eq!(validate_tab_records(&ready, &bar, &items, None, &[clipped], &closable(&[])), Ok(()));
    let unclipped = TabRecord::new(
        tab_id(3),
        rect(220, 0, 100, 30),
        rect(220, 0, 100, 30),
        rect(222, 4, 10, 20),
        HitRegion::new(rect(220, 0, 20, 30)),
        None,
        None,
        false,
        2,
        SceneLayerKey::new(0),
    );
    assert_eq!(
        validate_tab_records(&ready, &bar, &items, None, &[unclipped], &closable(&[])),
        Err(SceneBuildError::InvalidTabRecord { surface: SURFACE, id: tab_id(3) })
    );
}
