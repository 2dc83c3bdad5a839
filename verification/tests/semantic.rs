use dockspace::geometry::{HitRegion, LogicalRect, LogicalSize};
use dockspace::ids::{FloatingPresentationId, ItemId, NodeId, RootId, SceneLayerKey, SurfaceId};
use dockspace::records::contained::{ContainedRecord, ContainedResizeDirection, ContainedResizeRecord};
use dockspace::records::splitter::{
    Axis, SplitWeight, SplitterExtentLimits, SplitterRecord, SplitterSceneId,
};
use dockspace::records::tab::{
    TabBarSceneId, TabListMenuRecord, TabListMenuRowRecord, TabRecord, TabSceneId,
    TabStripControlRecord,
};
use dockspace::semantic::{
    HostFrameKey, PresentationHitRegionKind, PresentationSemanticManifest, SemanticAccessibilityAction,
    SemanticDelivery, SemanticKey, SemanticReceiverAction, SemanticReceiverEvent,
    SurfacePresentationOutputTicket, ViewportBinding,
};
use dockspace::tab_strip::{TabListMenuSessionId, TabStripControlId, TabStripStateKey};

const LAYER: SceneLayerKey = SceneLayerKey(0);

fn rect(x: i64, y: i64, w: i64, h: i64) -> LogicalRect {
    LogicalRect::new(x, y, w, h).expect("valid rectangle")
}

fn tab(item: u64) -> TabSceneId {
    TabSceneId { root: RootId::new(1), tabs: NodeId::new(2), item: ItemId::new(item) }
}

fn bar() -> TabBarSceneId {
    TabBarSceneId { root: RootId::new(1), tabs: NodeId::new(2) }
}

fn tab_record(item: u64, closable: bool) -> TabRecord {
    let bounds = rect(item as i64 * 10, 0, 10, 10);
    TabRecord::new(
        tab(item),
        bounds,
        bounds,
        bounds,
        HitRegion::new(bounds),
        None,
        if closable { Some(rect(item as i64 * 10 + 6, 2, 3, 3)) } else { None },
        false,
        item as usize,
        LAYER,
    )
}

fn session() -> TabListMenuSessionId {
    TabListMenuSessionId::new(TabStripStateKey::new(SurfaceId::new(1), bar()), 3)
}

fn splitter(index: usize, operable: bool) -> SplitterRecord {
    let id = SplitterSceneId { root: RootId::new(1), split: NodeId::new(4), index };
    SplitterRecord::new(
        id,
        rect(50, 0, 2, 100),
        HitRegion::new(rect(48, 0, 6, 100)),
        Axis::Horizontal,
        rect(0, 0, 50, 100),
        rect(52, 0, 48, 100),
        SplitterExtentLimits {
            before_minimum: 10,
            after_minimum: 10,
            before_maximum: 200,
            after_maximum: 200,
        },
        vec![50, 48],
        None,
        vec![SplitWeight(500_000), SplitWeight(500_000)],
        LAYER,
        operable,
    )
}

fn contained(floating: u64, closable: bool) -> ContainedRecord {
    let directions = [
        ContainedResizeDirection::North,
        ContainedResizeDirection::NorthEast,
        ContainedResizeDirection::East,
        ContainedResizeDirection::SouthEast,
        ContainedResizeDirection::South,
        ContainedResizeDirection::SouthWest,
        ContainedResizeDirection::West,
        ContainedResizeDirection::NorthWest,
    ];
    let resize = directions.map(|direction| ContainedResizeRecord::new(direction, HitRegion::new(rect(0, 0, 1, 1))));
    ContainedRecord::new(
        FloatingPresentationId::new(floating),
        RootId::new(9),
        0,
        rect(0, 0, 100, 100),
        rect(1, 1, 98, 98),
        rect(1, 1, 98, 10),
        HitRegion::new(rect(1, 1, 80, 10)),
        rect(1, 11, 98, 88),
        if closable { Some(rect(85, 1, 10, 10)) } else { None },
        true,
        resize,
        LogicalSize::new(20, 20).expect("valid size"),
        SceneLayerKey(1),
    )
}

fn output() -> SurfacePresentationOutputTicket {
    SurfacePresentationOutputTicket { surface: SurfaceId::new(1), serial: 7 }
}

fn manifest() -> PresentationSemanticManifest {
    let tabs = [tab_record(1, true), tab_record(2, false)];
    let controls = [
        TabStripControlRecord::new(TabStripControlId::TabListMenu(bar()), rect(90, 0, 10, 10), true, LAYER),
        TabStripControlRecord::new(TabStripControlId::ScrollForward(bar()), rect(80, 0, 10, 10), false, LAYER),
    ];
    let rows = vec![
        TabListMenuRowRecord::new(tab(1), 0, rect(0, 20, 50, 10), None, true, false),
        TabListMenuRowRecord::new(tab(2), 1, rect(0, 30, 50, 10), None, false, false),
    ];
    let menus = [TabListMenuRecord::new(session(), bar(), rect(0, 20, 50, 20), rect(0, 20, 50, 20), 0, 5, rows, LAYER)];
    let splitters = [splitter(0, true), splitter(1, false)];
    let floating = [contained(5, true)];
    PresentationSemanticManifest::compile(output(), &tabs, &controls, &menus, &splitters, &floating)
}

#[test]
fn semantic_roster_covers_every_presented_receiver_once() {
    let manifest = manifest();
    let receivers = manifest.receivers();
    assert!(manifest.contains(PresentationHitRegionKind::TabBody(tab(1))));
    assert!(manifest.contains(PresentationHitRegionKind::TabBody(tab(2))));
    assert!(manifest.contains(PresentationHitRegionKind::TabClose(tab(1))));
    assert!(!manifest.contains(PresentationHitRegionKind::TabClose(tab(2))));
    assert!(manifest.contains(PresentationHitRegionKind::TabStripControl(TabStripControlId::TabListMenu(bar()))));
    assert!(!manifest.contains(PresentationHitRegionKind::TabStripControl(TabStripControlId::ScrollForward(bar()))));
    assert!(manifest.contains(PresentationHitRegionKind::TabListMenuScroll(session())));
    assert!(manifest.contains(PresentationHitRegionKind::TabListMenuRow { menu: session(), tab: tab(2) }));
    let operable = SplitterSceneId { root: RootId::new(1), split: NodeId::new(4), index: 0 };
    let inert = SplitterSceneId { root: RootId::new(1), split: NodeId::new(4), index: 1 };
    assert!(manifest.contains(PresentationHitRegionKind::SplitterHandle(operable)));
    assert!(!manifest.contains(PresentationHitRegionKind::SplitterHandle(inert)));
    let floating = FloatingPresentationId::new(5);
    assert!(manifest.contains(PresentationHitRegionKind::ContainedClose(floating)));
    assert!(manifest.contains(PresentationHitRegionKind::ContainedResize { floating, direction: ContainedResizeDirection::West }));
    assert!(!manifest.contains(PresentationHitRegionKind::ContainedResize { floating, direction: ContainedResizeDirection::NorthWest }));
    // 2 bodies, 1 close, 1 control, 1 scroll, 2 rows, 1 handle, 1 close, 4 edges.
    assert_eq!(receivers.len(), 13);
    assert_eq!(manifest.output(), output());
}

#[test]
fn semantic_roster_is_independent_of_record_order_and_repetition() {
    let tabs = [tab_record(2, false), tab_record(1, true), tab_record(1, true)];
    let forward = PresentationSemanticManifest::compile(output(), &tabs, &[], &[], &[], &[]);
    let reversed_tabs = [tab_record(1, true), tab_record(2, false)];
    let reversed = PresentationSemanticManifest::compile(output(), &reversed_tabs, &[], &[], &[], &[]);
    assert_eq!(forward.receivers(), reversed.receivers());
    assert_eq!(forward.receivers().len(), 3);
}

#[test]
fn supported_actions_follow_the_receiver_kind() {
    let manifest = manifest();
    let body = PresentationHitRegionKind::TabBody(tab(1));
    assert!(manifest.supports(body, SemanticReceiverAction::Key(SemanticKey::ArrowLeft)));
    assert!(!manifest.supports(body, SemanticReceiverAction::Key(SemanticKey::ArrowUp)));
    let row = PresentationHitRegionKind::TabListMenuRow { menu: session(), tab: tab(1) };
    assert!(manifest.supports(row, SemanticReceiverAction::Accessibility(SemanticAccessibilityAction::ScrollIntoView)));
    let floating = FloatingPresentationId::new(5);
    let east = PresentationHitRegionKind::ContainedResize { floating, direction: ContainedResizeDirection::East };
    assert!(manifest.supports(east, SemanticReceiverAction::Key(SemanticKey::ArrowRight)));
    assert!(!manifest.supports(east, SemanticReceiverAction::Key(SemanticKey::ArrowDown)));
    let scroll = PresentationHitRegionKind::TabListMenuScroll(session());
    assert!(manifest.supports(scroll, SemanticReceiverAction::Accessibility(SemanticAccessibilityAction::Increment)));
    assert!(!manifest.supports(scroll, SemanticReceiverAction::Key(SemanticKey::Enter)));
    let absent = PresentationHitRegionKind::TabClose(tab(2));
    assert!(!manifest.supports(absent, SemanticReceiverAction::Key(SemanticKey::Enter)));
}

#[test]
fn receiver_events_keep_their_exact_parts() {
    let target = PresentationHitRegionKind::TabBody(tab(1));
    let action = SemanticReceiverAction::Accessibility(SemanticAccessibilityAction::Click);
    let event = SemanticReceiverEvent::new(
        output(),
        HostFrameKey(11),
        SemanticDelivery::Native(ViewportBinding(3)),
        target,
        action,
    );
    assert_eq!(event.output(), output());
    assert_eq!(event.emission(), HostFrameKey(11));
    assert_eq!(event.delivery(), SemanticDelivery::Native(ViewportBinding(3)));
    assert_eq!(event.target(), target);
    assert_eq!(event.action(), action);
}
