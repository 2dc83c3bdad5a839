//! Tab, tab-bar, pane, and tab-list presentation records.

use vstd::prelude::*;

use crate::geometry::{HitRegion, LogicalPoint, LogicalRect};
use crate::ids::{ItemId, NodeId, RootId, SceneLayerKey};
use crate::policy::TabBarInteraction;
use crate::tab_strip::{PopupRoutingRevision, TabListMenuSessionId, TabStripControlId};

verus! {

/// Stable semantic identity of one tab bar.
#[derive(Debug, Clone, Copy, PartialEq, Eq, Structural, PartialOrd, Ord, Hash, Default)]
pub struct TabBarSceneId {
    /// Owning root.
    pub root: RootId,
    /// Tabs node owning the bar.
    pub tabs: NodeId,
}

/// Stable semantic identity of one tab.
#[derive(Debug, Clone, Copy, PartialEq, Eq, Structural, PartialOrd, Ord, Hash, Default)]
pub struct TabSceneId {
    /// Owning root.
    pub root: RootId,
    /// Tabs node containing the item.
    pub tabs: NodeId,
    /// Presented item.
    pub item: ItemId,
}

/// Stable semantic identity of one pane.
#[derive(Debug, Clone, Copy, PartialEq, Eq, Structural, PartialOrd, Ord, Hash, Default)]
pub struct PaneSceneId {
    /// Owning root.
    pub root: RootId,
    /// Tabs node presented by the pane.
    pub tabs: NodeId,
}

/// Core-compiled bounds of one pane and its content.
#[derive(Debug, Clone, Copy, PartialEq, Eq, Structural)]
pub struct PaneRecord {
    id: PaneSceneId,
    bounds: LogicalRect,
    content_bounds: LogicalRect,
    selected: Option<ItemId>,
    layer: SceneLayerKey,
}

impl PaneRecord {
    /// Creates one record from its exact parts.
    pub fn new(id: PaneSceneId, bounds: LogicalRect, content_bounds: LogicalRect, selected: Option<ItemId>, layer: SceneLayerKey) -> (r: Self)
        ensures
            r.id() == id,
            r.bounds() == bounds,
            r.content_bounds() == content_bounds,
            r.selected() == selected,
            r.layer() == layer,
    {
        Self { id, bounds, content_bounds, selected, layer }
    }

    /// Exact value behind [`Self::id`].
    pub closed spec fn spec_id(&self) -> PaneSceneId {
        self.id
    }

    /// Returns the stable pane identity.
    #[verifier::when_used_as_spec(spec_id)]
    pub fn id(&self) -> (r: PaneSceneId)
        ensures
            r == self.spec_id(),
    {
        self.id
    }

    /// Exact value behind [`Self::bounds`].
    pub closed spec fn spec_bounds(&self) -> LogicalRect {
        self.bounds
    }

    /// Returns the complete pane bounds.
    #[verifier::when_used_as_spec(spec_bounds)]
    pub fn bounds(&self) -> (r: LogicalRect)
        ensures
            r == self.spec_bounds(),
    {
        self.bounds
    }

    /// Exact value behind [`Self::content_bounds`].
    pub closed spec fn spec_content_bounds(&self) -> LogicalRect {
        self.content_bounds
    }

    /// Returns the content bounds below the tab bar.
    #[verifier::when_used_as_spec(spec_content_bounds)]
    pub fn content_bounds(&self) -> (r: LogicalRect)
        ensures
            r == self.spec_content_bounds(),
    {
        self.content_bounds
    }

    /// Exact value behind [`Self::selected`].
    pub closed spec fn spec_selected(&self) -> Option<ItemId> {
        self.selected
    }

    /// Returns the selected item, when the pane has one.
    #[verifier::when_used_as_spec(spec_selected)]
    pub fn selected(&self) -> (r: Option<ItemId>)
        ensures
            r == self.spec_selected(),
    {
        self.selected
    }

    /// Exact value behind [`Self::layer`].
    pub closed spec fn spec_layer(&self) -> SceneLayerKey {
        self.layer
    }

    /// Returns the roster-derived semantic layer.
    #[verifier::when_used_as_spec(spec_layer)]
    pub fn layer(&self) -> (r: SceneLayerKey)
        ensures
            r == self.spec_layer(),
    {
        self.layer
    }
}

/// Core-compiled draw and hit geometry for one tab.
#[derive(Debug, Clone, Copy, PartialEq, Eq, Structural)]
pub struct TabRecord {
    id: TabSceneId,
    full_bounds: LogicalRect,
    visible_bounds: LogicalRect,
    text_bounds: LogicalRect,
    drag_hit: HitRegion,
    close_visual_bounds: Option<LogicalRect>,
    close_bounds: Option<LogicalRect>,
    selected: bool,
    ordinal: usize,
    layer: SceneLayerKey,
}

impl TabRecord {
    /// Creates one record from its exact parts.
    pub fn new(id: TabSceneId, full_bounds: LogicalRect, visible_bounds: LogicalRect, text_bounds: LogicalRect, drag_hit: HitRegion, close_visual_bounds: Option<LogicalRect>, close_bounds: Option<LogicalRect>, selected: bool, ordinal: usize, layer: SceneLayerKey) -> (r: Self)
        ensures
            r.spec_id() == id,
            r.full_bounds() == full_bounds,
            r.visible_bounds() == visible_bounds,
            r.text_bounds() == text_bounds,
            r.drag_hit() == drag_hit,
            r.close_visual_bounds() == close_visual_bounds,
            r.close_bounds() == close_bounds,
            r.selected() == selected,
            r.ordinal() == ordinal,
            r.layer() == layer,
    {
        Self { id, full_bounds, visible_bounds, text_bounds, drag_hit, close_visual_bounds, close_bounds, selected, ordinal, layer }
    }

    /// Exact value behind [`Self::id`].
    pub closed spec fn spec_id(&self) -> TabSceneId {
        self.id
    }

    /// Returns the stable tab identity.
    pub fn id(&self) -> (r: &TabSceneId)
        ensures
            *r == self.spec_id(),
    {
        &self.id
    }

    /// Exact value behind [`Self::full_bounds`].
    pub closed spec fn spec_full_bounds(&self) -> LogicalRect {
        self.full_bounds
    }

    /// Returns the unclipped tab bounds.
    #[verifier::when_used_as_spec(spec_full_bounds)]
    pub fn full_bounds(&self) -> (r: LogicalRect)
        ensures
            r == self.spec_full_bounds(),
    {
        self.full_bounds
    }

    /// Exact value behind [`Self::visible_bounds`].
    pub closed spec fn spec_visible_bounds(&self) -> LogicalRect {
        self.visible_bounds
    }

    /// Returns the tab bounds clipped to the strip viewport.
    #[verifier::when_used_as_spec(spec_visible_bounds)]
    pub fn visible_bounds(&self) -> (r: LogicalRect)
        ensures
            r == self.spec_visible_bounds(),
    {
        self.visible_bounds
    }

    /// Exact value behind [`Self::text_bounds`].
    pub closed spec fn spec_text_bounds(&self) -> LogicalRect {
        self.text_bounds
    }

    /// Returns the title text bounds.
    #[verifier::when_used_as_spec(spec_text_bounds)]
    pub fn text_bounds(&self) -> (r: LogicalRect)
        ensures
            r == self.spec_text_bounds(),
    {
        self.text_bounds
    }

    /// Exact value behind [`Self::drag_hit`].
    pub closed spec fn spec_drag_hit(&self) -> HitRegion {
        self.drag_hit
    }

    /// Returns the exact drag and selection hit region.
    #[verifier::when_used_as_spec(spec_drag_hit)]
    pub fn drag_hit(&self) -> (r: HitRegion)
        ensures
            r == self.spec_drag_hit(),
    {
        self.drag_hit
    }

    /// Exact value behind [`Self::close_visual_bounds`].
    pub closed spec fn spec_close_visual_bounds(&self) -> Option<LogicalRect> {
        self.close_visual_bounds
    }

    /// Returns the close-glyph draw bounds, when closable.
    #[verifier::when_used_as_spec(spec_close_visual_bounds)]
    pub fn close_visual_bounds(&self) -> (r: Option<LogicalRect>)
        ensures
            r == self.spec_close_visual_bounds(),
    {
        self.close_visual_bounds
    }

    /// Exact value behind [`Self::close_bounds`].
    pub closed spec fn spec_close_bounds(&self) -> Option<LogicalRect> {
        self.close_bounds
    }

    /// Returns the close-control hit bounds, when closable.
    #[verifier::when_used_as_spec(spec_close_bounds)]
    pub fn close_bounds(&self) -> (r: Option<LogicalRect>)
        ensures
            r == self.spec_close_bounds(),
    {
        self.close_bounds
    }

    /// Exact value behind [`Self::selected`].
    pub closed spec fn spec_selected(&self) -> bool {
        self.selected
    }

    /// Returns whether the tab is selected.
    #[verifier::when_used_as_spec(spec_selected)]
    pub fn selected(&self) -> (r: bool)
        ensures
            r == self.spec_selected(),
    {
        self.selected
    }

    /// Exact value behind [`Self::ordinal`].
    pub closed spec fn spec_ordinal(&self) -> usize {
        self.ordinal
    }

    /// Returns the tab ordinal inside its bar.
    #[verifier::when_used_as_spec(spec_ordinal)]
    pub fn ordinal(&self) -> (r: usize)
        ensures
            r == self.spec_ordinal(),
    {
        self.ordinal
    }

    /// Exact value behind [`Self::layer`].
    pub closed spec fn spec_layer(&self) -> SceneLayerKey {
        self.layer
    }

    /// Returns the roster-derived semantic layer.
    #[verifier::when_used_as_spec(spec_layer)]
    pub fn layer(&self) -> (r: SceneLayerKey)
        ensures
            r == self.spec_layer(),
    {
        self.layer
    }
}

/// One kind of tab-group drag region.
#[derive(Debug, Clone, Copy, PartialEq, Eq, Structural, PartialOrd, Ord, Hash)]
pub enum TabGroupDragRegionKind {
    /// The grip before the first tab.
    LeadingGrip,
    /// The empty strip area after the last tab.
    TrailingEmpty,
}

/// Exact draw and hit geometry for one tab-group drag region.
#[derive(Debug, Clone, Copy, PartialEq, Eq, Structural)]
pub struct TabGroupDragRegionRecord {
    kind: TabGroupDragRegionKind,
    bounds: LogicalRect,
    hit: HitRegion,
}

impl TabGroupDragRegionRecord {
    fn new(kind: TabGroupDragRegionKind, bounds: LogicalRect) -> (r: Self)
        ensures
            r.kind() == kind,
            r.bounds() == bounds,
            r.hit() == (HitRegion { rect: bounds }),
    {
        Self { kind, bounds, hit: HitRegion::new(bounds) }
    }

    /// Exact value behind [`Self::kind`].
    pub closed spec fn spec_kind(self) -> TabGroupDragRegionKind {
        self.kind
    }

    /// Returns the region kind.
    #[verifier::when_used_as_spec(spec_kind)]
    pub fn kind(self) -> (r: TabGroupDragRegionKind)
        ensures
            r == self.spec_kind(),
    {
        self.kind
    }

    /// Exact value behind [`Self::bounds`].
    pub closed spec fn spec_bounds(self) -> LogicalRect {
        self.bounds
    }

    /// Returns the region draw bounds.
    #[verifier::when_used_as_spec(spec_bounds)]
    pub fn bounds(self) -> (r: LogicalRect)
        ensures
            r == self.spec_bounds(),
    {
        self.bounds
    }

    /// Exact value behind [`Self::hit`].
    pub closed spec fn spec_hit(self) -> HitRegion {
        self.hit
    }

    /// Returns the exact half-open region hit.
    #[verifier::when_used_as_spec(spec_hit)]
    pub fn hit(self) -> (r: HitRegion)
        ensures
            r == self.spec_hit(),
    {
        self.hit
    }
}

/// Exact tab-group drag regions of one tab bar.
#[derive(Debug, Clone, Copy, PartialEq, Eq, Structural)]
pub struct TabGroupDragRecord {
    leading_grip: TabGroupDragRegionRecord,
    trailing_empty: Option<TabGroupDragRegionRecord>,
}

impl TabGroupDragRecord {
    /// Exact leading grip behind [`Self::leading_grip`].
    pub closed spec fn spec_leading_grip(self) -> TabGroupDragRegionRecord {
        self.leading_grip
    }

    /// Exact trailing region behind [`Self::trailing_empty`].
    pub closed spec fn spec_trailing_empty(self) -> Option<TabGroupDragRegionRecord> {
        self.trailing_empty
    }

    /// Regions in canonical order: the grip, then the trailing empty area.
    pub open spec fn regions_view(self) -> Seq<TabGroupDragRegionRecord> {
        match self.trailing_empty() {
            Some(trailing) => seq![self.leading_grip(), trailing],
            None => seq![self.leading_grip()],
        }
    }

    /// Creates the drag regions of one bar from their bounds.
    pub fn new(leading_grip: LogicalRect, trailing_empty: Option<LogicalRect>) -> (r: Self)
        ensures
            r.leading_grip().kind() == TabGroupDragRegionKind::LeadingGrip,
            r.leading_grip().bounds() == leading_grip,
            r.leading_grip().hit() == (HitRegion { rect: leading_grip }),
            trailing_empty is None ==> r.trailing_empty() is None,
            trailing_empty matches Some(bounds) ==> r.trailing_empty() matches Some(region) && region.kind()
                == TabGroupDragRegionKind::TrailingEmpty && region.bounds() == bounds && region.hit()
                == (HitRegion { rect: bounds }),
    {
        let leading = TabGroupDragRegionRecord::new(TabGroupDragRegionKind::LeadingGrip, leading_grip);
        let trailing = match trailing_empty {
            Some(bounds) => Some(
                TabGroupDragRegionRecord::new(TabGroupDragRegionKind::TrailingEmpty, bounds),
            ),
            None => None,
        };
        Self { leading_grip: leading, trailing_empty: trailing }
    }

    /// Returns the leading grip region.
    #[verifier::when_used_as_spec(spec_leading_grip)]
    pub fn leading_grip(self) -> (r: TabGroupDragRegionRecord)
        ensures
            r == self.spec_leading_grip(),
    {
        self.leading_grip
    }

    /// Returns the trailing empty region, when the strip leaves one.
    #[verifier::when_used_as_spec(spec_trailing_empty)]
    pub fn trailing_empty(self) -> (r: Option<TabGroupDragRegionRecord>)
        ensures
            r == self.spec_trailing_empty(),
    {
        self.trailing_empty
    }

    /// Returns the region of one kind, when present.
    pub fn region(self, kind: TabGroupDragRegionKind) -> (r: Option<TabGroupDragRegionRecord>)
        ensures
            kind == TabGroupDragRegionKind::LeadingGrip ==> r == Some(self.leading_grip()),
            kind == TabGroupDragRegionKind::TrailingEmpty ==> r == self.trailing_empty(),
    {
        match kind {
            TabGroupDragRegionKind::LeadingGrip => Some(self.leading_grip),
            TabGroupDragRegionKind::TrailingEmpty => self.trailing_empty,
        }
    }

    /// Returns every present region in canonical order.
    pub fn regions(self) -> (r: Vec<TabGroupDragRegionRecord>)
        ensures
            r@ == self.regions_view(),
    {
        let mut regions = Vec::new();
        regions.push(self.leading_grip);
        if let Some(trailing) = self.trailing_empty {
            regions.push(trailing);
        }
        regions
    }

    /// Returns whether any region's half-open hit contains the point.
    pub fn contains(self, point: LogicalPoint) -> (r: bool)
        ensures
            r == exists|i: int|
                0 <= i < self.regions_view().len() && #[trigger] self.regions_view()[i].hit().rect.contains_point(
                    point,
                ),
    {
        let in_grip = self.leading_grip.hit.contains(point);
        let in_trailing = match self.trailing_empty {
            Some(trailing) => trailing.hit.contains(point),
            None => false,
        };
        proof {
            if in_grip {
                assert(self.regions_view()[0].hit().rect.contains_point(point));
            }
            if in_trailing {
                assert(self.regions_view()[1].hit().rect.contains_point(point));
            }
        }
        in_grip || in_trailing
    }

    /// Returns the leading grip bounds.
    pub fn grip_bounds(self) -> (r: LogicalRect)
        ensures
            r == self.leading_grip().bounds(),
    {
        self.leading_grip.bounds
    }

    /// Returns the leading grip hit region.
    pub fn hit(self) -> (r: HitRegion)
        ensures
            r == self.leading_grip().hit(),
    {
        self.leading_grip.hit
    }
}

/// Whether a tab bar can host its tab-list menu geometry.
#[derive(Debug, Clone, Copy, PartialEq, Eq, Structural, PartialOrd, Ord, Hash)]
pub enum TabListMenuGeometryAvailability {
    /// Menu geometry can be allocated.
    Available,
    /// Menu geometry cannot be allocated.
    Unavailable,
}

impl TabListMenuGeometryAvailability {
    /// Returns whether menu geometry can be allocated.
    pub fn is_available(self) -> (r: bool)
        ensures
            r == (self == TabListMenuGeometryAvailability::Available),
    {
        match self {
            TabListMenuGeometryAvailability::Available => true,
            TabListMenuGeometryAvailability::Unavailable => false,
        }
    }
}

/// Visibility of one tab inside its strip viewport.
#[derive(Debug, Clone, Copy, PartialEq, Eq, Structural, PartialOrd, Ord, Hash)]
pub enum TabStripMemberVisibility {
    /// The tab is completely inside the viewport.
    Visible,
    /// The tab is clipped by the viewport.
    PartiallyVisible,
    /// The tab lies outside the viewport.
    Hidden,
}

/// Core-owned strip membership fact for one tab.
#[derive(Debug, Clone, Copy, PartialEq, Eq, Structural)]
pub struct TabStripMemberRecord {
    tab: TabSceneId,
    ordinal: usize,
    full_bounds: LogicalRect,
    visibility: TabStripMemberVisibility,
}

impl TabStripMemberRecord {
    /// Creates one record from its exact parts.
    pub fn new(tab: TabSceneId, ordinal: usize, full_bounds: LogicalRect, visibility: TabStripMemberVisibility) -> (r: Self)
        ensures
            r.tab() == tab,
            r.ordinal() == ordinal,
            r.full_bounds() == full_bounds,
            r.visibility() == visibility,
    {
        Self { tab, ordinal, full_bounds, visibility }
    }

    /// Exact value behind [`Self::tab`].
    pub closed spec fn spec_tab(self) -> TabSceneId {
        self.tab
    }

    /// Returns the member tab.
    #[verifier::when_used_as_spec(spec_tab)]
    pub fn tab(self) -> (r: TabSceneId)
        ensures
            r == self.spec_tab(),
    {
        self.tab
    }

    /// Exact value behind [`Self::ordinal`].
    pub closed spec fn spec_ordinal(self) -> usize {
        self.ordinal
    }

    /// Returns the member ordinal.
    #[verifier::when_used_as_spec(spec_ordinal)]
    pub fn ordinal(self) -> (r: usize)
        ensures
            r == self.spec_ordinal(),
    {
        self.ordinal
    }

    /// Exact value behind [`Self::full_bounds`].
    pub closed spec fn spec_full_bounds(self) -> LogicalRect {
        self.full_bounds
    }

    /// Returns the unclipped tab bounds.
    #[verifier::when_used_as_spec(spec_full_bounds)]
    pub fn full_bounds(self) -> (r: LogicalRect)
        ensures
            r == self.spec_full_bounds(),
    {
        self.full_bounds
    }

    /// Exact value behind [`Self::visibility`].
    pub closed spec fn spec_visibility(self) -> TabStripMemberVisibility {
        self.visibility
    }

    /// Returns the viewport visibility.
    #[verifier::when_used_as_spec(spec_visibility)]
    pub fn visibility(self) -> (r: TabStripMemberVisibility)
        ensures
            r == self.spec_visibility(),
    {
        self.visibility
    }
}

/// Core-compiled geometry and strip state for one tab bar.
#[derive(Debug, Clone, PartialEq, Eq)]
pub struct TabBarRecord {
    id: TabBarSceneId,
    bounds: LogicalRect,
    viewport: LogicalRect,
    scroll_offset: u32,
    maximum_scroll_offset: u32,
    hidden_items: Vec<ItemId>,
    members: Vec<TabStripMemberRecord>,
    group_grip_bounds: Option<LogicalRect>,
    group_drag: Option<TabGroupDragRecord>,
    interaction: TabBarInteraction,
    menu_geometry: TabListMenuGeometryAvailability,
    layer: SceneLayerKey,
}

impl TabBarRecord {
    /// Creates one record from its exact parts.
    pub fn new(id: TabBarSceneId, bounds: LogicalRect, viewport: LogicalRect, scroll_offset: u32, maximum_scroll_offset: u32, hidden_items: Vec<ItemId>, members: Vec<TabStripMemberRecord>, group_grip_bounds: Option<LogicalRect>, group_drag: Option<TabGroupDragRecord>, interaction: TabBarInteraction, menu_geometry: TabListMenuGeometryAvailability, layer: SceneLayerKey) -> (r: Self)
        ensures
            r.spec_id() == id,
            r.bounds() == bounds,
            r.viewport() == viewport,
            r.scroll_offset() == scroll_offset,
            r.maximum_scroll_offset() == maximum_scroll_offset,
            r.hidden_items_view() == hidden_items@,
            r.members_view() == members@,
            r.group_grip_bounds() == group_grip_bounds,
            r.spec_group_drag() == group_drag,
            r.interaction() == interaction,
            r.spec_menu_geometry() == menu_geometry,
            r.layer() == layer,
    {
        Self { id, bounds, viewport, scroll_offset, maximum_scroll_offset, hidden_items, members, group_grip_bounds, group_drag, interaction, menu_geometry, layer }
    }

    /// Exact value behind [`Self::id`].
    pub closed spec fn spec_id(&self) -> TabBarSceneId {
        self.id
    }

    /// Returns the stable tab-bar identity.
    pub fn id(&self) -> (r: &TabBarSceneId)
        ensures
            *r == self.spec_id(),
    {
        &self.id
    }

    /// Exact value behind [`Self::bounds`].
    pub closed spec fn spec_bounds(&self) -> LogicalRect {
        self.bounds
    }

    /// Returns the complete tab-bar bounds.
    #[verifier::when_used_as_spec(spec_bounds)]
    pub fn bounds(&self) -> (r: LogicalRect)
        ensures
            r == self.spec_bounds(),
    {
        self.bounds
    }

    /// Exact value behind [`Self::viewport`].
    pub closed spec fn spec_viewport(&self) -> LogicalRect {
        self.viewport
    }

    /// Returns the scrollable tab viewport.
    #[verifier::when_used_as_spec(spec_viewport)]
    pub fn viewport(&self) -> (r: LogicalRect)
        ensures
            r == self.spec_viewport(),
    {
        self.viewport
    }

    /// Exact value behind [`Self::scroll_offset`].
    pub closed spec fn spec_scroll_offset(&self) -> u32 {
        self.scroll_offset
    }

    /// Returns the core-owned scroll offset.
    #[verifier::when_used_as_spec(spec_scroll_offset)]
    pub fn scroll_offset(&self) -> (r: u32)
        ensures
            r == self.spec_scroll_offset(),
    {
        self.scroll_offset
    }

    /// Exact value behind [`Self::maximum_scroll_offset`].
    pub closed spec fn spec_maximum_scroll_offset(&self) -> u32 {
        self.maximum_scroll_offset
    }

    /// Returns the largest admissible scroll offset.
    #[verifier::when_used_as_spec(spec_maximum_scroll_offset)]
    pub fn maximum_scroll_offset(&self) -> (r: u32)
        ensures
            r == self.spec_maximum_scroll_offset(),
    {
        self.maximum_scroll_offset
    }

    /// Exact contents behind [`Self::hidden_items`].
    pub closed spec fn hidden_items_view(&self) -> Seq<ItemId> {
        self.hidden_items@
    }

    /// Returns items completely hidden by overflow.
    pub fn hidden_items(&self) -> (r: &[ItemId])
        ensures
            r@ == self.hidden_items_view(),
    {
        self.hidden_items.as_slice()
    }

    /// Exact contents behind [`Self::members`].
    pub closed spec fn members_view(&self) -> Seq<TabStripMemberRecord> {
        self.members@
    }

    /// Returns every strip member in ordinal order.
    pub fn members(&self) -> (r: &[TabStripMemberRecord])
        ensures
            r@ == self.members_view(),
    {
        self.members.as_slice()
    }

    /// Exact value behind [`Self::group_grip_bounds`].
    pub closed spec fn spec_group_grip_bounds(&self) -> Option<LogicalRect> {
        self.group_grip_bounds
    }

    /// Returns the group grip bounds, when present.
    #[verifier::when_used_as_spec(spec_group_grip_bounds)]
    pub fn group_grip_bounds(&self) -> (r: Option<LogicalRect>)
        ensures
            r == self.spec_group_grip_bounds(),
    {
        self.group_grip_bounds
    }

    /// Exact value behind [`Self::group_drag`].
    pub closed spec fn spec_group_drag(&self) -> Option<TabGroupDragRecord> {
        self.group_drag
    }

    /// Returns the tab-group drag regions, when present.
    pub fn group_drag(&self) -> (r: Option<&TabGroupDragRecord>)
        ensures
            r is Some <==> self.spec_group_drag() is Some,
            r matches Some(v) ==> self.spec_group_drag() == Some(*v),
    {
        self.group_drag.as_ref()
    }

    /// Exact value behind [`Self::interaction`].
    pub closed spec fn spec_interaction(&self) -> TabBarInteraction {
        self.interaction
    }

    /// Returns the frozen interaction policy.
    #[verifier::when_used_as_spec(spec_interaction)]
    pub fn interaction(&self) -> (r: TabBarInteraction)
        ensures
            r == self.spec_interaction(),
    {
        self.interaction
    }

    /// Exact value behind [`Self::menu_geometry`].
    pub closed spec fn spec_menu_geometry(&self) -> TabListMenuGeometryAvailability {
        self.menu_geometry
    }

    /// Returns whether menu geometry is available.
    pub fn menu_geometry_availability(&self) -> (r: TabListMenuGeometryAvailability)
        ensures
            r == self.spec_menu_geometry(),
    {
        self.menu_geometry
    }

    /// Exact value behind [`Self::layer`].
    pub closed spec fn spec_layer(&self) -> SceneLayerKey {
        self.layer
    }

    /// Returns the roster-derived semantic layer.
    #[verifier::when_used_as_spec(spec_layer)]
    pub fn layer(&self) -> (r: SceneLayerKey)
        ensures
            r == self.spec_layer(),
    {
        self.layer
    }
}

/// Core-compiled geometry of one tab-strip control.
#[derive(Debug, Clone, Copy, PartialEq, Eq, Structural)]
pub struct TabStripControlRecord {
    id: TabStripControlId,
    bounds: LogicalRect,
    hit: HitRegion,
    enabled: bool,
    layer: SceneLayerKey,
}

impl TabStripControlRecord {
    /// Creates one control record whose hit is its bounds.
    pub fn new(id: TabStripControlId, bounds: LogicalRect, enabled: bool, layer: SceneLayerKey) -> (r:
        Self)
        ensures
            r.id() == id,
            r.bounds() == bounds,
            r.hit() == (HitRegion { rect: bounds }),
            r.enabled() == enabled,
            r.layer() == layer,
    {
        Self { id, bounds, hit: HitRegion::new(bounds), enabled, layer }
    }

    /// Exact value behind [`Self::id`].
    pub closed spec fn spec_id(self) -> TabStripControlId {
        self.id
    }

    /// Returns the control identity.
    #[verifier::when_used_as_spec(spec_id)]
    pub fn id(self) -> (r: TabStripControlId)
        ensures
            r == self.spec_id(),
    {
        self.id
    }

    /// Exact value behind [`Self::bounds`].
    pub closed spec fn spec_bounds(self) -> LogicalRect {
        self.bounds
    }

    /// Returns the control bounds.
    #[verifier::when_used_as_spec(spec_bounds)]
    pub fn bounds(self) -> (r: LogicalRect)
        ensures
            r == self.spec_bounds(),
    {
        self.bounds
    }

    /// Exact value behind [`Self::hit`].
    pub closed spec fn spec_hit(self) -> HitRegion {
        self.hit
    }

    /// Returns the exact control hit.
    #[verifier::when_used_as_spec(spec_hit)]
    pub fn hit(self) -> (r: HitRegion)
        ensures
            r == self.spec_hit(),
    {
        self.hit
    }

    /// Exact value behind [`Self::enabled`].
    pub closed spec fn spec_enabled(self) -> bool {
        self.enabled
    }

    /// Returns whether the control accepts interaction.
    #[verifier::when_used_as_spec(spec_enabled)]
    pub fn enabled(self) -> (r: bool)
        ensures
            r == self.spec_enabled(),
    {
        self.enabled
    }

    /// Exact value behind [`Self::layer`].
    pub closed spec fn spec_layer(self) -> SceneLayerKey {
        self.layer
    }

    /// Returns the roster-derived semantic layer.
    #[verifier::when_used_as_spec(spec_layer)]
    pub fn layer(self) -> (r: SceneLayerKey)
        ensures
            r == self.spec_layer(),
    {
        self.layer
    }
}

/// Core-compiled geometry of one tab-list menu row.
#[derive(Debug, Clone, Copy, PartialEq, Eq, Structural)]
pub struct TabListMenuRowRecord {
    tab: TabSceneId,
    ordinal: usize,
    bounds: LogicalRect,
    hit: Option<HitRegion>,
    selected: bool,
    focused: bool,
}

impl TabListMenuRowRecord {
    /// Creates one record from its exact parts.
    pub fn new(tab: TabSceneId, ordinal: usize, bounds: LogicalRect, hit: Option<HitRegion>, selected: bool, focused: bool) -> (r: Self)
        ensures
            r.tab() == tab,
            r.ordinal() == ordinal,
            r.bounds() == bounds,
            r.hit() == hit,
            r.selected() == selected,
            r.focused() == focused,
    {
        Self { tab, ordinal, bounds, hit, selected, focused }
    }

    /// Exact value behind [`Self::tab`].
    pub closed spec fn spec_tab(self) -> TabSceneId {
        self.tab
    }

    /// Returns the listed tab.
    #[verifier::when_used_as_spec(spec_tab)]
    pub fn tab(self) -> (r: TabSceneId)
        ensures
            r == self.spec_tab(),
    {
        self.tab
    }

    /// Exact value behind [`Self::ordinal`].
    pub closed spec fn spec_ordinal(self) -> usize {
        self.ordinal
    }

    /// Returns the row ordinal.
    #[verifier::when_used_as_spec(spec_ordinal)]
    pub fn ordinal(self) -> (r: usize)
        ensures
            r == self.spec_ordinal(),
    {
        self.ordinal
    }

    /// Exact value behind [`Self::bounds`].
    pub closed spec fn spec_bounds(self) -> LogicalRect {
        self.bounds
    }

    /// Returns the row bounds.
    #[verifier::when_used_as_spec(spec_bounds)]
    pub fn bounds(self) -> (r: LogicalRect)
        ensures
            r == self.spec_bounds(),
    {
        self.bounds
    }

    /// Exact value behind [`Self::hit`].
    pub closed spec fn spec_hit(self) -> Option<HitRegion> {
        self.hit
    }

    /// Returns the row hit, when it is inside the menu viewport.
    #[verifier::when_used_as_spec(spec_hit)]
    pub fn hit(self) -> (r: Option<HitRegion>)
        ensures
            r == self.spec_hit(),
    {
        self.hit
    }

    /// Exact value behind [`Self::selected`].
    pub closed spec fn spec_selected(self) -> bool {
        self.selected
    }

    /// Returns whether the row lists the selected tab.
    #[verifier::when_used_as_spec(spec_selected)]
    pub fn selected(self) -> (r: bool)
        ensures
            r == self.spec_selected(),
    {
        self.selected
    }

    /// Exact value behind [`Self::focused`].
    pub closed spec fn spec_focused(self) -> bool {
        self.focused
    }

    /// Returns whether the row holds menu focus.
    #[verifier::when_used_as_spec(spec_focused)]
    pub fn focused(self) -> (r: bool)
        ensures
            r == self.spec_focused(),
    {
        self.focused
    }
}

/// Core-compiled geometry of one open tab-list menu.
#[derive(Debug, Clone, PartialEq, Eq)]
pub struct TabListMenuRecord {
    session: TabListMenuSessionId,
    bar: TabBarSceneId,
    bounds: LogicalRect,
    viewport: LogicalRect,
    scroll_offset: u32,
    maximum_scroll_offset: u32,
    rows: Vec<TabListMenuRowRecord>,
    layer: SceneLayerKey,
}

impl TabListMenuRecord {
    /// Creates one record from its exact parts.
    pub fn new(session: TabListMenuSessionId, bar: TabBarSceneId, bounds: LogicalRect, viewport: LogicalRect, scroll_offset: u32, maximum_scroll_offset: u32, rows: Vec<TabListMenuRowRecord>, layer: SceneLayerKey) -> (r: Self)
        ensures
            r.session() == session,
            r.bar() == bar,
            r.bounds() == bounds,
            r.viewport() == viewport,
            r.scroll_offset() == scroll_offset,
            r.maximum_scroll_offset() == maximum_scroll_offset,
            r.rows_view() == rows@,
            r.layer() == layer,
    {
        Self { session, bar, bounds, viewport, scroll_offset, maximum_scroll_offset, rows, layer }
    }

    /// Exact value behind [`Self::session`].
    pub closed spec fn spec_session(&self) -> TabListMenuSessionId {
        self.session
    }

    /// Returns the open menu session.
    #[verifier::when_used_as_spec(spec_session)]
    pub fn session(&self) -> (r: TabListMenuSessionId)
        ensures
            r == self.spec_session(),
    {
        self.session
    }

    /// Exact value behind [`Self::bar`].
    pub closed spec fn spec_bar(&self) -> TabBarSceneId {
        self.bar
    }

    /// Returns the owning tab bar.
    #[verifier::when_used_as_spec(spec_bar)]
    pub fn bar(&self) -> (r: TabBarSceneId)
        ensures
            r == self.spec_bar(),
    {
        self.bar
    }

    /// Exact value behind [`Self::bounds`].
    pub closed spec fn spec_bounds(&self) -> LogicalRect {
        self.bounds
    }

    /// Returns the menu bounds.
    #[verifier::when_used_as_spec(spec_bounds)]
    pub fn bounds(&self) -> (r: LogicalRect)
        ensures
            r == self.spec_bounds(),
    {
        self.bounds
    }

    /// Exact value behind [`Self::viewport`].
    pub closed spec fn spec_viewport(&self) -> LogicalRect {
        self.viewport
    }

    /// Returns the scrollable row viewport.
    #[verifier::when_used_as_spec(spec_viewport)]
    pub fn viewport(&self) -> (r: LogicalRect)
        ensures
            r == self.spec_viewport(),
    {
        self.viewport
    }

    /// Exact value behind [`Self::scroll_offset`].
    pub closed spec fn spec_scroll_offset(&self) -> u32 {
        self.scroll_offset
    }

    /// Returns the menu scroll offset.
    #[verifier::when_used_as_spec(spec_scroll_offset)]
    pub fn scroll_offset(&self) -> (r: u32)
        ensures
            r == self.spec_scroll_offset(),
    {
        self.scroll_offset
    }

    /// Exact value behind [`Self::maximum_scroll_offset`].
    pub closed spec fn spec_maximum_scroll_offset(&self) -> u32 {
        self.maximum_scroll_offset
    }

    /// Returns the largest admissible menu scroll offset.
    #[verifier::when_used_as_spec(spec_maximum_scroll_offset)]
    pub fn maximum_scroll_offset(&self) -> (r: u32)
        ensures
            r == self.spec_maximum_scroll_offset(),
    {
        self.maximum_scroll_offset
    }

    /// Exact contents behind [`Self::rows`].
    pub closed spec fn rows_view(&self) -> Seq<TabListMenuRowRecord> {
        self.rows@
    }

    /// Returns every row in ordinal order.
    pub fn rows(&self) -> (r: &[TabListMenuRowRecord])
        ensures
            r@ == self.rows_view(),
    {
        self.rows.as_slice()
    }

    /// Exact value behind [`Self::layer`].
    pub closed spec fn spec_layer(&self) -> SceneLayerKey {
        self.layer
    }

    /// Returns the roster-derived semantic layer.
    #[verifier::when_used_as_spec(spec_layer)]
    pub fn layer(&self) -> (r: SceneLayerKey)
        ensures
            r == self.spec_layer(),
    {
        self.layer
    }
}

/// Input-capturing backdrop of one open tab-list menu.
#[derive(Debug, Clone, Copy, PartialEq, Eq, Structural)]
pub struct TabListMenuBackdropRecord {
    session: TabListMenuSessionId,
    revision: PopupRoutingRevision,
    bounds: LogicalRect,
}

impl TabListMenuBackdropRecord {
    /// Creates one record from its exact parts.
    pub fn new(session: TabListMenuSessionId, revision: PopupRoutingRevision, bounds: LogicalRect) -> (r: Self)
        ensures
            r.session() == session,
            r.revision() == revision,
            r.bounds() == bounds,
    {
        Self { session, revision, bounds }
    }

    /// Exact value behind [`Self::session`].
    pub closed spec fn spec_session(self) -> TabListMenuSessionId {
        self.session
    }

    /// Returns the open menu session.
    #[verifier::when_used_as_spec(spec_session)]
    pub fn session(self) -> (r: TabListMenuSessionId)
        ensures
            r == self.spec_session(),
    {
        self.session
    }

    /// Exact value behind [`Self::revision`].
    pub closed spec fn spec_revision(self) -> PopupRoutingRevision {
        self.revision
    }

    /// Returns the routing revision that opened the backdrop.
    #[verifier::when_used_as_spec(spec_revision)]
    pub fn revision(self) -> (r: PopupRoutingRevision)
        ensures
            r == self.spec_revision(),
    {
        self.revision
    }

    /// Exact value behind [`Self::bounds`].
    pub closed spec fn spec_bounds(self) -> LogicalRect {
        self.bounds
    }

    /// Returns the backdrop bounds.
    #[verifier::when_used_as_spec(spec_bounds)]
    pub fn bounds(self) -> (r: LogicalRect)
        ensures
            r == self.spec_bounds(),
    {
        self.bounds
    }
}
} // verus!
