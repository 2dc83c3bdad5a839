//! A tab bar's tab-strip controls and open tab-list menu.

use vstd::prelude::*;

use crate::collections::{KeyMap, KeySet};
use crate::geometry::LogicalRect;
use crate::ids::ItemId;
use crate::manifest::keys::control_bar;
use crate::occlusion::{max_int, min_int, overlaps_with_area, rects_overlap_with_area};
use crate::plan::PresentationPlan;
use crate::policy::TabBarInteraction;
use crate::records::tab::{
    TabBarRecord, TabBarSceneId, TabListMenuGeometryAvailability, TabListMenuRecord,
    TabListMenuRowRecord, TabRecord, TabSceneId, TabStripControlRecord, TabStripMemberVisibility,
};
use crate::tab_strip::{TabStripControlId, TabStripStateKey};
use crate::validation::SceneBuildError;

verus! {

/// `inner` lies within `outer`.
pub open spec fn rect_within(outer: LogicalRect, inner: LogicalRect) -> bool {
    &&& outer.x <= inner.x
    &&& outer.y <= inner.y
    &&& inner.right() <= outer.right()
    &&& inner.bottom() <= outer.bottom()
}

/// Returns whether `inner` lies within `outer`.
pub fn rect_contains(outer: LogicalRect, inner: LogicalRect) -> (r: bool)
    ensures
        r == rect_within(outer, inner),
{
    outer.x <= inner.x && outer.y <= inner.y && inner.max_x() <= outer.max_x() && inner.max_y()
        <= outer.max_y()
}

/// `actual` is exactly the positive-area intersection of `first` and `second`.
pub open spec fn exact_intersection(actual: LogicalRect, first: LogicalRect, second: LogicalRect) -> bool {
    let min_x = max_int(first.x as int, second.x as int);
    let min_y = max_int(first.y as int, second.y as int);
    let max_x = min_int(first.right(), second.right());
    let max_y = min_int(first.bottom(), second.bottom());
    &&& max_x > min_x
    &&& max_y > min_y
    &&& actual.x == min_x
    &&& actual.y == min_y
    &&& actual.right() == max_x
    &&& actual.bottom() == max_y
}

/// Returns whether `actual` is exactly the positive-area intersection of
/// `first` and `second`.
pub fn rect_is_exact_intersection(actual: LogicalRect, first: LogicalRect, second: LogicalRect) -> (r:
    bool)
    ensures
        r == exact_intersection(actual, first, second),
{
    let min_x: i64 = if first.x >= second.x {
        first.x as i64
    } else {
        second.x as i64
    };
    let min_y: i64 = if first.y >= second.y {
        first.y as i64
    } else {
        second.y as i64
    };
    let max_x: i64 = if first.max_x() <= second.max_x() {
        first.max_x()
    } else {
        second.max_x()
    };
    let max_y: i64 = if first.max_y() <= second.max_y() {
        first.max_y()
    } else {
        second.max_y()
    };
    max_x > min_x && max_y > min_y && actual.x as i64 == min_x && actual.y as i64 == min_y
        && actual.max_x() == max_x && actual.max_y() == max_y
}

/// Whether a control of `bar` must be enabled: scrolling backward while
/// scrolled, forward while more remains, and the menu while it can be laid
/// out, each only while the bar accepts interaction.
pub open spec fn control_expected_enabled(bar: TabBarRecord, id: TabStripControlId) -> bool {
    let interactive = bar.interaction() == TabBarInteraction::Enabled;
    match id {
        TabStripControlId::ScrollBackward(_) => interactive && bar.scroll_offset() > 0,
        TabStripControlId::ScrollForward(_) => interactive && bar.scroll_offset()
            < bar.maximum_scroll_offset(),
        TabStripControlId::TabListMenu(_) => interactive && bar.spec_menu_geometry()
            == TabListMenuGeometryAvailability::Available,
    }
}

/// A control record is a positive-area receiver inside its bar on the bar's layer.
pub open spec fn control_geometry_valid(bar: TabBarRecord, control: TabStripControlRecord) -> bool {
    &&& control.bounds().has_area()
    &&& control.hit().rect == control.bounds()
    &&& rect_within(bar.bounds(), control.bounds())
    &&& control.layer() == bar.layer()
}

/// The bar's published controls, keyed by identity, form a valid roster.
pub open spec fn controls_valid(
    bar: TabBarRecord,
    controls: Seq<(TabStripControlId, TabStripControlRecord)>,
    menu_open: bool,
) -> bool {
    let id = bar.spec_id();
    let menu_control = exists|i: int|
        0 <= i < controls.len() && (#[trigger] controls[i]).0 == TabStripControlId::TabListMenu(id);
    &&& 0 < controls.len() <= 3
    &&& forall|i: int| 0 <= i < controls.len() ==> control_bar((#[trigger] controls[i]).0) == id
    &&& forall|i: int|
        0 <= i < controls.len() ==> control_geometry_valid(bar, (#[trigger] controls[i]).1)
    &&& forall|i: int, j: int|
        0 <= i < j < controls.len() ==> !overlaps_with_area(
            (#[trigger] controls[i]).1.bounds(),
            (#[trigger] controls[j]).1.bounds(),
        )
    &&& forall|i: int|
        0 <= i < controls.len() ==> (#[trigger] controls[i]).1.enabled() == control_expected_enabled(
            bar,
            controls[i].1.id(),
        )
    &&& bar.maximum_scroll_offset() > 0
    &&& bar.spec_menu_geometry() == TabListMenuGeometryAvailability::Available ==> menu_control
    &&& menu_open ==> menu_control
}

/// One menu row is the `ordinal`-th item of the bar: a positive-area row
/// spanning the menu viewport horizontally, selected exactly for the selected
/// item, and hit exactly where it shows through the viewport.
pub open spec fn menu_row_valid(
    bar_id: TabBarSceneId,
    menu: TabListMenuRecord,
    items: Seq<ItemId>,
    selected: Option<ItemId>,
    ordinal: int,
    row: TabListMenuRowRecord,
) -> bool {
    let viewport = menu.viewport();
    let hit_matches = match row.hit() {
        Some(hit) => {
            &&& hit.rect.has_area()
            &&& rect_within(row.bounds(), hit.rect)
            &&& rect_within(viewport, hit.rect)
            &&& exact_intersection(hit.rect, row.bounds(), viewport)
        },
        None => !overlaps_with_area(row.bounds(), viewport),
    };
    &&& row.ordinal() == ordinal
    &&& 0 <= ordinal < items.len()
    &&& items[ordinal] == row.tab().item
    &&& row.tab().root == bar_id.root
    &&& row.tab().tabs == bar_id.tabs
    &&& row.bounds().has_area()
    &&& row.bounds().x == viewport.x
    &&& row.bounds().width == viewport.width
    &&& row.selected() == (selected == Some(row.tab().item))
    &&& hit_matches
}

/// Number of focused rows.
pub open spec fn focused_count(rows: Seq<TabListMenuRowRecord>) -> nat
    decreases rows.len(),
{
    if rows.len() == 0 {
        0
    } else {
        focused_count(rows.drop_last()) + if rows.last().focused() {
            1nat
        } else {
            0nat
        }
    }
}

/// The bar's open menu is valid: it lies in the measured popup plane on the
/// bar's layer, belongs to the bar's strip on this surface, is opened from a
/// menu control inside the plane, and lists exactly the bar's items with
/// exactly one focused row.
pub open spec fn menu_valid(
    plan: &PresentationPlan,
    bar: TabBarRecord,
    items: Seq<ItemId>,
    selected: Option<ItemId>,
    controls: Option<Seq<(TabStripControlId, TabStripControlRecord)>>,
    menu: TabListMenuRecord,
) -> bool {
    let id = bar.spec_id();
    let rows = menu.rows_view();
    match plan.popup_plane_bounds() {
        None => false,
        Some(plane) => {
            &&& bar.interaction() == TabBarInteraction::Enabled
            &&& bar.spec_menu_geometry() == TabListMenuGeometryAvailability::Available
            &&& menu.layer() == bar.layer()
            &&& menu.session().key == (TabStripStateKey { surface: plan.surface(), bar: id })
            &&& controls matches Some(cs) && exists|i: int|
                0 <= i < cs.len() && (#[trigger] cs[i]).0 == TabStripControlId::TabListMenu(id)
                    && rect_within(plane, cs[i].1.bounds())
            &&& menu.bounds().has_area()
            &&& rect_within(plane, menu.bounds())
            &&& menu.viewport().has_area()
            &&& rect_within(menu.bounds(), menu.viewport())
            &&& menu.scroll_offset() <= menu.maximum_scroll_offset()
            &&& rows.len() == items.len()
            &&& forall|o: int|
                0 <= o < rows.len() ==> menu_row_valid(id, menu, items, selected, o, #[trigger] rows[o])
            &&& focused_count(rows) == 1
        },
    }
}

/// A tab bar's controls and open menu match the bar, its items, and its selection.
pub open spec fn tab_strip_controls_and_menu_valid(
    plan: &PresentationPlan,
    bar: TabBarRecord,
    items: Seq<ItemId>,
    selected: Option<ItemId>,
    controls: Option<Seq<(TabStripControlId, TabStripControlRecord)>>,
    menu: Option<TabListMenuRecord>,
) -> bool {
    &&& match controls {
        Some(cs) => controls_valid(bar, cs, menu is Some),
        None => menu is None && bar.spec_menu_geometry()
            != TabListMenuGeometryAvailability::Available,
    }
    &&& match menu {
        Some(m) => menu_valid(plan, bar, items, selected, controls, m),
        None => true,
    }
}

/// In a bar accepted with controls, each control is enabled exactly when its
/// action can still do something and the bar accepts interaction: scrolling
/// backward once scrolled, scrolling forward only while the scroll offset is
/// below its maximum (so never at the end of the strip), and the menu while
/// its geometry is available.
pub proof fn lemma_accepted_controls_follow_scroll_state(
    plan: &PresentationPlan,
    bar: TabBarRecord,
    items: Seq<ItemId>,
    selected: Option<ItemId>,
    controls: Seq<(TabStripControlId, TabStripControlRecord)>,
    menu: Option<TabListMenuRecord>,
    i: int,
)
    requires
        tab_strip_controls_and_menu_valid(plan, bar, items, selected, Some(controls), menu),
        0 <= i < controls.len(),
    ensures
        controls[i].1.id() is ScrollForward ==> (controls[i].1.enabled() <==> (bar.interaction()
            == TabBarInteraction::Enabled && bar.scroll_offset() < bar.maximum_scroll_offset())),
        controls[i].1.id() is ScrollForward && bar.scroll_offset() >= bar.maximum_scroll_offset()
            ==> !controls[i].1.enabled(),
        controls[i].1.id() is ScrollBackward ==> (controls[i].1.enabled() <==> (bar.interaction()
            == TabBarInteraction::Enabled && bar.scroll_offset() > 0)),
        controls[i].1.id() is ScrollBackward && bar.scroll_offset() == 0 ==> !controls[i].1.enabled(),
        controls[i].1.id() is TabListMenu ==> (controls[i].1.enabled() <==> (bar.interaction()
            == TabBarInteraction::Enabled && bar.spec_menu_geometry()
            == TabListMenuGeometryAvailability::Available)),
        bar.interaction() != TabBarInteraction::Enabled ==> !controls[i].1.enabled(),
        bar.maximum_scroll_offset() > 0,
        bar.spec_menu_geometry() == TabListMenuGeometryAvailability::Available || menu is Some
            ==> exists|j: int|
            0 <= j < controls.len() && (#[trigger] controls[j]).0 == TabStripControlId::TabListMenu(
                bar.spec_id(),
            ),
        menu is Some ==> bar.interaction() == TabBarInteraction::Enabled && bar.spec_menu_geometry()
            == TabListMenuGeometryAvailability::Available,
{
    assert(controls_valid(bar, controls, menu is Some));
    assert(controls[i].1.enabled() == control_expected_enabled(bar, controls[i].1.id()));
}

/// The entries of an optional control map.
pub open spec fn controls_view(
    controls: Option<&KeyMap<TabStripControlId, TabStripControlRecord>>,
) -> Option<Seq<(TabStripControlId, TabStripControlRecord)>> {
    match controls {
        Some(map) => Some(map.view_seq()),
        None => None,
    }
}

fn control_enabled_as_expected(bar: &TabBarRecord, control: TabStripControlRecord) -> (r: bool)
    ensures
        r == (control.enabled() == control_expected_enabled(*bar, control.id())),
{
    let interactive = bar.interaction() == TabBarInteraction::Enabled;
    let expected = match control.id() {
        TabStripControlId::ScrollBackward(_) => interactive && bar.scroll_offset() > 0,
        TabStripControlId::ScrollForward(_) => interactive && bar.scroll_offset()
            < bar.maximum_scroll_offset(),
        TabStripControlId::TabListMenu(_) => interactive
            && bar.menu_geometry_availability().is_available(),
    };
    control.enabled() == expected
}

fn controls_match(
    bar: &TabBarRecord,
    controls: &[(TabStripControlId, TabStripControlRecord)],
    menu_open: bool,
) -> (r: bool)
    ensures
        r == controls_valid(*bar, controls@, menu_open),
{
    let id = *bar.id();
    let menu_key = TabStripControlId::TabListMenu(id);
    if controls.len() == 0 || controls.len() > 3 {
        return false;
    }
    let mut menu_control = false;
    let mut i: usize = 0;
    while i < controls.len()
        invariant
            i <= controls@.len(),
            0 < controls@.len() <= 3,
            id == bar.spec_id(),
            menu_key == TabStripControlId::TabListMenu(id),
            forall|k: int| 0 <= k < i ==> control_bar((#[trigger] controls@[k]).0) == id,
            forall|k: int| 0 <= k < i ==> control_geometry_valid(*bar, (#[trigger] controls@[k]).1),
            forall|k: int|
                0 <= k < i ==> (#[trigger] controls@[k]).1.enabled() == control_expected_enabled(
                    *bar,
                    controls@[k].1.id(),
                ),
            forall|k: int, l: int|
                0 <= k < l < i ==> !overlaps_with_area(
                    (#[trigger] controls@[k]).1.bounds(),
                    (#[trigger] controls@[l]).1.bounds(),
                ),
            menu_control <==> exists|k: int| 0 <= k < i && (#[trigger] controls@[k]).0 == menu_key,
        decreases controls@.len() - i,
    {
        let (key, control) = controls[i];
        let owner = match key {
            TabStripControlId::ScrollBackward(b) => b,
            TabStripControlId::ScrollForward(b) => b,
            TabStripControlId::TabListMenu(b) => b,
        };
        if owner != id {
            return false;
        }
        let bounds = control.bounds();
        if !bounds.is_positive() || control.hit().rect() != bounds || !rect_contains(
            bar.bounds(),
            bounds,
        ) || control.layer() != bar.layer() {
            return false;
        }
        if !control_enabled_as_expected(bar, control) {
            return false;
        }
        let mut j: usize = 0;
        while j < i
            invariant
                j <= i < controls@.len(),
                bounds == controls@[i as int].1.bounds(),
                forall|k: int| 0 <= k < j ==> !overlaps_with_area(
                    (#[trigger] controls@[k]).1.bounds(),
                    bounds,
                ),
            decreases i - j,
        {
            if rects_overlap_with_area(controls[j].1.bounds(), bounds) {
                return false;
            }
            j = j + 1;
        }
        if key == menu_key {
            menu_control = true;
        }
        i = i + 1;
    }
    if bar.maximum_scroll_offset() == 0 {
        return false;
    }
    if bar.menu_geometry_availability().is_available() && !menu_control {
        return false;
    }
    if menu_open && !menu_control {
        return false;
    }
    true
}

fn row_matches(
    bar_id: TabBarSceneId,
    menu: &TabListMenuRecord,
    items: &[ItemId],
    selected: Option<ItemId>,
    ordinal: usize,
    row: TabListMenuRowRecord,
) -> (r: bool)
    ensures
        r == menu_row_valid(bar_id, *menu, items@, selected, ordinal as int, row),
{
    let viewport = menu.viewport();
    let bounds = row.bounds();
    let hit_matches = match row.hit() {
        Some(hit) => {
            let rect = hit.rect();
            rect.is_positive() && rect_contains(bounds, rect) && rect_contains(viewport, rect)
                && rect_is_exact_intersection(rect, bounds, viewport)
        },
        None => !rects_overlap_with_area(bounds, viewport),
    };
    let tab = row.tab();
    let is_selected = match selected {
        Some(item) => item == tab.item,
        None => false,
    };
    row.ordinal() == ordinal && ordinal < items.len() && items[ordinal] == tab.item && tab.root
        == bar_id.root && tab.tabs == bar_id.tabs && bounds.is_positive() && bounds.x == viewport.x
        && bounds.width == viewport.width && row.selected() == is_selected && hit_matches
}

fn menu_matches(
    ready: &PresentationPlan,
    bar: &TabBarRecord,
    items: &[ItemId],
    selected: Option<ItemId>,
    controls: Option<&[(TabStripControlId, TabStripControlRecord)]>,
    menu: &TabListMenuRecord,
) -> (r: bool)
    ensures
        r == menu_valid(
            ready,
            *bar,
            items@,
            selected,
            match controls {
                Some(c) => Some(c@),
                None => None,
            },
            *menu,
        ),
{
    let plane = match ready.popup_plane_bounds() {
        Some(plane) => plane,
        None => {
            return false;
        },
    };
    let id = *bar.id();
    if bar.interaction() != TabBarInteraction::Enabled
        || !bar.menu_geometry_availability().is_available() || menu.layer() != bar.layer()
        || menu.session().key() != TabStripStateKey::new(ready.surface(), id) {
        return false;
    }
    let menu_key = TabStripControlId::TabListMenu(id);
    let anchored = match controls {
        None => false,
        Some(cs) => {
            let mut found = false;
            let mut k: usize = 0;
            while k < cs.len()
                invariant
                    k <= cs@.len(),
                    found <==> exists|c: int|
                        0 <= c < k && (#[trigger] cs@[c]).0 == menu_key && rect_within(
                            plane,
                            cs@[c].1.bounds(),
                        ),
                decreases cs@.len() - k,
            {
                if cs[k].0 == menu_key && rect_contains(plane, cs[k].1.bounds()) {
                    found = true;
                }
                k = k + 1;
            }
            found
        },
    };
    if !anchored {
        return false;
    }
    let bounds = menu.bounds();
    let viewport = menu.viewport();
    let rows = menu.rows();
    if !bounds.is_positive() || !rect_contains(plane, bounds) || !viewport.is_positive()
        || !rect_contains(bounds, viewport) || menu.scroll_offset() > menu.maximum_scroll_offset()
        || rows.len() != items.len() {
        return false;
    }
    let mut focused: usize = 0;
    let mut o: usize = 0;
    while o < rows.len()
        invariant
            o <= rows@.len(),
            rows@ == menu.rows_view(),
            id == bar.spec_id(),
            focused == focused_count(rows@.take(o as int)),
            focused <= o,
            forall|k: int|
                0 <= k < o ==> menu_row_valid(id, *menu, items@, selected, k, #[trigger] rows@[k]),
        decreases rows@.len() - o,
    {
        let row = rows[o];
        if !row_matches(id, menu, items, selected, o, row) {
            return false;
        }
        proof {
            assert(rows@.take(o + 1).drop_last() =~= rows@.take(o as int));
        }
        if row.focused() {
            focused = focused + 1;
        }
        o = o + 1;
    }
    proof {
        assert(rows@.take(o as int) =~= rows@);
    }
    focused == 1
}

/// Rejects a tab bar whose controls or open menu do not match the bar, its
/// items, and its selection.
pub fn validate_tab_strip_controls_and_menu(
    ready: &PresentationPlan,
    bar: &TabBarRecord,
    items: &[ItemId],
    selected: Option<ItemId>,
    controls: Option<&KeyMap<TabStripControlId, TabStripControlRecord>>,
    menu: Option<&TabListMenuRecord>,
) -> (r: Result<(), SceneBuildError>)
    ensures
        r == if tab_strip_controls_and_menu_valid(
            ready,
            *bar,
            items@,
            selected,
            controls_view(controls),
            match menu {
                Some(m) => Some(*m),
                None => None,
            },
        ) {
            Ok(())
        } else {
            Err(SceneBuildError::InvalidTabBarRecord { surface: ready.surface(), id: bar.spec_id() })
        },
{
    let entries = match controls {
        Some(map) => Some(map.entries()),
        None => None,
    };
    validate_tab_strip_entries(ready, bar, items, selected, entries, menu)
}

/// Rejects a tab bar whose controls, given as identity and record pairs, or
/// whose open menu do not match the bar, its items, and its selection.
pub fn validate_tab_strip_entries(
    ready: &PresentationPlan,
    bar: &TabBarRecord,
    items: &[ItemId],
    selected: Option<ItemId>,
    controls: Option<&[(TabStripControlId, TabStripControlRecord)]>,
    menu: Option<&TabListMenuRecord>,
) -> (r: Result<(), SceneBuildError>)
    ensures
        r == if tab_strip_controls_and_menu_valid(
            ready,
            *bar,
            items@,
            selected,
            match controls {
                Some(cs) => Some(cs@),
                None => None,
            },
            match menu {
                Some(m) => Some(*m),
                None => None,
            },
        ) {
            Ok(())
        } else {
            Err(SceneBuildError::InvalidTabBarRecord { surface: ready.surface(), id: bar.spec_id() })
        },
{
    let invalid = Err(SceneBuildError::InvalidTabBarRecord { surface: ready.surface(), id: *bar.id() });
    let controls_ok = match controls {
        Some(cs) => controls_match(bar, cs, menu.is_some()),
        None => menu.is_none() && !bar.menu_geometry_availability().is_available(),
    };
    if !controls_ok {
        return invalid;
    }
    match menu {
        None => Ok(()),
        Some(m) => {
            if menu_matches(ready, bar, items, selected, controls, m) {
                Ok(())
            } else {
                invalid
            }
        },
    }
}

/// The first tab record of `tabs` naming `tab`, if any.
pub open spec fn first_tab_record(tabs: Seq<TabRecord>, tab: TabSceneId) -> Option<TabRecord>
    decreases tabs.len(),
{
    if tabs.len() == 0 {
        None
    } else if tabs[0].spec_id() == tab {
        Some(tabs[0])
    } else {
        first_tab_record(tabs.subrange(1, tabs.len() as int), tab)
    }
}

/// Some tab record of `tabs` presents `item`.
pub open spec fn shows_item(tabs: Seq<TabRecord>, item: ItemId) -> bool {
    exists|i: int| 0 <= i < tabs.len() && (#[trigger] tabs[i]).spec_id().item == item
}

/// The items of `items` that no record of `visible` presents, in item order.
pub open spec fn hidden_of(items: Seq<ItemId>, visible: Seq<TabRecord>) -> Seq<ItemId>
    decreases items.len(),
{
    if items.len() == 0 {
        Seq::empty()
    } else if shows_item(visible, items.last()) {
        hidden_of(items.drop_last(), visible)
    } else {
        hidden_of(items.drop_last(), visible).push(items.last())
    }
}

/// The bar's group grip leads the bar exactly while it has items, at the
/// bar's leading edge, outside the tab viewport.
pub open spec fn group_grip_valid(bar: TabBarRecord, items: Seq<ItemId>) -> bool {
    match bar.spec_group_grip_bounds() {
        None => items.len() == 0,
        Some(grip) => {
            &&& items.len() > 0
            &&& grip.has_area()
            &&& grip.x == bar.bounds().x
            &&& grip.y == bar.bounds().y
            &&& grip.height == bar.bounds().height
            &&& rect_within(bar.bounds(), grip)
            &&& !overlaps_with_area(grip, bar.viewport())
        },
    }
}

/// The bar's group drag receiver exists exactly for an interactive bar with
/// a grip, and is exactly that grip.
pub open spec fn group_interaction_valid(bar: TabBarRecord, items: Seq<ItemId>) -> bool {
    match bar.spec_interaction() {
        TabBarInteraction::Disabled => bar.spec_group_drag() is None,
        TabBarInteraction::Enabled => match (bar.spec_group_grip_bounds(), bar.spec_group_drag()) {
            (None, None) => items.len() == 0,
            (Some(grip), Some(group)) => {
                &&& group.leading_grip().bounds() == grip
                &&& group.leading_grip().hit().rect == grip
                &&& grip.has_area()
            },
            _ => false,
        },
    }
}

/// The `ordinal`-th strip member is the `ordinal`-th item, spans the bar's
/// height directly after its predecessor (the first starts at the scrolled
/// viewport edge), and its visibility agrees with the bar's tab record.
pub open spec fn member_valid(
    bar: TabBarRecord,
    items: Seq<ItemId>,
    visible: Seq<TabRecord>,
    ordinal: int,
) -> bool {
    let members = bar.members_view();
    let member = members[ordinal];
    let tab = member.tab();
    let full = member.full_bounds();
    let visibility_matches = match (member.visibility(), first_tab_record(visible, tab)) {
        (TabStripMemberVisibility::Visible, Some(record)) => full == record.full_bounds()
            && record.full_bounds() == record.visible_bounds(),
        (TabStripMemberVisibility::PartiallyVisible, Some(record)) => full == record.full_bounds()
            && record.full_bounds() != record.visible_bounds(),
        (TabStripMemberVisibility::PartiallyVisible, None) => true,
        (TabStripMemberVisibility::Hidden, None) => true,
        _ => false,
    };
    let preceding_edge_matches = if ordinal == 0 {
        full.x == bar.viewport().x - bar.scroll_offset()
    } else {
        members[ordinal - 1].full_bounds().right() == full.x
    };
    &&& member.ordinal() == ordinal
    &&& tab.root == bar.spec_id().root
    &&& tab.tabs == bar.spec_id().tabs
    &&& 0 <= ordinal < items.len()
    &&& items[ordinal] == tab.item
    &&& full.has_area()
    &&& full.y == bar.bounds().y
    &&& full.height == bar.bounds().height
    &&& preceding_edge_matches
    &&& visibility_matches
}

/// A tab bar's grip, hidden items, and strip members match its items and
/// the bar's visible tab records.
pub open spec fn tab_bar_members_valid(
    bar: TabBarRecord,
    items: Seq<ItemId>,
    visible: Seq<TabRecord>,
) -> bool {
    &&& group_grip_valid(bar, items)
    &&& group_interaction_valid(bar, items)
    &&& bar.hidden_items_view() == hidden_of(items, visible)
    &&& bar.members_view().len() == items.len()
    &&& forall|o: int| 0 <= o < items.len() ==> #[trigger] member_valid(bar, items, visible, o)
}

fn find_tab_record(tabs: &[TabRecord], tab: TabSceneId) -> (r: Option<&TabRecord>)
    ensures
        match r {
            Some(record) => first_tab_record(tabs@, tab) == Some(*record),
            None => first_tab_record(tabs@, tab) is None,
        },
{
    let mut k: usize = 0;
    proof {
        assert(tabs@.subrange(0, tabs@.len() as int) =~= tabs@);
    }
    while k < tabs.len()
        invariant
            k <= tabs@.len(),
            first_tab_record(tabs@, tab) == first_tab_record(
                tabs@.subrange(k as int, tabs@.len() as int),
                tab,
            ),
        decreases tabs@.len() - k,
    {
        let ghost rest = tabs@.subrange(k as int, tabs@.len() as int);
        proof {
            assert(rest[0] == tabs@[k as int]);
        }
        if *tabs[k].id() == tab {
            return Some(&tabs[k]);
        }
        proof {
            assert(rest.subrange(1, rest.len() as int) =~= tabs@.subrange(
                k + 1,
                tabs@.len() as int,
            ));
        }
        k = k + 1;
    }
    None
}

fn shows_item_exec(tabs: &[TabRecord], item: ItemId) -> (r: bool)
    ensures
        r == shows_item(tabs@, item),
{
    let mut k: usize = 0;
    while k < tabs.len()
        invariant
            k <= tabs@.len(),
            forall|i: int| 0 <= i < k ==> (#[trigger] tabs@[i]).spec_id().item != item,
        decreases tabs@.len() - k,
    {
        if tabs[k].id().item == item {
            return true;
        }
        k = k + 1;
    }
    false
}

fn hidden_matches(bar: &TabBarRecord, items: &[ItemId], visible: &[TabRecord]) -> (r: bool)
    ensures
        r == (bar.hidden_items_view() == hidden_of(items@, visible@)),
{
    let mut expected: Vec<ItemId> = Vec::new();
    let mut k: usize = 0;
    while k < items.len()
        invariant
            k <= items@.len(),
            expected@ == hidden_of(items@.take(k as int), visible@),
        decreases items@.len() - k,
    {
        proof {
            assert(items@.take(k + 1).drop_last() =~= items@.take(k as int));
            assert(items@.take(k + 1).last() == items@[k as int]);
        }
        if !shows_item_exec(visible, items[k]) {
            expected.push(items[k]);
        }
        k = k + 1;
    }
    proof {
        assert(items@.take(k as int) =~= items@);
    }
    let hidden = bar.hidden_items();
    if hidden.len() != expected.len() {
        return false;
    }
    let mut j: usize = 0;
    while j < hidden.len()
        invariant
            j <= hidden@.len(),
            hidden@.len() == expected@.len(),
            hidden@ == bar.hidden_items_view(),
            expected@ == hidden_of(items@, visible@),
            forall|i: int| 0 <= i < j ==> hidden@[i] == expected@[i],
        decreases hidden@.len() - j,
    {
        if hidden[j] != expected[j] {
            return false;
        }
        j = j + 1;
    }
    proof {
        assert(hidden@ =~= expected@);
    }
    true
}

fn member_matches(
    bar: &TabBarRecord,
    members: &[crate::records::tab::TabStripMemberRecord],
    items: &[ItemId],
    visible: &[TabRecord],
    ordinal: usize,
) -> (r: bool)
    requires
        members@ == bar.members_view(),
        ordinal < members@.len(),
    ensures
        r == member_valid(*bar, items@, visible@, ordinal as int),
{
    let member = members[ordinal];
    let tab = member.tab();
    let full = member.full_bounds();
    let visibility_matches = match (member.visibility(), find_tab_record(visible, tab)) {
        (TabStripMemberVisibility::Visible, Some(record)) => full == record.full_bounds()
            && record.full_bounds() == record.visible_bounds(),
        (TabStripMemberVisibility::PartiallyVisible, Some(record)) => full == record.full_bounds()
            && record.full_bounds() != record.visible_bounds(),
        (TabStripMemberVisibility::PartiallyVisible, None) => true,
        (TabStripMemberVisibility::Hidden, None) => true,
        _ => false,
    };
    let preceding_edge_matches = if ordinal == 0 {
        full.x as i64 == bar.viewport().x as i64 - bar.scroll_offset() as i64
    } else {
        members[ordinal - 1].full_bounds().max_x() == full.x as i64
    };
    let id = *bar.id();
    let bounds = bar.bounds();
    member.ordinal() == ordinal && tab.root == id.root && tab.tabs == id.tabs && ordinal
        < items.len() && items[ordinal] == tab.item && full.is_positive() && full.y == bounds.y
        && full.height == bounds.height && preceding_edge_matches && visibility_matches
}

/// Rejects a tab bar whose grip, hidden items, or strip members do not match
/// its items and its visible tab records.
pub fn validate_tab_bar_members(
    ready: &PresentationPlan,
    bar: &TabBarRecord,
    items: &[ItemId],
    visible: &[TabRecord],
) -> (r: Result<(), SceneBuildError>)
    ensures
        r == if tab_bar_members_valid(*bar, items@, visible@) {
            Ok(())
        } else {
            Err(SceneBuildError::InvalidTabBarRecord { surface: ready.surface(), id: bar.spec_id() })
        },
{
    let invalid = Err(SceneBuildError::InvalidTabBarRecord { surface: ready.surface(), id: *bar.id() });
    let bounds = bar.bounds();
    let grip_matches = match bar.group_grip_bounds() {
        None => items.len() == 0,
        Some(grip) => items.len() > 0 && grip.is_positive() && grip.x == bounds.x && grip.y
            == bounds.y && grip.height == bounds.height && rect_contains(bounds, grip)
            && !rects_overlap_with_area(grip, bar.viewport()),
    };
    let interaction_matches = match bar.interaction() {
        TabBarInteraction::Disabled => bar.group_drag().is_none(),
        TabBarInteraction::Enabled => match (bar.group_grip_bounds(), bar.group_drag()) {
            (None, None) => items.len() == 0,
            (Some(grip), Some(group)) => group.grip_bounds() == grip && group.hit().rect() == grip
                && grip.is_positive(),
            _ => false,
        },
    };
    if !grip_matches || !interaction_matches {
        return invalid;
    }
    if !hidden_matches(bar, items, visible) {
        return invalid;
    }
    let members = bar.members();
    if members.len() != items.len() {
        return invalid;
    }
    let mut o: usize = 0;
    while o < members.len()
        invariant
            o <= members@.len(),
            members@ == bar.members_view(),
            members@.len() == items@.len(),
            invalid == Err::<(), SceneBuildError>(
                SceneBuildError::InvalidTabBarRecord { surface: ready.surface(), id: bar.spec_id() },
            ),
            forall|k: int| 0 <= k < o ==> #[trigger] member_valid(*bar, items@, visible@, k),
        decreases members@.len() - o,
    {
        if !member_matches(bar, members, items, visible, o) {
            return invalid;
        }
        o = o + 1;
    }
    Ok(())
}

/// A visible tab record belongs to its bar at its item's ordinal, is selected
/// exactly for the selected item, and shows exactly where its full bounds meet
/// the bar's viewport; its close button appears exactly when closing is
/// allowed, and it has drag and close receivers exactly while the bar is
/// interactive.
pub open spec fn tab_record_valid(
    bar: TabBarRecord,
    items: Seq<ItemId>,
    selected: Option<ItemId>,
    closable: Seq<ItemId>,
    record: TabRecord,
) -> bool {
    let id = record.spec_id();
    let visible = record.visible_bounds();
    let drag = record.spec_drag_hit().rect;
    let close_visual_matches = match (closable.contains(id.item), record.spec_close_visual_bounds()) {
        (false, None) => true,
        (true, Some(close)) => close.has_area() && rect_within(visible, close),
        _ => false,
    };
    let interaction_geometry_matches = match bar.spec_interaction() {
        TabBarInteraction::Enabled => {
            &&& drag.has_area()
            &&& rect_within(visible, drag)
            &&& record.spec_close_bounds() == record.spec_close_visual_bounds()
            &&& match record.spec_close_bounds() {
                Some(close) => !overlaps_with_area(close, drag),
                None => true,
            }
        },
        TabBarInteraction::Disabled => !drag.has_area() && record.spec_close_bounds() is None,
    };
    &&& id.root == bar.spec_id().root
    &&& id.tabs == bar.spec_id().tabs
    &&& record.spec_ordinal() < items.len()
    &&& items[record.spec_ordinal() as int] == id.item
    &&& record.spec_selected() == (selected == Some(id.item))
    &&& record.spec_layer() == bar.spec_layer()
    &&& visible.has_area()
    &&& exact_intersection(visible, record.full_bounds(), bar.viewport())
    &&& rect_within(visible, record.spec_text_bounds())
    &&& close_visual_matches
    &&& interaction_geometry_matches
}

/// `i` is the first position of an invalid tab record.
pub open spec fn first_invalid_tab(
    bar: TabBarRecord,
    items: Seq<ItemId>,
    selected: Option<ItemId>,
    closable: Seq<ItemId>,
    visible: Seq<TabRecord>,
    i: int,
) -> bool {
    &&& 0 <= i < visible.len()
    &&& !tab_record_valid(bar, items, selected, closable, visible[i])
    &&& forall|j: int|
        0 <= j < i ==> tab_record_valid(bar, items, selected, closable, #[trigger] visible[j])
}

/// The first invalid tab record of a bar, if any.
pub open spec fn tab_records_error(
    plan: &PresentationPlan,
    bar: TabBarRecord,
    items: Seq<ItemId>,
    selected: Option<ItemId>,
    closable: Seq<ItemId>,
    visible: Seq<TabRecord>,
) -> Option<SceneBuildError> {
    if exists|i: int| first_invalid_tab(bar, items, selected, closable, visible, i) {
        let i = choose|i: int| first_invalid_tab(bar, items, selected, closable, visible, i);
        Some(SceneBuildError::InvalidTabRecord { surface: plan.surface(), id: visible[i].spec_id() })
    } else {
        None
    }
}

fn tab_record_matches(
    bar: &TabBarRecord,
    items: &[ItemId],
    selected: Option<ItemId>,
    closable: &KeySet<ItemId>,
    record: &TabRecord,
) -> (r: bool)
    ensures
        r == tab_record_valid(*bar, items@, selected, closable.view_seq(), *record),
{
    let id = *record.id();
    let visible = record.visible_bounds();
    let drag = record.drag_hit().rect();
    let close_visual_matches = match (closable.contains(&id.item), record.close_visual_bounds()) {
        (false, None) => true,
        (true, Some(close)) => close.is_positive() && rect_contains(visible, close),
        _ => false,
    };
    let interaction_geometry_matches = match bar.interaction() {
        TabBarInteraction::Enabled => drag.is_positive() && rect_contains(visible, drag)
            && record.close_bounds() == record.close_visual_bounds() && match record.close_bounds() {
            Some(close) => !rects_overlap_with_area(close, drag),
            None => true,
        },
        TabBarInteraction::Disabled => !drag.is_positive() && record.close_bounds().is_none(),
    };
    let bar_id = *bar.id();
    let is_selected = match selected {
        Some(item) => item == id.item,
        None => false,
    };
    id.root == bar_id.root && id.tabs == bar_id.tabs && record.ordinal() < items.len()
        && items[record.ordinal()] == id.item && record.selected() == is_selected && record.layer()
        == bar.layer() && visible.is_positive() && rect_is_exact_intersection(
        visible,
        record.full_bounds(),
        bar.viewport(),
    ) && rect_contains(visible, record.text_bounds()) && close_visual_matches
        && interaction_geometry_matches
}

/// Rejects the first visible tab record of a bar that does not match the bar,
/// its items and selection, or the set of items that may be closed.
pub fn validate_tab_records(
    ready: &PresentationPlan,
    bar: &TabBarRecord,
    items: &[ItemId],
    selected: Option<ItemId>,
    visible: &[TabRecord],
    closable: &KeySet<ItemId>,
) -> (r: Result<(), SceneBuildError>)
    ensures
        r == match tab_records_error(ready, *bar, items@, selected, closable.view_seq(), visible@) {
            Some(error) => Err(error),
            None => Ok(()),
        },
{
    let ghost closable_items = closable.view_seq();
    let mut i: usize = 0;
    while i < visible.len()
        invariant
            i <= visible@.len(),
            closable_items == closable.view_seq(),
            forall|j: int|
                0 <= j < i ==> tab_record_valid(
                    *bar,
                    items@,
                    selected,
                    closable_items,
                    #[trigger] visible@[j],
                ),
        decreases visible@.len() - i,
    {
        if !tab_record_matches(bar, items, selected, closable, &visible[i]) {
            proof {
                assert(first_invalid_tab(*bar, items@, selected, closable_items, visible@, i as int));
                let c = choose|c: int| first_invalid_tab(*bar, items@, selected, closable_items, visible@, c);
                if c < i {
                    assert(tab_record_valid(*bar, items@, selected, closable_items, visible@[c]));
                }
                if c > i {
                    assert(tab_record_valid(*bar, items@, selected, closable_items, visible@[i as int]));
                }
            }
            return Err(SceneBuildError::InvalidTabRecord { surface: ready.surface(), id: *visible[i].id() });
        }
        i = i + 1;
    }
    proof {
        assert forall|j: int| !#[trigger] first_invalid_tab(*bar, items@, selected, closable_items, visible@, j) by {
            if first_invalid_tab(*bar, items@, selected, closable_items, visible@, j) {
                assert(tab_record_valid(*bar, items@, selected, closable_items, visible@[j]));
            }
        }
    }
    Ok(())
}

} // verus!
