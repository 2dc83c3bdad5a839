//! What a published tab bar holds: its tab records, strip members and grip,
//! its controls and open menu, each checked against the items, selection,
//! and closable items of its tabs leaf; and no tab record outside the
//! published bars.

use vstd::prelude::*;

use crate::manifest::keys::control_bar;
use crate::plan::PresentationPlan;
use crate::records::tab::{
    PaneSceneId, TabBarRecord, TabBarSceneId, TabListMenuRecord, TabRecord, TabSceneId,
    TabStripControlRecord,
};
use crate::tab_strip::TabStripControlId;
use crate::validation::panes::{
    bar_expected, bar_is_expected, bar_of, last_index_with_key, last_with_key, ExpectedPane,
};
use crate::validation::strips::{bar_is_published, bar_published};
use crate::validation::tab_bars::{
    tab_bar_members_valid, tab_records_error, tab_strip_controls_and_menu_valid,
    validate_tab_bar_members, validate_tab_records, validate_tab_strip_entries,
};
use crate::validation::SceneBuildError;

verus! {

/// The tab bar presenting a tab.
pub open spec fn tab_bar_of(id: TabSceneId) -> TabBarSceneId {
    TabBarSceneId { root: id.root, tabs: id.tabs }
}

/// The tab records of `bar`, in record order.
pub open spec fn tabs_of_bar(tabs: Seq<TabRecord>, bar: TabBarSceneId) -> Seq<TabRecord>
    decreases tabs.len(),
{
    if tabs.len() == 0 {
        Seq::empty()
    } else if tab_bar_of(tabs.last().spec_id()) == bar {
        tabs_of_bar(tabs.drop_last(), bar).push(tabs.last())
    } else {
        tabs_of_bar(tabs.drop_last(), bar)
    }
}

/// The controls of `bar` with their identities, in record order.
pub open spec fn controls_of_bar(controls: Seq<TabStripControlRecord>, bar: TabBarSceneId) -> Seq<
    (TabStripControlId, TabStripControlRecord),
>
    decreases controls.len(),
{
    if controls.len() == 0 {
        Seq::empty()
    } else if control_bar(controls.last().id()) == bar {
        controls_of_bar(controls.drop_last(), bar).push((controls.last().id(), controls.last()))
    } else {
        controls_of_bar(controls.drop_last(), bar)
    }
}

/// The controls of a bar, or `None` when it has none.
pub open spec fn some_controls(controls: Seq<(TabStripControlId, TabStripControlRecord)>) -> Option<
    Seq<(TabStripControlId, TabStripControlRecord)>,
> {
    if controls.len() == 0 {
        None
    } else {
        Some(controls)
    }
}

/// The last menu opened from `bar`, if any.
pub open spec fn menu_of_bar(menus: Seq<TabListMenuRecord>, bar: TabBarSceneId) -> Option<TabListMenuRecord>
    decreases menus.len(),
{
    if menus.len() == 0 {
        None
    } else if menus.last().bar() == bar {
        Some(menus.last())
    } else {
        menu_of_bar(menus.drop_last(), bar)
    }
}

/// Some tab record belongs to a bar that is not published.
pub open spec fn tab_outside_bars(ready: &PresentationPlan) -> bool {
    exists|i: int|
        0 <= i < ready.tabs_view().len() && !bar_published(
            ready,
            tab_bar_of((#[trigger] ready.tabs_view()[i]).spec_id()),
        )
}

/// How the bar shown for one expected leaf fails to hold what its leaf
/// determines: its grip, hidden items and members; its controls and open
/// menu; then the first of its tab records that is invalid.
pub open spec fn bar_content_error(ready: &PresentationPlan, entry: (PaneSceneId, ExpectedPane)) -> Option<
    SceneBuildError,
> {
    let id = bar_of(entry.0);
    let items = entry.1.items@;
    let visible = tabs_of_bar(ready.tabs_view(), id);
    if !bar_expected(ready, entry) {
        None
    } else {
        match last_with_key(ready.tab_bars_view(), id) {
            None => None,
            Some(bar) => if !tab_bar_members_valid(bar, items, visible) {
                Some(SceneBuildError::InvalidTabBarRecord { surface: ready.surface(), id: bar.spec_id() })
            } else if !tab_strip_controls_and_menu_valid(
                ready,
                bar,
                items,
                entry.1.selected,
                some_controls(controls_of_bar(ready.controls_view(), id)),
                menu_of_bar(ready.menus_view(), id),
            ) {
                Some(SceneBuildError::InvalidTabBarRecord { surface: ready.surface(), id: bar.spec_id() })
            } else {
                tab_records_error(
                    ready,
                    bar,
                    items,
                    entry.1.selected,
                    entry.1.closable.view_seq(),
                    visible,
                )
            },
        }
    }
}

/// The first expected leaf, in leaf order, whose shown bar fails to hold
/// what its leaf determines.
pub open spec fn first_content_error(ready: &PresentationPlan, entries: Seq<(PaneSceneId, ExpectedPane)>) -> Option<
    SceneBuildError,
>
    decreases entries.len(),
{
    if entries.len() == 0 {
        None
    } else if bar_content_error(ready, entries[0]) is Some {
        bar_content_error(ready, entries[0])
    } else {
        first_content_error(ready, entries.drop_first())
    }
}

/// Collects the tab records of `bar`, in record order.
fn collect_tabs_of_bar(tabs: &[TabRecord], bar: TabBarSceneId) -> (r: Vec<TabRecord>)
    ensures
        r@ == tabs_of_bar(tabs@, bar),
{
    let mut out: Vec<TabRecord> = Vec::new();
    let mut i: usize = 0;
    while i < tabs.len()
        invariant
            i <= tabs@.len(),
            out@ == tabs_of_bar(tabs@.take(i as int), bar),
        decreases tabs@.len() - i,
    {
        proof {
            assert(tabs@.take(i + 1).drop_last() =~= tabs@.take(i as int));
            assert(tabs@.take(i + 1).last() == tabs@[i as int]);
        }
        let id = *tabs[i].id();
        if id.root == bar.root && id.tabs == bar.tabs {
            out.push(tabs[i]);
        }
        i = i + 1;
    }
    assert(tabs@.take(i as int) =~= tabs@);
    out
}

/// Collects the controls of `bar` with their identities, in record order.
fn collect_controls_of_bar(controls: &[TabStripControlRecord], bar: TabBarSceneId) -> (r: Vec<
    (TabStripControlId, TabStripControlRecord),
>)
    ensures
        r@ == controls_of_bar(controls@, bar),
{
    let mut out: Vec<(TabStripControlId, TabStripControlRecord)> = Vec::new();
    let mut i: usize = 0;
    while i < controls.len()
        invariant
            i <= controls@.len(),
            out@ == controls_of_bar(controls@.take(i as int), bar),
        decreases controls@.len() - i,
    {
        proof {
            assert(controls@.take(i + 1).drop_last() =~= controls@.take(i as int));
            assert(controls@.take(i + 1).last() == controls@[i as int]);
        }
        let id = controls[i].id();
        let owner = match id {
            TabStripControlId::ScrollBackward(b) => b,
            TabStripControlId::ScrollForward(b) => b,
            TabStripControlId::TabListMenu(b) => b,
        };
        if owner == bar {
            out.push((id, controls[i]));
        }
        i = i + 1;
    }
    assert(controls@.take(i as int) =~= controls@);
    out
}

/// Returns the position of the last menu opened from `bar`.
fn find_menu_of_bar(menus: &[TabListMenuRecord], bar: TabBarSceneId) -> (r: Option<usize>)
    ensures
        match r {
            Some(k) => k < menus@.len() && menu_of_bar(menus@, bar) == Some(menus@[k as int]),
            None => menu_of_bar(menus@, bar) is None,
        },
{
    let mut i: usize = menus.len();
    assert(menus@.take(i as int) =~= menus@);
    while i > 0
        invariant
            i <= menus@.len(),
            menu_of_bar(menus@, bar) == menu_of_bar(menus@.take(i as int), bar),
        decreases i,
    {
        proof {
            assert(menus@.take(i as int).drop_last() =~= menus@.take(i - 1));
            assert(menus@.take(i as int).last() == menus@[i - 1]);
        }
        if menus[i - 1].bar() == bar {
            return Some(i - 1);
        }
        i = i - 1;
    }
    None
}

/// Returns whether some tab record belongs to a bar that is not published.
pub fn tab_outside_bars_check(ready: &PresentationPlan) -> (r: bool)
    ensures
        r == tab_outside_bars(ready),
{
    let tabs = ready.tab_records();
    let mut i: usize = 0;
    while i < tabs.len()
        invariant
            i <= tabs@.len(),
            tabs@ == ready.tabs_view(),
            forall|j: int| 0 <= j < i ==> bar_published(ready, tab_bar_of((#[trigger] tabs@[j]).spec_id())),
        decreases tabs@.len() - i,
    {
        let id = *tabs[i].id();
        if !bar_is_published(ready, TabBarSceneId { root: id.root, tabs: id.tabs }) {
            assert(!bar_published(ready, tab_bar_of(ready.tabs_view()[i as int].spec_id())));
            return true;
        }
        i = i + 1;
    }
    false
}

/// Returns how the bar shown for one expected leaf fails to hold what its
/// leaf determines, if it does.
pub fn bar_content_check(ready: &PresentationPlan, id: PaneSceneId, expected: &ExpectedPane) -> (e:
    Option<SceneBuildError>)
    ensures
        e == bar_content_error(ready, (id, *expected)),
{
    let bar_id = TabBarSceneId { root: id.root, tabs: id.tabs };
    let (shown, _) = bar_is_expected(ready, id, expected);
    if !shown {
        return None;
    }
    let bars = ready.tab_bar_records();
    let b = match last_index_with_key(bars, bar_id) {
        Some(b) => b,
        None => {
            return None;
        },
    };
    let bar = &bars[b];
    let items = expected.items.as_slice();
    let visible = collect_tabs_of_bar(ready.tab_records(), bar_id);
    if validate_tab_bar_members(ready, bar, items, visible.as_slice()).is_err() {
        return Some(SceneBuildError::InvalidTabBarRecord { surface: ready.surface(), id: *bar.id() });
    }
    let controls = collect_controls_of_bar(ready.tab_strip_control_records(), bar_id);
    let menus = ready.tab_list_menu_records();
    let menu = match find_menu_of_bar(menus, bar_id) {
        Some(k) => Some(&menus[k]),
        None => None,
    };
    let control_entries = if controls.len() == 0 {
        None
    } else {
        Some(controls.as_slice())
    };
    if validate_tab_strip_entries(ready, bar, items, expected.selected, control_entries, menu).is_err() {
        return Some(SceneBuildError::InvalidTabBarRecord { surface: ready.surface(), id: *bar.id() });
    }
    match validate_tab_records(ready, bar, items, expected.selected, visible.as_slice(), &expected.closable) {
        Ok(()) => None,
        Err(e) => Some(e),
    }
}

} // verus!
