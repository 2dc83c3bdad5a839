//! Grouping of tab-strip controls and tab-list menus by their tab bars: each
//! control appears once, each bar opens at most one menu, the surface opens
//! at most one menu, and every control and menu names a published bar.

use vstd::prelude::*;

use crate::collections::CanonicalKey;
use crate::manifest::keys::control_bar;
use crate::plan::PresentationPlan;
use crate::records::tab::{TabBarSceneId, TabListMenuRecord, TabStripControlRecord};
use crate::tab_strip::TabStripControlId;
use crate::validation::SceneBuildError;

verus! {

/// The first key of `keys` that repeats an earlier one.
pub open spec fn first_repeat<K>(keys: Seq<K>) -> Option<K>
    decreases keys.len(),
{
    if keys.len() == 0 {
        None
    } else if first_repeat(keys.drop_last()) is Some {
        first_repeat(keys.drop_last())
    } else if keys.drop_last().contains(keys.last()) {
        Some(keys.last())
    } else {
        None
    }
}

/// Identities of the plan's control records, in record order.
pub open spec fn control_ids(ready: &PresentationPlan) -> Seq<TabStripControlId> {
    ready.controls_view().map_values(|c: TabStripControlRecord| c.id())
}

/// Bars of the plan's menu records, in record order.
pub open spec fn menu_bars(ready: &PresentationPlan) -> Seq<TabBarSceneId> {
    ready.menus_view().map_values(|m: TabListMenuRecord| m.bar())
}

/// Some tab-bar record of the plan carries `bar`.
pub open spec fn bar_published(ready: &PresentationPlan, bar: TabBarSceneId) -> bool {
    exists|i: int| 0 <= i < ready.tab_bars_view().len() && (#[trigger] ready.tab_bars_view()[i]).spec_id() == bar
}

/// Some control record names `bar`, and no tab-bar record carries it.
pub open spec fn foreign_control_bar(ready: &PresentationPlan, bar: TabBarSceneId) -> bool {
    &&& exists|i: int| 0 <= i < control_ids(ready).len() && control_bar(#[trigger] control_ids(ready)[i]) == bar
    &&& !bar_published(ready, bar)
}

/// `bar` is the least bar named by controls but not published.
pub open spec fn least_foreign_control_bar(ready: &PresentationPlan, bar: TabBarSceneId) -> bool {
    &&& foreign_control_bar(ready, bar)
    &&& forall|o: TabBarSceneId| #[trigger] foreign_control_bar(ready, o) ==> !o.key_lt(bar)
}

/// How the plan's controls and menus fail to group under its tab bars,
/// checked in a fixed order: a repeated control, a bar opening two menus,
/// more than one menu, the least bar named by a control but not published,
/// and a menu of an unpublished bar.
pub open spec fn strip_grouping_error(ready: &PresentationPlan) -> Option<SceneBuildError> {
    let surface = ready.surface();
    let menus = menu_bars(ready);
    if first_repeat(control_ids(ready)) is Some {
        Some(
            SceneBuildError::InvalidTabBarRecord {
                surface,
                id: control_bar(first_repeat(control_ids(ready)).unwrap()),
            },
        )
    } else if first_repeat(menus) is Some {
        Some(SceneBuildError::InvalidTabBarRecord { surface, id: first_repeat(menus).unwrap() })
    } else if menus.len() > 1 {
        Some(SceneBuildError::InvalidTabBarRecord { surface, id: menus[0] })
    } else if exists|b: TabBarSceneId| least_foreign_control_bar(ready, b) {
        Some(
            SceneBuildError::InvalidTabBarRecord {
                surface,
                id: choose|b: TabBarSceneId| least_foreign_control_bar(ready, b),
            },
        )
    } else if menus.len() == 1 && !bar_published(ready, menus[0]) {
        Some(SceneBuildError::InvalidTabBarRecord { surface, id: menus[0] })
    } else {
        None
    }
}

/// Returns the bar a control belongs to.
fn bar_of_control(id: TabStripControlId) -> (r: TabBarSceneId)
    ensures
        r == control_bar(id),
{
    match id {
        TabStripControlId::ScrollBackward(bar) => bar,
        TabStripControlId::ScrollForward(bar) => bar,
        TabStripControlId::TabListMenu(bar) => bar,
    }
}

/// Returns whether the key at `i` already occurs before it.
fn occurs_before<K: CanonicalKey>(keys: &[K], i: usize) -> (r: bool)
    requires
        i < keys@.len(),
    ensures
        r == keys@.take(i as int).contains(keys@[i as int]),
{
    let mut j: usize = 0;
    while j < i
        invariant
            j <= i < keys@.len(),
            forall|m: int| 0 <= m < j ==> keys@[m] != keys@[i as int],
        decreases i - j,
    {
        if keys[j].key_same(&keys[i]) {
            assert(keys@.take(i as int)[j as int] == keys@[i as int]);
            return true;
        }
        j = j + 1;
    }
    proof {
        if keys@.take(i as int).contains(keys@[i as int]) {
            let m = choose|m: int| 0 <= m < i && keys@.take(i as int)[m] == keys@[i as int];
            assert(keys@[m] == keys@[i as int]);
        }
    }
    false
}

/// Returns the first key of `keys` that repeats an earlier one.
pub fn first_repeated<K: CanonicalKey>(keys: &[K]) -> (r: Option<K>)
    ensures
        r == first_repeat(keys@),
{
    let mut i: usize = 0;
    while i < keys.len()
        invariant
            i <= keys@.len(),
            first_repeat(keys@.take(i as int)) is None,
        decreases keys@.len() - i,
    {
        proof {
            assert(keys@.take(i + 1).drop_last() =~= keys@.take(i as int));
            assert(keys@.take(i + 1).last() == keys@[i as int]);
        }
        if occurs_before(keys, i) {
            proof {
                assert(keys@.take(i + 1) =~= keys@.take(i + 1));
            }
            let k = keys[i];
            proof {
                if i + 1 == keys@.len() {
                    assert(keys@.take(i + 1) =~= keys@);
                } else {
                    lemma_first_repeat_prefix(keys@, i + 1);
                }
            }
            return Some(k);
        }
        i = i + 1;
    }
    assert(keys@.take(i as int) =~= keys@);
    None
}

/// A repeat found in a prefix is the first repeat of the whole sequence.
proof fn lemma_first_repeat_prefix<K>(keys: Seq<K>, n: int)
    requires
        0 <= n <= keys.len(),
        first_repeat(keys.take(n)) is Some,
    ensures
        first_repeat(keys) == first_repeat(keys.take(n)),
    decreases keys.len() - n,
{
    if n < keys.len() {
        assert(keys.take(n + 1).drop_last() =~= keys.take(n));
        lemma_first_repeat_prefix(keys, n + 1);
    } else {
        assert(keys.take(n) =~= keys);
    }
}

/// Collects the identities of the plan's control records, in record order.
fn collect_control_ids(ready: &PresentationPlan) -> (r: Vec<TabStripControlId>)
    ensures
        r@ == control_ids(ready),
{
    let controls = ready.tab_strip_control_records();
    let mut ids: Vec<TabStripControlId> = Vec::new();
    let mut i: usize = 0;
    while i < controls.len()
        invariant
            i <= controls@.len(),
            controls@ == ready.controls_view(),
            ids@ == controls@.take(i as int).map_values(|c: TabStripControlRecord| c.id()),
        decreases controls@.len() - i,
    {
        proof {
            assert(controls@.take(i + 1) =~= controls@.take(i as int).push(controls@[i as int]));
        }
        ids.push(controls[i].id());
        i = i + 1;
        proof {
            assert(ids@ =~= controls@.take(i as int).map_values(|c: TabStripControlRecord| c.id()));
        }
    }
    assert(controls@.take(i as int) =~= controls@);
    ids
}

/// Collects the bars of the plan's menu records, in record order.
fn collect_menu_bars(ready: &PresentationPlan) -> (r: Vec<TabBarSceneId>)
    ensures
        r@ == menu_bars(ready),
{
    let menus = ready.tab_list_menu_records();
    let mut bars: Vec<TabBarSceneId> = Vec::new();
    let mut i: usize = 0;
    while i < menus.len()
        invariant
            i <= menus@.len(),
            menus@ == ready.menus_view(),
            bars@ == menus@.take(i as int).map_values(|m: TabListMenuRecord| m.bar()),
        decreases menus@.len() - i,
    {
        proof {
            assert(menus@.take(i + 1) =~= menus@.take(i as int).push(menus@[i as int]));
        }
        bars.push(menus[i].bar());
        i = i + 1;
        proof {
            assert(bars@ =~= menus@.take(i as int).map_values(|m: TabListMenuRecord| m.bar()));
        }
    }
    assert(menus@.take(i as int) =~= menus@);
    bars
}

/// Returns whether some tab-bar record of the plan carries `bar`.
pub fn bar_is_published(ready: &PresentationPlan, bar: TabBarSceneId) -> (r: bool)
    ensures
        r == bar_published(ready, bar),
{
    let bars = ready.tab_bar_records();
    let mut i: usize = 0;
    while i < bars.len()
        invariant
            i <= bars@.len(),
            bars@ == ready.tab_bars_view(),
            forall|j: int| 0 <= j < i ==> (#[trigger] bars@[j]).spec_id() != bar,
        decreases bars@.len() - i,
    {
        if *bars[i].id() == bar {
            assert(ready.tab_bars_view()[i as int].spec_id() == bar);
            return true;
        }
        i = i + 1;
    }
    false
}

/// Returns the least bar named by a control but not published, if any.
fn least_foreign_bar(ready: &PresentationPlan, ids: &[TabStripControlId]) -> (r: Option<TabBarSceneId>)
    requires
        ids@ == control_ids(ready),
    ensures
        match r {
            Some(b) => least_foreign_control_bar(ready, b),
            None => forall|b: TabBarSceneId| !foreign_control_bar(ready, b),
        },
{
    let mut least: Option<TabBarSceneId> = None;
    let mut i: usize = 0;
    while i < ids.len()
        invariant
            i <= ids@.len(),
            ids@ == control_ids(ready),
            match least {
                Some(b) => {
                    &&& foreign_control_bar(ready, b)
                    &&& forall|j: int|
                        0 <= j < i && !bar_published(ready, control_bar(#[trigger] ids@[j]))
                            ==> !control_bar(ids@[j]).key_lt(b)
                },
                None => forall|j: int| 0 <= j < i ==> bar_published(ready, control_bar(#[trigger] ids@[j])),
            },
        decreases ids@.len() - i,
    {
        let bar = bar_of_control(ids[i]);
        if !bar_is_published(ready, bar) {
            proof {
                assert(control_bar(control_ids(ready)[i as int]) == bar);
            }
            let replace = match least {
                None => true,
                Some(b) => bar.key_less(&b),
            };
            if replace {
                let ghost old_least = least;
                proof {
                    assert forall|j: int|
                        0 <= j < i + 1 && !bar_published(ready, control_bar(#[trigger] ids@[j]))
                            implies !control_bar(ids@[j]).key_lt(bar) by {
                        TabBarSceneId::lemma_key_order(control_bar(ids@[j]), bar, control_bar(ids@[j]));
                        if let Some(b) = old_least {
                            TabBarSceneId::lemma_key_order(control_bar(ids@[j]), bar, b);
                        }
                    }
                }
                least = Some(bar);
            }
        }
        i = i + 1;
    }
    proof {
        match least {
            Some(b) => {
                assert forall|o: TabBarSceneId| #[trigger] foreign_control_bar(ready, o) implies !o.key_lt(b) by {
                    let j = choose|j: int| 0 <= j < control_ids(ready).len() && control_bar(#[trigger] control_ids(ready)[j]) == o;
                    assert(control_bar(ids@[j]) == o);
                }
            },
            None => {
                assert forall|o: TabBarSceneId| !foreign_control_bar(ready, o) by {
                    if exists|j: int| 0 <= j < control_ids(ready).len() && control_bar(#[trigger] control_ids(ready)[j]) == o {
                        let j = choose|j: int| 0 <= j < control_ids(ready).len() && control_bar(#[trigger] control_ids(ready)[j]) == o;
                        assert(control_bar(ids@[j]) == o);
                    }
                }
            },
        }
    }
    least
}

proof fn lemma_least_foreign_unique(ready: &PresentationPlan, b: TabBarSceneId)
    requires
        least_foreign_control_bar(ready, b),
    ensures
        (choose|c: TabBarSceneId| least_foreign_control_bar(ready, c)) == b,
{
    let c = choose|c: TabBarSceneId| least_foreign_control_bar(ready, c);
    assert(least_foreign_control_bar(ready, c));
    assert(foreign_control_bar(ready, b) && foreign_control_bar(ready, c));
    TabBarSceneId::lemma_key_order(b, c, b);
}

/// Returns how the plan's controls and menus fail to group under its tab bars.
pub fn strip_grouping_check(ready: &PresentationPlan) -> (e: Option<SceneBuildError>)
    ensures
        e == strip_grouping_error(ready),
{
    let surface = ready.surface();
    let ids = collect_control_ids(ready);
    if let Some(id) = first_repeated(ids.as_slice()) {
        return Some(SceneBuildError::InvalidTabBarRecord { surface, id: bar_of_control(id) });
    }
    let menus = collect_menu_bars(ready);
    if let Some(bar) = first_repeated(menus.as_slice()) {
        return Some(SceneBuildError::InvalidTabBarRecord { surface, id: bar });
    }
    if menus.len() > 1 {
        return Some(SceneBuildError::InvalidTabBarRecord { surface, id: menus[0] });
    }
    if let Some(bar) = least_foreign_bar(ready, ids.as_slice()) {
        proof {
            lemma_least_foreign_unique(ready, bar);
        }
        return Some(SceneBuildError::InvalidTabBarRecord { surface, id: bar });
    }
    if menus.len() == 1 && !bar_is_published(ready, menus[0]) {
        return Some(SceneBuildError::InvalidTabBarRecord { surface, id: menus[0] });
    }
    None
}

} // verus!
