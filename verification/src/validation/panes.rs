//! The pane and tab-bar records a plan must publish: exactly one pane record
//! for every tabs leaf of its compiled roots (the main root and every
//! contained root whose content has area), agreeing with the leaf; one tab
//! bar for every pane that has area and whose policy shows its bar, inside
//! the pane, on the pane's layer, with the policy's interaction; and in each
//! bar exactly the members, tabs, controls, and menu its leaf determines.

use vstd::prelude::*;

use crate::collections::{slice_has, CanonicalKey, KeyMap, KeySet};
use crate::geometry::LogicalRect;
use crate::ids::{ItemId, RootId, SceneLayerKey};
use crate::plan::PresentationPlan;
use crate::policy::{TabBarPolicy, TabBarVisibility};
use crate::records::tab::{PaneRecord, PaneSceneId, TabBarRecord, TabBarSceneId};
use crate::validation::bar_contents::{
    bar_content_check, first_content_error, tab_outside_bars, tab_outside_bars_check,
};
use crate::validation::strips::{strip_grouping_check, strip_grouping_error};
use crate::validation::tab_bars::{rect_contains, rect_within};
use crate::validation::{record_keys, semantic_keys, SceneBuildError, SemanticRecord};

verus! {

/// What the workspace determines for one tabs leaf: its items in order, its
/// selected item, the items the policy lets close, the layer of its root, and
/// the tab-bar policy that applies.
#[derive(Debug)]
pub struct ExpectedPane {
    /// Items of the leaf, in order.
    pub items: Vec<ItemId>,
    /// Selected item of the leaf.
    pub selected: Option<ItemId>,
    /// Items of the leaf that may be closed.
    pub closable: KeySet<ItemId>,
    /// Layer of the owning root.
    pub layer: SceneLayerKey,
    /// Tab-bar policy of the leaf.
    pub policy: TabBarPolicy,
}

/// The last record of `records` carrying `key`, if any.
pub open spec fn last_with_key<R: SemanticRecord>(records: Seq<R>, key: R::Key) -> Option<R>
    decreases records.len(),
{
    if records.len() == 0 {
        None
    } else if records.last().semantic_key() == key {
        Some(records.last())
    } else {
        last_with_key(records.drop_last(), key)
    }
}

/// Number of distinct identities among `keys`.
pub open spec fn distinct_count<K>(keys: Seq<K>) -> nat {
    keys.to_set().len()
}

/// The tab bar a pane presents.
pub open spec fn bar_of(id: PaneSceneId) -> TabBarSceneId {
    TabBarSceneId { root: id.root, tabs: id.tabs }
}

/// A pane record agrees with its leaf: same selection and layer, inside the
/// plan, with its content inside the pane.
pub open spec fn pane_record_valid(bounds: LogicalRect, record: PaneRecord, expected: ExpectedPane) -> bool {
    &&& record.selected() == expected.selected
    &&& record.layer() == expected.layer
    &&& rect_within(bounds, record.bounds())
    &&& rect_within(record.bounds(), record.content_bounds())
}

/// How the pane of one expected leaf fails: it has no record, or its last
/// record disagrees with the leaf.
pub open spec fn pane_entry_error(ready: &PresentationPlan, entry: (PaneSceneId, ExpectedPane)) -> Option<
    SceneBuildError,
> {
    match last_with_key(ready.panes_view(), entry.0) {
        None => Some(SceneBuildError::PaneRecordSetMismatch { surface: ready.surface() }),
        Some(record) => if pane_record_valid(ready.bounds(), record, entry.1) {
            None
        } else {
            Some(SceneBuildError::InvalidPaneRecord { surface: ready.surface(), id: entry.0 })
        },
    }
}

/// The error of the first expected leaf, in leaf order, whose pane fails.
pub open spec fn first_pane_error(ready: &PresentationPlan, entries: Seq<(PaneSceneId, ExpectedPane)>) -> Option<
    SceneBuildError,
>
    decreases entries.len(),
{
    if entries.len() == 0 {
        None
    } else if pane_entry_error(ready, entries[0]) is Some {
        pane_entry_error(ready, entries[0])
    } else {
        first_pane_error(ready, entries.drop_first())
    }
}

/// The pane of an expected leaf shows a tab bar: its record has area and its
/// policy makes the bar visible.
pub open spec fn bar_expected(ready: &PresentationPlan, entry: (PaneSceneId, ExpectedPane)) -> bool {
    match last_with_key(ready.panes_view(), entry.0) {
        Some(pane) => pane.bounds().has_area() && entry.1.policy.visibility()
            == TabBarVisibility::Visible,
        None => false,
    }
}

/// Number of expected leaves whose pane shows a tab bar.
pub open spec fn expected_bar_count(ready: &PresentationPlan, entries: Seq<(PaneSceneId, ExpectedPane)>) -> nat
    decreases entries.len(),
{
    if entries.len() == 0 {
        0
    } else {
        expected_bar_count(ready, entries.drop_last()) + if bar_expected(ready, entries.last()) {
            1nat
        } else {
            0nat
        }
    }
}

/// A tab bar agrees with its pane and policy: same layer, the policy's
/// interaction, positive area inside the pane, its viewport inside it, and a
/// scroll offset no greater than its maximum.
pub open spec fn bar_record_valid(pane: PaneRecord, policy: TabBarPolicy, bar: TabBarRecord) -> bool {
    &&& bar.layer() == pane.layer()
    &&& bar.interaction() == policy.interaction()
    &&& bar.bounds().has_area()
    &&& rect_within(pane.bounds(), bar.bounds())
    &&& rect_within(bar.bounds(), bar.viewport())
    &&& bar.scroll_offset() <= bar.maximum_scroll_offset()
}

/// How the tab bar of one expected leaf fails: a bar is published for a pane
/// that shows none, is missing for a pane that shows one, or disagrees with
/// its pane and policy.
pub open spec fn bar_entry_error(ready: &PresentationPlan, entry: (PaneSceneId, ExpectedPane)) -> Option<
    SceneBuildError,
> {
    let id = bar_of(entry.0);
    let bar = last_with_key(ready.tab_bars_view(), id);
    if !bar_expected(ready, entry) {
        if bar is Some {
            Some(SceneBuildError::InvalidTabBarRecord { surface: ready.surface(), id })
        } else {
            None
        }
    } else {
        match bar {
            None => Some(SceneBuildError::TabBarRecordSetMismatch { surface: ready.surface() }),
            Some(record) => if bar_record_valid(
                last_with_key(ready.panes_view(), entry.0).unwrap(),
                entry.1.policy,
                record,
            ) {
                None
            } else {
                Some(SceneBuildError::InvalidTabBarRecord { surface: ready.surface(), id })
            },
        }
    }
}

/// The error of the first expected leaf, in leaf order, whose tab bar fails.
pub open spec fn first_bar_error(ready: &PresentationPlan, entries: Seq<(PaneSceneId, ExpectedPane)>) -> Option<
    SceneBuildError,
>
    decreases entries.len(),
{
    if entries.len() == 0 {
        None
    } else if bar_entry_error(ready, entries[0]) is Some {
        bar_entry_error(ready, entries[0])
    } else {
        first_bar_error(ready, entries.drop_first())
    }
}

/// `root` is compiled on the plan's surface: it is the surface's main root,
/// or the root of a contained record whose content has area.
pub open spec fn root_compiled_on(ready: &PresentationPlan, main_root: Option<RootId>, root: RootId) -> bool {
    ||| main_root == Some(root)
    ||| exists|i: int|
        0 <= i < ready.contained_view().len() && (#[trigger] ready.contained_view()[i]).root() == root
            && ready.contained_view()[i].content_bounds().has_area()
}

/// The leaves of `entries` whose roots are compiled, in leaf order.
pub open spec fn compiled_entries(
    ready: &PresentationPlan,
    main_root: Option<RootId>,
    entries: Seq<(PaneSceneId, ExpectedPane)>,
) -> Seq<(PaneSceneId, ExpectedPane)>
    decreases entries.len(),
{
    if entries.len() == 0 {
        Seq::empty()
    } else if root_compiled_on(ready, main_root, entries.last().0.root) {
        compiled_entries(ready, main_root, entries.drop_last()).push(entries.last())
    } else {
        compiled_entries(ready, main_root, entries.drop_last())
    }
}

/// How the plan's pane, tab-bar, and tab records fail, checked in a fixed
/// order over the leaves of the compiled roots: the number of distinct pane
/// identities, each leaf's pane in leaf order, the grouping of controls and
/// menus under published bars, the number of distinct tab-bar identities,
/// each leaf's tab bar in leaf order, tab records outside the published
/// bars, and what each shown bar holds, in leaf order.
pub open spec fn pane_records_error(
    ready: &PresentationPlan,
    main_root: Option<RootId>,
    leaves: Seq<(PaneSceneId, ExpectedPane)>,
) -> Option<SceneBuildError> {
    let entries = compiled_entries(ready, main_root, leaves);
    if distinct_count(semantic_keys(ready.panes_view())) != entries.len() {
        Some(SceneBuildError::PaneRecordSetMismatch { surface: ready.surface() })
    } else if first_pane_error(ready, entries) is Some {
        first_pane_error(ready, entries)
    } else if strip_grouping_error(ready) is Some {
        strip_grouping_error(ready)
    } else if distinct_count(semantic_keys(ready.tab_bars_view())) != expected_bar_count(
        ready,
        entries,
    ) {
        Some(SceneBuildError::TabBarRecordSetMismatch { surface: ready.surface() })
    } else if first_bar_error(ready, entries) is Some {
        first_bar_error(ready, entries)
    } else if tab_outside_bars(ready) {
        Some(SceneBuildError::TabRecordSetMismatch { surface: ready.surface() })
    } else {
        first_content_error(ready, entries)
    }
}

/// Returns the number of distinct identities among `keys`.
pub fn count_distinct<K: CanonicalKey>(keys: &[K]) -> (n: usize)
    ensures
        n == distinct_count(keys@),
{
    let mut seen: Vec<K> = Vec::new();
    let mut i: usize = 0;
    while i < keys.len()
        invariant
            i <= keys@.len(),
            seen@.len() <= i,
            seen@.no_duplicates(),
            forall|k: K| seen@.contains(k) <==> exists|j: int| 0 <= j < i && keys@[j] == k,
        decreases keys@.len() - i,
    {
        let k = keys[i];
        if !slice_has(seen.as_slice(), &k) {
            let ghost before = seen@;
            seen.push(k);
            proof {
                assert forall|a: int, b: int| 0 <= a < b < seen@.len() implies seen@[a] != seen@[b] by {
                    if b == before.len() {
                        assert(before.contains(before[a]));
                    } else {
                        assert(seen@[a] == before[a] && seen@[b] == before[b]);
                    }
                }
                assert forall|x: K| seen@.contains(x) <==> exists|j: int| 0 <= j < i + 1 && keys@[j] == x by {
                    if seen@.contains(x) {
                        let m = choose|m: int| 0 <= m < seen@.len() && seen@[m] == x;
                        if m < before.len() {
                            assert(before.contains(x));
                        } else {
                            assert(keys@[i as int] == x);
                        }
                    }
                    if exists|j: int| 0 <= j < i + 1 && keys@[j] == x {
                        let j = choose|j: int| 0 <= j < i + 1 && keys@[j] == x;
                        if j < i {
                            assert(before.contains(x));
                            let m = choose|m: int| 0 <= m < before.len() && before[m] == x;
                            assert(seen@[m] == x);
                        } else {
                            assert(seen@[before.len() as int] == x);
                        }
                    }
                }
            }
        } else {
            proof {
                assert forall|x: K| seen@.contains(x) <==> exists|j: int| 0 <= j < i + 1 && keys@[j] == x by {
                    if exists|j: int| 0 <= j < i + 1 && keys@[j] == x {
                        let j = choose|j: int| 0 <= j < i + 1 && keys@[j] == x;
                        if j < i {
                            assert(exists|j: int| 0 <= j < i && keys@[j] == x);
                        }
                    }
                }
            }
        }
        i = i + 1;
    }
    proof {
        assert(seen@.to_set() =~= keys@.to_set()) by {
            assert forall|x: K| seen@.to_set().contains(x) <==> keys@.to_set().contains(x) by {
                if keys@.contains(x) {
                    let j = choose|j: int| 0 <= j < keys@.len() && keys@[j] == x;
                    assert(exists|j: int| 0 <= j < i && keys@[j] == x);
                }
                if seen@.contains(x) {
                    let j = choose|j: int| 0 <= j < i && keys@[j] == x;
                    assert(keys@.contains(x));
                }
            }
        }
        seen@.unique_seq_to_set();
    }
    seen.len()
}

/// Returns the position of the last record of `records` carrying `key`.
pub fn last_index_with_key<R: SemanticRecord>(records: &[R], key: R::Key) -> (r: Option<usize>)
    ensures
        match r {
            Some(i) => i < records@.len() && last_with_key(records@, key) == Some(records@[i as int]),
            None => last_with_key(records@, key) is None,
        },
{
    let mut i: usize = records.len();
    proof {
        assert(records@.take(i as int) =~= records@);
    }
    while i > 0
        invariant
            i <= records@.len(),
            last_with_key(records@, key) == last_with_key(records@.take(i as int), key),
        decreases i,
    {
        let ghost prefix = records@.take(i as int);
        proof {
            assert(prefix.drop_last() =~= records@.take(i - 1));
            assert(prefix.last() == records@[i - 1]);
        }
        if records[i - 1].record_key().key_same(&key) {
            return Some(i - 1);
        }
        i = i - 1;
    }
    None
}

/// Returns how the pane of one expected leaf fails, if it does.
fn pane_entry_check(ready: &PresentationPlan, id: PaneSceneId, expected: &ExpectedPane) -> (e: Option<
    SceneBuildError,
>)
    ensures
        e == pane_entry_error(ready, (id, *expected)),
{
    let panes = ready.pane_records();
    match last_index_with_key(panes, id) {
        None => Some(SceneBuildError::PaneRecordSetMismatch { surface: ready.surface() }),
        Some(i) => {
            let record = &panes[i];
            let bounds = ready.bounds();
            if record.selected() == expected.selected && record.layer().0 == expected.layer.0
                && rect_contains(bounds, record.bounds()) && rect_contains(
                record.bounds(),
                record.content_bounds(),
            ) {
                None
            } else {
                Some(SceneBuildError::InvalidPaneRecord { surface: ready.surface(), id })
            }
        },
    }
}

/// Returns whether the pane of an expected leaf shows a tab bar, and the
/// position of its last pane record.
pub fn bar_is_expected(ready: &PresentationPlan, id: PaneSceneId, expected: &ExpectedPane) -> (r: (
    bool,
    Option<usize>,
))
    ensures
        r.0 == bar_expected(ready, (id, *expected)),
        match r.1 {
            Some(i) => i < ready.panes_view().len() && last_with_key(ready.panes_view(), id) == Some(
                ready.panes_view()[i as int],
            ),
            None => last_with_key(ready.panes_view(), id) is None,
        },
{
    let panes = ready.pane_records();
    match last_index_with_key(panes, id) {
        None => (false, None),
        Some(i) => {
            let visible = match expected.policy.visibility() {
                TabBarVisibility::Visible => true,
                TabBarVisibility::Hidden => false,
            };
            (panes[i].bounds().is_positive() && visible, Some(i))
        },
    }
}

/// Returns how the tab bar of one expected leaf fails, if it does.
fn bar_entry_check(ready: &PresentationPlan, id: PaneSceneId, expected: &ExpectedPane) -> (e: Option<
    SceneBuildError,
>)
    ensures
        e == bar_entry_error(ready, (id, *expected)),
{
    let bar_id = TabBarSceneId { root: id.root, tabs: id.tabs };
    let bars = ready.tab_bar_records();
    let found = last_index_with_key(bars, bar_id);
    let (shown, pane_index) = bar_is_expected(ready, id, expected);
    if !shown {
        return match found {
            Some(_) => Some(SceneBuildError::InvalidTabBarRecord { surface: ready.surface(), id: bar_id }),
            None => None,
        };
    }
    let b = match found {
        Some(b) => b,
        None => {
            return Some(SceneBuildError::TabBarRecordSetMismatch { surface: ready.surface() });
        },
    };
    let p = match pane_index {
        Some(p) => p,
        None => {
            return None;
        },
    };
    let pane = &ready.pane_records()[p];
    let bar = &bars[b];
    if bar.layer().0 == pane.layer().0 && bar.interaction() == expected.policy.interaction()
        && bar.bounds().is_positive() && rect_contains(pane.bounds(), bar.bounds())
        && rect_contains(bar.bounds(), bar.viewport()) && bar.scroll_offset()
        <= bar.maximum_scroll_offset() {
        None
    } else {
        Some(SceneBuildError::InvalidTabBarRecord { surface: ready.surface(), id: bar_id })
    }
}

/// Returns whether `root` is the main root or the root of a contained record
/// whose content has area.
fn root_is_compiled_on(ready: &PresentationPlan, main_root: Option<RootId>, root: RootId) -> (r: bool)
    ensures
        r == root_compiled_on(ready, main_root, root),
{
    if let Some(main) = main_root {
        if main == root {
            return true;
        }
    }
    let contained = ready.contained_records();
    let mut i: usize = 0;
    while i < contained.len()
        invariant
            i <= contained@.len(),
            contained@ == ready.contained_view(),
            main_root != Some(root),
            forall|j: int|
                0 <= j < i ==> !((#[trigger] contained@[j]).root() == root
                    && contained@[j].content_bounds().has_area()),
        decreases contained@.len() - i,
    {
        if contained[i].root() == root && contained[i].content_bounds().is_positive() {
            assert(ready.contained_view()[i as int].root() == root);
            return true;
        }
        i = i + 1;
    }
    false
}

/// The positions of the leaves whose roots are compiled, in leaf order.
fn compiled_positions(
    ready: &PresentationPlan,
    main_root: Option<RootId>,
    entries: &[(PaneSceneId, ExpectedPane)],
) -> (r: Vec<usize>)
    ensures
        r@.len() == compiled_entries(ready, main_root, entries@).len(),
        forall|a: int|
            0 <= a < r@.len() ==> (#[trigger] r@[a]) < entries@.len() && compiled_entries(
                ready,
                main_root,
                entries@,
            )[a] == entries@[r@[a] as int],
{
    let mut out: Vec<usize> = Vec::new();
    let mut k: usize = 0;
    while k < entries.len()
        invariant
            k <= entries@.len(),
            out@.len() == compiled_entries(ready, main_root, entries@.take(k as int)).len(),
            forall|a: int|
                0 <= a < out@.len() ==> (#[trigger] out@[a]) < k && compiled_entries(
                    ready,
                    main_root,
                    entries@.take(k as int),
                )[a] == entries@[out@[a] as int],
        decreases entries@.len() - k,
    {
        proof {
            assert(entries@.take(k + 1).drop_last() =~= entries@.take(k as int));
            assert(entries@.take(k + 1).last() == entries@[k as int]);
        }
        if root_is_compiled_on(ready, main_root, entries[k].0.root) {
            out.push(k);
        }
        k = k + 1;
    }
    assert(entries@.take(k as int) =~= entries@);
    out
}

/// Rejects a plan whose pane records are not exactly the tabs leaves of its
/// compiled roots, whose tab-bar records are not exactly the bars of its
/// visible panes, or whose bars do not hold exactly what their leaves
/// determine.
///
/// `main_root` is the surface's main root, if it has one, and `leaves` maps
/// every tabs leaf of the main root and of the surface's contained roots to
/// what the workspace determines for it; only the leaves of compiled roots
/// are expected.
pub fn validate_pane_records(
    ready: &PresentationPlan,
    main_root: Option<RootId>,
    leaves: &KeyMap<PaneSceneId, ExpectedPane>,
) -> (r: Result<(), SceneBuildError>)
    ensures
        r == match pane_records_error(ready, main_root, leaves.view_seq()) {
            Some(e) => Err(e),
            None => Ok(()),
        },
{
    let all = leaves.entries();
    let positions = compiled_positions(ready, main_root, all);
    let ghost entries = compiled_entries(ready, main_root, leaves.view_seq());
    let n = positions.len();
    let pane_keys = record_keys(ready.pane_records());
    if count_distinct(pane_keys.as_slice()) != n {
        return Err(SceneBuildError::PaneRecordSetMismatch { surface: ready.surface() });
    }
    let mut a: usize = 0;
    assert(entries.subrange(0, entries.len() as int) =~= entries);
    while a < n
        invariant
            a <= n,
            n == entries.len(),
            n == positions@.len(),
            all@ == leaves.view_seq(),
            entries == compiled_entries(ready, main_root, leaves.view_seq()),
            forall|q: int|
                0 <= q < n ==> (#[trigger] positions@[q]) < all@.len() && entries[q]
                    == all@[positions@[q] as int],
            distinct_count(semantic_keys(ready.panes_view())) == entries.len(),
            first_pane_error(ready, entries) == first_pane_error(
                ready,
                entries.subrange(a as int, entries.len() as int),
            ),
        decreases n - a,
    {
        let ghost rest = entries.subrange(a as int, entries.len() as int);
        assert(rest.drop_first() =~= entries.subrange(a + 1, entries.len() as int));
        assert(rest[0] == entries[a as int]);
        let p = positions[a];
        assert(entries[a as int] == all@[p as int]);
        if let Some(e) = pane_entry_check(ready, all[p].0, &all[p].1) {
            return Err(e);
        }
        a = a + 1;
    }
    assert(entries.subrange(a as int, entries.len() as int).len() == 0);
    if let Some(e) = strip_grouping_check(ready) {
        return Err(e);
    }
    let mut count: usize = 0;
    let mut c: usize = 0;
    while c < n
        invariant
            c <= n,
            n == entries.len(),
            n == positions@.len(),
            all@ == leaves.view_seq(),
            entries == compiled_entries(ready, main_root, leaves.view_seq()),
            forall|q: int|
                0 <= q < n ==> (#[trigger] positions@[q]) < all@.len() && entries[q]
                    == all@[positions@[q] as int],
            distinct_count(semantic_keys(ready.panes_view())) == entries.len(),
            count <= c,
            count == expected_bar_count(ready, entries.take(c as int)),
            first_pane_error(ready, entries) is None,
            strip_grouping_error(ready) is None,
        decreases n - c,
    {
        proof {
            assert(entries.take(c + 1).drop_last() =~= entries.take(c as int));
            assert(entries.take(c + 1).last() == entries[c as int]);
        }
        let p = positions[c];
        assert(entries[c as int] == all@[p as int]);
        let (shown, _) = bar_is_expected(ready, all[p].0, &all[p].1);
        if shown {
            count = count + 1;
        }
        c = c + 1;
    }
    assert(entries.take(c as int) =~= entries);
    let bar_keys = record_keys(ready.tab_bar_records());
    if count_distinct(bar_keys.as_slice()) != count {
        return Err(SceneBuildError::TabBarRecordSetMismatch { surface: ready.surface() });
    }
    let mut b: usize = 0;
    assert(entries.subrange(0, entries.len() as int) =~= entries);
    while b < n
        invariant
            b <= n,
            n == entries.len(),
            n == positions@.len(),
            all@ == leaves.view_seq(),
            entries == compiled_entries(ready, main_root, leaves.view_seq()),
            forall|q: int|
                0 <= q < n ==> (#[trigger] positions@[q]) < all@.len() && entries[q]
                    == all@[positions@[q] as int],
            distinct_count(semantic_keys(ready.panes_view())) == entries.len(),
            first_pane_error(ready, entries) is None,
            strip_grouping_error(ready) is None,
            distinct_count(semantic_keys(ready.tab_bars_view())) == expected_bar_count(ready, entries),
            first_bar_error(ready, entries) == first_bar_error(
                ready,
                entries.subrange(b as int, entries.len() as int),
            ),
        decreases n - b,
    {
        let ghost rest = entries.subrange(b as int, entries.len() as int);
        assert(rest.drop_first() =~= entries.subrange(b + 1, entries.len() as int));
        assert(rest[0] == entries[b as int]);
        let p = positions[b];
        assert(entries[b as int] == all@[p as int]);
        if let Some(e) = bar_entry_check(ready, all[p].0, &all[p].1) {
            return Err(e);
        }
        b = b + 1;
    }
    assert(entries.subrange(b as int, entries.len() as int).len() == 0);
    if tab_outside_bars_check(ready) {
        return Err(SceneBuildError::TabRecordSetMismatch { surface: ready.surface() });
    }
    let mut d: usize = 0;
    assert(entries.subrange(0, entries.len() as int) =~= entries);
    while d < n
        invariant
            d <= n,
            n == entries.len(),
            n == positions@.len(),
            all@ == leaves.view_seq(),
            entries == compiled_entries(ready, main_root, leaves.view_seq()),
            forall|q: int|
                0 <= q < n ==> (#[trigger] positions@[q]) < all@.len() && entries[q]
                    == all@[positions@[q] as int],
            distinct_count(semantic_keys(ready.panes_view())) == entries.len(),
            first_pane_error(ready, entries) is None,
            strip_grouping_error(ready) is None,
            distinct_count(semantic_keys(ready.tab_bars_view())) == expected_bar_count(ready, entries),
            first_bar_error(ready, entries) is None,
            !tab_outside_bars(ready),
            first_content_error(ready, entries) == first_content_error(
                ready,
                entries.subrange(d as int, entries.len() as int),
            ),
        decreases n - d,
    {
        let ghost rest = entries.subrange(d as int, entries.len() as int);
        assert(rest.drop_first() =~= entries.subrange(d + 1, entries.len() as int));
        assert(rest[0] == entries[d as int]);
        let p = positions[d];
        assert(entries[d as int] == all@[p as int]);
        if let Some(e) = bar_content_check(ready, all[p].0, &all[p].1) {
            return Err(e);
        }
        d = d + 1;
    }
    assert(entries.subrange(d as int, entries.len() as int).len() == 0);
    Ok(())
}

} // verus!
