//! What plans whose pane records pass validation publish: exactly one pane
//! for every tabs leaf of a compiled root, and none for any other leaf.

use vstd::prelude::*;

use crate::collections::{canonical, entry_keys, lemma_canonical_distinct, CanonicalKey};
use crate::ids::RootId;
use crate::plan::PresentationPlan;
use crate::records::tab::PaneSceneId;
use crate::records::tab::{TabBarRecord, TabBarSceneId};
use crate::validation::bar_contents::{
    bar_content_error, controls_of_bar, first_content_error, menu_of_bar, some_controls,
    tabs_of_bar,
};
use crate::validation::panes::{
    bar_entry_error, bar_expected, bar_of, bar_record_valid, compiled_entries, distinct_count,
    expected_bar_count, first_bar_error, first_pane_error, last_with_key, pane_entry_error,
    pane_records_error, root_compiled_on, ExpectedPane,
};
use crate::validation::tab_bars::{
    tab_bar_members_valid, tab_records_error, tab_strip_controls_and_menu_valid,
};
use crate::validation::{semantic_keys, SemanticRecord};

verus! {

/// The last record carrying a key exists exactly when some record carries it.
pub proof fn lemma_last_with_key_exists<R: SemanticRecord>(records: Seq<R>, key: R::Key)
    ensures
        last_with_key(records, key) is Some <==> exists|i: int|
            0 <= i < records.len() && (#[trigger] records[i]).semantic_key() == key,
    decreases records.len(),
{
    if records.len() > 0 {
        let rest = records.drop_last();
        lemma_last_with_key_exists(rest, key);
        assert forall|i: int| 0 <= i < rest.len() implies #[trigger] rest[i] == records[i] by {}
        if records.last().semantic_key() != key {
            if exists|i: int| 0 <= i < records.len() && (#[trigger] records[i]).semantic_key() == key {
                let i = choose|i: int| 0 <= i < records.len() && (#[trigger] records[i]).semantic_key() == key;
                assert(i != records.len() - 1);
                assert(rest[i] == records[i]);
            }
        } else {
            assert(records[records.len() - 1] == records.last());
        }
    }
}

proof fn lemma_panes_of_leaves(ready: &PresentationPlan, entries: Seq<(PaneSceneId, ExpectedPane)>)
    requires
        first_pane_error(ready, entries) is None,
    ensures
        forall|a: int|
            0 <= a < entries.len() ==> last_with_key(ready.panes_view(), (#[trigger] entries[a]).0) is Some,
    decreases entries.len(),
{
    if entries.len() > 0 {
        lemma_panes_of_leaves(ready, entries.drop_first());
        assert(pane_entry_error(ready, entries[0]) is None);
        assert forall|a: int| 0 <= a < entries.len() implies last_with_key(
            ready.panes_view(),
            (#[trigger] entries[a]).0,
        ) is Some by {
            if a > 0 {
                assert(entries[a] == entries.drop_first()[a - 1]);
            }
        }
    }
}

proof fn lemma_compiled_entries_members(
    ready: &PresentationPlan,
    main_root: Option<RootId>,
    leaves: Seq<(PaneSceneId, ExpectedPane)>,
)
    ensures
        forall|a: int|
            0 <= a < compiled_entries(ready, main_root, leaves).len() ==> {
                let e = #[trigger] compiled_entries(ready, main_root, leaves)[a];
                &&& leaves.contains(e)
                &&& root_compiled_on(ready, main_root, e.0.root)
            },
        forall|b: int|
            0 <= b < leaves.len() && root_compiled_on(ready, main_root, (#[trigger] leaves[b]).0.root)
                ==> compiled_entries(ready, main_root, leaves).contains(leaves[b]),
        canonical(entry_keys(leaves)) ==> canonical(entry_keys(compiled_entries(ready, main_root, leaves))),
    decreases leaves.len(),
{
    if leaves.len() > 0 {
        let rest = leaves.drop_last();
        let x = leaves.last();
        lemma_compiled_entries_members(ready, main_root, rest);
        let cr = compiled_entries(ready, main_root, rest);
        let c = compiled_entries(ready, main_root, leaves);
        assert forall|b: int| 0 <= b < rest.len() implies #[trigger] rest[b] == leaves[b] by {}
        assert forall|a: int| 0 <= a < c.len() implies {
            let e = #[trigger] c[a];
            &&& leaves.contains(e)
            &&& root_compiled_on(ready, main_root, e.0.root)
        } by {
            if a < cr.len() {
                assert(c[a] == cr[a]);
                assert(rest.contains(cr[a]));
                let b = choose|b: int| 0 <= b < rest.len() && rest[b] == cr[a];
                assert(leaves[b] == cr[a]);
            } else {
                assert(leaves[leaves.len() - 1] == x);
            }
        }
        assert forall|b: int|
            0 <= b < leaves.len() && root_compiled_on(ready, main_root, (#[trigger] leaves[b]).0.root)
                implies c.contains(leaves[b]) by {
            if b < leaves.len() - 1 {
                assert(rest[b] == leaves[b]);
                assert(cr.contains(leaves[b]));
                let a = choose|a: int| 0 <= a < cr.len() && cr[a] == leaves[b];
                assert(c[a] == cr[a]);
            } else {
                assert(leaves[b] == x);
                assert(c[cr.len() as int] == x);
            }
        }
        if canonical(entry_keys(leaves)) {
            let lk = entry_keys(leaves);
            assert(canonical(entry_keys(rest))) by {
                assert forall|i: int, j: int| 0 <= i < j < entry_keys(rest).len() implies (#[trigger] entry_keys(
                    rest,
                )[i]).key_lt(#[trigger] entry_keys(rest)[j]) by {
                    assert(entry_keys(rest)[i] == lk[i] && entry_keys(rest)[j] == lk[j]);
                }
            }
            let ck = entry_keys(c);
            assert forall|i: int, j: int| 0 <= i < j < ck.len() implies (#[trigger] ck[i]).key_lt(
                #[trigger] ck[j],
            ) by {
                if j < cr.len() {
                    assert(ck[i] == entry_keys(cr)[i] && ck[j] == entry_keys(cr)[j]);
                } else {
                    assert(c[i] == cr[i]);
                    assert(rest.contains(cr[i]));
                    let b = choose|b: int| 0 <= b < rest.len() && rest[b] == cr[i];
                    assert(lk[b] == ck[i]);
                    assert(lk[leaves.len() - 1] == x.0);
                    assert(ck[j] == x.0);
                }
            }
        }
    } else {
        assert(compiled_entries(ready, main_root, leaves) =~= Seq::<(PaneSceneId, ExpectedPane)>::empty());
    }
}

/// A plan whose pane records pass validation publishes a pane exactly for
/// every leaf of a compiled root: the main root, or a contained root whose
/// content has area.
pub proof fn lemma_validated_panes_are_compiled_leaves(
    ready: &PresentationPlan,
    main_root: Option<RootId>,
    leaves: Seq<(PaneSceneId, ExpectedPane)>,
    id: PaneSceneId,
)
    requires
        canonical(entry_keys(leaves)),
        pane_records_error(ready, main_root, leaves) is None,
    ensures
        (exists|i: int| 0 <= i < ready.panes_view().len() && (#[trigger] ready.panes_view()[i]).id() == id)
            <==> (exists|b: int| 0 <= b < leaves.len() && (#[trigger] leaves[b]).0 == id)
            && root_compiled_on(ready, main_root, id.root),
{
    broadcast use vstd::set_lib::group_set_properties;
    broadcast use vstd::seq_lib::seq_to_set_is_finite;

    let entries = compiled_entries(ready, main_root, leaves);
    let panes = ready.panes_view();
    lemma_compiled_entries_members(ready, main_root, leaves);
    lemma_panes_of_leaves(ready, entries);
    let keys = entry_keys(entries);
    let held = semantic_keys(panes).to_set();
    assert(keys.no_duplicates()) by {
        assert forall|i: int, j: int| 0 <= i < keys.len() && 0 <= j < keys.len() && i != j implies keys[i]
            != keys[j] by {
            lemma_canonical_distinct(keys, i, j);
        }
    }
    keys.unique_seq_to_set();
    assert(keys.to_set().subset_of(held)) by {
        assert forall|k: PaneSceneId| keys.to_set().contains(k) implies held.contains(k) by {
            let a = choose|a: int| 0 <= a < keys.len() && keys[a] == k;
            assert(keys[a] == entries[a].0);
            assert(last_with_key(panes, entries[a].0) is Some);
            lemma_last_with_key_exists(panes, k);
            let i = choose|i: int| 0 <= i < panes.len() && (#[trigger] panes[i]).semantic_key() == k;
            assert(semantic_keys(panes)[i] == k);
        }
    }
    vstd::set_lib::lemma_subset_equality(keys.to_set(), held);
    if exists|i: int| 0 <= i < panes.len() && (#[trigger] panes[i]).id() == id {
        let i = choose|i: int| 0 <= i < panes.len() && (#[trigger] panes[i]).id() == id;
        assert(semantic_keys(panes)[i] == id);
        assert(held.contains(id));
        assert(keys.to_set().contains(id));
        let a = choose|a: int| 0 <= a < keys.len() && keys[a] == id;
        assert(keys[a] == entries[a].0);
        assert(leaves.contains(entries[a]));
        let b = choose|b: int| 0 <= b < leaves.len() && leaves[b] == entries[a];
        assert(leaves[b].0 == id);
    }
    if (exists|b: int| 0 <= b < leaves.len() && (#[trigger] leaves[b]).0 == id) && root_compiled_on(
        ready,
        main_root,
        id.root,
    ) {
        let b = choose|b: int| 0 <= b < leaves.len() && (#[trigger] leaves[b]).0 == id;
        assert(entries.contains(leaves[b]));
        let a = choose|a: int| 0 <= a < entries.len() && entries[a] == leaves[b];
        assert(keys[a] == id);
        assert(held.contains(id));
        let i = choose|i: int| 0 <= i < semantic_keys(panes).len() && semantic_keys(panes)[i] == id;
        assert(panes[i].semantic_key() == id);
    }
}

/// In a plan whose pane records pass validation, a contained root that is
/// not the main root, belongs to one contained record, and has a tabs leaf
/// publishes panes exactly when that record's content has area.
pub proof fn lemma_contained_root_panes_follow_content(
    ready: &PresentationPlan,
    main_root: Option<RootId>,
    leaves: Seq<(PaneSceneId, ExpectedPane)>,
    k: int,
    leaf: PaneSceneId,
)
    requires
        canonical(entry_keys(leaves)),
        pane_records_error(ready, main_root, leaves) is None,
        0 <= k < ready.contained_view().len(),
        exists|b: int| 0 <= b < leaves.len() && (#[trigger] leaves[b]).0 == leaf,
        leaf.root == ready.contained_view()[k].root(),
        main_root != Some(leaf.root),
        forall|j: int|
            0 <= j < ready.contained_view().len() && j != k ==> (#[trigger] ready.contained_view()[j]).root()
                != leaf.root,
    ensures
        (exists|i: int|
            0 <= i < ready.panes_view().len() && (#[trigger] ready.panes_view()[i]).id().root == leaf.root)
            <==> ready.contained_view()[k].content_bounds().has_area(),
{
    let panes = ready.panes_view();
    let contained = ready.contained_view();
    if contained[k].content_bounds().has_area() {
        assert(root_compiled_on(ready, main_root, leaf.root));
        lemma_validated_panes_are_compiled_leaves(ready, main_root, leaves, leaf);
        let i = choose|i: int| 0 <= i < panes.len() && (#[trigger] panes[i]).id() == leaf;
        assert(panes[i].id().root == leaf.root);
    }
    if exists|i: int| 0 <= i < panes.len() && (#[trigger] panes[i]).id().root == leaf.root {
        let i = choose|i: int| 0 <= i < panes.len() && (#[trigger] panes[i]).id().root == leaf.root;
        lemma_validated_panes_are_compiled_leaves(ready, main_root, leaves, panes[i].id());
        assert(root_compiled_on(ready, main_root, leaf.root));
        let j = choose|j: int|
            0 <= j < contained.len() && (#[trigger] contained[j]).root() == leaf.root
                && contained[j].content_bounds().has_area();
        assert(j == k);
    }
}

/// A record whose key no other record carries is the last record of its key.
pub proof fn lemma_last_with_unique_key<R: SemanticRecord>(records: Seq<R>, i: int)
    requires
        0 <= i < records.len(),
        forall|j: int|
            0 <= j < records.len() && j != i ==> (#[trigger] records[j]).semantic_key()
                != records[i].semantic_key(),
    ensures
        last_with_key(records, records[i].semantic_key()) == Some(records[i]),
    decreases records.len(),
{
    if i < records.len() - 1 {
        let rest = records.drop_last();
        assert forall|j: int| 0 <= j < rest.len() && j != i implies (#[trigger] rest[j]).semantic_key()
            != rest[i].semantic_key() by {
            assert(rest[j] == records[j]);
        }
        assert(records[records.len() - 1] == records.last());
        lemma_last_with_unique_key(rest, i);
        assert(rest[i] == records[i]);
    }
}

/// The bars shown by the leaves of `entries`, in leaf order.
pub open spec fn shown_bars(ready: &PresentationPlan, entries: Seq<(PaneSceneId, ExpectedPane)>) -> Seq<
    TabBarSceneId,
>
    decreases entries.len(),
{
    if entries.len() == 0 {
        Seq::empty()
    } else if bar_expected(ready, entries.last()) {
        shown_bars(ready, entries.drop_last()).push(bar_of(entries.last().0))
    } else {
        shown_bars(ready, entries.drop_last())
    }
}

proof fn lemma_shown_bars(ready: &PresentationPlan, entries: Seq<(PaneSceneId, ExpectedPane)>)
    ensures
        shown_bars(ready, entries).len() == expected_bar_count(ready, entries),
        forall|a: int|
            0 <= a < shown_bars(ready, entries).len() ==> exists|c: int|
                0 <= c < entries.len() && bar_expected(ready, entries[c]) && bar_of(entries[c].0)
                    == #[trigger] shown_bars(ready, entries)[a],
        forall|c: int|
            0 <= c < entries.len() && bar_expected(ready, #[trigger] entries[c]) ==> shown_bars(
                ready,
                entries,
            ).contains(bar_of(entries[c].0)),
        canonical(entry_keys(entries)) ==> canonical(shown_bars(ready, entries)),
    decreases entries.len(),
{
    if entries.len() > 0 {
        let rest = entries.drop_last();
        let x = entries.last();
        lemma_shown_bars(ready, rest);
        let sr = shown_bars(ready, rest);
        let sb = shown_bars(ready, entries);
        assert forall|c: int| 0 <= c < rest.len() implies #[trigger] rest[c] == entries[c] by {}
        assert(entries[entries.len() - 1] == x);
        assert forall|a: int| 0 <= a < sb.len() implies exists|c: int|
            0 <= c < entries.len() && bar_expected(ready, entries[c]) && bar_of(entries[c].0)
                == #[trigger] sb[a] by {
            if a < sr.len() {
                assert(sb[a] == sr[a]);
                let c = choose|c: int|
                    0 <= c < rest.len() && bar_expected(ready, rest[c]) && bar_of(rest[c].0) == sr[a];
                assert(entries[c] == rest[c]);
            } else {
                assert(bar_of(entries[entries.len() - 1].0) == sb[a]);
            }
        }
        assert forall|c: int|
            0 <= c < entries.len() && bar_expected(ready, #[trigger] entries[c]) implies sb.contains(
                bar_of(entries[c].0),
            ) by {
            if c < rest.len() {
                assert(rest[c] == entries[c]);
                assert(sr.contains(bar_of(rest[c].0)));
                let a = choose|a: int| 0 <= a < sr.len() && sr[a] == bar_of(rest[c].0);
                assert(sb[a] == sr[a]);
            } else {
                assert(sb[sr.len() as int] == bar_of(x.0));
            }
        }
        if canonical(entry_keys(entries)) {
            let ek = entry_keys(entries);
            assert(canonical(entry_keys(rest))) by {
                assert forall|i: int, j: int| 0 <= i < j < entry_keys(rest).len() implies (#[trigger] entry_keys(
                    rest,
                )[i]).key_lt(#[trigger] entry_keys(rest)[j]) by {
                    assert(entry_keys(rest)[i] == ek[i] && entry_keys(rest)[j] == ek[j]);
                }
            }
            assert forall|i: int, j: int| 0 <= i < j < sb.len() implies (#[trigger] sb[i]).key_lt(#[trigger] sb[j]) by {
                if j < sr.len() {
                    assert(sb[i] == sr[i] && sb[j] == sr[j]);
                } else {
                    assert(sb[i] == sr[i]);
                    let c = choose|c: int|
                        0 <= c < rest.len() && bar_expected(ready, rest[c]) && bar_of(rest[c].0) == sr[i];
                    assert(ek[c] == rest[c].0);
                    assert(ek[entries.len() - 1] == x.0);
                }
            }
        }
    }
}

proof fn lemma_bars_of_leaves(ready: &PresentationPlan, entries: Seq<(PaneSceneId, ExpectedPane)>)
    requires
        first_bar_error(ready, entries) is None,
        first_content_error(ready, entries) is None,
    ensures
        forall|c: int|
            0 <= c < entries.len() ==> bar_entry_error(ready, #[trigger] entries[c]) is None
                && bar_content_error(ready, entries[c]) is None,
    decreases entries.len(),
{
    if entries.len() > 0 {
        lemma_bars_of_leaves(ready, entries.drop_first());
        assert forall|c: int| 0 <= c < entries.len() implies bar_entry_error(ready, #[trigger] entries[c])
            is None && bar_content_error(ready, entries[c]) is None by {
            if c > 0 {
                assert(entries[c] == entries.drop_first()[c - 1]);
            }
        }
    }
}

/// In a plan whose pane and tab records pass validation, every tab bar
/// whose identity no other bar repeats is the bar shown by one leaf of a
/// compiled root: it agrees with that leaf's pane and policy, its grip,
/// hidden items, and strip members follow the leaf's items and the bar's
/// tab records, its controls and menu are valid, and its tab records are.
pub proof fn lemma_validated_bars_hold_their_leaves(
    ready: &PresentationPlan,
    main_root: Option<RootId>,
    leaves: Seq<(PaneSceneId, ExpectedPane)>,
    i: int,
)
    requires
        canonical(entry_keys(leaves)),
        pane_records_error(ready, main_root, leaves) is None,
        0 <= i < ready.tab_bars_view().len(),
        forall|j: int|
            0 <= j < ready.tab_bars_view().len() && j != i ==> (#[trigger] ready.tab_bars_view()[j]).spec_id()
                != ready.tab_bars_view()[i].spec_id(),
    ensures
        exists|c: int|
            #![trigger compiled_entries(ready, main_root, leaves)[c]]
            {
                let e = compiled_entries(ready, main_root, leaves)[c];
                let bar = ready.tab_bars_view()[i];
                let id = bar.spec_id();
                &&& 0 <= c < compiled_entries(ready, main_root, leaves).len()
                &&& leaves.contains(e)
                &&& root_compiled_on(ready, main_root, e.0.root)
                &&& bar_of(e.0) == id
                &&& bar_expected(ready, e)
                &&& bar_record_valid(last_with_key(ready.panes_view(), e.0).unwrap(), e.1.policy, bar)
                &&& tab_bar_members_valid(bar, e.1.items@, tabs_of_bar(ready.tabs_view(), id))
                &&& tab_strip_controls_and_menu_valid(
                    ready,
                    bar,
                    e.1.items@,
                    e.1.selected,
                    some_controls(controls_of_bar(ready.controls_view(), id)),
                    menu_of_bar(ready.menus_view(), id),
                )
                &&& tab_records_error(
                    ready,
                    bar,
                    e.1.items@,
                    e.1.selected,
                    e.1.closable.view_seq(),
                    tabs_of_bar(ready.tabs_view(), id),
                ) is None
            },
{
    broadcast use vstd::set_lib::group_set_properties;
    broadcast use vstd::seq_lib::seq_to_set_is_finite;

    let entries = compiled_entries(ready, main_root, leaves);
    let bars = ready.tab_bars_view();
    lemma_compiled_entries_members(ready, main_root, leaves);
    lemma_shown_bars(ready, entries);
    lemma_bars_of_leaves(ready, entries);
    let shown = shown_bars(ready, entries);
    let held = semantic_keys(bars).to_set();
    assert(shown.no_duplicates()) by {
        assert forall|a: int, b: int| 0 <= a < shown.len() && 0 <= b < shown.len() && a != b implies shown[a]
            != shown[b] by {
            lemma_canonical_distinct(shown, a, b);
        }
    }
    shown.unique_seq_to_set();
    assert(shown.to_set().subset_of(held)) by {
        assert forall|k: TabBarSceneId| shown.to_set().contains(k) implies held.contains(k) by {
            let a = choose|a: int| 0 <= a < shown.len() && shown[a] == k;
            let c = choose|c: int|
                0 <= c < entries.len() && bar_expected(ready, entries[c]) && bar_of(entries[c].0)
                    == #[trigger] shown[a];
            assert(bar_entry_error(ready, entries[c]) is None);
            lemma_last_with_key_exists(bars, k);
            let j = choose|j: int| 0 <= j < bars.len() && (#[trigger] bars[j]).semantic_key() == k;
            assert(semantic_keys(bars)[j] == k);
        }
    }
    vstd::set_lib::lemma_subset_equality(shown.to_set(), held);
    let id = bars[i].spec_id();
    assert(semantic_keys(bars)[i] == id);
    assert(held.contains(id));
    assert(shown.to_set().contains(id));
    let a = choose|a: int| 0 <= a < shown.len() && shown[a] == id;
    let c = choose|c: int|
        0 <= c < entries.len() && bar_expected(ready, entries[c]) && bar_of(entries[c].0)
            == #[trigger] shown[a];
    lemma_last_with_unique_key(bars, i);
    assert(bar_entry_error(ready, entries[c]) is None);
    assert(bar_content_error(ready, entries[c]) is None);
}

} // verus!
