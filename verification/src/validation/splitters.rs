//! The splitter records a plan must publish: one gap record for every gap of
//! every compiled split node, one draw/hit record for every rendered gap, and
//! per record the geometry, resize constraints, layer, and operability the
//! split tree and the plan's occlusions determine.

use vstd::prelude::*;

use crate::collections::KeySet;
use crate::geometry::LogicalRect;
use crate::ids::{NodeId, RootId, SceneLayerKey};
use crate::occlusion::{has_authoritative_area, region_has_authoritative_area};
use crate::plan::PresentationPlan;
use crate::records::splitter::{
    lemma_splitter_id_order, lemma_weight_sum_prefix, splitter_id_less, splitter_id_lt, weight_sum,
    Axis, SplitterGapPresentation, SPLIT_WEIGHT_TOLERANCE, SPLIT_WEIGHT_WHOLE,
    SplitterGapRecord, SplitterRecord, SplitterSceneId,
};
use crate::validation::junctions::{junction_records_error, validate_splitter_junction_records};
use crate::validation::tab_bars::{rect_contains, rect_within};
use crate::validation::SceneBuildError;

verus! {

/// One split node of the workspace, as the plain values splitter validation
/// reads: its owning root, its identity, its axis, its number of direct
/// children, and the layer on which its root's semantic records stand.
#[derive(Debug, Clone, Copy, PartialEq, Eq, Structural)]
pub struct IndexedSplit {
    /// Root owning the split node.
    pub root: RootId,
    /// The split node.
    pub split: NodeId,
    /// Axis along which the children are laid out.
    pub axis: Axis,
    /// Number of direct children.
    pub children: usize,
    /// Layer of the owning root's semantic records.
    pub layer: SceneLayerKey,
}

/// Some pane record of the plan presents `root`.
pub open spec fn root_compiled(ready: &PresentationPlan, root: RootId) -> bool {
    exists|i: int|
        0 <= i < ready.panes_view().len() && (#[trigger] ready.panes_view()[i]).id().root == root
}

/// The gap of split `s` before child `index + 1`.
pub open spec fn gap_of(s: IndexedSplit, index: usize) -> SplitterSceneId {
    SplitterSceneId { root: s.root, split: s.split, index }
}

/// `id` names a gap between two adjacent children of split `s`.
pub open spec fn split_gap(s: IndexedSplit, id: SplitterSceneId) -> bool {
    &&& s.root == id.root
    &&& s.split == id.split
    &&& id.index + 1 < s.children
}

/// `id` names a gap of a split node of a compiled root.
pub open spec fn expected_gap(
    ready: &PresentationPlan,
    splits: Seq<IndexedSplit>,
    id: SplitterSceneId,
) -> bool {
    &&& root_compiled(ready, id.root)
    &&& exists|k: int| 0 <= k < splits.len() && #[trigger] split_gap(splits[k], id)
}

/// Some gap record carries `id`.
pub open spec fn gap_recorded(gaps: Seq<SplitterGapRecord>, id: SplitterSceneId) -> bool {
    exists|i: int| 0 <= i < gaps.len() && (#[trigger] gaps[i]).id() == id
}

/// The gap records name exactly the gaps of the compiled split nodes.
pub open spec fn gap_set_matches(ready: &PresentationPlan, splits: Seq<IndexedSplit>) -> bool {
    forall|id: SplitterSceneId|
        #![trigger gap_recorded(ready.gaps_view(), id)]
        #![trigger expected_gap(ready, splits, id)]
        gap_recorded(ready.gaps_view(), id) <==> expected_gap(ready, splits, id)
}

/// No later gap record carries the identity of the one at `i`.
pub open spec fn last_gap_at(gaps: Seq<SplitterGapRecord>, i: int) -> bool {
    &&& 0 <= i < gaps.len()
    &&& forall|j: int| i < j < gaps.len() ==> (#[trigger] gaps[j]).id() != gaps[i].id()
}

/// The last gap record carrying `id` presents it as rendered.
pub open spec fn gap_rendered(gaps: Seq<SplitterGapRecord>, id: SplitterSceneId) -> bool {
    exists|i: int|
        #[trigger] last_gap_at(gaps, i) && gaps[i].id() == id && gaps[i].presentation()
            == SplitterGapPresentation::Rendered
}

/// Some splitter record carries `id`.
pub open spec fn splitter_recorded(records: Seq<SplitterRecord>, id: SplitterSceneId) -> bool {
    exists|i: int| 0 <= i < records.len() && (#[trigger] records[i]).spec_id() == id
}

/// The splitter records name exactly the rendered gaps.
pub open spec fn splitter_set_matches(ready: &PresentationPlan) -> bool {
    forall|id: SplitterSceneId|
        #![trigger splitter_recorded(ready.splitters_view(), id)]
        #![trigger gap_rendered(ready.gaps_view(), id)]
        splitter_recorded(ready.splitters_view(), id) <==> gap_rendered(ready.gaps_view(), id)
}

/// Split `s` is the node named by `id`.
pub open spec fn split_matches(s: IndexedSplit, id: SplitterSceneId) -> bool {
    s.root == id.root && s.split == id.split
}

/// `k` is the first position of the split node named by `id`.
pub open spec fn first_split_at(splits: Seq<IndexedSplit>, id: SplitterSceneId, k: int) -> bool {
    &&& 0 <= k < splits.len()
    &&& split_matches(splits[k], id)
    &&& forall|m: int| 0 <= m < k ==> !split_matches(#[trigger] splits[m], id)
}

/// The extent at `i` exists and lies within its constraints, which are ordered.
pub open spec fn extent_within(extents: Seq<u32>, i: int, minimum: u32, maximum: u32) -> bool {
    &&& 0 <= i < extents.len()
    &&& minimum <= maximum
    &&& minimum <= extents[i] <= maximum
}

/// The record's geometry and resize facts agree with split `s` inside a plan
/// of the given bounds: the gap exists, the axis matches, there is one
/// positive weight per child and the weights sum to one whole within the
/// tolerance, one extent per child, both painted and hit regions have
/// area, the hit lies in the plan, the painted region in the hit, both adjacent
/// children in the plan, both adjacent extents within their constraints, and
/// the central child, if any, is a child of `s`.
pub open spec fn splitter_shape_valid(bounds: LogicalRect, s: IndexedSplit, r: SplitterRecord) -> bool {
    let id = r.spec_id();
    &&& id.index + 1 < s.children
    &&& r.axis() == s.axis
    &&& r.weights_view().len() == s.children
    &&& forall|w: int| 0 <= w < r.weights_view().len() ==> (#[trigger] r.weights_view()[w]).0 > 0
    &&& SPLIT_WEIGHT_WHOLE - SPLIT_WEIGHT_TOLERANCE <= weight_sum(r.weights_view())
        <= SPLIT_WEIGHT_WHOLE + SPLIT_WEIGHT_TOLERANCE
    &&& r.draw_bounds().has_area()
    &&& r.hit().rect.has_area()
    &&& rect_within(bounds, r.hit().rect)
    &&& rect_within(r.hit().rect, r.draw_bounds())
    &&& rect_within(bounds, r.before_bounds())
    &&& rect_within(bounds, r.after_bounds())
    &&& extent_within(
        r.child_extents_view(),
        id.index as int,
        r.before_minimum_extent(),
        r.before_maximum_extent(),
    )
    &&& extent_within(
        r.child_extents_view(),
        id.index + 1,
        r.after_minimum_extent(),
        r.after_maximum_extent(),
    )
    &&& r.child_extents_view().len() == s.children
    &&& match r.central_index() {
        Some(c) => c < s.children,
        None => true,
    }
}

/// How one splitter record fails: its split node is unknown or its shape
/// disagrees with it, it stands on a layer other than its root's, or its
/// operability differs from "resizing along its axis is allowed and its hit
/// region keeps authoritative area".
pub open spec fn splitter_record_error(
    ready: &PresentationPlan,
    splits: Seq<IndexedSplit>,
    allowed: Seq<Axis>,
    r: SplitterRecord,
) -> Option<SceneBuildError> {
    let id = r.spec_id();
    let invalid = Some(SceneBuildError::InvalidSplitterRecord { surface: ready.surface(), id });
    if !(exists|k: int| first_split_at(splits, id, k)) {
        invalid
    } else {
        let s = splits[choose|k: int| first_split_at(splits, id, k)];
        if !splitter_shape_valid(ready.bounds(), s, r) {
            invalid
        } else if r.layer() != s.layer {
            Some(
                SceneBuildError::SemanticLayerMismatch {
                    surface: ready.surface(),
                    root: id.root,
                    expected: s.layer,
                    actual: r.layer(),
                },
            )
        } else if r.operable() != (allowed.contains(r.axis()) && has_authoritative_area(
            r.hit().rect,
            r.layer(),
            ready.occlusions_view(),
        )) {
            invalid
        } else {
            None
        }
    }
}

/// No later splitter record carries the identity of the one at `i`.
pub open spec fn last_splitter_at(records: Seq<SplitterRecord>, i: int) -> bool {
    &&& 0 <= i < records.len()
    &&& forall|j: int| i < j < records.len() ==> (#[trigger] records[j]).spec_id() != records[i].spec_id()
}

/// The last splitter record of its identity, at `i`, fails.
pub open spec fn failing_splitter_at(
    ready: &PresentationPlan,
    splits: Seq<IndexedSplit>,
    allowed: Seq<Axis>,
    i: int,
) -> bool {
    &&& last_splitter_at(ready.splitters_view(), i)
    &&& splitter_record_error(ready, splits, allowed, ready.splitters_view()[i]) is Some
}

/// The failing splitter record at `i` has the least identity of all failing ones.
pub open spec fn least_failing_splitter_at(
    ready: &PresentationPlan,
    splits: Seq<IndexedSplit>,
    allowed: Seq<Axis>,
    i: int,
) -> bool {
    &&& failing_splitter_at(ready, splits, allowed, i)
    &&& forall|j: int|
        #[trigger] failing_splitter_at(ready, splits, allowed, j) ==> !splitter_id_lt(
            ready.splitters_view()[j].spec_id(),
            ready.splitters_view()[i].spec_id(),
        )
}

/// How the plan's splitter records fail: first a gap inventory that is not
/// exactly the gaps of the compiled split nodes, then splitter records that
/// are not exactly the rendered gaps, then the failing record of least
/// identity, and last the junction records.
pub open spec fn splitter_records_error(
    ready: &PresentationPlan,
    splits: Seq<IndexedSplit>,
    allowed: Seq<Axis>,
) -> Option<SceneBuildError> {
    if !gap_set_matches(ready, splits) {
        Some(SceneBuildError::SplitterGapRecordSetMismatch { surface: ready.surface() })
    } else if !splitter_set_matches(ready) {
        Some(SceneBuildError::SplitterRecordSetMismatch { surface: ready.surface() })
    } else if exists|i: int| least_failing_splitter_at(ready, splits, allowed, i) {
        splitter_record_error(
            ready,
            splits,
            allowed,
            ready.splitters_view()[choose|i: int| least_failing_splitter_at(ready, splits, allowed, i)],
        )
    } else {
        junction_records_error(ready)
    }
}

/// Returns whether some pane record of the plan presents `root`.
fn root_is_compiled(ready: &PresentationPlan, root: RootId) -> (r: bool)
    ensures
        r == root_compiled(ready, root),
{
    let panes = ready.pane_records();
    let mut i: usize = 0;
    while i < panes.len()
        invariant
            i <= panes@.len(),
            panes@ == ready.panes_view(),
            forall|j: int| 0 <= j < i ==> (#[trigger] panes@[j]).id().root != root,
        decreases panes@.len() - i,
    {
        if panes[i].id().root == root {
            assert(ready.panes_view()[i as int].id().root == root);
            return true;
        }
        i = i + 1;
    }
    false
}

/// Returns whether `id` names a gap of a split node of a compiled root.
fn gap_is_expected(ready: &PresentationPlan, splits: &[IndexedSplit], id: SplitterSceneId) -> (r:
    bool)
    ensures
        r == expected_gap(ready, splits@, id),
{
    if !root_is_compiled(ready, id.root) {
        return false;
    }
    let mut k: usize = 0;
    while k < splits.len()
        invariant
            k <= splits@.len(),
            root_compiled(ready, id.root),
            forall|m: int| 0 <= m < k ==> !split_gap(#[trigger] splits@[m], id),
        decreases splits@.len() - k,
    {
        let s = splits[k];
        if s.root == id.root && s.split == id.split && s.children > 0 && id.index < s.children - 1 {
            assert(split_gap(splits@[k as int], id));
            return true;
        }
        k = k + 1;
    }
    false
}

/// Returns whether some gap record carries `id`.
fn gap_is_recorded(gaps: &[SplitterGapRecord], id: SplitterSceneId) -> (r: bool)
    ensures
        r == gap_recorded(gaps@, id),
{
    let mut i: usize = 0;
    while i < gaps.len()
        invariant
            i <= gaps@.len(),
            forall|j: int| 0 <= j < i ==> (#[trigger] gaps@[j]).id() != id,
        decreases gaps@.len() - i,
    {
        if gaps[i].id() == id {
            assert(gaps@[i as int].id() == id);
            return true;
        }
        i = i + 1;
    }
    false
}

/// Every gap of split `s` has a gap record.
pub open spec fn split_gaps_recorded(gaps: Seq<SplitterGapRecord>, s: IndexedSplit) -> bool {
    forall|x: usize| x + 1 < s.children ==> #[trigger] gap_recorded(gaps, gap_of(s, x))
}

/// Returns whether every gap of split `s` has a gap record.
fn split_gaps_are_recorded(gaps: &[SplitterGapRecord], s: IndexedSplit) -> (r: bool)
    ensures
        r == split_gaps_recorded(gaps@, s),
{
    if s.children == 0 {
        return true;
    }
    let mut index: usize = 0;
    while index < s.children - 1
        invariant
            s.children > 0,
            index <= s.children - 1,
            forall|x: usize| x < index ==> #[trigger] gap_recorded(gaps@, gap_of(s, x)),
        decreases s.children - 1 - index,
    {
        if !gap_is_recorded(gaps, SplitterSceneId { root: s.root, split: s.split, index }) {
            assert(!gap_recorded(gaps@, gap_of(s, index)));
            return false;
        }
        index = index + 1;
    }
    true
}

/// Returns whether the gap records name exactly the gaps of the compiled
/// split nodes.
fn gap_inventory_matches(ready: &PresentationPlan, splits: &[IndexedSplit]) -> (r: bool)
    ensures
        r == gap_set_matches(ready, splits@),
{
    let gaps = ready.splitter_gap_records();
    let mut i: usize = 0;
    while i < gaps.len()
        invariant
            i <= gaps@.len(),
            gaps@ == ready.gaps_view(),
            forall|j: int| 0 <= j < i ==> expected_gap(ready, splits@, (#[trigger] gaps@[j]).id()),
        decreases gaps@.len() - i,
    {
        if !gap_is_expected(ready, splits, gaps[i].id()) {
            assert(gap_recorded(ready.gaps_view(), gaps@[i as int].id()));
            return false;
        }
        i = i + 1;
    }
    let mut k: usize = 0;
    while k < splits.len()
        invariant
            k <= splits@.len(),
            gaps@ == ready.gaps_view(),
            forall|m: int|
                0 <= m < k && root_compiled(ready, splits@[m].root) ==> split_gaps_recorded(
                    gaps@,
                    #[trigger] splits@[m],
                ),
        decreases splits@.len() - k,
    {
        let s = splits[k];
        if root_is_compiled(ready, s.root) && !split_gaps_are_recorded(gaps, s) {
            proof {
                let x = choose|x: usize| x + 1 < s.children && !gap_recorded(gaps@, gap_of(s, x));
                assert(split_gap(splits@[k as int], gap_of(s, x)));
                assert(expected_gap(ready, splits@, gap_of(s, x)));
            }
            return false;
        }
        k = k + 1;
    }
    proof {
        assert forall|id: SplitterSceneId|
            gap_recorded(ready.gaps_view(), id) <==> expected_gap(ready, splits@, id) by {
            if gap_recorded(ready.gaps_view(), id) {
                let j = choose|j: int| 0 <= j < gaps@.len() && (#[trigger] gaps@[j]).id() == id;
                assert(expected_gap(ready, splits@, gaps@[j].id()));
            }
            if expected_gap(ready, splits@, id) {
                let m = choose|m: int| 0 <= m < splits@.len() && #[trigger] split_gap(splits@[m], id);
                assert(split_gaps_recorded(gaps@, splits@[m]));
                assert(gap_of(splits@[m], id.index) == id);
                assert(gap_recorded(gaps@, gap_of(splits@[m], id.index)));
            }
        }
    }
    true
}

/// Returns whether the last gap record carrying `id` presents it as rendered.
fn gap_is_rendered(gaps: &[SplitterGapRecord], id: SplitterSceneId) -> (r: bool)
    ensures
        r == gap_rendered(gaps@, id),
{
    let mut i: usize = gaps.len();
    while i > 0
        invariant
            i <= gaps@.len(),
            forall|j: int| i <= j < gaps@.len() ==> (#[trigger] gaps@[j]).id() != id,
        decreases i,
    {
        i = i - 1;
        if gaps[i].id() == id {
            let rendered = match gaps[i].presentation() {
                SplitterGapPresentation::Rendered => true,
                SplitterGapPresentation::Collapsed => false,
            };
            proof {
                assert(last_gap_at(gaps@, i as int));
                assert forall|k: int| #[trigger]
                    last_gap_at(gaps@, k) && gaps@[k].id() == id implies k == i by {
                    if k < i {
                        assert(gaps@[i as int].id() != gaps@[k].id());
                    }
                }
            }
            return rendered;
        }
    }
    false
}

/// Returns whether some splitter record carries `id`.
fn splitter_is_recorded(records: &[SplitterRecord], id: SplitterSceneId) -> (r: bool)
    ensures
        r == splitter_recorded(records@, id),
{
    let mut i: usize = 0;
    while i < records.len()
        invariant
            i <= records@.len(),
            forall|j: int| 0 <= j < i ==> (#[trigger] records@[j]).spec_id() != id,
        decreases records@.len() - i,
    {
        if *records[i].id() == id {
            assert(records@[i as int].spec_id() == id);
            return true;
        }
        i = i + 1;
    }
    false
}

/// Returns whether the splitter records name exactly the rendered gaps.
fn rendered_inventory_matches(ready: &PresentationPlan) -> (r: bool)
    ensures
        r == splitter_set_matches(ready),
{
    let gaps = ready.splitter_gap_records();
    let records = ready.splitter_records();
    let mut i: usize = 0;
    while i < records.len()
        invariant
            i <= records@.len(),
            gaps@ == ready.gaps_view(),
            records@ == ready.splitters_view(),
            forall|j: int| 0 <= j < i ==> gap_rendered(gaps@, (#[trigger] records@[j]).spec_id()),
        decreases records@.len() - i,
    {
        if !gap_is_rendered(gaps, *records[i].id()) {
            assert(splitter_recorded(ready.splitters_view(), records@[i as int].spec_id()));
            return false;
        }
        i = i + 1;
    }
    let mut g: usize = 0;
    while g < gaps.len()
        invariant
            g <= gaps@.len(),
            gaps@ == ready.gaps_view(),
            records@ == ready.splitters_view(),
            forall|j: int|
                0 <= j < g && gap_rendered(gaps@, (#[trigger] gaps@[j]).id()) ==> splitter_recorded(
                    records@,
                    gaps@[j].id(),
                ),
        decreases gaps@.len() - g,
    {
        let id = gaps[g].id();
        if gap_is_rendered(gaps, id) && !splitter_is_recorded(records, id) {
            return false;
        }
        g = g + 1;
    }
    proof {
        assert forall|id: SplitterSceneId|
            splitter_recorded(ready.splitters_view(), id) <==> gap_rendered(ready.gaps_view(), id) by {
            if splitter_recorded(ready.splitters_view(), id) {
                let j = choose|j: int| 0 <= j < records@.len() && (#[trigger] records@[j]).spec_id() == id;
                assert(gap_rendered(gaps@, records@[j].spec_id()));
            }
            if gap_rendered(ready.gaps_view(), id) {
                let j = choose|j: int|
                    #[trigger] last_gap_at(gaps@, j) && gaps@[j].id() == id && gaps@[j].presentation()
                        == SplitterGapPresentation::Rendered;
                assert(gap_rendered(gaps@, gaps@[j].id()));
            }
        }
    }
    true
}

/// Returns the first position of the split node named by `id`, if any.
fn find_split(splits: &[IndexedSplit], id: SplitterSceneId) -> (r: Option<usize>)
    ensures
        match r {
            Some(k) => first_split_at(splits@, id, k as int),
            None => forall|m: int| 0 <= m < splits@.len() ==> !split_matches(#[trigger] splits@[m], id),
        },
{
    let mut k: usize = 0;
    while k < splits.len()
        invariant
            k <= splits@.len(),
            forall|m: int| 0 <= m < k ==> !split_matches(#[trigger] splits@[m], id),
        decreases splits@.len() - k,
    {
        if splits[k].root == id.root && splits[k].split == id.split {
            return Some(k);
        }
        k = k + 1;
    }
    None
}

proof fn lemma_first_split_unique(splits: Seq<IndexedSplit>, id: SplitterSceneId, k: int)
    requires
        first_split_at(splits, id, k),
    ensures
        (choose|c: int| first_split_at(splits, id, c)) == k,
{
    let c = choose|c: int| first_split_at(splits, id, c);
    assert(first_split_at(splits, id, c));
    if c < k {
        assert(!split_matches(splits[c], id));
    }
    if k < c {
        assert(!split_matches(splits[k], id));
    }
}

/// Returns whether the extent at `i` exists and lies within its ordered
/// constraints.
fn extent_is_within(extents: &[u32], i: usize, minimum: u32, maximum: u32) -> (r: bool)
    ensures
        r == extent_within(extents@, i as int, minimum, maximum),
{
    i < extents.len() && minimum <= maximum && minimum <= extents[i] && extents[i] <= maximum
}

/// Returns whether the record's geometry and resize facts agree with split
/// `s` inside a plan of the given bounds.
fn splitter_shape_is_valid(bounds: LogicalRect, s: IndexedSplit, r: &SplitterRecord) -> (ok: bool)
    ensures
        ok == splitter_shape_valid(bounds, s, *r),
{
    let id = *r.id();
    if s.children == 0 || id.index >= s.children - 1 {
        return false;
    }
    if r.axis() != s.axis {
        return false;
    }
    let weights = r.weights();
    if weights.len() != s.children {
        return false;
    }
    let mut w: usize = 0;
    let mut sum: u64 = 0;
    while w < weights.len()
        invariant
            w <= weights@.len(),
            weights@ == r.weights_view(),
            forall|v: int| 0 <= v < w ==> (#[trigger] weights@[v]).0 > 0,
            sum == weight_sum(weights@.take(w as int)),
            sum <= SPLIT_WEIGHT_WHOLE + SPLIT_WEIGHT_TOLERANCE,
        decreases weights@.len() - w,
    {
        if weights[w].0 == 0 {
            assert(r.weights_view()[w as int].0 == 0);
            return false;
        }
        proof {
            assert(weights@.take(w + 1).drop_last() =~= weights@.take(w as int));
        }
        sum = sum + weights[w].0 as u64;
        w = w + 1;
        if sum > SPLIT_WEIGHT_WHOLE + SPLIT_WEIGHT_TOLERANCE {
            proof {
                lemma_weight_sum_prefix(weights@, w as int);
            }
            return false;
        }
    }
    assert(weights@.take(w as int) =~= weights@);
    if sum < SPLIT_WEIGHT_WHOLE - SPLIT_WEIGHT_TOLERANCE {
        return false;
    }
    let hit = r.hit().rect;
    let draw = r.draw_bounds();
    if !draw.is_positive() || !hit.is_positive() {
        return false;
    }
    if !rect_contains(bounds, hit) || !rect_contains(hit, draw) {
        return false;
    }
    if !rect_contains(bounds, r.before_bounds()) || !rect_contains(bounds, r.after_bounds()) {
        return false;
    }
    let extents = r.child_extents();
    if !extent_is_within(extents, id.index, r.before_minimum_extent(), r.before_maximum_extent()) {
        return false;
    }
    if !extent_is_within(extents, id.index + 1, r.after_minimum_extent(), r.after_maximum_extent()) {
        return false;
    }
    if extents.len() != s.children {
        return false;
    }
    match r.central_index() {
        Some(c) => c < s.children,
        None => true,
    }
}

/// Returns how one splitter record fails, if it does.
fn splitter_record_check(
    ready: &PresentationPlan,
    splits: &[IndexedSplit],
    allowed: &KeySet<Axis>,
    r: &SplitterRecord,
) -> (e: Option<SceneBuildError>)
    ensures
        e == splitter_record_error(ready, splits@, allowed.view_seq(), *r),
{
    let id = *r.id();
    let surface = ready.surface();
    let k = match find_split(splits, id) {
        Some(k) => k,
        None => {
            return Some(SceneBuildError::InvalidSplitterRecord { surface, id });
        },
    };
    proof {
        lemma_first_split_unique(splits@, id, k as int);
    }
    let s = splits[k];
    if !splitter_shape_is_valid(ready.bounds(), s, r) {
        return Some(SceneBuildError::InvalidSplitterRecord { surface, id });
    }
    let layer = r.layer();
    if layer.0 != s.layer.0 {
        return Some(
            SceneBuildError::SemanticLayerMismatch {
                surface,
                root: id.root,
                expected: s.layer,
                actual: layer,
            },
        );
    }
    let resizable = allowed.contains(&r.axis());
    let reachable = region_has_authoritative_area(r.hit().rect, layer, ready.drop_occlusions());
    if r.operable() != (resizable && reachable) {
        return Some(SceneBuildError::InvalidSplitterRecord { surface, id });
    }
    None
}

/// Returns whether no later splitter record carries the identity of the one
/// at `i`.
fn splitter_is_last(records: &[SplitterRecord], i: usize) -> (r: bool)
    requires
        i < records@.len(),
    ensures
        r == last_splitter_at(records@, i as int),
{
    let id = *records[i].id();
    let mut j: usize = i + 1;
    while j < records.len()
        invariant
            i < j <= records@.len(),
            id == records@[i as int].spec_id(),
            forall|m: int| i < m < j ==> (#[trigger] records@[m]).spec_id() != id,
        decreases records@.len() - j,
    {
        if *records[j].id() == id {
            assert(records@[j as int].spec_id() == records@[i as int].spec_id());
            return false;
        }
        j = j + 1;
    }
    true
}

proof fn lemma_least_failing_unique(
    ready: &PresentationPlan,
    splits: Seq<IndexedSplit>,
    allowed: Seq<Axis>,
    i: int,
)
    requires
        least_failing_splitter_at(ready, splits, allowed, i),
    ensures
        (choose|c: int| least_failing_splitter_at(ready, splits, allowed, c)) == i,
{
    let records = ready.splitters_view();
    let c = choose|c: int| least_failing_splitter_at(ready, splits, allowed, c);
    assert(least_failing_splitter_at(ready, splits, allowed, c));
    assert(failing_splitter_at(ready, splits, allowed, c));
    assert(failing_splitter_at(ready, splits, allowed, i));
    lemma_splitter_id_order(records[c].spec_id(), records[i].spec_id(), records[c].spec_id());
    assert(records[c].spec_id() == records[i].spec_id());
    if c < i {
        assert(records[i].spec_id() != records[c].spec_id());
    }
    if i < c {
        assert(records[c].spec_id() != records[i].spec_id());
    }
}

/// Returns the error of the failing splitter record of least identity, if any.
fn least_failing_splitter(
    ready: &PresentationPlan,
    splits: &[IndexedSplit],
    allowed: &KeySet<Axis>,
) -> (e: Option<SceneBuildError>)
    ensures
        e == (if exists|i: int| least_failing_splitter_at(ready, splits@, allowed.view_seq(), i) {
            splitter_record_error(
                ready,
                splits@,
                allowed.view_seq(),
                ready.splitters_view()[choose|i: int|
                    least_failing_splitter_at(ready, splits@, allowed.view_seq(), i)],
            )
        } else {
            None
        }),
{
    let records = ready.splitter_records();
    let ghost sp = splits@;
    let ghost al = allowed.view_seq();
    let mut best: Option<(usize, SceneBuildError)> = None;
    let mut i: usize = 0;
    while i < records.len()
        invariant
            i <= records@.len(),
            records@ == ready.splitters_view(),
            sp == splits@,
            al == allowed.view_seq(),
            match best {
                Some((b, e)) => {
                    &&& b < i
                    &&& failing_splitter_at(ready, sp, al, b as int)
                    &&& Some(e) == splitter_record_error(ready, sp, al, records@[b as int])
                    &&& forall|j: int|
                        0 <= j < i && #[trigger] failing_splitter_at(ready, sp, al, j)
                            ==> !splitter_id_lt(records@[j].spec_id(), records@[b as int].spec_id())
                },
                None => forall|j: int| 0 <= j < i ==> !#[trigger] failing_splitter_at(ready, sp, al, j),
            },
        decreases records@.len() - i,
    {
        if splitter_is_last(records, i) {
            if let Some(err) = splitter_record_check(ready, splits, allowed, &records[i]) {
                let replace = match best {
                    None => true,
                    Some((b, _)) => splitter_id_less(*records[i].id(), *records[b].id()),
                };
                let ghost old_best = best;
                if replace {
                    proof {
                        assert(failing_splitter_at(ready, sp, al, i as int));
                        assert forall|j: int|
                            0 <= j < i + 1 && #[trigger] failing_splitter_at(ready, sp, al, j)
                                implies !splitter_id_lt(records@[j].spec_id(), records@[i as int].spec_id()) by {
                            lemma_splitter_id_order(records@[j].spec_id(), records@[i as int].spec_id(), records@[j].spec_id());
                            if let Some((b, _)) = old_best {
                                lemma_splitter_id_order(
                                    records@[j].spec_id(),
                                    records@[i as int].spec_id(),
                                    records@[b as int].spec_id(),
                                );
                            }
                        }
                    }
                    best = Some((i, err));
                } else {
                    proof {
                        assert(failing_splitter_at(ready, sp, al, i as int));
                    }
                }
            }
        }
        i = i + 1;
    }
    match best {
        Some((b, e)) => {
            proof {
                assert(least_failing_splitter_at(ready, sp, al, b as int));
                lemma_least_failing_unique(ready, sp, al, b as int);
            }
            Some(e)
        },
        None => None,
    }
}

/// Rejects a plan whose splitter records are not exactly what its compiled
/// split nodes, its resize policy, and its occlusions determine.
///
/// `splits` lists the workspace's split nodes with their roots' layers, and
/// `resize_allowed` the axes along which the policy lets splitters resize.
/// The checks run in order: the gap inventory against the gaps of every split
/// node of a compiled root, the splitter records against the rendered gaps,
/// each splitter record (the failing one of least identity is reported), and
/// last the splitter-junction records.
pub fn validate_splitter_records(
    ready: &PresentationPlan,
    splits: &[IndexedSplit],
    resize_allowed: &KeySet<Axis>,
) -> (r: Result<(), SceneBuildError>)
    ensures
        r == match splitter_records_error(ready, splits@, resize_allowed.view_seq()) {
            Some(e) => Err(e),
            None => Ok(()),
        },
{
    if !gap_inventory_matches(ready, splits) {
        return Err(SceneBuildError::SplitterGapRecordSetMismatch { surface: ready.surface() });
    }
    if !rendered_inventory_matches(ready) {
        return Err(SceneBuildError::SplitterRecordSetMismatch { surface: ready.surface() });
    }
    match least_failing_splitter(ready, splits, resize_allowed) {
        Some(e) => Err(e),
        None => validate_splitter_junction_records(ready),
    }
}

} // verus!
