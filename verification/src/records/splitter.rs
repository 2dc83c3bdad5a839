//! Splitter, structural gap, and junction presentation records.

use vstd::prelude::*;

use crate::geometry::{HitRegion, LogicalRect};
use crate::ids::{NodeId, RootId, SceneLayerKey, SurfaceId};

verus! {

/// Orientation of a split node's children.
#[derive(Debug, Clone, Copy, PartialEq, Eq, Structural, PartialOrd, Ord, Hash)]
pub enum Axis {
    /// Children are laid out left to right; separators run north-south.
    Horizontal,
    /// Children are laid out top to bottom; separators run west-east.
    Vertical,
}

/// Share of one split child in its split's extent, in millionths: the
/// weights of a split's children are positive and sum to one whole.
#[derive(Debug, Clone, Copy, PartialEq, Eq, Structural, PartialOrd, Ord, Hash)]
pub struct SplitWeight(pub u32);

/// The whole a split's weights share, in millionths.
pub const SPLIT_WEIGHT_WHOLE: u64 = 1000000;

/// How far, in millionths, the weights of a split may sum away from one whole.
pub const SPLIT_WEIGHT_TOLERANCE: u64 = 10;

/// The sum of a sequence of split weights.
pub open spec fn weight_sum(weights: Seq<SplitWeight>) -> int
    decreases weights.len(),
{
    if weights.len() == 0 {
        0
    } else {
        weight_sum(weights.drop_last()) + weights.last().0
    }
}

/// A prefix of split weights sums to no more than the whole sequence.
pub proof fn lemma_weight_sum_prefix(weights: Seq<SplitWeight>, k: int)
    requires
        0 <= k <= weights.len(),
    ensures
        weight_sum(weights.take(k)) <= weight_sum(weights),
    decreases weights.len() - k,
{
    if k < weights.len() {
        lemma_weight_sum_prefix(weights, k + 1);
        assert(weights.take(k + 1).drop_last() =~= weights.take(k));
    } else {
        assert(weights.take(k) =~= weights);
    }
}

/// Structural identity of one rendered splitter rectangle.
#[derive(Debug, Clone, Copy, PartialEq, Eq, Structural, PartialOrd, Ord, Hash, Default)]
pub struct SplitterSceneId {
    /// Owning root.
    pub root: RootId,
    /// Split node owning the separator.
    pub split: NodeId,
    /// Gap before child `index + 1`.
    pub index: usize,
}

/// Strict canonical order of splitter identities: root, then split, then gap index.
pub open spec fn splitter_id_lt(a: SplitterSceneId, b: SplitterSceneId) -> bool {
    ||| a.root.0 < b.root.0
    ||| a.root.0 == b.root.0 && a.split.0 < b.split.0
    ||| a.root.0 == b.root.0 && a.split.0 == b.split.0 && a.index < b.index
}

/// Decides the canonical splitter-identity order.
pub fn splitter_id_less(a: SplitterSceneId, b: SplitterSceneId) -> (r: bool)
    ensures
        r == splitter_id_lt(a, b),
{
    a.root.0 < b.root.0 || (a.root.0 == b.root.0 && (a.split.0 < b.split.0 || (a.split.0
        == b.split.0 && a.index < b.index)))
}

/// The canonical splitter order is a strict total order.
pub proof fn lemma_splitter_id_order(a: SplitterSceneId, b: SplitterSceneId, c: SplitterSceneId)
    ensures
        !splitter_id_lt(a, a),
        splitter_id_lt(a, b) && splitter_id_lt(b, c) ==> splitter_id_lt(a, c),
        a == b || splitter_id_lt(a, b) || splitter_id_lt(b, a),
        splitter_id_lt(a, b) ==> !splitter_id_lt(b, a),
{
}

/// Core-compiled draw, hit, and resize semantics for one splitter.
#[derive(Debug, Clone, PartialEq, Eq)]
pub struct SplitterRecord {
    id: SplitterSceneId,
    draw_bounds: LogicalRect,
    hit: HitRegion,
    axis: Axis,
    before_bounds: LogicalRect,
    after_bounds: LogicalRect,
    before_minimum_extent: u32,
    after_minimum_extent: u32,
    before_maximum_extent: u32,
    after_maximum_extent: u32,
    child_extents: Vec<u32>,
    central_index: Option<usize>,
    weights: Vec<SplitWeight>,
    layer: SceneLayerKey,
    operable: bool,
}

/// Exact construction parameters of one splitter's resize constraints.
#[derive(Debug, Clone, Copy, PartialEq, Eq, Structural)]
pub struct SplitterExtentLimits {
    /// Minimum extent of the child before the splitter.
    pub before_minimum: u32,
    /// Minimum extent of the child after the splitter.
    pub after_minimum: u32,
    /// Maximum extent of the child before the splitter.
    pub before_maximum: u32,
    /// Maximum extent of the child after the splitter.
    pub after_maximum: u32,
}

impl SplitterRecord {
    /// Creates one splitter record.
    pub fn new(
        id: SplitterSceneId,
        draw_bounds: LogicalRect,
        hit: HitRegion,
        axis: Axis,
        before_bounds: LogicalRect,
        after_bounds: LogicalRect,
        limits: SplitterExtentLimits,
        child_extents: Vec<u32>,
        central_index: Option<usize>,
        weights: Vec<SplitWeight>,
        layer: SceneLayerKey,
        operable: bool,
    ) -> (r: Self)
        ensures
            r.spec_id() == id,
            r.draw_bounds() == draw_bounds,
            r.hit() == hit,
            r.axis() == axis,
            r.before_bounds() == before_bounds,
            r.after_bounds() == after_bounds,
            r.before_minimum_extent() == limits.before_minimum,
            r.after_minimum_extent() == limits.after_minimum,
            r.before_maximum_extent() == limits.before_maximum,
            r.after_maximum_extent() == limits.after_maximum,
            r.child_extents_view() == child_extents@,
            r.central_index() == central_index,
            r.weights_view() == weights@,
            r.layer() == layer,
            r.operable() == operable,
    {
        SplitterRecord {
            id,
            draw_bounds,
            hit,
            axis,
            before_bounds,
            after_bounds,
            before_minimum_extent: limits.before_minimum,
            after_minimum_extent: limits.after_minimum,
            before_maximum_extent: limits.before_maximum,
            after_maximum_extent: limits.after_maximum,
            child_extents,
            central_index,
            weights,
            layer,
            operable,
        }
    }

    /// Keeps the record operable only while `condition` also holds.
    pub fn retain_operability(&mut self, condition: bool)
        ensures
            final(self).operable() == (old(self).operable() && condition),
            final(self).spec_id() == old(self).spec_id(),
            final(self).draw_bounds() == old(self).draw_bounds(),
            final(self).hit() == old(self).hit(),
            final(self).axis() == old(self).axis(),
            final(self).before_bounds() == old(self).before_bounds(),
            final(self).after_bounds() == old(self).after_bounds(),
            final(self).before_minimum_extent() == old(self).before_minimum_extent(),
            final(self).after_minimum_extent() == old(self).after_minimum_extent(),
            final(self).before_maximum_extent() == old(self).before_maximum_extent(),
            final(self).after_maximum_extent() == old(self).after_maximum_extent(),
            final(self).child_extents_view() == old(self).child_extents_view(),
            final(self).central_index() == old(self).central_index(),
            final(self).weights_view() == old(self).weights_view(),
            final(self).layer() == old(self).layer(),
    {
        self.operable = self.operable && condition;
    }
}

impl SplitterRecord {
    /// Exact value behind [`Self::id`].
    pub closed spec fn spec_id(&self) -> SplitterSceneId {
        self.id
    }

    /// Returns the stable split-gap identity.
    pub fn id(&self) -> (r: &SplitterSceneId)
        ensures
            *r == self.spec_id(),
    {
        &self.id
    }

    /// Exact value behind [`Self::draw_bounds`].
    pub closed spec fn spec_draw_bounds(&self) -> LogicalRect {
        self.draw_bounds
    }

    /// Returns the thin painted splitter rectangle.
    #[verifier::when_used_as_spec(spec_draw_bounds)]
    pub fn draw_bounds(&self) -> (r: LogicalRect)
        ensures
            r == self.spec_draw_bounds(),
    {
        self.draw_bounds
    }

    /// Exact value behind [`Self::hit`].
    pub closed spec fn spec_hit(&self) -> HitRegion {
        self.hit
    }

    /// Returns the exact expanded resize hit region.
    #[verifier::when_used_as_spec(spec_hit)]
    pub fn hit(&self) -> (r: HitRegion)
        ensures
            r == self.spec_hit(),
    {
        self.hit
    }

    /// Exact value behind [`Self::axis`].
    pub closed spec fn spec_axis(&self) -> Axis {
        self.axis
    }

    /// Returns the split axis controlled by this record.
    #[verifier::when_used_as_spec(spec_axis)]
    pub fn axis(&self) -> (r: Axis)
        ensures
            r == self.spec_axis(),
    {
        self.axis
    }

    /// Exact value behind [`Self::before_bounds`].
    pub closed spec fn spec_before_bounds(&self) -> LogicalRect {
        self.before_bounds
    }

    /// Returns the adjacent child bounds before the splitter.
    #[verifier::when_used_as_spec(spec_before_bounds)]
    pub fn before_bounds(&self) -> (r: LogicalRect)
        ensures
            r == self.spec_before_bounds(),
    {
        self.before_bounds
    }

    /// Exact value behind [`Self::after_bounds`].
    pub closed spec fn spec_after_bounds(&self) -> LogicalRect {
        self.after_bounds
    }

    /// Returns the adjacent child bounds after the splitter.
    #[verifier::when_used_as_spec(spec_after_bounds)]
    pub fn after_bounds(&self) -> (r: LogicalRect)
        ensures
            r == self.spec_after_bounds(),
    {
        self.after_bounds
    }

    /// Exact value behind [`Self::before_minimum_extent`].
    pub closed spec fn spec_before_minimum_extent(&self) -> u32 {
        self.before_minimum_extent
    }

    /// Returns the measured minimum extent of the child before this splitter.
    #[verifier::when_used_as_spec(spec_before_minimum_extent)]
    pub fn before_minimum_extent(&self) -> (r: u32)
        ensures
            r == self.spec_before_minimum_extent(),
    {
        self.before_minimum_extent
    }

    /// Exact value behind [`Self::after_minimum_extent`].
    pub closed spec fn spec_after_minimum_extent(&self) -> u32 {
        self.after_minimum_extent
    }

    /// Returns the measured minimum extent of the child after this splitter.
    #[verifier::when_used_as_spec(spec_after_minimum_extent)]
    pub fn after_minimum_extent(&self) -> (r: u32)
        ensures
            r == self.spec_after_minimum_extent(),
    {
        self.after_minimum_extent
    }

    /// Exact value behind [`Self::before_maximum_extent`].
    pub closed spec fn spec_before_maximum_extent(&self) -> u32 {
        self.before_maximum_extent
    }

    /// Returns the measured maximum extent of the child before this splitter.
    #[verifier::when_used_as_spec(spec_before_maximum_extent)]
    pub fn before_maximum_extent(&self) -> (r: u32)
        ensures
            r == self.spec_before_maximum_extent(),
    {
        self.before_maximum_extent
    }

    /// Exact value behind [`Self::after_maximum_extent`].
    pub closed spec fn spec_after_maximum_extent(&self) -> u32 {
        self.after_maximum_extent
    }

    /// Returns the measured maximum extent of the child after this splitter.
    #[verifier::when_used_as_spec(spec_after_maximum_extent)]
    pub fn after_maximum_extent(&self) -> (r: u32)
        ensures
            r == self.spec_after_maximum_extent(),
    {
        self.after_maximum_extent
    }

    /// Exact contents behind [`Self::child_extents`].
    pub closed spec fn child_extents_view(&self) -> Seq<u32> {
        self.child_extents@
    }

    /// Returns actual projected extents for every direct split child.
    pub fn child_extents(&self) -> (r: &[u32])
        ensures
            r@ == self.child_extents_view(),
    {
        self.child_extents.as_slice()
    }

    /// Exact value behind [`Self::central_index`].
    pub closed spec fn spec_central_index(&self) -> Option<usize> {
        self.central_index
    }

    /// Returns the child containing the root's central leaf, when one exists.
    #[verifier::when_used_as_spec(spec_central_index)]
    pub fn central_index(&self) -> (r: Option<usize>)
        ensures
            r == self.spec_central_index(),
    {
        self.central_index
    }

    /// Exact contents behind [`Self::weights`].
    pub closed spec fn weights_view(&self) -> Seq<SplitWeight> {
        self.weights@
    }

    /// Returns the effective split weights represented by this plan.
    pub fn weights(&self) -> (r: &[SplitWeight])
        ensures
            r@ == self.weights_view(),
    {
        self.weights.as_slice()
    }

    /// Exact value behind [`Self::layer`].
    pub closed spec fn spec_layer(&self) -> SceneLayerKey {
        self.layer
    }

    /// Returns the roster-derived semantic layer.
    #[verifier::when_used_as_spec(spec_layer)]
    pub fn layer(&self) -> (r: SceneLayerKey)
        ensures
            r == self.spec_layer(),
    {
        self.layer
    }

    /// Exact value behind [`Self::operable`].
    pub closed spec fn spec_operable(&self) -> bool {
        self.operable
    }

    /// Returns whether any authoritative hit area remains on this record's layer.
    #[verifier::when_used_as_spec(spec_operable)]
    pub fn operable(&self) -> (r: bool)
        ensures
            r == self.spec_operable(),
    {
        self.operable
    }
}

/// Presentation availability for one structural splitter gap.
#[derive(Debug, Clone, Copy, PartialEq, Eq, Structural, PartialOrd, Ord, Hash)]
pub enum SplitterGapPresentation {
    /// The gap has a positive-area draw record.
    Rendered,
    /// Compression left no positive-area splitter rectangle.
    Collapsed,
}

/// Complete structural inventory entry for one splitter gap.
#[derive(Debug, Clone, Copy, PartialEq, Eq, Structural, PartialOrd, Ord, Hash)]
pub struct SplitterGapRecord {
    id: SplitterSceneId,
    presentation: SplitterGapPresentation,
}

impl SplitterGapRecord {
    /// Creates one record from its exact parts.
    pub fn new(id: SplitterSceneId, presentation: SplitterGapPresentation) -> (r: Self)
        ensures
            r.id() == id,
            r.presentation() == presentation,
    {
        Self { id, presentation }
    }

    /// Exact value behind [`Self::id`].
    pub closed spec fn spec_id(&self) -> SplitterSceneId {
        self.id
    }

    /// Returns the stable structural splitter-gap identity.
    #[verifier::when_used_as_spec(spec_id)]
    pub fn id(&self) -> (r: SplitterSceneId)
        ensures
            r == self.spec_id(),
    {
        self.id
    }

    /// Exact value behind [`Self::presentation`].
    pub closed spec fn spec_presentation(&self) -> SplitterGapPresentation {
        self.presentation
    }

    /// Returns whether this gap produced a positive-area splitter record.
    #[verifier::when_used_as_spec(spec_presentation)]
    pub fn presentation(&self) -> (r: SplitterGapPresentation)
        ensures
            r == self.spec_presentation(),
    {
        self.presentation
    }
}

/// Directional arm incident to one structural splitter junction.
#[derive(Debug, Clone, Copy, PartialEq, Eq, Structural, PartialOrd, Ord, Hash)]
pub enum SplitterJunctionDirection {
    /// Splitter geometry extending above the junction center.
    North,
    /// Splitter geometry extending right of the junction center.
    East,
    /// Splitter geometry extending below the junction center.
    South,
    /// Splitter geometry extending left of the junction center.
    West,
}

/// Stable identity of one three- or four-arm splitter junction.
///
/// A splitter which passes through the junction occupies both opposite arms.
#[derive(Debug, Clone, Copy, PartialEq, Eq, Structural, PartialOrd, Ord, Hash, Default)]
pub struct SplitterJunctionId {
    /// Arm above the center.
    pub north: Option<SplitterSceneId>,
    /// Arm right of the center.
    pub east: Option<SplitterSceneId>,
    /// Arm below the center.
    pub south: Option<SplitterSceneId>,
    /// Arm left of the center.
    pub west: Option<SplitterSceneId>,
}

/// Number of present entries among four optional arms.
pub open spec fn present_count(a: Option<SplitterSceneId>) -> nat {
    if a is Some {
        1
    } else {
        0
    }
}

/// Strict order of optional arms: absent before present, then identity order.
pub open spec fn arm_lt(a: Option<SplitterSceneId>, b: Option<SplitterSceneId>) -> bool {
    match (a, b) {
        (None, Some(_)) => true,
        (Some(x), Some(y)) => splitter_id_lt(x, y),
        _ => false,
    }
}

/// Strict canonical order of junction identities: north, east, south, then west arm.
pub open spec fn junction_id_lt(a: SplitterJunctionId, b: SplitterJunctionId) -> bool {
    ||| arm_lt(a.north, b.north)
    ||| a.north == b.north && arm_lt(a.east, b.east)
    ||| a.north == b.north && a.east == b.east && arm_lt(a.south, b.south)
    ||| a.north == b.north && a.east == b.east && a.south == b.south && arm_lt(a.west, b.west)
}

fn arm_less(a: Option<SplitterSceneId>, b: Option<SplitterSceneId>) -> (r: bool)
    ensures
        r == arm_lt(a, b),
{
    match (a, b) {
        (None, Some(_)) => true,
        (Some(x), Some(y)) => splitter_id_less(x, y),
        _ => false,
    }
}

/// Decides the canonical junction-identity order.
pub fn junction_id_less(a: SplitterJunctionId, b: SplitterJunctionId) -> (r: bool)
    ensures
        r == junction_id_lt(a, b),
{
    arm_less(a.north, b.north) || (a.north == b.north && (arm_less(a.east, b.east) || (a.east
        == b.east && (arm_less(a.south, b.south) || (a.south == b.south && arm_less(
        a.west,
        b.west,
    ))))))
}

/// The canonical arm order is a strict total order.
pub proof fn lemma_arm_order(a: Option<SplitterSceneId>, b: Option<SplitterSceneId>, c: Option<SplitterSceneId>)
    ensures
        !arm_lt(a, a),
        arm_lt(a, b) && arm_lt(b, c) ==> arm_lt(a, c),
        a == b || arm_lt(a, b) || arm_lt(b, a),
        arm_lt(a, b) ==> !arm_lt(b, a),
{
    match (a, b, c) {
        (Some(x), Some(y), Some(z)) => lemma_splitter_id_order(x, y, z),
        (Some(x), Some(y), None) => lemma_splitter_id_order(x, y, x),
        _ => {},
    }
}

/// The canonical junction order is a strict total order.
pub proof fn lemma_junction_id_order(a: SplitterJunctionId, b: SplitterJunctionId, c: SplitterJunctionId)
    ensures
        !junction_id_lt(a, a),
        junction_id_lt(a, b) && junction_id_lt(b, c) ==> junction_id_lt(a, c),
        a == b || junction_id_lt(a, b) || junction_id_lt(b, a),
        junction_id_lt(a, b) ==> !junction_id_lt(b, a),
{
    lemma_arm_order(a.north, b.north, c.north);
    lemma_arm_order(a.east, b.east, c.east);
    lemma_arm_order(a.south, b.south, c.south);
    lemma_arm_order(a.west, b.west, c.west);
}

impl SplitterJunctionId {
    /// Occupied arms in north, east, south, west order.
    pub open spec fn arms_view(self) -> Seq<Option<SplitterSceneId>> {
        seq![self.north, self.east, self.south, self.west]
    }

    /// Number of occupied arms.
    pub open spec fn arm_count_spec(self) -> nat {
        present_count(self.north) + present_count(self.east) + present_count(self.south)
            + present_count(self.west)
    }

    /// Whether one splitter occupies any arm.
    pub open spec fn incident(self, id: SplitterSceneId) -> bool {
        self.north == Some(id) || self.east == Some(id) || self.south == Some(id) || self.west
            == Some(id)
    }

    /// Creates one junction identity from its directional arms.
    pub fn new(
        north: Option<SplitterSceneId>,
        east: Option<SplitterSceneId>,
        south: Option<SplitterSceneId>,
        west: Option<SplitterSceneId>,
    ) -> (r: Self)
        ensures
            r == (SplitterJunctionId { north, east, south, west }),
    {
        SplitterJunctionId { north, east, south, west }
    }

    /// Returns the splitter occupying one directional arm, when present.
    pub fn arm(self, direction: SplitterJunctionDirection) -> (r: Option<SplitterSceneId>)
        ensures
            direction == SplitterJunctionDirection::North ==> r == self.north,
            direction == SplitterJunctionDirection::East ==> r == self.east,
            direction == SplitterJunctionDirection::South ==> r == self.south,
            direction == SplitterJunctionDirection::West ==> r == self.west,
    {
        match direction {
            SplitterJunctionDirection::North => self.north,
            SplitterJunctionDirection::East => self.east,
            SplitterJunctionDirection::South => self.south,
            SplitterJunctionDirection::West => self.west,
        }
    }

    /// Returns the number of occupied directional arms.
    pub fn arm_count(self) -> (r: usize)
        ensures
            r == self.arm_count_spec(),
    {
        let mut count: usize = 0;
        if self.north.is_some() {
            count = count + 1;
        }
        if self.east.is_some() {
            count = count + 1;
        }
        if self.south.is_some() {
            count = count + 1;
        }
        if self.west.is_some() {
            count = count + 1;
        }
        count
    }

    /// Returns every distinct incident splitter in canonical identity order.
    pub fn splitters(self) -> (r: Vec<SplitterSceneId>)
        ensures
            forall|i: int, j: int|
                0 <= i < j < r@.len() ==> splitter_id_lt(#[trigger] r@[i], #[trigger] r@[j]),
            forall|id: SplitterSceneId| r@.contains(id) <==> self.incident(id),
    {
        let mut sorted: Vec<SplitterSceneId> = Vec::new();
        insert_sorted_unique(&mut sorted, self.north);
        insert_sorted_unique(&mut sorted, self.east);
        insert_sorted_unique(&mut sorted, self.south);
        insert_sorted_unique(&mut sorted, self.west);
        sorted
    }
}

/// Inserts one optional identity into a strictly increasing vector unless present.
fn insert_sorted_unique(sorted: &mut Vec<SplitterSceneId>, candidate: Option<SplitterSceneId>)
    requires
        forall|i: int, j: int|
            0 <= i < j < old(sorted)@.len() ==> splitter_id_lt(
                #[trigger] old(sorted)@[i],
                #[trigger] old(sorted)@[j],
            ),
    ensures
        forall|i: int, j: int|
            0 <= i < j < final(sorted)@.len() ==> splitter_id_lt(
                #[trigger] final(sorted)@[i],
                #[trigger] final(sorted)@[j],
            ),
        forall|id: SplitterSceneId|
            final(sorted)@.contains(id) <==> (old(sorted)@.contains(id) || candidate == Some(id)),
{
    let Some(id) = candidate else {
        return;
    };
    let mut position: usize = 0;
    while position < sorted.len() && splitter_id_less(sorted[position], id)
        invariant
            position <= sorted@.len(),
            forall|i: int| 0 <= i < position ==> splitter_id_lt(#[trigger] sorted@[i], id),
        decreases sorted@.len() - position,
    {
        position = position + 1;
    }
    if position < sorted.len() && sorted[position] == id {
        assert(sorted@.contains(id)) by {
            assert(sorted@[position as int] == id);
        }
        return;
    }
    proof {
        if position < sorted@.len() {
            lemma_splitter_id_order(sorted@[position as int], id, id);
            assert(splitter_id_lt(id, sorted@[position as int]));
            assert forall|i: int| position <= i < sorted@.len() implies splitter_id_lt(
                id,
                #[trigger] sorted@[i],
            ) by {
                if i > position {
                    lemma_splitter_id_order(id, sorted@[position as int], sorted@[i]);
                }
            }
        }
    }
    let ghost before = sorted@;
    assert(before == old(sorted)@);
    sorted.insert(position, id);
    proof {
        assert forall|i: int, j: int|
            0 <= i < j < sorted@.len() implies splitter_id_lt(
            #[trigger] sorted@[i],
            #[trigger] sorted@[j],
        ) by {
            if j < position {
            } else if i < position && j == position {
            } else if i < position && j > position {
                lemma_splitter_id_order(sorted@[i], id, sorted@[j]);
            } else if i == position {
            } else {
            }
        }
        assert forall|x: SplitterSceneId| #[trigger] sorted@.contains(x) implies (before.contains(x)
            || candidate == Some(x)) by {
            let k = choose|k: int| 0 <= k < sorted@.len() && sorted@[k] == x;
            if k < position {
                assert(before[k] == x);
            } else if k > position {
                assert(before[k - 1] == x);
            }
        }
        assert forall|x: SplitterSceneId| #[trigger] before.contains(x) implies sorted@.contains(x) by {
            let k = choose|k: int| 0 <= k < before.len() && before[k] == x;
            if k < position {
                assert(sorted@[k] == x);
            } else {
                assert(sorted@[k + 1] == x);
            }
        }
        assert(sorted@[position as int] == id);
        assert(sorted@.contains(id));
    }
}

/// Exact shared hit region for one structural splitter junction.
#[derive(Debug, Clone, Copy, PartialEq, Eq, Structural)]
pub struct SplitterJunctionRecord {
    id: SplitterJunctionId,
    hit: HitRegion,
    layer: SceneLayerKey,
}

impl SplitterJunctionRecord {
    /// Creates one record from its exact parts.
    pub fn new(id: SplitterJunctionId, hit: HitRegion, layer: SceneLayerKey) -> (r: Self)
        ensures
            r.id() == id,
            r.hit() == hit,
            r.layer() == layer,
    {
        Self { id, hit, layer }
    }

    /// Exact value behind [`Self::id`].
    pub closed spec fn spec_id(&self) -> SplitterJunctionId {
        self.id
    }

    /// Returns the complete directional junction identity.
    #[verifier::when_used_as_spec(spec_id)]
    pub fn id(&self) -> (r: SplitterJunctionId)
        ensures
            r == self.spec_id(),
    {
        self.id
    }

    /// Exact value behind [`Self::hit`].
    pub closed spec fn spec_hit(&self) -> HitRegion {
        self.hit
    }

    /// Returns the exact region which owns atomic multi-handle resize input.
    #[verifier::when_used_as_spec(spec_hit)]
    pub fn hit(&self) -> (r: HitRegion)
        ensures
            r == self.spec_hit(),
    {
        self.hit
    }

    /// Exact value behind [`Self::layer`].
    pub closed spec fn spec_layer(&self) -> SceneLayerKey {
        self.layer
    }

    /// Returns the roster-derived semantic layer.
    #[verifier::when_used_as_spec(spec_layer)]
    pub fn layer(&self) -> (r: SceneLayerKey)
        ensures
            r == self.spec_layer(),
    {
        self.layer
    }
}

/// Structural splitter target resolved from one authoritative presentation plan.
#[derive(Debug, Clone, Copy, PartialEq, Eq, Structural, Hash)]
pub enum SplitterResizeTarget {
    /// One ordinary splitter handle owns the point.
    Handle(SplitterSceneId),
    /// One three- or four-arm splitter junction owns all incident handles.
    Junction(SplitterJunctionId),
}

/// A presentation plan could not resolve a unique splitter target at one point.
#[derive(Debug, Clone, Copy, PartialEq, Eq, Structural)]
pub enum SplitterResizeHitError {
    /// More than one junction target claimed the point on the authoritative layer.
    AmbiguousJunctions {
        /// Surface containing the ambiguous hit.
        surface: SurfaceId,
        /// Authoritative presentation layer.
        layer: SceneLayerKey,
        /// Number of matching junction targets.
        count: usize,
    },
    /// More than one ordinary handle claimed the point on the authoritative layer.
    AmbiguousHandles {
        /// Surface containing the ambiguous hit.
        surface: SurfaceId,
        /// Authoritative presentation layer.
        layer: SceneLayerKey,
        /// Number of matching handle targets.
        count: usize,
    },
}

} // verus!
