//! Plan-local validation of a compiled presentation plan: semantic identity
//! uniqueness, the exact popup-plane record set, the published splitter
//! junctions, and each tab bar's controls and open menu.

pub mod bar_contents;
pub mod contained;
pub mod junctions;
pub mod occlusions;
pub mod pane_laws;
pub mod panes;
pub mod ready;
pub mod splitters;
pub mod strips;
pub mod tab_bars;

use vstd::prelude::*;

use crate::collections::{canonical, CanonicalKey, KeySet};
use crate::geometry::LogicalRect;
use crate::ids::{FloatingPresentationId, RootId, SceneLayerKey, SurfaceId};
use crate::manifest::keys::SurfaceMeasurementTicket;
use crate::occlusion::DropOcclusionRecord;
use crate::plan::{canonically_reordered, PresentationPlan};
use crate::records::contained::{ContainedMinimumMeasurement, ContainedRecord};
use crate::records::splitter::{
    SplitterGapRecord, SplitterJunctionId, SplitterJunctionRecord, SplitterRecord, SplitterSceneId,
};
use crate::records::tab::{PaneRecord, PaneSceneId, TabBarRecord, TabBarSceneId, TabRecord, TabSceneId};
use crate::sorting::{
    lemma_sorted_distinct_is_strict, order_keys_distinct, strictly_increasing, OrderedRecord,
};
use crate::tab_strip::PopupPlaneRequirement;

verus! {

/// A presentation plan violated a plan-local publication invariant.
#[derive(Debug, Clone, Copy, PartialEq, Eq, Structural)]
pub enum SceneBuildError {
    /// The popup-plane records do not match the plan's exact popup requirement.
    PopupPlaneRecordSetMismatch {
        /// Surface whose plan was rejected.
        surface: SurfaceId,
    },
    /// A scene operation named a surface outside the roster.
    SurfaceOutsideRoster {
        /// Unknown surface.
        surface: SurfaceId,
    },
    /// A surface without a ready plan cannot keep painting a stale one.
    BootstrapCannotBecomeStale {
        /// Surface without a paintable fallback.
        surface: SurfaceId,
    },
    /// A ready surface whose plan was never presented has nothing to keep painting.
    ReadySurfaceHasNoPaintFallback {
        /// Surface without a painted fallback.
        surface: SurfaceId,
    },
    /// A plan answers another requirement ticket than its surface's scene.
    PresentationTicketMismatch {
        /// Surface of the plan.
        surface: SurfaceId,
        /// Ticket of the surface's scene, if known.
        expected: Option<SurfaceMeasurementTicket>,
        /// Ticket of the plan.
        actual: SurfaceMeasurementTicket,
    },
    /// One surface's scene revision cannot advance.
    SurfaceSceneRevisionExhausted {
        /// Surface whose last issued revision is the largest one.
        surface: SurfaceId,
    },
    /// The plan's surface bounds have no area.
    EmptyReadySurfaceBounds {
        /// Surface whose plan was rejected.
        surface: SurfaceId,
    },
    /// Two pane records share one identity.
    DuplicatePane {
        /// Least repeated identity.
        id: PaneSceneId,
    },
    /// Two tab-bar records share one identity.
    DuplicateTabBar {
        /// Least repeated identity.
        id: TabBarSceneId,
    },
    /// Two tab records share one identity.
    DuplicateTab {
        /// Least repeated identity.
        id: TabSceneId,
    },
    /// Two splitter-gap records share one identity.
    DuplicateSplitterGap {
        /// Least repeated identity.
        id: SplitterSceneId,
    },
    /// Two splitter records share one identity.
    DuplicateSplitter {
        /// Least repeated identity.
        id: SplitterSceneId,
    },
    /// Two splitter-junction records share one identity.
    DuplicateSplitterJunction {
        /// Least repeated identity.
        id: SplitterJunctionId,
    },
    /// Two contained records name one contained presentation.
    DuplicateContainedRecord {
        /// Least repeated presentation.
        floating: FloatingPresentationId,
    },
    /// Two minimum measurements name one contained presentation.
    DuplicateContainedMinimumMeasurement {
        /// Least repeated presentation.
        floating: FloatingPresentationId,
    },
    /// Two drop occlusions name one contained presentation.
    DuplicateDropOcclusion {
        /// Least repeated presentation.
        floating: FloatingPresentationId,
    },
    /// The junction records are not as many as the junctions the plan must publish.
    SplitterJunctionRecordSetMismatch {
        /// Surface whose plan was rejected.
        surface: SurfaceId,
    },
    /// A tab-bar record's controls or open menu do not match the bar.
    InvalidTabBarRecord {
        /// Surface whose plan was rejected.
        surface: SurfaceId,
        /// Identity of the invalid bar.
        id: TabBarSceneId,
    },
    /// A visible tab record does not match its bar, items, or close policy.
    InvalidTabRecord {
        /// Surface whose plan was rejected.
        surface: SurfaceId,
        /// Identity of the first invalid record.
        id: TabSceneId,
    },
    /// The contained records are not as many as the visible contained presentations.
    ContainedRecordSetMismatch {
        /// Surface whose plan was rejected.
        surface: SurfaceId,
    },
    /// A contained record does not match its presentation's placement.
    InvalidContainedRecord {
        /// Surface whose plan was rejected.
        surface: SurfaceId,
        /// Presentation of the first invalid record.
        floating: FloatingPresentationId,
    },
    /// A contained presentation's roster position has no representable layer.
    ContainedLayerCapacityExceeded {
        /// Surface whose plan was rejected.
        surface: SurfaceId,
        /// The presentation.
        floating: FloatingPresentationId,
    },
    /// A rostered contained presentation has no drop occlusion.
    MissingDropOcclusion {
        /// Surface whose plan was rejected.
        surface: SurfaceId,
        /// First rostered presentation without an occlusion.
        floating: FloatingPresentationId,
    },
    /// A drop occlusion names a presentation outside the surface's roster.
    InvalidDropOcclusion {
        /// Surface whose plan was rejected.
        surface: SurfaceId,
        /// The unrostered presentation.
        floating: FloatingPresentationId,
    },
    /// A drop occlusion's layer differs from its presentation's roster layer.
    DropOcclusionLayerMismatch {
        /// Surface whose plan was rejected.
        surface: SurfaceId,
        /// The presentation.
        floating: FloatingPresentationId,
        /// Roster-derived layer.
        expected: SceneLayerKey,
        /// Published layer.
        actual: SceneLayerKey,
    },
    /// A drop occlusion has no area.
    EmptyDropOcclusionRegion {
        /// Surface whose plan was rejected.
        surface: SurfaceId,
        /// The presentation.
        floating: FloatingPresentationId,
    },
    /// A drop occlusion differs from its presentation's durable placement.
    DropOcclusionGeometryMismatch {
        /// Surface whose plan was rejected.
        surface: SurfaceId,
        /// The presentation.
        floating: FloatingPresentationId,
        /// Durable placement.
        expected: LogicalRect,
        /// Published region.
        actual: LogicalRect,
    },
    /// A rostered contained presentation has no minimum measurement.
    MissingContainedMinimumMeasurement {
        /// Surface whose plan was rejected.
        surface: SurfaceId,
        /// First rostered presentation without a measurement.
        floating: FloatingPresentationId,
    },
    /// A minimum measurement names a presentation outside the surface's roster.
    UnexpectedContainedMinimumMeasurement {
        /// Surface whose plan was rejected.
        surface: SurfaceId,
        /// Least unrostered presentation.
        floating: FloatingPresentationId,
    },
    /// The pane records are not exactly the tabs leaves of the compiled roots.
    PaneRecordSetMismatch {
        /// Surface whose plan was rejected.
        surface: SurfaceId,
    },
    /// A pane record disagrees with its tabs leaf or lies outside its bounds.
    InvalidPaneRecord {
        /// Surface whose plan was rejected.
        surface: SurfaceId,
        /// Identity of the invalid record.
        id: PaneSceneId,
    },
    /// The tab-bar records are not exactly the bars of the visible panes.
    TabBarRecordSetMismatch {
        /// Surface whose plan was rejected.
        surface: SurfaceId,
    },
    /// Some tab record belongs to a tab bar the plan does not publish.
    TabRecordSetMismatch {
        /// Surface whose plan was rejected.
        surface: SurfaceId,
    },
    /// The splitter-gap records are not exactly the gaps of the compiled split nodes.
    SplitterGapRecordSetMismatch {
        /// Surface whose plan was rejected.
        surface: SurfaceId,
    },
    /// The splitter records are not exactly the rendered splitter gaps.
    SplitterRecordSetMismatch {
        /// Surface whose plan was rejected.
        surface: SurfaceId,
    },
    /// A splitter record does not name a valid, consistently operable gap.
    InvalidSplitterRecord {
        /// Surface whose plan was rejected.
        surface: SurfaceId,
        /// Identity of the invalid record.
        id: SplitterSceneId,
    },
    /// A root's semantic record is published on a layer other than its root's.
    SemanticLayerMismatch {
        /// Surface whose plan was rejected.
        surface: SurfaceId,
        /// Root owning the semantic record.
        root: RootId,
        /// Layer of the root.
        expected: SceneLayerKey,
        /// Layer carried by the record.
        actual: SceneLayerKey,
    },
    /// A junction record does not match the derived junction of its identity.
    InvalidSplitterJunctionRecord {
        /// Surface whose plan was rejected.
        surface: SurfaceId,
        /// Identity of the first invalid record.
        id: SplitterJunctionId,
    },
}

/// `k` stands at two distinct positions of `s`.
pub open spec fn occurs_twice<K>(s: Seq<K>, k: K) -> bool {
    exists|i: int, j: int| 0 <= i < j < s.len() && s[i] == k && s[j] == k
}

/// `k` is repeated in `s`, and every other repeated key follows it canonically.
pub open spec fn is_least_duplicate<K: CanonicalKey>(s: Seq<K>, k: K) -> bool {
    &&& occurs_twice(s, k)
    &&& forall|o: K| #[trigger] occurs_twice(s, o) ==> o == k || k.key_lt(o)
}

/// The canonically least repeated key of `s`, if any key is repeated.
pub open spec fn least_duplicate<K: CanonicalKey>(s: Seq<K>) -> Option<K> {
    if exists|k: K| #[trigger] occurs_twice(s, k) {
        Some(choose|k: K| is_least_duplicate(s, k))
    } else {
        None
    }
}

proof fn lemma_least_duplicate_is<K: CanonicalKey>(s: Seq<K>, k: K)
    requires
        is_least_duplicate(s, k),
    ensures
        least_duplicate(s) == Some(k),
{
    let c = choose|c: K| is_least_duplicate(s, c);
    assert(is_least_duplicate(s, c));
    K::lemma_key_order(k, c, k);
    K::lemma_key_order(c, k, c);
}

proof fn lemma_occurs_twice_push<K>(s: Seq<K>, x: K, k: K)
    ensures
        occurs_twice(s.push(x), k) <==> (occurs_twice(s, k) || (k == x && s.contains(x))),
{
    let t = s.push(x);
    if occurs_twice(t, k) {
        let (i, j) = choose|i: int, j: int| 0 <= i < j < t.len() && t[i] == k && t[j] == k;
        if j < s.len() {
            assert(s[i] == k && s[j] == k);
        } else {
            assert(s[i] == k);
        }
    }
    if occurs_twice(s, k) {
        let (i, j) = choose|i: int, j: int| 0 <= i < j < s.len() && s[i] == k && s[j] == k;
        assert(t[i] == k && t[j] == k);
    }
    if k == x && s.contains(x) {
        let i = choose|i: int| 0 <= i < s.len() && s[i] == x;
        assert(t[i] == k && t[s.len() as int] == k);
    }
}

/// Returns the canonically least key that occurs more than once.
pub fn stable_duplicate<K: CanonicalKey>(keys: &[K]) -> (r: Option<K>)
    ensures
        r == least_duplicate(keys@),
{
    let mut seen: KeySet<K> = KeySet::new();
    let mut duplicates: KeySet<K> = KeySet::new();
    let mut index: usize = 0;
    while index < keys.len()
        invariant
            index <= keys@.len(),
            forall|k: K| #[trigger] seen.view_seq().contains(k) <==> keys@.take(index as int).contains(k),
            forall|k: K|
                #[trigger] duplicates.view_seq().contains(k) <==> occurs_twice(
                    keys@.take(index as int),
                    k,
                ),
        decreases keys@.len() - index,
    {
        let key = keys[index];
        let ghost prefix = keys@.take(index as int);
        proof {
            assert(keys@.take(index + 1) =~= prefix.push(key));
            assert forall|k: K| #[trigger] prefix.push(key).contains(k) <==> (prefix.contains(k)
                || k == key) by {
                if prefix.push(key).contains(k) {
                    let m = choose|m: int| 0 <= m < prefix.len() + 1 && prefix.push(key)[m] == k;
                    if m < prefix.len() {
                        assert(prefix[m] == k);
                    }
                }
                if prefix.contains(k) {
                    let m = choose|m: int| 0 <= m < prefix.len() && prefix[m] == k;
                    assert(prefix.push(key)[m] == k);
                }
                if k == key {
                    assert(prefix.push(key)[prefix.len() as int] == k);
                }
            }
            assert forall|k: K| #[trigger] occurs_twice(prefix.push(key), k) <==> (occurs_twice(
                prefix,
                k,
            ) || (k == key && prefix.contains(key))) by {
                lemma_occurs_twice_push(prefix, key, k);
            }
        }
        let fresh = seen.insert(key);
        if !fresh {
            duplicates.insert(key);
        }
        index = index + 1;
    }
    proof {
        assert(keys@.take(keys@.len() as int) =~= keys@);
    }
    let found = duplicates.as_slice();
    if found.len() == 0 {
        proof {
            assert forall|k: K| !#[trigger] occurs_twice(keys@, k) by {
                if occurs_twice(keys@, k) {
                    assert(found@.contains(k));
                }
            }
        }
        None
    } else {
        let least = found[0];
        proof {
            assert(found@.contains(least));
            assert forall|o: K| #[trigger] occurs_twice(keys@, o) implies o == least || least.key_lt(
                o,
            ) by {
                assert(found@.contains(o));
                let m = choose|m: int| 0 <= m < found@.len() && found@[m] == o;
                if m > 0 {
                    assert(canonical(found@));
                    assert(found@[0].key_lt(found@[m]));
                }
            }
            lemma_least_duplicate_is(keys@, least);
        }
        Some(least)
    }
}

/// A record carrying one semantic identity.
pub trait SemanticRecord: Sized {
    /// The identity's type.
    type Key: CanonicalKey;

    /// The record's semantic identity.
    spec fn semantic_key(&self) -> Self::Key;

    /// Returns the record's semantic identity.
    fn record_key(&self) -> (r: Self::Key)
        ensures
            r == self.semantic_key(),
    ;
}

/// Semantic identities of a record sequence, in record order.
pub open spec fn semantic_keys<R: SemanticRecord>(s: Seq<R>) -> Seq<R::Key> {
    s.map_values(|record: R| record.semantic_key())
}

/// Collects the semantic identities of `records`, in record order.
pub fn record_keys<R: SemanticRecord>(records: &[R]) -> (r: Vec<R::Key>)
    ensures
        r@ == semantic_keys(records@),
{
    let mut keys: Vec<R::Key> = Vec::new();
    let mut index: usize = 0;
    while index < records.len()
        invariant
            index <= records@.len(),
            keys@ == semantic_keys(records@.take(index as int)),
        decreases records@.len() - index,
    {
        proof {
            assert(records@.take(index + 1) =~= records@.take(index as int).push(records@[index as int]));
        }
        keys.push(records[index].record_key());
        index = index + 1;
        proof {
            assert(keys@ =~= semantic_keys(records@.take(index as int)));
        }
    }
    proof {
        assert(records@.take(records@.len() as int) =~= records@);
    }
    keys
}

impl SemanticRecord for PaneRecord {
    type Key = PaneSceneId;

    open spec fn semantic_key(&self) -> PaneSceneId {
        self.spec_id()
    }

    fn record_key(&self) -> (r: PaneSceneId) {
        self.id()
    }
}

impl SemanticRecord for TabBarRecord {
    type Key = TabBarSceneId;

    open spec fn semantic_key(&self) -> TabBarSceneId {
        self.spec_id()
    }

    fn record_key(&self) -> (r: TabBarSceneId) {
        *self.id()
    }
}

impl SemanticRecord for TabRecord {
    type Key = TabSceneId;

    open spec fn semantic_key(&self) -> TabSceneId {
        self.spec_id()
    }

    fn record_key(&self) -> (r: TabSceneId) {
        *self.id()
    }
}

impl SemanticRecord for SplitterGapRecord {
    type Key = SplitterSceneId;

    open spec fn semantic_key(&self) -> SplitterSceneId {
        self.spec_id()
    }

    fn record_key(&self) -> (r: SplitterSceneId) {
        self.id()
    }
}

impl SemanticRecord for SplitterRecord {
    type Key = SplitterSceneId;

    open spec fn semantic_key(&self) -> SplitterSceneId {
        self.spec_id()
    }

    fn record_key(&self) -> (r: SplitterSceneId) {
        *self.id()
    }
}

impl SemanticRecord for SplitterJunctionRecord {
    type Key = SplitterJunctionId;

    open spec fn semantic_key(&self) -> SplitterJunctionId {
        self.spec_id()
    }

    fn record_key(&self) -> (r: SplitterJunctionId) {
        self.id()
    }
}

impl SemanticRecord for ContainedRecord {
    type Key = FloatingPresentationId;

    open spec fn semantic_key(&self) -> FloatingPresentationId {
        self.spec_floating()
    }

    fn record_key(&self) -> (r: FloatingPresentationId) {
        self.floating()
    }
}

impl SemanticRecord for ContainedMinimumMeasurement {
    type Key = FloatingPresentationId;

    open spec fn semantic_key(&self) -> FloatingPresentationId {
        self.spec_floating()
    }

    fn record_key(&self) -> (r: FloatingPresentationId) {
        self.floating()
    }
}

impl SemanticRecord for DropOcclusionRecord {
    type Key = FloatingPresentationId;

    open spec fn semantic_key(&self) -> FloatingPresentationId {
        self.spec_floating()
    }

    fn record_key(&self) -> (r: FloatingPresentationId) {
        self.floating()
    }
}

/// The first identity conflict of a plan: record kinds are checked in
/// publication order, and within a kind the least repeated identity is named.
pub open spec fn uniqueness_error(plan: &PresentationPlan) -> Option<SceneBuildError> {
    if let Some(id) = least_duplicate(semantic_keys(plan.panes_view())) {
        Some(SceneBuildError::DuplicatePane { id })
    } else if let Some(id) = least_duplicate(semantic_keys(plan.tab_bars_view())) {
        Some(SceneBuildError::DuplicateTabBar { id })
    } else if let Some(id) = least_duplicate(semantic_keys(plan.tabs_view())) {
        Some(SceneBuildError::DuplicateTab { id })
    } else if let Some(id) = least_duplicate(semantic_keys(plan.gaps_view())) {
        Some(SceneBuildError::DuplicateSplitterGap { id })
    } else if let Some(id) = least_duplicate(semantic_keys(plan.splitters_view())) {
        Some(SceneBuildError::DuplicateSplitter { id })
    } else if let Some(id) = least_duplicate(semantic_keys(plan.junctions_view())) {
        Some(SceneBuildError::DuplicateSplitterJunction { id })
    } else if let Some(floating) = least_duplicate(semantic_keys(plan.contained_view())) {
        Some(SceneBuildError::DuplicateContainedRecord { floating })
    } else if let Some(floating) = least_duplicate(semantic_keys(plan.minimums_view())) {
        Some(SceneBuildError::DuplicateContainedMinimumMeasurement { floating })
    } else if let Some(floating) = least_duplicate(semantic_keys(plan.occlusions_view())) {
        Some(SceneBuildError::DuplicateDropOcclusion { floating })
    } else {
        None
    }
}

/// Rejects a plan in which two records of one kind share a semantic identity.
pub fn validate_semantic_uniqueness(ready: &PresentationPlan) -> (r: Result<(), SceneBuildError>)
    ensures
        r == match uniqueness_error(ready) {
            Some(error) => Err(error),
            None => Ok(()),
        },
{
    if let Some(id) = stable_duplicate(record_keys(ready.pane_records()).as_slice()) {
        return Err(SceneBuildError::DuplicatePane { id });
    }
    if let Some(id) = stable_duplicate(record_keys(ready.tab_bar_records()).as_slice()) {
        return Err(SceneBuildError::DuplicateTabBar { id });
    }
    if let Some(id) = stable_duplicate(record_keys(ready.tab_records()).as_slice()) {
        return Err(SceneBuildError::DuplicateTab { id });
    }
    if let Some(id) = stable_duplicate(record_keys(ready.splitter_gap_records()).as_slice()) {
        return Err(SceneBuildError::DuplicateSplitterGap { id });
    }
    if let Some(id) = stable_duplicate(record_keys(ready.splitter_records()).as_slice()) {
        return Err(SceneBuildError::DuplicateSplitter { id });
    }
    if let Some(id) = stable_duplicate(record_keys(ready.splitter_junction_records()).as_slice()) {
        return Err(SceneBuildError::DuplicateSplitterJunction { id });
    }
    if let Some(floating) = stable_duplicate(record_keys(ready.contained_records()).as_slice()) {
        return Err(SceneBuildError::DuplicateContainedRecord { floating });
    }
    if let Some(floating) = stable_duplicate(record_keys(ready.contained_minimums()).as_slice()) {
        return Err(SceneBuildError::DuplicateContainedMinimumMeasurement { floating });
    }
    if let Some(floating) = stable_duplicate(record_keys(ready.drop_occlusions()).as_slice()) {
        return Err(SceneBuildError::DuplicateDropOcclusion { floating });
    }
    Ok(())
}

/// No two positions of `s` hold one key.
pub open spec fn distinct_keys<K>(s: Seq<K>) -> bool {
    forall|i: int, j: int| 0 <= i < j < s.len() ==> s[i] != s[j]
}

/// A sequence has no least repeated key exactly when its keys are distinct.
pub proof fn lemma_no_duplicate_iff_distinct<K: CanonicalKey>(s: Seq<K>)
    ensures
        least_duplicate(s) is None <==> distinct_keys(s),
{
    if !distinct_keys(s) {
        let (i, j) = choose|i: int, j: int| 0 <= i < j < s.len() && s[i] == s[j];
        assert(occurs_twice(s, s[i]));
    }
    if distinct_keys(s) {
        assert forall|k: K| !#[trigger] occurs_twice(s, k) by {
            if occurs_twice(s, k) {
                let (i, j) = choose|i: int, j: int| 0 <= i < j < s.len() && s[i] == k && s[j] == k;
                assert(s[i] == s[j]);
            }
        }
    }
}

/// A plan passes identity validation exactly when, within each record kind,
/// no two records share a semantic identity.
pub proof fn lemma_uniqueness_is_distinctness(plan: &PresentationPlan)
    ensures
        uniqueness_error(plan) is None <==> {
            &&& distinct_keys(semantic_keys(plan.panes_view()))
            &&& distinct_keys(semantic_keys(plan.tab_bars_view()))
            &&& distinct_keys(semantic_keys(plan.tabs_view()))
            &&& distinct_keys(semantic_keys(plan.gaps_view()))
            &&& distinct_keys(semantic_keys(plan.splitters_view()))
            &&& distinct_keys(semantic_keys(plan.junctions_view()))
            &&& distinct_keys(semantic_keys(plan.contained_view()))
            &&& distinct_keys(semantic_keys(plan.minimums_view()))
            &&& distinct_keys(semantic_keys(plan.occlusions_view()))
        },
{
    lemma_no_duplicate_iff_distinct(semantic_keys(plan.panes_view()));
    lemma_no_duplicate_iff_distinct(semantic_keys(plan.tab_bars_view()));
    lemma_no_duplicate_iff_distinct(semantic_keys(plan.tabs_view()));
    lemma_no_duplicate_iff_distinct(semantic_keys(plan.gaps_view()));
    lemma_no_duplicate_iff_distinct(semantic_keys(plan.splitters_view()));
    lemma_no_duplicate_iff_distinct(semantic_keys(plan.junctions_view()));
    lemma_no_duplicate_iff_distinct(semantic_keys(plan.contained_view()));
    lemma_no_duplicate_iff_distinct(semantic_keys(plan.minimums_view()));
    lemma_no_duplicate_iff_distinct(semantic_keys(plan.occlusions_view()));
}

/// Reordering records keeps their semantic identities distinct.
pub proof fn lemma_reorder_keeps_identities_distinct<R: SemanticRecord>(s: Seq<R>, t: Seq<R>)
    requires
        s.to_multiset() == t.to_multiset(),
        distinct_keys(semantic_keys(t)),
    ensures
        distinct_keys(semantic_keys(s)),
{
    broadcast use vstd::seq_lib::group_to_multiset_ensures;

    assert(t.no_duplicates()) by {
        assert forall|i: int, j: int|
            0 <= i < t.len() && 0 <= j < t.len() && i != j implies t[i] != t[j] by {
            if i < j {
                assert(semantic_keys(t)[i] != semantic_keys(t)[j]);
            } else {
                assert(semantic_keys(t)[j] != semantic_keys(t)[i]);
            }
        }
    }
    t.lemma_multiset_has_no_duplicates();
    s.lemma_multiset_has_no_duplicates_conv();
    assert forall|i: int, j: int| 0 <= i < j < semantic_keys(s).len() implies semantic_keys(s)[i]
        != semantic_keys(s)[j] by {
        assert(s.contains(s[i]));
        assert(s.contains(s[j]));
        assert(t.to_multiset().contains(s[i]));
        assert(t.to_multiset().contains(s[j]));
        assert(t.contains(s[i]));
        assert(t.contains(s[j]));
        let p = choose|p: int| 0 <= p < t.len() && t[p] == s[i];
        let q = choose|q: int| 0 <= q < t.len() && t[q] == s[j];
        assert(s[i] != s[j]);
        if p < q {
            assert(semantic_keys(t)[p] != semantic_keys(t)[q]);
        } else if q < p {
            assert(semantic_keys(t)[q] != semantic_keys(t)[p]);
        }
    }
}

/// Records ordered by their semantic identity: distinct identities are distinct ordering keys.
proof fn lemma_identity_order<T: SemanticRecord + OrderedRecord<Order = <T as SemanticRecord>::Key>>(
    s: Seq<T>,
)
    requires
        forall|r: T| #[trigger] r.semantic_key() == r.order_key(),
        distinct_keys(semantic_keys(s)),
    ensures
        order_keys_distinct(s),
{
    assert forall|i: int, j: int| 0 <= i < j < s.len() implies (#[trigger] s[i]).order_key()
        != (#[trigger] s[j]).order_key() by {
        assert(semantic_keys(s)[i] == s[i].semantic_key());
        assert(semantic_keys(s)[j] == s[j].semantic_key());
    }
}

/// Canonicalizing a plan that passed identity validation keeps it valid and
/// lists every identity-checked record kind in strictly increasing identity
/// order.
pub proof fn lemma_validated_canonical_order(after: PresentationPlan, before: PresentationPlan)
    requires
        uniqueness_error(&before) is None,
        canonically_reordered(after, before),
    ensures
        uniqueness_error(&after) is None,
        strictly_increasing(after.panes_view()),
        strictly_increasing(after.tab_bars_view()),
        strictly_increasing(after.tabs_view()),
        strictly_increasing(after.gaps_view()),
        strictly_increasing(after.splitters_view()),
        strictly_increasing(after.junctions_view()),
        strictly_increasing(after.minimums_view()),
        strictly_increasing(after.occlusions_view()),
{
    lemma_uniqueness_is_distinctness(&before);
    lemma_reorder_keeps_identities_distinct(after.panes_view(), before.panes_view());
    lemma_reorder_keeps_identities_distinct(after.tab_bars_view(), before.tab_bars_view());
    lemma_reorder_keeps_identities_distinct(after.tabs_view(), before.tabs_view());
    lemma_reorder_keeps_identities_distinct(after.gaps_view(), before.gaps_view());
    lemma_reorder_keeps_identities_distinct(after.splitters_view(), before.splitters_view());
    lemma_reorder_keeps_identities_distinct(after.junctions_view(), before.junctions_view());
    lemma_reorder_keeps_identities_distinct(after.contained_view(), before.contained_view());
    lemma_reorder_keeps_identities_distinct(after.minimums_view(), before.minimums_view());
    lemma_reorder_keeps_identities_distinct(after.occlusions_view(), before.occlusions_view());
    lemma_uniqueness_is_distinctness(&after);
    lemma_identity_order(after.panes_view());
    lemma_identity_order(after.tab_bars_view());
    lemma_identity_order(after.tabs_view());
    lemma_identity_order(after.gaps_view());
    lemma_identity_order(after.splitters_view());
    lemma_identity_order(after.junctions_view());
    lemma_identity_order(after.minimums_view());
    lemma_identity_order(after.occlusions_view());
    lemma_sorted_distinct_is_strict(after.panes_view());
    lemma_sorted_distinct_is_strict(after.tab_bars_view());
    lemma_sorted_distinct_is_strict(after.tabs_view());
    lemma_sorted_distinct_is_strict(after.gaps_view());
    lemma_sorted_distinct_is_strict(after.splitters_view());
    lemma_sorted_distinct_is_strict(after.junctions_view());
    lemma_sorted_distinct_is_strict(after.minimums_view());
    lemma_sorted_distinct_is_strict(after.occlusions_view());
}

/// The plan's popup-plane records match its exact popup requirement: no popup
/// records while inactive; while active, a measured plane with positive area,
/// one backdrop covering exactly that plane for the open session and routing
/// revision, and one menu of the session's strip exactly on the owner's
/// surface.
pub open spec fn popup_plane_matches(plan: &PresentationPlan) -> bool {
    let backdrops = plan.backdrops_view();
    let menus = plan.menus_view();
    match plan.popup() {
        PopupPlaneRequirement::Inactive { .. } => {
            &&& plan.popup_plane_bounds() is None
            &&& backdrops.len() == 0
            &&& menus.len() == 0
        },
        PopupPlaneRequirement::Active { revision, session, owner } => {
            &&& plan.popup_plane_bounds() is Some
            &&& backdrops.len() == 1
            &&& backdrops[0].spec_session() == session
            &&& backdrops[0].spec_revision() == revision
            &&& plan.popup_plane_bounds().unwrap().has_area()
            &&& backdrops[0].spec_bounds() == plan.popup_plane_bounds().unwrap()
            &&& if owner.surface == plan.surface() {
                &&& menus.len() == 1
                &&& menus[0].spec_session() == session
                &&& menus[0].spec_bar() == owner.bar
            } else {
                menus.len() == 0
            }
        },
    }
}

/// Rejects a plan whose popup-plane records differ from its popup requirement.
pub fn validate_popup_plane(ready: &PresentationPlan) -> (r: Result<(), SceneBuildError>)
    ensures
        r == if popup_plane_matches(ready) {
            Ok(())
        } else {
            Err(SceneBuildError::PopupPlaneRecordSetMismatch { surface: ready.surface() })
        },
{
    let mismatch = Err(SceneBuildError::PopupPlaneRecordSetMismatch { surface: ready.surface() });
    let backdrops = ready.tab_list_menu_backdrop_records();
    let menus = ready.tab_list_menu_records();
    match ready.popup() {
        PopupPlaneRequirement::Inactive { .. } => {
            if ready.popup_plane_bounds().is_some() || backdrops.len() != 0 || menus.len() != 0 {
                return mismatch;
            }
        },
        PopupPlaneRequirement::Active { revision, session, owner } => {
            let plane = match ready.popup_plane_bounds() {
                Some(plane) => plane,
                None => {
                    return mismatch;
                },
            };
            if backdrops.len() != 1 || backdrops[0].session() != session || backdrops[0].revision()
                != revision || !plane.is_positive() || backdrops[0].bounds() != plane {
                return mismatch;
            }
            if owner.surface() == ready.surface() {
                if menus.len() != 1 || menus[0].session() != session || menus[0].bar()
                    != owner.bar() {
                    return mismatch;
                }
            } else if menus.len() != 0 {
                return mismatch;
            }
        },
    }
    Ok(())
}

} // verus!
