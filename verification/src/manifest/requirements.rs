//! Surface requirement sets and the scene requirement manifest.

use vstd::prelude::*;

use crate::collections::{canonical, entry_keys, lookup, KeyMap, KeySet};
use crate::ids::{ItemId, SurfaceId};
use crate::manifest::keys::{
    PaneMinimumKey, PopupPlaneBoundsKey, SurfaceBoundsKey, SurfaceMeasurementTicket,
    TabIntrinsicKey, TabStripKey,
};
use crate::policy::{CloseCapability, TabBarPolicy};
use crate::records::tab::TabBarSceneId;

verus! {

/// Frozen policy facts of one tab bar named by a surface's requirements.
#[derive(Debug, Clone, PartialEq, Eq)]
pub struct TabBarRequirement {
    id: TabBarSceneId,
    policy: TabBarPolicy,
    close_capabilities: KeyMap<ItemId, CloseCapability>,
}

/// The exact measurement questions of one surface.
#[derive(Debug, Clone, PartialEq, Eq)]
pub struct SurfaceRequirements {
    ticket: SurfaceMeasurementTicket,
    bounds: SurfaceBoundsKey,
    popup_plane_bounds: Option<PopupPlaneBoundsKey>,
    pane_minimums: KeySet<PaneMinimumKey>,
    tab_intrinsics: KeySet<TabIntrinsicKey>,
    tab_strips: KeySet<TabStripKey>,
    tab_bars: KeyMap<TabBarSceneId, TabBarRequirement>,
}

impl TabBarRequirement {
    /// Exact identity behind [`Self::id`].
    pub closed spec fn spec_id(&self) -> TabBarSceneId {
        self.id
    }

    /// Exact policy behind [`Self::policy`].
    pub closed spec fn spec_policy(&self) -> TabBarPolicy {
        self.policy
    }

    /// Item close capabilities in item identity order.
    pub closed spec fn close_view(&self) -> Seq<(ItemId, CloseCapability)> {
        self.close_capabilities.view_seq()
    }

    /// Freezes the policy and close capabilities of one tabs leaf.
    pub fn new(
        id: TabBarSceneId,
        policy: TabBarPolicy,
        close_capabilities: KeyMap<ItemId, CloseCapability>,
    ) -> (r: Self)
        ensures
            r.id() == id,
            r.policy() == policy,
            r.close_view() == close_capabilities.view_seq(),
    {
        TabBarRequirement { id, policy, close_capabilities }
    }

    /// Returns the semantic tabs-leaf identity.
    #[verifier::when_used_as_spec(spec_id)]
    pub fn id(&self) -> (r: TabBarSceneId)
        ensures
            r == self.spec_id(),
    {
        self.id
    }

    /// Returns the frozen presentation policy.
    #[verifier::when_used_as_spec(spec_policy)]
    pub fn policy(&self) -> (r: TabBarPolicy)
        ensures
            r == self.spec_policy(),
    {
        self.policy
    }

    /// Returns the frozen close capability of `item`, if the leaf holds it.
    pub fn close_capability(&self, item: ItemId) -> (r: Option<CloseCapability>)
        ensures
            r == lookup(self.close_view(), item),
    {
        match self.close_capabilities.get(&item) {
            Some(capability) => Some(*capability),
            None => None,
        }
    }

    /// Returns the item close capabilities in item identity order.
    pub fn close_capabilities(&self) -> (r: &[(ItemId, CloseCapability)])
        ensures
            r@ == self.close_view(),
            canonical(entry_keys(r@)),
    {
        self.close_capabilities.entries()
    }
}

impl SurfaceRequirements {
    /// Exact ticket behind [`Self::ticket`].
    pub closed spec fn spec_ticket(&self) -> SurfaceMeasurementTicket {
        self.ticket
    }

    /// Exact key behind [`Self::bounds`].
    pub closed spec fn spec_bounds(&self) -> SurfaceBoundsKey {
        self.bounds
    }

    /// Exact key behind [`Self::popup_plane_bounds`].
    pub closed spec fn spec_popup_plane_bounds(&self) -> Option<PopupPlaneBoundsKey> {
        self.popup_plane_bounds
    }

    /// Pane-minimum questions in canonical order.
    pub closed spec fn pane_minimums_view(&self) -> Seq<PaneMinimumKey> {
        self.pane_minimums.view_seq()
    }

    /// Tab-intrinsic questions in canonical order.
    pub closed spec fn tab_intrinsics_view(&self) -> Seq<TabIntrinsicKey> {
        self.tab_intrinsics.view_seq()
    }

    /// Tab-strip questions in canonical order.
    pub closed spec fn tab_strips_view(&self) -> Seq<TabStripKey> {
        self.tab_strips.view_seq()
    }

    /// Tab-bar requirements in tab-bar identity order.
    pub closed spec fn tab_bars_view(&self) -> Seq<(TabBarSceneId, TabBarRequirement)> {
        self.tab_bars.view_seq()
    }

    /// This requirement set with its popup-plane question replaced by `key`.
    pub closed spec fn with_popup_plane_bounds(self, key: Option<PopupPlaneBoundsKey>) -> Self {
        SurfaceRequirements { popup_plane_bounds: key, ..self }
    }

    /// Replacing the popup-plane question changes nothing else.
    pub proof fn lemma_with_popup_plane_bounds(self, key: Option<PopupPlaneBoundsKey>)
        ensures
            self.with_popup_plane_bounds(key).popup_plane_bounds() == key,
            self.with_popup_plane_bounds(key).ticket() == self.ticket(),
            self.with_popup_plane_bounds(key).bounds() == self.bounds(),
            self.with_popup_plane_bounds(key).pane_minimums_view() == self.pane_minimums_view(),
            self.with_popup_plane_bounds(key).tab_intrinsics_view() == self.tab_intrinsics_view(),
            self.with_popup_plane_bounds(key).tab_strips_view() == self.tab_strips_view(),
            self.with_popup_plane_bounds(key).tab_bars_view() == self.tab_bars_view(),
    {
    }

    /// Asks, or stops asking, for this surface's popup-plane bounds.
    pub(crate) fn set_popup_plane_bounds(&mut self, key: Option<PopupPlaneBoundsKey>)
        ensures
            *final(self) == old(self).with_popup_plane_bounds(key),
    {
        self.popup_plane_bounds = key;
    }

    /// Builds the exact question set of one surface from its ticket.
    ///
    /// Every tab intrinsic and tab strip must belong to the ticket's surface,
    /// and every tab-bar entry must be keyed by its own identity.
    #[verifier::loop_isolation(false)]
    pub fn new(
        ticket: SurfaceMeasurementTicket,
        pane_minimums: KeySet<PaneMinimumKey>,
        tab_intrinsics: KeySet<TabIntrinsicKey>,
        tab_strips: KeySet<TabStripKey>,
        tab_bars: KeyMap<TabBarSceneId, TabBarRequirement>,
    ) -> (r: Result<Self, RequirementBuildError>)
        ensures
            r is Err <==> requirement_build_error(
                ticket.surface(),
                tab_intrinsics.view_seq(),
                tab_strips.view_seq(),
                tab_bars.view_seq(),
            ) is Some,
            r matches Err(e) ==> requirement_build_error(
                ticket.surface(),
                tab_intrinsics.view_seq(),
                tab_strips.view_seq(),
                tab_bars.view_seq(),
            ) == Some(e),
            r matches Ok(q) ==> {
                &&& q.ticket() == ticket
                &&& q.bounds() == (SurfaceBoundsKey { surface: ticket.surface() })
                &&& q.popup_plane_bounds() is None
                &&& q.pane_minimums_view() == pane_minimums.view_seq()
                &&& q.tab_intrinsics_view() == tab_intrinsics.view_seq()
                &&& q.tab_strips_view() == tab_strips.view_seq()
                &&& q.tab_bars_view() == tab_bars.view_seq()
                &&& bars_keyed_by_identity(q.tab_bars_view())
            },
    {
        let surface = ticket.surface();
        let intrinsics = tab_intrinsics.as_slice();
        let mut index: usize = 0;
        assert(intrinsics@.subrange(0, intrinsics@.len() as int) =~= intrinsics@);
        while index < intrinsics.len()
            invariant
                index <= intrinsics@.len(),
                first_foreign_intrinsic(surface, intrinsics@) == first_foreign_intrinsic(
                    surface,
                    intrinsics@.subrange(index as int, intrinsics@.len() as int),
                ),
            decreases intrinsics@.len() - index,
        {
            let ghost rest = intrinsics@.subrange(index as int, intrinsics@.len() as int);
            assert(rest.drop_first() =~= intrinsics@.subrange(
                index + 1,
                intrinsics@.len() as int,
            ));
            if intrinsics[index].surface != surface {
                return Err(
                    RequirementBuildError::TabIntrinsicSurfaceMismatch {
                        expected: surface,
                        actual: intrinsics[index].surface,
                    },
                );
            }
            index = index + 1;
        }
        let strips = tab_strips.as_slice();
        let mut index: usize = 0;
        assert(strips@.subrange(0, strips@.len() as int) =~= strips@);
        while index < strips.len()
            invariant
                index <= strips@.len(),
                first_foreign_intrinsic(surface, intrinsics@) is None,
                first_foreign_strip(surface, strips@) == first_foreign_strip(
                    surface,
                    strips@.subrange(index as int, strips@.len() as int),
                ),
            decreases strips@.len() - index,
        {
            let ghost rest = strips@.subrange(index as int, strips@.len() as int);
            assert(rest.drop_first() =~= strips@.subrange(index + 1, strips@.len() as int));
            if strips[index].surface != surface {
                return Err(
                    RequirementBuildError::TabStripSurfaceMismatch {
                        expected: surface,
                        actual: strips[index].surface,
                    },
                );
            }
            index = index + 1;
        }
        let bars = tab_bars.entries();
        let mut index: usize = 0;
        assert(bars@.subrange(0, bars@.len() as int) =~= bars@);
        while index < bars.len()
            invariant
                index <= bars@.len(),
                first_foreign_intrinsic(surface, intrinsics@) is None,
                first_foreign_strip(surface, strips@) is None,
                first_bar_mismatch(bars@) == first_bar_mismatch(
                    bars@.subrange(index as int, bars@.len() as int),
                ),
                forall|j: int| 0 <= j < index ==> (#[trigger] bars@[j]).0 == bars@[j].1.spec_id(),
            decreases bars@.len() - index,
        {
            let ghost rest = bars@.subrange(index as int, bars@.len() as int);
            assert(rest.drop_first() =~= bars@.subrange(index + 1, bars@.len() as int));
            let id = bars[index].1.id();
            if bars[index].0 != id {
                return Err(
                    RequirementBuildError::TabBarIdentityMismatch {
                        map_key: bars[index].0,
                        requirement: id,
                    },
                );
            }
            index = index + 1;
        }
        assert(bars@.subrange(index as int, bars@.len() as int).len() == 0);
        Ok(
            SurfaceRequirements {
                ticket,
                bounds: SurfaceBoundsKey::new(surface),
                popup_plane_bounds: None,
                pane_minimums,
                tab_intrinsics,
                tab_strips,
                tab_bars,
            },
        )
    }

    /// Returns the frozen requirement of one tab bar, if the surface holds it.
    pub fn tab_bar(&self, id: TabBarSceneId) -> (r: Option<&TabBarRequirement>)
        ensures
            r is None <==> lookup(self.tab_bars_view(), id) is None,
            r matches Some(bar) ==> lookup(self.tab_bars_view(), id) == Some(*bar),
    {
        self.tab_bars.get(&id)
    }

    /// Returns the tab-bar requirements in tab-bar identity order.
    pub fn tab_bars(&self) -> (r: &[(TabBarSceneId, TabBarRequirement)])
        ensures
            r@ == self.tab_bars_view(),
            canonical(entry_keys(r@)),
    {
        self.tab_bars.entries()
    }

    /// Returns the ticket of this requirement set.
    #[verifier::when_used_as_spec(spec_ticket)]
    pub fn ticket(&self) -> (r: SurfaceMeasurementTicket)
        ensures
            r == self.spec_ticket(),
    {
        self.ticket
    }

    /// Returns the surface-bounds question.
    #[verifier::when_used_as_spec(spec_bounds)]
    pub fn bounds(&self) -> (r: SurfaceBoundsKey)
        ensures
            r == self.spec_bounds(),
    {
        self.bounds
    }

    /// Returns the popup-plane question, present only while a popup is active.
    #[verifier::when_used_as_spec(spec_popup_plane_bounds)]
    pub fn popup_plane_bounds(&self) -> (r: Option<PopupPlaneBoundsKey>)
        ensures
            r == self.spec_popup_plane_bounds(),
    {
        self.popup_plane_bounds
    }

    /// Returns the pane-minimum questions in canonical order.
    pub fn pane_minimums(&self) -> (r: &[PaneMinimumKey])
        ensures
            r@ == self.pane_minimums_view(),
            crate::collections::canonical(r@),
    {
        self.pane_minimums.as_slice()
    }

    /// Returns the tab-intrinsic questions in canonical order.
    pub fn tab_intrinsics(&self) -> (r: &[TabIntrinsicKey])
        ensures
            r@ == self.tab_intrinsics_view(),
            crate::collections::canonical(r@),
    {
        self.tab_intrinsics.as_slice()
    }

    /// Returns the tab-strip questions in canonical order.
    pub fn tab_strips(&self) -> (r: &[TabStripKey])
        ensures
            r@ == self.tab_strips_view(),
            crate::collections::canonical(r@),
    {
        self.tab_strips.as_slice()
    }
}

/// The surface of the first tab intrinsic that belongs to another surface.
pub open spec fn first_foreign_intrinsic(surface: SurfaceId, keys: Seq<TabIntrinsicKey>) -> Option<
    SurfaceId,
>
    decreases keys.len(),
{
    if keys.len() == 0 {
        None
    } else if keys[0].surface != surface {
        Some(keys[0].surface)
    } else {
        first_foreign_intrinsic(surface, keys.drop_first())
    }
}

/// The surface of the first tab strip that belongs to another surface.
pub open spec fn first_foreign_strip(surface: SurfaceId, keys: Seq<TabStripKey>) -> Option<
    SurfaceId,
>
    decreases keys.len(),
{
    if keys.len() == 0 {
        None
    } else if keys[0].surface != surface {
        Some(keys[0].surface)
    } else {
        first_foreign_strip(surface, keys.drop_first())
    }
}

/// Every tab-bar requirement is stored under its own identity.
pub open spec fn bars_keyed_by_identity(bars: Seq<(TabBarSceneId, TabBarRequirement)>) -> bool {
    forall|i: int| 0 <= i < bars.len() ==> (#[trigger] bars[i]).0 == bars[i].1.id()
}

/// Looking up a tab bar among requirements stored under their own
/// identities yields the requirement of that very tab bar.
pub proof fn lemma_tab_bar_lookup_identity(
    bars: Seq<(TabBarSceneId, TabBarRequirement)>,
    id: TabBarSceneId,
)
    requires
        bars_keyed_by_identity(bars),
    ensures
        lookup(bars, id) matches Some(bar) ==> bar.id() == id,
{
    if entry_keys(bars).contains(id) {
        let i = choose|i: int| 0 <= i < bars.len() && #[trigger] bars[i].0 == id;
        assert(bars[i].0 == bars[i].1.id());
    }
}

/// The first tab-bar entry keyed by another identity than its requirement's.
pub open spec fn first_bar_mismatch(bars: Seq<(TabBarSceneId, TabBarRequirement)>) -> Option<
    (TabBarSceneId, TabBarSceneId),
>
    decreases bars.len(),
{
    if bars.len() == 0 {
        None
    } else if bars[0].0 != bars[0].1.id() {
        Some((bars[0].0, bars[0].1.id()))
    } else {
        first_bar_mismatch(bars.drop_first())
    }
}

/// Why a surface requirement set cannot be built, checked in a fixed order:
/// tab intrinsics, tab strips, then tab-bar identities.
pub open spec fn requirement_build_error(
    surface: SurfaceId,
    intrinsics: Seq<TabIntrinsicKey>,
    strips: Seq<TabStripKey>,
    bars: Seq<(TabBarSceneId, TabBarRequirement)>,
) -> Option<RequirementBuildError> {
    if let Some(actual) = first_foreign_intrinsic(surface, intrinsics) {
        Some(RequirementBuildError::TabIntrinsicSurfaceMismatch { expected: surface, actual })
    } else if let Some(actual) = first_foreign_strip(surface, strips) {
        Some(RequirementBuildError::TabStripSurfaceMismatch { expected: surface, actual })
    } else if let Some((map_key, requirement)) = first_bar_mismatch(bars) {
        Some(RequirementBuildError::TabBarIdentityMismatch { map_key, requirement })
    } else {
        None
    }
}

/// Invalid construction of one surface requirement set.
#[derive(Debug, Clone, Copy, PartialEq, Eq, Structural)]
pub enum RequirementBuildError {
    /// A tab-bar map key disagreed with the requirement's own identity.
    TabBarIdentityMismatch {
        /// Identity used as the map key.
        map_key: TabBarSceneId,
        /// Identity carried by the requirement.
        requirement: TabBarSceneId,
    },
    /// A tab intrinsic named another surface than the ticket.
    TabIntrinsicSurfaceMismatch {
        /// Ticket surface.
        expected: SurfaceId,
        /// Key surface.
        actual: SurfaceId,
    },
    /// A tab strip named another surface than the ticket.
    TabStripSurfaceMismatch {
        /// Ticket surface.
        expected: SurfaceId,
        /// Key surface.
        actual: SurfaceId,
    },
}

} // verus!
