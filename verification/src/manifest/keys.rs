//! Measurement tickets and the exact keys of every measurement question.

use vstd::prelude::*;

use crate::collections::CanonicalKey;
use crate::ids::{
    EngineAuthorityDomainId, FloatingPresentationId, ItemId, NodeId, PolicyRevision,
    PresentationConfigRevision, RootId, SurfaceId, SurfaceRequirementRevision, WorkspaceEpoch,
};
use crate::records::splitter::{
    junction_id_less, junction_id_lt, lemma_junction_id_order, lemma_splitter_id_order,
    splitter_id_less, splitter_id_lt, Axis, SplitterJunctionId, SplitterSceneId,
};
use crate::records::tab::{PaneSceneId, TabBarSceneId, TabSceneId};
use crate::tab_strip::{TabListMenuSessionId, TabStripControlId};

verus! {

/// Core-issued identity of one surface's exact measurement question set.
#[derive(Debug, Clone, Copy, PartialEq, Eq, Structural, Hash)]
pub struct SurfaceMeasurementTicket {
    authority_domain: EngineAuthorityDomainId,
    workspace_epoch: WorkspaceEpoch,
    config: PresentationConfigRevision,
    policy: PolicyRevision,
    surface_requirement: SurfaceRequirementRevision,
    surface: SurfaceId,
}

impl SurfaceMeasurementTicket {
    /// Exact authority domain behind [`Self::authority_domain`].
    pub closed spec fn spec_authority_domain(self) -> EngineAuthorityDomainId {
        self.authority_domain
    }

    /// Exact epoch behind [`Self::workspace_epoch`].
    pub closed spec fn spec_workspace_epoch(self) -> WorkspaceEpoch {
        self.workspace_epoch
    }

    /// Exact configuration revision behind [`Self::config`].
    pub closed spec fn spec_config(self) -> PresentationConfigRevision {
        self.config
    }

    /// Exact policy revision behind [`Self::policy`].
    pub closed spec fn spec_policy(self) -> PolicyRevision {
        self.policy
    }

    /// Exact requirement revision behind [`Self::surface_requirement`].
    pub closed spec fn spec_surface_requirement(self) -> SurfaceRequirementRevision {
        self.surface_requirement
    }

    /// Exact surface behind [`Self::surface`].
    pub closed spec fn spec_surface(self) -> SurfaceId {
        self.surface
    }

    /// Tickets agreeing in every field are the same ticket.
    pub proof fn lemma_ticket_ext(self, other: Self)
        requires
            self.authority_domain() == other.authority_domain(),
            self.workspace_epoch() == other.workspace_epoch(),
            self.config() == other.config(),
            self.policy() == other.policy(),
            self.surface_requirement() == other.surface_requirement(),
            self.surface() == other.surface(),
        ensures
            self == other,
    {
    }

    /// Issues one ticket.
    pub fn new(
        authority_domain: EngineAuthorityDomainId,
        workspace_epoch: WorkspaceEpoch,
        config: PresentationConfigRevision,
        policy: PolicyRevision,
        surface_requirement: SurfaceRequirementRevision,
        surface: SurfaceId,
    ) -> (r: Self)
        ensures
            r.authority_domain() == authority_domain,
            r.workspace_epoch() == workspace_epoch,
            r.config() == config,
            r.policy() == policy,
            r.surface_requirement() == surface_requirement,
            r.surface() == surface,
    {
        SurfaceMeasurementTicket {
            authority_domain,
            workspace_epoch,
            config,
            policy,
            surface_requirement,
            surface,
        }
    }

    /// Returns the engine authority that issued this ticket.
    #[verifier::when_used_as_spec(spec_authority_domain)]
    pub fn authority_domain(self) -> (r: EngineAuthorityDomainId)
        ensures
            r == self.spec_authority_domain(),
    {
        self.authority_domain
    }

    /// Returns the workspace lineage the questions belong to.
    #[verifier::when_used_as_spec(spec_workspace_epoch)]
    pub fn workspace_epoch(self) -> (r: WorkspaceEpoch)
        ensures
            r == self.spec_workspace_epoch(),
    {
        self.workspace_epoch
    }

    /// Returns the presentation configuration revision.
    #[verifier::when_used_as_spec(spec_config)]
    pub fn config(self) -> (r: PresentationConfigRevision)
        ensures
            r == self.spec_config(),
    {
        self.config
    }

    /// Returns the policy revision.
    #[verifier::when_used_as_spec(spec_policy)]
    pub fn policy(self) -> (r: PolicyRevision)
        ensures
            r == self.spec_policy(),
    {
        self.policy
    }

    /// Returns the surface's independently replaceable requirement revision.
    #[verifier::when_used_as_spec(spec_surface_requirement)]
    pub fn surface_requirement(self) -> (r: SurfaceRequirementRevision)
        ensures
            r == self.spec_surface_requirement(),
    {
        self.surface_requirement
    }

    /// Returns the measured surface.
    #[verifier::when_used_as_spec(spec_surface)]
    pub fn surface(self) -> (r: SurfaceId)
        ensures
            r == self.spec_surface(),
    {
        self.surface
    }
}

/// Key of one surface's bounds question.
#[derive(Debug, Clone, Copy, PartialEq, Eq, Structural, PartialOrd, Ord, Hash)]
pub struct SurfaceBoundsKey {
    /// Measured surface.
    pub surface: SurfaceId,
}

impl SurfaceBoundsKey {
    /// Creates the bounds key of one surface.
    pub fn new(surface: SurfaceId) -> (r: Self)
        ensures
            r.surface == surface,
    {
        SurfaceBoundsKey { surface }
    }

    /// Returns the measured surface.
    pub fn surface(self) -> (r: SurfaceId)
        ensures
            r == self.surface,
    {
        self.surface
    }
}

/// Key of one surface's popup-plane bounds question.
#[derive(Debug, Clone, Copy, PartialEq, Eq, Structural, PartialOrd, Ord, Hash)]
pub struct PopupPlaneBoundsKey {
    /// Measured surface.
    pub surface: SurfaceId,
}

impl PopupPlaneBoundsKey {
    /// Creates the popup-plane key of one surface.
    pub fn new(surface: SurfaceId) -> (r: Self)
        ensures
            r.surface == surface,
    {
        PopupPlaneBoundsKey { surface }
    }

    /// Returns the measured surface.
    pub fn surface(self) -> (r: SurfaceId)
        ensures
            r == self.surface,
    {
        self.surface
    }
}

/// Key of one pane minimum-size question.
#[derive(Debug, Clone, Copy, PartialEq, Eq, Structural, PartialOrd, Ord, Hash)]
pub struct PaneMinimumKey {
    /// Owning root.
    pub root: RootId,
    /// Tabs node presented by the pane.
    pub tabs: NodeId,
    /// Selected item whose content is measured.
    pub selected: Option<ItemId>,
}

impl PaneMinimumKey {
    /// Creates one pane minimum key.
    pub fn new(root: RootId, tabs: NodeId, selected: Option<ItemId>) -> (r: Self)
        ensures
            r.root == root,
            r.tabs == tabs,
            r.selected == selected,
    {
        PaneMinimumKey { root, tabs, selected }
    }

    /// Returns the owning root.
    pub fn root(self) -> (r: RootId)
        ensures
            r == self.root,
    {
        self.root
    }

    /// Returns the tabs node.
    pub fn tabs(self) -> (r: NodeId)
        ensures
            r == self.tabs,
    {
        self.tabs
    }

    /// Returns the selected item.
    pub fn selected(self) -> (r: Option<ItemId>)
        ensures
            r == self.selected,
    {
        self.selected
    }
}

/// Key of one tab's intrinsic-width question.
#[derive(Debug, Clone, Copy, PartialEq, Eq, Structural, PartialOrd, Ord, Hash)]
pub struct TabIntrinsicKey {
    /// Measured surface.
    pub surface: SurfaceId,
    /// Measured tab.
    pub tab: TabSceneId,
}

impl TabIntrinsicKey {
    /// Creates one tab intrinsic key.
    pub fn new(surface: SurfaceId, tab: TabSceneId) -> (r: Self)
        ensures
            r.surface == surface,
            r.tab == tab,
    {
        TabIntrinsicKey { surface, tab }
    }

    /// Returns the measured surface.
    pub fn surface(self) -> (r: SurfaceId)
        ensures
            r == self.surface,
    {
        self.surface
    }

    /// Returns the measured tab.
    pub fn tab(self) -> (r: TabSceneId)
        ensures
            r == self.tab,
    {
        self.tab
    }
}

/// Key of one tab strip's reservation question.
#[derive(Debug, Clone, Copy, PartialEq, Eq, Structural, PartialOrd, Ord, Hash)]
pub struct TabStripKey {
    /// Measured surface.
    pub surface: SurfaceId,
    /// Measured tab bar.
    pub bar: TabBarSceneId,
}

impl TabStripKey {
    /// Creates one tab strip key.
    pub fn new(surface: SurfaceId, bar: TabBarSceneId) -> (r: Self)
        ensures
            r.surface == surface,
            r.bar == bar,
    {
        TabStripKey { surface, bar }
    }

    /// Returns the measured surface.
    pub fn surface(self) -> (r: SurfaceId)
        ensures
            r == self.surface,
    {
        self.surface
    }

    /// Returns the measured tab bar.
    pub fn bar(self) -> (r: TabBarSceneId)
        ensures
            r == self.bar,
    {
        self.bar
    }
}

/// Strict order of two raw identity pairs.
pub open spec fn pair_lt(a0: u64, a1: u64, b0: u64, b1: u64) -> bool {
    a0 < b0 || (a0 == b0 && a1 < b1)
}

/// Strict canonical order of tab-bar identities.
pub open spec fn bar_lt(a: TabBarSceneId, b: TabBarSceneId) -> bool {
    pair_lt(a.root.0, a.tabs.0, b.root.0, b.tabs.0)
}

/// Strict canonical order of tab identities.
pub open spec fn tab_lt(a: TabSceneId, b: TabSceneId) -> bool {
    pair_lt(a.root.0, a.tabs.0, b.root.0, b.tabs.0) || (a.root == b.root && a.tabs == b.tabs
        && a.item.0 < b.item.0)
}

/// Strict order of optional items: absent before present.
pub open spec fn item_option_lt(a: Option<ItemId>, b: Option<ItemId>) -> bool {
    match (a, b) {
        (None, Some(_)) => true,
        (Some(x), Some(y)) => x.0 < y.0,
        _ => false,
    }
}

fn bar_less(a: TabBarSceneId, b: TabBarSceneId) -> (r: bool)
    ensures
        r == bar_lt(a, b),
{
    a.root.0 < b.root.0 || (a.root.0 == b.root.0 && a.tabs.0 < b.tabs.0)
}

fn tab_less(a: TabSceneId, b: TabSceneId) -> (r: bool)
    ensures
        r == tab_lt(a, b),
{
    a.root.0 < b.root.0 || (a.root.0 == b.root.0 && (a.tabs.0 < b.tabs.0 || (a.tabs.0
        == b.tabs.0 && a.item.0 < b.item.0)))
}

impl CanonicalKey for SurfaceId {
    open spec fn key_lt(self, other: Self) -> bool {
        self.0 < other.0
    }

    proof fn lemma_key_order(a: Self, b: Self, c: Self) {
    }

    fn key_less(&self, other: &Self) -> (r: bool) {
        self.0 < other.0
    }

    fn key_same(&self, other: &Self) -> (r: bool) {
        *self == *other
    }
}

impl CanonicalKey for ItemId {
    open spec fn key_lt(self, other: Self) -> bool {
        self.0 < other.0
    }

    proof fn lemma_key_order(a: Self, b: Self, c: Self) {
    }

    fn key_less(&self, other: &Self) -> (r: bool) {
        self.0 < other.0
    }

    fn key_same(&self, other: &Self) -> (r: bool) {
        *self == *other
    }
}

impl CanonicalKey for TabBarSceneId {
    open spec fn key_lt(self, other: Self) -> bool {
        bar_lt(self, other)
    }

    proof fn lemma_key_order(a: Self, b: Self, c: Self) {
    }

    fn key_less(&self, other: &Self) -> (r: bool) {
        bar_less(*self, *other)
    }

    fn key_same(&self, other: &Self) -> (r: bool) {
        *self == *other
    }
}

impl CanonicalKey for PaneMinimumKey {
    open spec fn key_lt(self, other: Self) -> bool {
        pair_lt(self.root.0, self.tabs.0, other.root.0, other.tabs.0) || (self.root == other.root
            && self.tabs == other.tabs && item_option_lt(self.selected, other.selected))
    }

    proof fn lemma_key_order(a: Self, b: Self, c: Self) {
    }

    fn key_less(&self, other: &Self) -> (r: bool) {
        let selected_less = match (self.selected, other.selected) {
            (None, Some(_)) => true,
            (Some(x), Some(y)) => x.0 < y.0,
            _ => false,
        };
        self.root.0 < other.root.0 || (self.root.0 == other.root.0 && (self.tabs.0 < other.tabs.0
            || (self.tabs.0 == other.tabs.0 && selected_less)))
    }

    fn key_same(&self, other: &Self) -> (r: bool) {
        *self == *other
    }
}

impl CanonicalKey for TabIntrinsicKey {
    open spec fn key_lt(self, other: Self) -> bool {
        self.surface.0 < other.surface.0 || (self.surface == other.surface && tab_lt(
            self.tab,
            other.tab,
        ))
    }

    proof fn lemma_key_order(a: Self, b: Self, c: Self) {
    }

    fn key_less(&self, other: &Self) -> (r: bool) {
        self.surface.0 < other.surface.0 || (self.surface.0 == other.surface.0 && tab_less(
            self.tab,
            other.tab,
        ))
    }

    fn key_same(&self, other: &Self) -> (r: bool) {
        *self == *other
    }
}

impl CanonicalKey for TabStripKey {
    open spec fn key_lt(self, other: Self) -> bool {
        self.surface.0 < other.surface.0 || (self.surface == other.surface && bar_lt(
            self.bar,
            other.bar,
        ))
    }

    proof fn lemma_key_order(a: Self, b: Self, c: Self) {
    }

    fn key_less(&self, other: &Self) -> (r: bool) {
        self.surface.0 < other.surface.0 || (self.surface.0 == other.surface.0 && bar_less(
            self.bar,
            other.bar,
        ))
    }

    fn key_same(&self, other: &Self) -> (r: bool) {
        *self == *other
    }
}

impl CanonicalKey for PaneSceneId {
    open spec fn key_lt(self, other: Self) -> bool {
        pair_lt(self.root.0, self.tabs.0, other.root.0, other.tabs.0)
    }

    proof fn lemma_key_order(a: Self, b: Self, c: Self) {
    }

    fn key_less(&self, other: &Self) -> (r: bool) {
        self.root.0 < other.root.0 || (self.root.0 == other.root.0 && self.tabs.0 < other.tabs.0)
    }

    fn key_same(&self, other: &Self) -> (r: bool) {
        *self == *other
    }
}

impl CanonicalKey for TabSceneId {
    open spec fn key_lt(self, other: Self) -> bool {
        tab_lt(self, other)
    }

    proof fn lemma_key_order(a: Self, b: Self, c: Self) {
    }

    fn key_less(&self, other: &Self) -> (r: bool) {
        tab_less(*self, *other)
    }

    fn key_same(&self, other: &Self) -> (r: bool) {
        *self == *other
    }
}

impl CanonicalKey for FloatingPresentationId {
    open spec fn key_lt(self, other: Self) -> bool {
        self.0 < other.0
    }

    proof fn lemma_key_order(a: Self, b: Self, c: Self) {
    }

    fn key_less(&self, other: &Self) -> (r: bool) {
        self.0 < other.0
    }

    fn key_same(&self, other: &Self) -> (r: bool) {
        *self == *other
    }
}

impl CanonicalKey for SplitterSceneId {
    open spec fn key_lt(self, other: Self) -> bool {
        splitter_id_lt(self, other)
    }

    proof fn lemma_key_order(a: Self, b: Self, c: Self) {
        lemma_splitter_id_order(a, b, c);
    }

    fn key_less(&self, other: &Self) -> (r: bool) {
        splitter_id_less(*self, *other)
    }

    fn key_same(&self, other: &Self) -> (r: bool) {
        *self == *other
    }
}

impl CanonicalKey for Axis {
    open spec fn key_lt(self, other: Self) -> bool {
        self is Horizontal && other is Vertical
    }

    proof fn lemma_key_order(a: Self, b: Self, c: Self) {
    }

    fn key_less(&self, other: &Self) -> (r: bool) {
        match (self, other) {
            (Axis::Horizontal, Axis::Vertical) => true,
            _ => false,
        }
    }

    fn key_same(&self, other: &Self) -> (r: bool) {
        *self == *other
    }
}

impl CanonicalKey for SplitterJunctionId {
    open spec fn key_lt(self, other: Self) -> bool {
        junction_id_lt(self, other)
    }

    proof fn lemma_key_order(a: Self, b: Self, c: Self) {
        lemma_junction_id_order(a, b, c);
    }

    fn key_less(&self, other: &Self) -> (r: bool) {
        junction_id_less(*self, *other)
    }

    fn key_same(&self, other: &Self) -> (r: bool) {
        *self == *other
    }
}

impl CanonicalKey for usize {
    open spec fn key_lt(self, other: Self) -> bool {
        self < other
    }

    proof fn lemma_key_order(a: Self, b: Self, c: Self) {
    }

    fn key_less(&self, other: &Self) -> (r: bool) {
        *self < *other
    }

    fn key_same(&self, other: &Self) -> (r: bool) {
        *self == *other
    }
}

/// Declaration rank of a control kind: backward scroll, forward scroll, then the menu.
pub open spec fn control_rank(id: TabStripControlId) -> int {
    match id {
        TabStripControlId::ScrollBackward(_) => 0,
        TabStripControlId::ScrollForward(_) => 1,
        TabStripControlId::TabListMenu(_) => 2,
    }
}

/// The tab bar a control belongs to.
pub open spec fn control_bar(id: TabStripControlId) -> TabBarSceneId {
    match id {
        TabStripControlId::ScrollBackward(bar) => bar,
        TabStripControlId::ScrollForward(bar) => bar,
        TabStripControlId::TabListMenu(bar) => bar,
    }
}

fn control_parts(id: TabStripControlId) -> (r: (u8, TabBarSceneId))
    ensures
        r.0 == control_rank(id),
        r.1 == control_bar(id),
{
    match id {
        TabStripControlId::ScrollBackward(bar) => (0, bar),
        TabStripControlId::ScrollForward(bar) => (1, bar),
        TabStripControlId::TabListMenu(bar) => (2, bar),
    }
}

impl CanonicalKey for TabStripControlId {
    open spec fn key_lt(self, other: Self) -> bool {
        control_rank(self) < control_rank(other) || (control_rank(self) == control_rank(other)
            && bar_lt(control_bar(self), control_bar(other)))
    }

    proof fn lemma_key_order(a: Self, b: Self, c: Self) {
    }

    fn key_less(&self, other: &Self) -> (r: bool) {
        let (rank, bar) = control_parts(*self);
        let (other_rank, other_bar) = control_parts(*other);
        rank < other_rank || (rank == other_rank && bar_less(bar, other_bar))
    }

    fn key_same(&self, other: &Self) -> (r: bool) {
        *self == *other
    }
}

impl CanonicalKey for TabListMenuSessionId {
    open spec fn key_lt(self, other: Self) -> bool {
        ||| self.key.surface.0 < other.key.surface.0
        ||| self.key.surface == other.key.surface && bar_lt(self.key.bar, other.key.bar)
        ||| self.key == other.key && self.serial < other.serial
    }

    proof fn lemma_key_order(a: Self, b: Self, c: Self) {
    }

    fn key_less(&self, other: &Self) -> (r: bool) {
        self.key.surface.0 < other.key.surface.0 || (self.key.surface.0 == other.key.surface.0 && (
        bar_less(self.key.bar, other.key.bar) || (self.key.bar == other.key.bar && self.serial
            < other.serial)))
    }

    fn key_same(&self, other: &Self) -> (r: bool) {
        *self == *other
    }
}

} // verus!
