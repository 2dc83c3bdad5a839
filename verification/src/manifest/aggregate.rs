//! The aggregate requirement manifest of one workspace state: a draft built
//! from per-surface requirement sets, then finalized against the popup plane.

use vstd::prelude::*;

use crate::collections::{canonical, entry_keys, lookup, KeyMap};
use crate::ids::{
    EngineAuthorityDomainId, PolicyRevision, PresentationConfigRevision, RequirementRevision,
    SurfaceId, WorkspaceEpoch, WorkspaceVersion,
};
use crate::manifest::keys::{PopupPlaneBoundsKey, SurfaceMeasurementTicket, TabStripKey};
use crate::manifest::measurements::{
    validation_error, MeasurementValidationError, SurfaceMeasurements,
    ValidatedSurfaceMeasurements,
};
use crate::manifest::requirements::SurfaceRequirements;
use crate::policy::TabBarInteraction;
use crate::tab_strip::{PopupPlaneRequirement, TabStripStateKey};

verus! {

/// The first way in which one surface entry disagrees with the aggregate
/// identity, checked in a fixed order: surface, authority domain, workspace
/// epoch, configuration, policy.
pub open spec fn surface_identity_error(
    authority_domain: EngineAuthorityDomainId,
    workspace: WorkspaceVersion,
    config: PresentationConfigRevision,
    policy: PolicyRevision,
    surface: SurfaceId,
    ticket: SurfaceMeasurementTicket,
) -> Option<ManifestBuildError> {
    if ticket.surface() != surface {
        Some(ManifestBuildError::SurfaceMismatch { map_key: surface, ticket: ticket.surface() })
    } else if ticket.authority_domain() != authority_domain {
        Some(
            ManifestBuildError::AuthorityDomainMismatch {
                surface,
                expected: authority_domain,
                actual: ticket.authority_domain(),
            },
        )
    } else if ticket.workspace_epoch() != workspace.epoch {
        Some(
            ManifestBuildError::WorkspaceEpochMismatch {
                surface,
                expected: workspace.epoch,
                actual: ticket.workspace_epoch(),
            },
        )
    } else if ticket.config() != config {
        Some(ManifestBuildError::ConfigMismatch { surface, expected: config, actual: ticket.config() })
    } else if ticket.policy() != policy {
        Some(ManifestBuildError::PolicyMismatch { surface, expected: policy, actual: ticket.policy() })
    } else {
        None
    }
}

/// The identity error of the first incoherent surface entry, in surface order.
pub open spec fn manifest_identity_error(
    authority_domain: EngineAuthorityDomainId,
    workspace: WorkspaceVersion,
    config: PresentationConfigRevision,
    policy: PolicyRevision,
    surfaces: Seq<(SurfaceId, SurfaceRequirements)>,
) -> Option<ManifestBuildError>
    decreases surfaces.len(),
{
    if surfaces.len() == 0 {
        None
    } else if surface_identity_error(
        authority_domain,
        workspace,
        config,
        policy,
        surfaces[0].0,
        surfaces[0].1.ticket(),
    ) is Some {
        surface_identity_error(
            authority_domain,
            workspace,
            config,
            policy,
            surfaces[0].0,
            surfaces[0].1.ticket(),
        )
    } else {
        manifest_identity_error(authority_domain, workspace, config, policy, surfaces.drop_first())
    }
}

/// Every surface entry agrees with the aggregate identity: its ticket names
/// the entry's own surface and the aggregate's authority domain, workspace
/// epoch, configuration, and policy.
pub open spec fn surfaces_coherent(
    authority_domain: EngineAuthorityDomainId,
    workspace: WorkspaceVersion,
    config: PresentationConfigRevision,
    policy: PolicyRevision,
    surfaces: Seq<(SurfaceId, SurfaceRequirements)>,
) -> bool {
    forall|i: int|
        0 <= i < surfaces.len() ==> surface_identity_error(
            authority_domain,
            workspace,
            config,
            policy,
            (#[trigger] surfaces[i]).0,
            surfaces[i].1.ticket(),
        ) is None
}

proof fn lemma_no_identity_error_is_coherent(
    authority_domain: EngineAuthorityDomainId,
    workspace: WorkspaceVersion,
    config: PresentationConfigRevision,
    policy: PolicyRevision,
    surfaces: Seq<(SurfaceId, SurfaceRequirements)>,
)
    requires
        manifest_identity_error(authority_domain, workspace, config, policy, surfaces) is None,
    ensures
        surfaces_coherent(authority_domain, workspace, config, policy, surfaces),
    decreases surfaces.len(),
{
    if surfaces.len() > 0 {
        let rest = surfaces.drop_first();
        lemma_no_identity_error_is_coherent(authority_domain, workspace, config, policy, rest);
        assert forall|i: int| 0 <= i < surfaces.len() implies surface_identity_error(
            authority_domain,
            workspace,
            config,
            policy,
            (#[trigger] surfaces[i]).0,
            surfaces[i].1.ticket(),
        ) is None by {
            if i > 0 {
                assert(surfaces[i] == rest[i - 1]);
            }
        }
    }
}

/// Asking every surface for its popup-plane bounds keeps each entry's
/// surface and ticket, so a coherent roster stays coherent.
pub proof fn lemma_popup_plane_keeps_coherence(
    authority_domain: EngineAuthorityDomainId,
    workspace: WorkspaceVersion,
    config: PresentationConfigRevision,
    policy: PolicyRevision,
    surfaces: Seq<(SurfaceId, SurfaceRequirements)>,
    active: bool,
)
    requires
        surfaces_coherent(authority_domain, workspace, config, policy, surfaces),
    ensures
        surfaces_coherent(
            authority_domain,
            workspace,
            config,
            policy,
            popup_plane_applied(surfaces, active),
        ),
{
    let applied = popup_plane_applied(surfaces, active);
    assert forall|i: int| 0 <= i < applied.len() implies surface_identity_error(
        authority_domain,
        workspace,
        config,
        policy,
        (#[trigger] applied[i]).0,
        applied[i].1.ticket(),
    ) is None by {
        assert(surface_identity_error(
            authority_domain,
            workspace,
            config,
            policy,
            surfaces[i].0,
            surfaces[i].1.ticket(),
        ) is None);
        if active {
            surfaces[i].1.lemma_with_popup_plane_bounds(
                Some(PopupPlaneBoundsKey { surface: surfaces[i].0 }),
            );
        }
    }
}

/// The requirement set a coherent roster holds for a surface belongs to that
/// surface and carries the roster's authority domain, workspace epoch,
/// configuration, and policy.
pub proof fn lemma_coherent_surface_lookup(
    authority_domain: EngineAuthorityDomainId,
    workspace: WorkspaceVersion,
    config: PresentationConfigRevision,
    policy: PolicyRevision,
    surfaces: Seq<(SurfaceId, SurfaceRequirements)>,
    surface: SurfaceId,
)
    requires
        surfaces_coherent(authority_domain, workspace, config, policy, surfaces),
    ensures
        lookup(surfaces, surface) matches Some(q) ==> {
            &&& q.ticket().surface() == surface
            &&& q.ticket().authority_domain() == authority_domain
            &&& q.ticket().workspace_epoch() == workspace.epoch
            &&& q.ticket().config() == config
            &&& q.ticket().policy() == policy
        },
{
    if entry_keys(surfaces).contains(surface) {
        let i = choose|i: int| 0 <= i < surfaces.len() && #[trigger] surfaces[i].0 == surface;
        assert(surface_identity_error(
            authority_domain,
            workspace,
            config,
            policy,
            surfaces[i].0,
            surfaces[i].1.ticket(),
        ) is None);
    }
}

/// Why a draft cannot be built: surface identities first, then the version of
/// the structural index the draft was derived with.
pub open spec fn draft_build_error(
    authority_domain: EngineAuthorityDomainId,
    workspace: WorkspaceVersion,
    index_version: WorkspaceVersion,
    config: PresentationConfigRevision,
    policy: PolicyRevision,
    surfaces: Seq<(SurfaceId, SurfaceRequirements)>,
) -> Option<ManifestBuildError> {
    if manifest_identity_error(authority_domain, workspace, config, policy, surfaces) is Some {
        manifest_identity_error(authority_domain, workspace, config, policy, surfaces)
    } else if index_version != workspace {
        Some(
            ManifestBuildError::WorkspaceIndexVersionMismatch {
                manifest: workspace,
                index: index_version,
            },
        )
    } else {
        None
    }
}

/// Why an active popup cannot be presented by the roster, checked in a fixed
/// order: session and owner agree, the owner's surface is in the roster, its
/// strip is live and has a tab-bar requirement, and that bar is interactive.
pub open spec fn popup_requirement_error(
    surfaces: Seq<(SurfaceId, SurfaceRequirements)>,
    popup: PopupPlaneRequirement,
) -> Option<ManifestBuildError> {
    match popup {
        PopupPlaneRequirement::Inactive { .. } => None,
        PopupPlaneRequirement::Active { session, owner, .. } => {
            if session.key != owner {
                Some(ManifestBuildError::PopupSessionOwnerMismatch { session: session.key, owner })
            } else {
                match lookup(surfaces, owner.surface) {
                    None => Some(ManifestBuildError::PopupOwnerSurfaceOutsideManifest { owner }),
                    Some(requirements) => {
                        if !requirements.tab_strips_view().contains(
                            TabStripKey { surface: owner.surface, bar: owner.bar },
                        ) {
                            Some(ManifestBuildError::PopupOwnerTabStripUnavailable { owner })
                        } else {
                            match lookup(requirements.tab_bars_view(), owner.bar) {
                                None => Some(
                                    ManifestBuildError::PopupOwnerTabStripUnavailable { owner },
                                ),
                                Some(bar) => if bar.policy().interaction()
                                    != TabBarInteraction::Enabled {
                                    Some(
                                        ManifestBuildError::PopupOwnerInteractionDisabled { owner },
                                    )
                                } else {
                                    None
                                },
                            }
                        }
                    },
                }
            }
        },
    }
}

/// The roster after finalization: while a popup is active, every surface is
/// also asked for its popup-plane bounds.
pub open spec fn popup_plane_applied(
    surfaces: Seq<(SurfaceId, SurfaceRequirements)>,
    active: bool,
) -> Seq<(SurfaceId, SurfaceRequirements)> {
    if active {
        Seq::new(
            surfaces.len(),
            |i: int|
                (
                    surfaces[i].0,
                    surfaces[i].1.with_popup_plane_bounds(
                        Some(PopupPlaneBoundsKey { surface: surfaces[i].0 }),
                    ),
                ),
        )
    } else {
        surfaces
    }
}

/// Structural requirement inventory, not yet reconciled with the popup plane.
#[derive(Debug, Clone, PartialEq, Eq)]
pub struct SceneRequirementDraft {
    authority_domain: EngineAuthorityDomainId,
    workspace: WorkspaceVersion,
    config: PresentationConfigRevision,
    policy: PolicyRevision,
    revision: RequirementRevision,
    surfaces: KeyMap<SurfaceId, SurfaceRequirements>,
}

impl SceneRequirementDraft {
    /// Exact authority domain of the draft.
    pub closed spec fn spec_authority_domain(&self) -> EngineAuthorityDomainId {
        self.authority_domain
    }

    /// Exact workspace version of the draft.
    pub closed spec fn spec_workspace(&self) -> WorkspaceVersion {
        self.workspace
    }

    /// Exact configuration revision of the draft.
    pub closed spec fn spec_config(&self) -> PresentationConfigRevision {
        self.config
    }

    /// Exact policy revision of the draft.
    pub closed spec fn spec_policy(&self) -> PolicyRevision {
        self.policy
    }

    /// Exact requirement revision of the draft.
    pub closed spec fn spec_revision(&self) -> RequirementRevision {
        self.revision
    }

    /// The surface roster in surface identity order.
    pub closed spec fn surfaces_view(&self) -> Seq<(SurfaceId, SurfaceRequirements)> {
        self.surfaces.view_seq()
    }

    /// Builds a draft whose every surface ticket carries the aggregate identity,
    /// derived from a structural index of the same workspace version.
    pub fn new(
        authority_domain: EngineAuthorityDomainId,
        workspace: WorkspaceVersion,
        index_version: WorkspaceVersion,
        config: PresentationConfigRevision,
        policy: PolicyRevision,
        revision: RequirementRevision,
        surfaces: KeyMap<SurfaceId, SurfaceRequirements>,
    ) -> (r: Result<Self, ManifestBuildError>)
        ensures
            r is Err <==> draft_build_error(
                authority_domain,
                workspace,
                index_version,
                config,
                policy,
                surfaces.view_seq(),
            ) is Some,
            r matches Err(e) ==> draft_build_error(
                authority_domain,
                workspace,
                index_version,
                config,
                policy,
                surfaces.view_seq(),
            ) == Some(e),
            r matches Ok(d) ==> {
                &&& d.spec_authority_domain() == authority_domain
                &&& d.spec_workspace() == workspace
                &&& d.spec_config() == config
                &&& d.spec_policy() == policy
                &&& d.spec_revision() == revision
                &&& d.surfaces_view() == surfaces.view_seq()
                &&& surfaces_coherent(authority_domain, workspace, config, policy, d.surfaces_view())
            },
    {
        let entries = surfaces.entries();
        let mut index: usize = 0;
        assert(entries@.subrange(0, entries@.len() as int) =~= entries@);
        while index < entries.len()
            invariant
                index <= entries@.len(),
                entries@ == surfaces.view_seq(),
                manifest_identity_error(authority_domain, workspace, config, policy, entries@)
                    == manifest_identity_error(
                    authority_domain,
                    workspace,
                    config,
                    policy,
                    entries@.subrange(index as int, entries@.len() as int),
                ),
            decreases entries@.len() - index,
        {
            let ghost rest = entries@.subrange(index as int, entries@.len() as int);
            assert(rest.drop_first() =~= entries@.subrange(index + 1, entries@.len() as int));
            let surface = entries[index].0;
            let ticket = entries[index].1.ticket();
            if ticket.surface() != surface {
                return Err(
                    ManifestBuildError::SurfaceMismatch { map_key: surface, ticket: ticket.surface() },
                );
            }
            if ticket.authority_domain() != authority_domain {
                return Err(
                    ManifestBuildError::AuthorityDomainMismatch {
                        surface,
                        expected: authority_domain,
                        actual: ticket.authority_domain(),
                    },
                );
            }
            if ticket.workspace_epoch() != workspace.epoch {
                return Err(
                    ManifestBuildError::WorkspaceEpochMismatch {
                        surface,
                        expected: workspace.epoch,
                        actual: ticket.workspace_epoch(),
                    },
                );
            }
            if ticket.config() != config {
                return Err(
                    ManifestBuildError::ConfigMismatch {
                        surface,
                        expected: config,
                        actual: ticket.config(),
                    },
                );
            }
            if ticket.policy() != policy {
                return Err(
                    ManifestBuildError::PolicyMismatch {
                        surface,
                        expected: policy,
                        actual: ticket.policy(),
                    },
                );
            }
            index = index + 1;
        }
        assert(entries@.subrange(index as int, entries@.len() as int).len() == 0);
        if index_version != workspace {
            return Err(
                ManifestBuildError::WorkspaceIndexVersionMismatch {
                    manifest: workspace,
                    index: index_version,
                },
            );
        }
        proof {
            lemma_no_identity_error_is_coherent(
                authority_domain,
                workspace,
                config,
                policy,
                entries@,
            );
        }
        Ok(SceneRequirementDraft { authority_domain, workspace, config, policy, revision, surfaces })
    }

    /// Returns the requirement set of one surface, if it is in the roster.
    pub fn surface(&self, surface: SurfaceId) -> (r: Option<&SurfaceRequirements>)
        ensures
            r is None <==> lookup(self.surfaces_view(), surface) is None,
            r matches Some(q) ==> lookup(self.surfaces_view(), surface) == Some(*q),
    {
        self.surfaces.get(&surface)
    }

    /// Returns the roster in surface identity order.
    pub fn surfaces(&self) -> (r: &[(SurfaceId, SurfaceRequirements)])
        ensures
            r@ == self.surfaces_view(),
            canonical(entry_keys(r@)),
    {
        self.surfaces.entries()
    }

    /// Reconciles the draft with the workspace popup plane.
    ///
    /// An active popup must be owned by a live, interactive tab strip of a
    /// surface in the roster; every surface is then also asked for its
    /// popup-plane bounds.
    pub fn finalize(self, popup: PopupPlaneRequirement) -> (r: Result<
        SceneRequirementManifest,
        ManifestBuildError,
    >)
        ensures
            r is Err <==> popup_requirement_error(self.surfaces_view(), popup) is Some,
            r matches Err(e) ==> popup_requirement_error(self.surfaces_view(), popup) == Some(e),
            r matches Ok(m) ==> {
                &&& m.authority_domain() == self.spec_authority_domain()
                &&& m.workspace() == self.spec_workspace()
                &&& m.config() == self.spec_config()
                &&& m.policy() == self.spec_policy()
                &&& m.revision() == self.spec_revision()
                &&& m.popup() == popup
                &&& m.surfaces_view() == popup_plane_applied(
                    self.surfaces_view(),
                    popup is Active,
                )
                &&& surfaces_coherent(
                    self.spec_authority_domain(),
                    self.spec_workspace(),
                    self.spec_config(),
                    self.spec_policy(),
                    self.surfaces_view(),
                ) ==> surfaces_coherent(
                    m.authority_domain(),
                    m.workspace(),
                    m.config(),
                    m.policy(),
                    m.surfaces_view(),
                )
            },
    {
        proof {
            if surfaces_coherent(
                self.authority_domain,
                self.workspace,
                self.config,
                self.policy,
                self.surfaces_view(),
            ) {
                lemma_popup_plane_keeps_coherence(
                    self.authority_domain,
                    self.workspace,
                    self.config,
                    self.policy,
                    self.surfaces_view(),
                    popup is Active,
                );
            }
        }
        check_popup_requirement(&self.surfaces, popup)?;
        let surfaces = if popup.is_active() {
            let entries = self.surfaces.into_entries();
            let applied = apply_popup_plane(entries);
            KeyMap::from_canonical(applied)
        } else {
            self.surfaces
        };
        Ok(
            SceneRequirementManifest {
                authority_domain: self.authority_domain,
                workspace: self.workspace,
                config: self.config,
                policy: self.policy,
                revision: self.revision,
                popup,
                surfaces,
            },
        )
    }
}

fn check_popup_requirement(
    surfaces: &KeyMap<SurfaceId, SurfaceRequirements>,
    popup: PopupPlaneRequirement,
) -> (r: Result<(), ManifestBuildError>)
    ensures
        r is Err <==> popup_requirement_error(surfaces.view_seq(), popup) is Some,
        r matches Err(e) ==> popup_requirement_error(surfaces.view_seq(), popup) == Some(e),
{
    match popup {
        PopupPlaneRequirement::Inactive { .. } => Ok(()),
        PopupPlaneRequirement::Active { session, owner, .. } => {
            if session.key() != owner {
                return Err(
                    ManifestBuildError::PopupSessionOwnerMismatch { session: session.key(), owner },
                );
            }
            let requirements = match surfaces.get(&owner.surface()) {
                Some(requirements) => requirements,
                None => {
                    return Err(ManifestBuildError::PopupOwnerSurfaceOutsideManifest { owner });
                },
            };
            let live_strip = TabStripKey::new(owner.surface(), owner.bar());
            if !crate::collections::slice_has(requirements.tab_strips(), &live_strip) {
                return Err(ManifestBuildError::PopupOwnerTabStripUnavailable { owner });
            }
            let bar = match requirements.tab_bar(owner.bar()) {
                Some(bar) => bar,
                None => {
                    return Err(ManifestBuildError::PopupOwnerTabStripUnavailable { owner });
                },
            };
            if bar.policy().interaction() != TabBarInteraction::Enabled {
                return Err(ManifestBuildError::PopupOwnerInteractionDisabled { owner });
            }
            Ok(())
        },
    }
}

fn apply_popup_plane(entries: Vec<(SurfaceId, SurfaceRequirements)>) -> (r: Vec<
    (SurfaceId, SurfaceRequirements),
>)
    requires
        canonical(entry_keys(entries@)),
    ensures
        r@ == popup_plane_applied(entries@, true),
        canonical(entry_keys(r@)),
{
    let ghost initial = entries@;
    let mut rest = entries;
    let mut done: Vec<(SurfaceId, SurfaceRequirements)> = Vec::new();
    while rest.len() > 0
        invariant
            done@.len() + rest@.len() == initial.len(),
            rest@ == initial.subrange(done@.len() as int, initial.len() as int),
            forall|i: int|
                0 <= i < done@.len() ==> #[trigger] done@[i] == popup_plane_applied(
                    initial,
                    true,
                )[i],
        decreases rest@.len(),
    {
        let ghost at = done@.len() as int;
        let (surface, mut requirements) = rest.remove(0);
        assert(initial[at] == (surface, requirements));
        requirements.set_popup_plane_bounds(Some(PopupPlaneBoundsKey::new(surface)));
        done.push((surface, requirements));
        assert(rest@ =~= initial.subrange(done@.len() as int, initial.len() as int));
    }
    assert(done@ =~= popup_plane_applied(initial, true));
    assert(entry_keys(done@) =~= entry_keys(initial));
    done
}

/// Complete requirement inventory of one workspace state.
///
/// The roster is exact: a contribution for a surface outside it is refused.
#[derive(Debug, Clone, PartialEq, Eq)]
pub struct SceneRequirementManifest {
    authority_domain: EngineAuthorityDomainId,
    workspace: WorkspaceVersion,
    config: PresentationConfigRevision,
    policy: PolicyRevision,
    revision: RequirementRevision,
    popup: PopupPlaneRequirement,
    surfaces: KeyMap<SurfaceId, SurfaceRequirements>,
}

impl SceneRequirementManifest {
    /// Exact authority domain behind [`Self::authority_domain`].
    pub closed spec fn spec_authority_domain(&self) -> EngineAuthorityDomainId {
        self.authority_domain
    }

    /// Exact workspace version behind [`Self::workspace`].
    pub closed spec fn spec_workspace(&self) -> WorkspaceVersion {
        self.workspace
    }

    /// Exact configuration revision behind [`Self::config`].
    pub closed spec fn spec_config(&self) -> PresentationConfigRevision {
        self.config
    }

    /// Exact policy revision behind [`Self::policy`].
    pub closed spec fn spec_policy(&self) -> PolicyRevision {
        self.policy
    }

    /// Exact requirement revision behind [`Self::revision`].
    pub closed spec fn spec_revision(&self) -> RequirementRevision {
        self.revision
    }

    /// Exact popup requirement behind [`Self::popup`].
    pub closed spec fn spec_popup(&self) -> PopupPlaneRequirement {
        self.popup
    }

    /// The exact surface roster in surface identity order.
    pub closed spec fn surfaces_view(&self) -> Seq<(SurfaceId, SurfaceRequirements)> {
        self.surfaces.view_seq()
    }

    /// Returns the engine authority domain which minted every ticket.
    #[verifier::when_used_as_spec(spec_authority_domain)]
    pub fn authority_domain(&self) -> (r: EngineAuthorityDomainId)
        ensures
            r == self.spec_authority_domain(),
    {
        self.authority_domain
    }

    /// Returns the workspace version the requirements were derived from.
    #[verifier::when_used_as_spec(spec_workspace)]
    pub fn workspace(&self) -> (r: WorkspaceVersion)
        ensures
            r == self.spec_workspace(),
    {
        self.workspace
    }

    /// Returns the presentation configuration revision.
    #[verifier::when_used_as_spec(spec_config)]
    pub fn config(&self) -> (r: PresentationConfigRevision)
        ensures
            r == self.spec_config(),
    {
        self.config
    }

    /// Returns the policy revision.
    #[verifier::when_used_as_spec(spec_policy)]
    pub fn policy(&self) -> (r: PolicyRevision)
        ensures
            r == self.spec_policy(),
    {
        self.policy
    }

    /// Returns this manifest's revision.
    #[verifier::when_used_as_spec(spec_revision)]
    pub fn revision(&self) -> (r: RequirementRevision)
        ensures
            r == self.spec_revision(),
    {
        self.revision
    }

    /// Returns the workspace popup-plane requirement.
    #[verifier::when_used_as_spec(spec_popup)]
    pub fn popup(&self) -> (r: PopupPlaneRequirement)
        ensures
            r == self.spec_popup(),
    {
        self.popup
    }

    /// Returns the requirement set of one surface, or `None` outside the roster.
    pub fn surface(&self, surface: SurfaceId) -> (r: Option<&SurfaceRequirements>)
        ensures
            r is None <==> lookup(self.surfaces_view(), surface) is None,
            r matches Some(q) ==> lookup(self.surfaces_view(), surface) == Some(*q),
    {
        self.surfaces.get(&surface)
    }

    /// Returns the exact roster in surface identity order.
    pub fn surfaces(&self) -> (r: &[(SurfaceId, SurfaceRequirements)])
        ensures
            r@ == self.surfaces_view(),
            canonical(entry_keys(r@)),
    {
        self.surfaces.entries()
    }

    /// Validates one independently delivered surface contribution against the
    /// requirement set of the surface its ticket names.
    pub fn validate_surface<'a>(&'a self, measurements: &'a SurfaceMeasurements) -> (r: Result<
        ValidatedSurfaceMeasurements<'a>,
        ManifestMeasurementError,
    >)
        ensures
            lookup(self.surfaces_view(), measurements.ticket().surface()) is None ==> r == Err::<
                ValidatedSurfaceMeasurements<'a>,
                _,
            >(
                ManifestMeasurementError::SurfaceOutsideManifest {
                    surface: measurements.ticket().surface(),
                },
            ),
            lookup(self.surfaces_view(), measurements.ticket().surface()) matches Some(q) ==> {
                &&& validation_error(q, *measurements) matches Some(e) ==> r == Err::<
                    ValidatedSurfaceMeasurements<'a>,
                    _,
                >(
                    ManifestMeasurementError::InvalidContribution {
                        surface: measurements.ticket().surface(),
                        source: e,
                    },
                )
                &&& validation_error(q, *measurements) is None ==> (r matches Ok(v)
                    && v.measurements() == *measurements)
            },
    {
        let surface = measurements.ticket().surface();
        let requirements = match self.surfaces.get(&surface) {
            Some(requirements) => requirements,
            None => {
                return Err(ManifestMeasurementError::SurfaceOutsideManifest { surface });
            },
        };
        match requirements.validate(measurements) {
            Ok(validated) => Ok(validated),
            Err(source) => Err(ManifestMeasurementError::InvalidContribution { surface, source }),
        }
    }
}

/// Incoherent construction of an aggregate manifest.
#[derive(Debug, Clone, Copy, PartialEq, Eq, Structural)]
pub enum ManifestBuildError {
    /// The structural index was derived from another workspace version.
    WorkspaceIndexVersionMismatch {
        /// Version named by the manifest.
        manifest: WorkspaceVersion,
        /// Version of the structural index.
        index: WorkspaceVersion,
    },
    /// The active session and the explicit popup owner disagree.
    PopupSessionOwnerMismatch {
        /// Strip frozen into the session.
        session: TabStripStateKey,
        /// Explicit popup owner.
        owner: TabStripStateKey,
    },
    /// The popup owner names a surface outside the roster.
    PopupOwnerSurfaceOutsideManifest {
        /// Orphan popup owner.
        owner: TabStripStateKey,
    },
    /// The popup owner is not a live tab strip of its surface.
    PopupOwnerTabStripUnavailable {
        /// Orphan popup owner.
        owner: TabStripStateKey,
    },
    /// The popup owner's tab bar does not accept interaction.
    PopupOwnerInteractionDisabled {
        /// Policy-disabled popup owner.
        owner: TabStripStateKey,
    },
    /// A roster key and its surface ticket disagree.
    SurfaceMismatch {
        /// Roster key.
        map_key: SurfaceId,
        /// Surface named by the ticket.
        ticket: SurfaceId,
    },
    /// A ticket was minted by another authority domain.
    AuthorityDomainMismatch {
        /// Incoherent surface.
        surface: SurfaceId,
        /// Aggregate authority domain.
        expected: EngineAuthorityDomainId,
        /// Ticket authority domain.
        actual: EngineAuthorityDomainId,
    },
    /// A ticket came from another workspace epoch.
    WorkspaceEpochMismatch {
        /// Incoherent surface.
        surface: SurfaceId,
        /// Aggregate workspace epoch.
        expected: WorkspaceEpoch,
        /// Ticket workspace epoch.
        actual: WorkspaceEpoch,
    },
    /// A ticket came from another configuration revision.
    ConfigMismatch {
        /// Incoherent surface.
        surface: SurfaceId,
        /// Aggregate configuration revision.
        expected: PresentationConfigRevision,
        /// Ticket configuration revision.
        actual: PresentationConfigRevision,
    },
    /// A ticket came from another policy revision.
    PolicyMismatch {
        /// Incoherent surface.
        surface: SurfaceId,
        /// Aggregate policy revision.
        expected: PolicyRevision,
        /// Ticket policy revision.
        actual: PolicyRevision,
    },
}

/// Rejection of one surface contribution by the aggregate manifest.
#[derive(Debug, Clone, Copy, PartialEq, Eq, Structural)]
pub enum ManifestMeasurementError {
    /// The ticket names a surface outside the roster.
    SurfaceOutsideManifest {
        /// Unexpected surface.
        surface: SurfaceId,
    },
    /// The contribution violates its surface's ticket or exact-set contract.
    InvalidContribution {
        /// Surface named by the ticket.
        surface: SurfaceId,
        /// The violation.
        source: MeasurementValidationError,
    },
}

/// While a popup is active, finalization asks every surface of the roster for
/// its own popup-plane bounds and changes nothing else; while none is
/// active, the roster is unchanged.
pub proof fn lemma_popup_plane_is_active_only(
    surfaces: Seq<(SurfaceId, SurfaceRequirements)>,
    active: bool,
)
    ensures
        popup_plane_applied(surfaces, active).len() == surfaces.len(),
        !active ==> popup_plane_applied(surfaces, active) == surfaces,
        forall|i: int|
            0 <= i < surfaces.len() ==> {
                let (surface, requirements) = #[trigger] popup_plane_applied(surfaces, active)[i];
                &&& surface == surfaces[i].0
                &&& requirements.ticket() == surfaces[i].1.ticket()
                &&& requirements.bounds() == surfaces[i].1.bounds()
                &&& requirements.pane_minimums_view() == surfaces[i].1.pane_minimums_view()
                &&& requirements.tab_intrinsics_view() == surfaces[i].1.tab_intrinsics_view()
                &&& requirements.tab_strips_view() == surfaces[i].1.tab_strips_view()
                &&& requirements.tab_bars_view() == surfaces[i].1.tab_bars_view()
                &&& active ==> requirements.popup_plane_bounds() == Some(
                    PopupPlaneBoundsKey { surface: surfaces[i].0 },
                )
            },
{
    assert forall|i: int| 0 <= i < surfaces.len() implies {
        let (surface, requirements) = #[trigger] popup_plane_applied(surfaces, active)[i];
        &&& surface == surfaces[i].0
        &&& requirements.ticket() == surfaces[i].1.ticket()
        &&& requirements.bounds() == surfaces[i].1.bounds()
        &&& requirements.pane_minimums_view() == surfaces[i].1.pane_minimums_view()
        &&& requirements.tab_intrinsics_view() == surfaces[i].1.tab_intrinsics_view()
        &&& requirements.tab_strips_view() == surfaces[i].1.tab_strips_view()
        &&& requirements.tab_bars_view() == surfaces[i].1.tab_bars_view()
        &&& active ==> requirements.popup_plane_bounds() == Some(
            PopupPlaneBoundsKey { surface: surfaces[i].0 },
        )
    } by {
        if active {
            surfaces[i].1.lemma_with_popup_plane_bounds(
                Some(PopupPlaneBoundsKey { surface: surfaces[i].0 }),
            );
        }
    }
}

} // verus!
