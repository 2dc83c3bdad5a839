use dockspace::collections::{KeyMap, KeySet};
use dockspace::geometry::{LogicalRect, LogicalSize};
use dockspace::ids::{
    EngineAuthorityDomainId, ItemId, NodeId, PolicyRevision, PresentationConfigRevision,
    RequirementRevision, RootId, SurfaceId, SurfaceRequirementRevision, SurfaceSceneRevision,
    WorkspaceEpoch, WorkspaceRevision, WorkspaceVersion,
};
use dockspace::manifest::aggregate::{
    ManifestBuildError, ManifestMeasurementError, SceneRequirementDraft, SceneRequirementManifest,
};
use dockspace::manifest::keys::{
    PaneMinimumKey, PopupPlaneBoundsKey, SurfaceMeasurementTicket, TabIntrinsicKey, TabStripKey,
};
use dockspace::manifest::measurements::{
    MeasurementAuthorityError, MeasurementSubmissionError, MeasurementValidationError,
    SurfaceMeasurements,
};
use dockspace::manifest::requirements::{
    RequirementBuildError, SurfaceRequirements, TabBarRequirement,
};
use dockspace::manifest::values::{
    Measurement, MeasurementUnavailableReason, MeasurementValueError, TabIntrinsic,
    TabStripControlMetric, TabStripControlPlacement, TabStripMetrics,
};
use dockspace::policy::{CloseCapability, TabBarInteraction, TabBarPolicy, TabBarVisibility};
use dockspace::records::tab::{TabBarSceneId, TabSceneId};
use dockspace::tab_strip::{
    PopupPlaneRequirement, PopupRoutingRevision, TabListMenuSessionId, TabStripStateKey,
};

fn version(epoch: u64, revision: u64) -> WorkspaceVersion {
    WorkspaceVersion::new(WorkspaceEpoch::new(epoch), WorkspaceRevision::new(revision))
}

fn authority_domain() -> EngineAuthorityDomainId {
    EngineAuthorityDomainId::new(1)
}

fn keys() -> (
    SurfaceMeasurementTicket,
    PaneMinimumKey,
    TabIntrinsicKey,
    TabStripKey,
) {
    let tabs = NodeId::new(1);
    let surface = SurfaceId::new(1);
    let root = RootId::new(2);
    let tab = TabSceneId { root, tabs, item: ItemId::new(3) };
    (
        SurfaceMeasurementTicket::new(
            authority_domain(),
            WorkspaceEpoch::new(4),
            PresentationConfigRevision::new(6),
            PolicyRevision::new(7),
            SurfaceRequirementRevision::new(8),
            surface,
        ),
        PaneMinimumKey::new(root, tabs, Some(tab.item)),
        TabIntrinsicKey::new(surface, tab),
        TabStripKey::new(surface, TabBarSceneId { root, tabs }),
    )
}

fn set_of<K: dockspace::collections::CanonicalKey>(keys: &[K]) -> KeySet<K> {
    let mut set = KeySet::new();
    for key in keys {
        set.insert(*key);
    }
    set
}

fn requirements() -> SurfaceRequirements {
    let (ticket, pane, tab, strip) = keys();
    SurfaceRequirements::new(
        ticket,
        set_of(&[pane]),
        set_of(&[tab]),
        set_of(&[strip]),
        KeyMap::new(),
    )
    .expect("fixture requirements should be coherent")
}

fn active_requirements(interaction: TabBarInteraction) -> SurfaceRequirements {
    let (ticket, _, _, strip) = keys();
    let bar = strip.bar();
    let mut bars = KeyMap::new();
    bars.insert_new(
        bar,
        TabBarRequirement::new(
            bar,
            TabBarPolicy::new(TabBarVisibility::Visible, interaction),
            KeyMap::new(),
        ),
    );
    SurfaceRequirements::new(ticket, KeySet::new(), KeySet::new(), set_of(&[strip]), bars)
        .expect("active popup requirements should be coherent")
}

fn active_popup(owner: TabStripStateKey) -> PopupPlaneRequirement {
    PopupPlaneRequirement::Active {
        revision: PopupRoutingRevision::default(),
        session: TabListMenuSessionId::new(owner, 1),
        owner,
    }
}

fn roster(requirements: SurfaceRequirements) -> KeyMap<SurfaceId, SurfaceRequirements> {
    let mut surfaces = KeyMap::new();
    surfaces.insert_new(requirements.ticket().surface(), requirements);
    surfaces
}

fn manifest_with_popup(
    requirements: SurfaceRequirements,
    popup: PopupPlaneRequirement,
) -> Result<SceneRequirementManifest, ManifestBuildError> {
    let ticket = requirements.ticket();
    SceneRequirementDraft::new(
        ticket.authority_domain(),
        version(4, 5),
        version(4, 5),
        ticket.config(),
        ticket.policy(),
        RequirementRevision::new(9),
        roster(requirements),
    )
    .and_then(|draft| draft.finalize(popup))
}

fn manifest() -> SceneRequirementManifest {
    manifest_with_popup(requirements(), PopupPlaneRequirement::default())
        .expect("fixture manifest should be coherent")
}

fn contribution_with(
    requirements: &SurfaceRequirements,
    pane: bool,
    tab: Option<Measurement<TabIntrinsic>>,
    strip: bool,
) -> SurfaceMeasurements {
    let (_, pane_key, tab_key, strip_key) = keys();
    let mut contribution = SurfaceMeasurements::new(requirements.ticket());
    contribution
        .set_bounds(
            requirements.bounds(),
            Measurement::Measured(LogicalRect::new(0, 0, 800, 600).expect("valid bounds")),
        )
        .expect("single bounds answer");
    if pane {
        contribution
            .insert_pane_minimum(
                pane_key,
                Measurement::Measured(LogicalSize::new(80, 60).expect("valid minimum")),
            )
            .expect("unique pane answer");
    }
    if let Some(answer) = tab {
        contribution.insert_tab_intrinsic(tab_key, answer).expect("unique tab answer");
    }
    if strip {
        contribution
            .insert_tab_strip(
                strip_key,
                Measurement::Measured(TabStripMetrics::new(0, 20).expect("valid metrics")),
            )
            .expect("unique strip answer");
    }
    contribution
}

fn measured_contribution(requirements: &SurfaceRequirements) -> SurfaceMeasurements {
    contribution_with(
        requirements,
        true,
        Some(Measurement::Measured(TabIntrinsic::new(72).expect("valid intrinsic"))),
        true,
    )
}

#[test]
fn final_manifest_rejects_orphan_popup_surface_and_tab_bar() {
    let requirements = active_requirements(TabBarInteraction::Enabled);
    let ticket = requirements.ticket();
    let live_bar = requirements.tab_strips()[0].bar();
    let orphan_surface = TabStripStateKey::new(SurfaceId::new(99), live_bar);
    assert_eq!(
        manifest_with_popup(requirements.clone(), active_popup(orphan_surface)),
        Err(ManifestBuildError::PopupOwnerSurfaceOutsideManifest { owner: orphan_surface })
    );

    let orphan_bar = TabStripStateKey::new(
        ticket.surface(),
        TabBarSceneId { root: RootId::new(99), tabs: live_bar.tabs },
    );
    assert_eq!(
        manifest_with_popup(requirements, active_popup(orphan_bar)),
        Err(ManifestBuildError::PopupOwnerTabStripUnavailable { owner: orphan_bar })
    );
}

#[test]
fn final_manifest_rejects_policy_disabled_popup_owner() {
    let requirements = active_requirements(TabBarInteraction::Disabled);
    let ticket = requirements.ticket();
    let owner = TabStripStateKey::new(ticket.surface(), requirements.tab_strips()[0].bar());
    assert_eq!(
        manifest_with_popup(requirements, active_popup(owner)),
        Err(ManifestBuildError::PopupOwnerInteractionDisabled { owner })
    );
}

#[test]
fn popup_plane_measurement_is_an_active_only_exact_requirement() {
    let active_seed = active_requirements(TabBarInteraction::Enabled);
    let ticket = active_seed.ticket();
    let owner = TabStripStateKey::new(ticket.surface(), active_seed.tab_strips()[0].bar());
    let manifest = manifest_with_popup(active_seed, active_popup(owner))
        .expect("active popup manifest should be coherent");
    let active_requirements = manifest
        .surface(ticket.surface())
        .expect("active owner surface should remain rostered");
    let popup_key = active_requirements
        .popup_plane_bounds()
        .expect("active popup requires an exact plane on every surface");
    assert_eq!(popup_key.surface(), ticket.surface());

    let mut contribution = SurfaceMeasurements::new(active_requirements.ticket());
    contribution
        .set_bounds(
            active_requirements.bounds(),
            Measurement::Measured(
                LogicalRect::new(20, 440, 600, 120).expect("layout bounds should be valid"),
            ),
        )
        .expect("layout bounds answer should be unique");
    for key in active_requirements.tab_strips() {
        contribution
            .insert_tab_strip(
                *key,
                Measurement::Measured(
                    TabStripMetrics::new(0, 0).expect("strip metrics should be valid"),
                ),
            )
            .expect("strip answer should be unique");
    }
    assert!(matches!(
        active_requirements.validate(&contribution),
        Err(MeasurementValidationError::MissingPopupPlaneBounds)
    ));

    let popup_plane = LogicalRect::new(0, 0, 640, 600).expect("popup plane should be valid");
    contribution
        .set_popup_plane_bounds(popup_key, Measurement::Measured(popup_plane))
        .expect("popup-plane answer should be unique");
    let authoritative = active_requirements
        .validate(&contribution)
        .expect("complete exact set should validate")
        .require_authoritative()
        .expect("measured popup plane should be authoritative");
    assert_eq!(authoritative.popup_plane_bounds(), Some(popup_plane));

    let inactive = requirements();
    let mut unexpected = measured_contribution(&inactive);
    let actual = PopupPlaneBoundsKey::new(inactive.ticket().surface());
    unexpected
        .set_popup_plane_bounds(actual, Measurement::Measured(popup_plane))
        .expect("first extra answer should be accepted by the builder");
    assert!(matches!(
        inactive.validate(&unexpected),
        Err(MeasurementValidationError::UnexpectedPopupPlaneBounds {
            expected: None,
            actual: submitted,
        }) if submitted == actual
    ));
}

#[test]
fn revisions_advance_without_wrapping() {
    assert_eq!(RequirementRevision::new(8).checked_next(), Some(RequirementRevision::new(9)));
    assert_eq!(RequirementRevision::new(u64::MAX).checked_next(), None);
    assert_eq!(SurfaceSceneRevision::new(10).checked_next(), Some(SurfaceSceneRevision::new(11)));
    assert_eq!(SurfaceSceneRevision::new(u64::MAX).checked_next(), None);
}

#[test]
fn exact_complete_contribution_becomes_authoritative() {
    let manifest = manifest();
    let requirements = manifest.surface(SurfaceId::new(1)).expect("fixture surface should exist");
    let contribution = measured_contribution(requirements);
    let accepted = manifest
        .validate_surface(&contribution)
        .expect("exact contribution should validate")
        .require_authoritative()
        .expect("all values are measured");

    assert_eq!(accepted.bounds().width(), 800);
    assert!(accepted.pane_minimum(keys().1).is_some());
    assert!(accepted.tab_intrinsic(keys().2).is_some());
    assert!(accepted.tab_strip(keys().3).is_some());
}

#[test]
fn missing_and_unavailable_are_distinct() {
    let requirements = requirements();
    let missing = contribution_with(&requirements, true, None, true);
    assert!(matches!(
        requirements.validate(&missing),
        Err(MeasurementValidationError::MissingTabIntrinsic { key }) if key == keys().2
    ));

    let unavailable = contribution_with(
        &requirements,
        true,
        Some(Measurement::Unavailable(MeasurementUnavailableReason::TextMetricsUnavailable)),
        true,
    );
    let validated =
        requirements.validate(&unavailable).expect("unavailable is still an exact answer");
    assert!(matches!(
        validated.require_authoritative(),
        Err(MeasurementAuthorityError::TabIntrinsic { key, reason })
            if key == keys().2
                && reason == MeasurementUnavailableReason::TextMetricsUnavailable
    ));
}

#[test]
fn foreign_engine_ticket_fails_before_set_checks() {
    let requirements = requirements();
    let foreign_ticket = SurfaceMeasurementTicket::new(
        EngineAuthorityDomainId::new(2),
        WorkspaceEpoch::new(4),
        PresentationConfigRevision::new(6),
        PolicyRevision::new(7),
        SurfaceRequirementRevision::new(8),
        SurfaceId::new(1),
    );
    let foreign = SurfaceMeasurements::new(foreign_ticket);
    assert!(matches!(
        requirements.validate(&foreign),
        Err(MeasurementValidationError::AuthorityDomainMismatch { .. })
    ));
}

#[test]
fn missing_precedes_unexpected_in_stable_exact_set_order() {
    let requirements = requirements();
    let mut contribution = contribution_with(
        &requirements,
        false,
        Some(Measurement::Measured(TabIntrinsic::new(72).expect("valid intrinsic"))),
        true,
    );
    let (_, pane, _, _) = keys();
    let unexpected = PaneMinimumKey::new(RootId::new(99), pane.tabs(), None);
    contribution
        .insert_pane_minimum(
            unexpected,
            Measurement::Unavailable(MeasurementUnavailableReason::Deferred),
        )
        .expect("first answer for the unexpected key");

    assert!(matches!(
        requirements.validate(&contribution),
        Err(MeasurementValidationError::MissingPaneMinimum { key }) if key == pane
    ));
}

#[test]
fn unexpected_answer_is_rejected_by_the_exact_set_contract() {
    let requirements = requirements();
    let mut contribution = measured_contribution(&requirements);
    let (_, pane, _, _) = keys();
    let unexpected = PaneMinimumKey::new(RootId::new(99), pane.tabs(), None);
    contribution
        .insert_pane_minimum(
            unexpected,
            Measurement::Unavailable(MeasurementUnavailableReason::Deferred),
        )
        .expect("first answer for the unexpected key");

    assert!(matches!(
        requirements.validate(&contribution),
        Err(MeasurementValidationError::UnexpectedPaneMinimum { key }) if key == unexpected
    ));
}

#[test]
fn duplicate_answers_are_rejected_without_silent_overwrite() {
    let requirements = requirements();
    let mut contribution = SurfaceMeasurements::new(requirements.ticket());
    let key = requirements.bounds();
    contribution
        .set_bounds(key, Measurement::Unavailable(MeasurementUnavailableReason::Deferred))
        .expect("first answer should be accepted");
    assert_eq!(
        contribution.set_bounds(
            key,
            Measurement::Unavailable(MeasurementUnavailableReason::SurfaceUnavailable),
        ),
        Err(MeasurementSubmissionError::DuplicateSurfaceBounds)
    );
    assert_eq!(
        contribution.bounds_entry(),
        Some((key, Measurement::Unavailable(MeasurementUnavailableReason::Deferred)))
    );
}

#[test]
fn requirement_construction_rejects_cross_surface_keys() {
    let (ticket, pane, tab, strip) = keys();
    let foreign = TabIntrinsicKey::new(SurfaceId::new(99), tab.tab());
    assert_eq!(
        SurfaceRequirements::new(
            ticket,
            set_of(&[pane]),
            set_of(&[foreign]),
            set_of(&[strip]),
            KeyMap::new(),
        ),
        Err(RequirementBuildError::TabIntrinsicSurfaceMismatch {
            expected: SurfaceId::new(1),
            actual: SurfaceId::new(99),
        })
    );
}

#[test]
fn manifest_rejects_a_surface_outside_its_exact_roster() {
    let manifest = manifest();
    let foreign_ticket = SurfaceMeasurementTicket::new(
        manifest.authority_domain(),
        manifest.workspace().epoch(),
        manifest.config(),
        manifest.policy(),
        SurfaceRequirementRevision::new(99),
        SurfaceId::new(99),
    );
    assert!(matches!(
        manifest.validate_surface(&SurfaceMeasurements::new(foreign_ticket)),
        Err(ManifestMeasurementError::SurfaceOutsideManifest { surface })
            if surface == SurfaceId::new(99)
    ));
}

#[test]
fn manifest_rejects_a_foreign_engine_ticket_for_an_existing_surface() {
    let manifest = manifest();
    let requirements = manifest.surface(SurfaceId::new(1)).expect("fixture surface should exist");
    let expected = requirements.ticket();
    let foreign_ticket = SurfaceMeasurementTicket::new(
        EngineAuthorityDomainId::new(2),
        expected.workspace_epoch(),
        expected.config(),
        expected.policy(),
        expected.surface_requirement(),
        expected.surface(),
    );

    assert!(matches!(
        manifest.validate_surface(&SurfaceMeasurements::new(foreign_ticket)),
        Err(ManifestMeasurementError::InvalidContribution {
            surface,
            source: MeasurementValidationError::AuthorityDomainMismatch { .. },
        }) if surface == SurfaceId::new(1)
    ));
}

#[test]
fn scalar_measurements_reject_non_finite_and_negative_values() {
    assert!(matches!(TabIntrinsic::new(-1), Err(MeasurementValueError::Negative { .. })));
    assert!(matches!(TabStripMetrics::new(-1, 0), Err(MeasurementValueError::Negative { .. })));
    assert!(matches!(
        TabStripControlMetric::new(0, TabStripControlPlacement::ReservedTrailing),
        Err(MeasurementValueError::NonPositive { .. })
    ));
    assert!(matches!(
        TabStripControlMetric::new(-1, TabStripControlPlacement::ReservedTrailing),
        Err(MeasurementValueError::NonPositive { .. })
    ));
    assert!(matches!(
        TabStripControlMetric::new(i64::MAX, TabStripControlPlacement::ReservedTrailing),
        Err(MeasurementValueError::OutOfRange { .. })
    ));
}

#[test]
fn draft_rejects_a_structural_index_of_another_version() {
    let requirements = requirements();
    let ticket = requirements.ticket();
    assert_eq!(
        SceneRequirementDraft::new(
            ticket.authority_domain(),
            version(4, 5),
            version(4, 6),
            ticket.config(),
            ticket.policy(),
            RequirementRevision::new(9),
            roster(requirements),
        ),
        Err(ManifestBuildError::WorkspaceIndexVersionMismatch {
            manifest: version(4, 5),
            index: version(4, 6),
        })
    );
}

#[test]
fn draft_rejects_a_ticket_of_another_workspace_epoch() {
    let requirements = requirements();
    let ticket = requirements.ticket();
    assert_eq!(
        SceneRequirementDraft::new(
            ticket.authority_domain(),
            version(5, 1),
            version(5, 1),
            ticket.config(),
            ticket.policy(),
            RequirementRevision::new(9),
            roster(requirements),
        ),
        Err(ManifestBuildError::WorkspaceEpochMismatch {
            surface: SurfaceId::new(1),
            expected: WorkspaceEpoch::new(5),
            actual: WorkspaceEpoch::new(4),
        })
    );
}

#[test]
fn draft_rejects_a_roster_key_that_is_not_the_ticket_surface() {
    let requirements = requirements();
    let ticket = requirements.ticket();
    let mut surfaces = KeyMap::new();
    surfaces.insert_new(SurfaceId::new(7), requirements);
    assert_eq!(
        SceneRequirementDraft::new(
            ticket.authority_domain(),
            version(4, 5),
            version(4, 5),
            ticket.config(),
            ticket.policy(),
            RequirementRevision::new(9),
            surfaces,
        ),
        Err(ManifestBuildError::SurfaceMismatch {
            map_key: SurfaceId::new(7),
            ticket: SurfaceId::new(1),
        })
    );
}

#[test]
fn popup_owner_must_match_its_session() {
    let requirements = active_requirements(TabBarInteraction::Enabled);
    let ticket = requirements.ticket();
    let owner = TabStripStateKey::new(ticket.surface(), requirements.tab_strips()[0].bar());
    let other = TabStripStateKey::new(SurfaceId::new(5), owner.bar());
    let popup = PopupPlaneRequirement::Active {
        revision: PopupRoutingRevision::default(),
        session: TabListMenuSessionId::new(other, 1),
        owner,
    };
    assert_eq!(
        manifest_with_popup(requirements, popup),
        Err(ManifestBuildError::PopupSessionOwnerMismatch { session: other, owner })
    );
}

#[test]
fn inactive_popup_asks_no_popup_plane_question() {
    let manifest = manifest();
    let requirements = manifest.surface(SurfaceId::new(1)).expect("fixture surface should exist");
    assert_eq!(requirements.popup_plane_bounds(), None);
    assert_eq!(manifest.surfaces().len(), 1);
    assert_eq!(manifest.revision(), RequirementRevision::new(9));
    assert_eq!(manifest.popup(), PopupPlaneRequirement::default());
}

#[test]
fn tab_bar_requirement_reports_frozen_close_capabilities() {
    let (_, _, tab, strip) = keys();
    let mut capabilities = KeyMap::new();
    capabilities.insert_new(tab.tab().item, CloseCapability::Pinned);
    let requirement = TabBarRequirement::new(
        strip.bar(),
        TabBarPolicy::new(TabBarVisibility::Visible, TabBarInteraction::Enabled),
        capabilities,
    );
    assert_eq!(requirement.close_capability(tab.tab().item), Some(CloseCapability::Pinned));
    assert_eq!(requirement.close_capability(ItemId::new(42)), None);
    assert_eq!(requirement.close_capabilities().len(), 1);
    assert_eq!(requirement.id(), strip.bar());
}

#[test]
fn requirement_construction_rejects_a_mis_keyed_tab_bar() {
    let (ticket, _, _, strip) = keys();
    let bar = strip.bar();
    let other = TabBarSceneId { root: RootId::new(77), tabs: bar.tabs };
    let mut bars = KeyMap::new();
    bars.insert_new(
        other,
        TabBarRequirement::new(
            bar,
            TabBarPolicy::new(TabBarVisibility::Visible, TabBarInteraction::Enabled),
            KeyMap::new(),
        ),
    );
    assert_eq!(
        SurfaceRequirements::new(ticket, KeySet::new(), KeySet::new(), set_of(&[strip]), bars),
        Err(RequirementBuildError::TabBarIdentityMismatch { map_key: other, requirement: bar })
    );
}
