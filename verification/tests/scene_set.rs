use dockspace::collections::{KeyMap, KeySet};
use dockspace::geometry::LogicalRect;
use dockspace::ids::{
    EngineAuthorityDomainId, PolicyRevision, PresentationConfigRevision, RequirementRevision,
    SurfaceId, SurfaceRequirementRevision, WorkspaceEpoch, WorkspaceRevision, WorkspaceVersion,
};
use dockspace::manifest::aggregate::{SceneRequirementDraft, SceneRequirementManifest};
use dockspace::manifest::keys::SurfaceMeasurementTicket;
use dockspace::manifest::requirements::SurfaceRequirements;
use dockspace::plan::PresentationPlan;
use dockspace::revisions::SurfaceSceneKind;
use dockspace::scene_set::SurfaceSceneSet;
use dockspace::tab_strip::PopupPlaneRequirement;
use dockspace::validation::SceneBuildError;

fn ticket(surface: u64, epoch: u64, requirement: u64) -> SurfaceMeasurementTicket {
    SurfaceMeasurementTicket::new(
        EngineAuthorityDomainId::new(1),
        WorkspaceEpoch::new(epoch),
        PresentationConfigRevision::new(1),
        PolicyRevision::new(1),
        SurfaceRequirementRevision::new(requirement),
        SurfaceId::new(surface),
    )
}

fn manifest(tickets: &[SurfaceMeasurementTicket]) -> SceneRequirementManifest {
    let mut surfaces = KeyMap::new();
    for ticket in tickets {
        let requirements =
            SurfaceRequirements::new(*ticket, KeySet::new(), KeySet::new(), KeySet::new(), KeyMap::new())
                .expect("empty requirements are coherent");
        surfaces.insert_new(ticket.surface(), requirements);
    }
    let first = tickets[0];
    let version = WorkspaceVersion::new(first.workspace_epoch(), WorkspaceRevision::new(1));
    SceneRequirementDraft::new(
        first.authority_domain(),
        version,
        version,
        first.config(),
        first.policy(),
        RequirementRevision::new(1),
        surfaces,
    )
    .and_then(|draft| draft.finalize(PopupPlaneRequirement::inactive()))
    .expect("coherent manifest")
}

fn plan(ticket: SurfaceMeasurementTicket) -> PresentationPlan {
    PresentationPlan::from_measurements(
        ticket,
        PopupPlaneRequirement::inactive(),
        LogicalRect::new(0, 0, 100, 100).expect("rectangle"),
        None,
    )
}

fn revision_of(set: &SurfaceSceneSet, surface: u64) -> u64 {
    set.scene_of(SurfaceId::new(surface)).expect("rostered").stamp.revision().get()
}

#[test]
fn new_roster_awaits_first_contributions() {
    let set = SurfaceSceneSet::new(&manifest(&[ticket(1, 1, 1), ticket(2, 1, 1)]));
    let first = set.scene_of(SurfaceId::new(1)).expect("rostered");
    assert_eq!(first.kind, SurfaceSceneKind::Bootstrap);
    assert_eq!(first.stamp.requirement(), ticket(1, 1, 1));
    assert_eq!(first.stamp.revision().get(), 1);
    assert_eq!(set.scene_of(SurfaceId::new(3)), None);
}

#[test]
fn installing_a_ready_plan_requires_its_ticket() {
    let mut set = SurfaceSceneSet::new(&manifest(&[ticket(1, 1, 1)]));
    assert_eq!(
        set.install_ready(&plan(ticket(1, 1, 2))),
        Err(SceneBuildError::PresentationTicketMismatch {
            surface: SurfaceId::new(1),
            expected: Some(ticket(1, 1, 1)),
            actual: ticket(1, 1, 2),
        })
    );
    assert_eq!(
        set.install_ready(&plan(ticket(2, 1, 1))),
        Err(SceneBuildError::SurfaceOutsideRoster { surface: SurfaceId::new(2) })
    );
    let stamp = set.install_ready(&plan(ticket(1, 1, 1))).expect("installed");
    assert_eq!(stamp.revision().get(), 2);
    assert_eq!(
        set.scene_of(SurfaceId::new(1)).expect("rostered").kind,
        SurfaceSceneKind::Ready { confirmed_paint_fallback: false }
    );
}

#[test]
fn only_a_presented_plan_can_turn_stale() {
    let mut set = SurfaceSceneSet::new(&manifest(&[ticket(1, 1, 1)]));
    assert_eq!(
        set.demote_to_stale(SurfaceId::new(1)),
        Err(SceneBuildError::BootstrapCannotBecomeStale { surface: SurfaceId::new(1) })
    );
    let stamp = set.install_ready(&plan(ticket(1, 1, 1))).expect("installed");
    assert_eq!(
        set.demote_to_stale(SurfaceId::new(1)),
        Err(SceneBuildError::ReadySurfaceHasNoPaintFallback { surface: SurfaceId::new(1) })
    );
    assert!(set.confirm_presented(stamp));
    let stale = set.demote_to_stale(SurfaceId::new(1)).expect("demoted");
    assert_eq!(stale.revision().get(), 3);
    assert_eq!(set.scene_of(SurfaceId::new(1)).expect("rostered").kind, SurfaceSceneKind::Stale);
    assert!(!set.confirm_presented(stamp));
}

#[test]
fn reconciliation_keeps_unchanged_surfaces_and_never_reuses_revisions() {
    let mut set = SurfaceSceneSet::new(&manifest(&[ticket(1, 1, 1), ticket(2, 1, 1)]));
    let stamp = set.install_ready(&plan(ticket(1, 1, 1))).expect("installed");
    assert!(set.confirm_presented(stamp));
    assert_eq!(set.reconcile_manifest(&manifest(&[ticket(1, 1, 2), ticket(2, 1, 1)])), Ok(()));
    assert_eq!(set.scene_of(SurfaceId::new(1)).expect("rostered").kind, SurfaceSceneKind::Stale);
    assert_eq!(revision_of(&set, 1), 3);
    assert_eq!(revision_of(&set, 2), 1);

    assert_eq!(set.reconcile_manifest(&manifest(&[ticket(1, 1, 2)])), Ok(()));
    assert_eq!(set.scene_of(SurfaceId::new(2)), None);
    assert_eq!(set.reconcile_manifest(&manifest(&[ticket(1, 1, 2), ticket(2, 1, 1)])), Ok(()));
    let returned = set.scene_of(SurfaceId::new(2)).expect("rostered again");
    assert_eq!(returned.kind, SurfaceSceneKind::Bootstrap);
    assert_eq!(returned.stamp.revision().get(), 2);

    assert_eq!(set.reconcile_manifest(&manifest(&[ticket(1, 2, 2), ticket(2, 2, 1)])), Ok(()));
    assert_eq!(set.scene_of(SurfaceId::new(1)).expect("rostered").kind, SurfaceSceneKind::Bootstrap);
}
