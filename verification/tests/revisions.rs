use dockspace::ids::{
    EngineAuthorityDomainId, PolicyRevision, PresentationConfigRevision, SurfaceId,
    SurfaceRequirementRevision, SurfaceSceneRevision, WorkspaceEpoch,
};
use dockspace::lifecycle::BootstrapSurfaceSceneReason;
use dockspace::manifest::keys::SurfaceMeasurementTicket;
use dockspace::revisions::{reconcile_surface, ReconcileOutcome, SurfaceRevisionLedger, SurfaceSceneKind};

fn ticket(surface: u64, epoch: u64, policy: u64) -> SurfaceMeasurementTicket {
    SurfaceMeasurementTicket::new(
        EngineAuthorityDomainId::new(1),
        WorkspaceEpoch::new(epoch),
        PresentationConfigRevision::new(1),
        PolicyRevision::new(policy),
        SurfaceRequirementRevision::new(1),
        SurfaceId::new(surface),
    )
}

#[test]
fn revisions_advance_per_surface() {
    let mut ledger = SurfaceRevisionLedger::new();
    let a = SurfaceId::new(1);
    let b = SurfaceId::new(2);
    assert_eq!(ledger.next_revision(a), Ok(SurfaceSceneRevision::new(1)));
    assert_eq!(ledger.next_revision(a), Ok(SurfaceSceneRevision::new(2)));
    assert_eq!(ledger.next_revision(b), Ok(SurfaceSceneRevision::new(1)));
    assert_eq!(ledger.next_revision(a), Ok(SurfaceSceneRevision::new(3)));
}

#[test]
fn unchanged_ticket_keeps_the_scene() {
    let mut ledger = SurfaceRevisionLedger::new();
    let current = ticket(1, 1, 1);
    let kept = reconcile_surface(
        &mut ledger,
        SurfaceId::new(1),
        Some((SurfaceSceneKind::Ready { confirmed_paint_fallback: true }, current)),
        current,
    );
    assert_eq!(kept, Ok((ReconcileOutcome::Keep, None)));
    assert_eq!(ledger.next_revision(SurfaceId::new(1)), Ok(SurfaceSceneRevision::new(1)));
}

#[test]
fn new_surface_awaits_its_first_contribution() {
    let mut ledger = SurfaceRevisionLedger::new();
    let (outcome, stamp) = reconcile_surface(&mut ledger, SurfaceId::new(1), None, ticket(1, 1, 1)).expect("issued");
    assert_eq!(
        outcome,
        ReconcileOutcome::Bootstrap(BootstrapSurfaceSceneReason::AwaitingContribution)
    );
    let stamp = stamp.expect("stamped");
    assert_eq!(stamp.requirement(), ticket(1, 1, 1));
    assert_eq!(stamp.revision(), SurfaceSceneRevision::new(1));
}

#[test]
fn changed_requirements_follow_the_paint_fallback() {
    let previous = ticket(1, 1, 1);
    let next = ticket(1, 1, 2);
    let cases = [
        (SurfaceSceneKind::Ready { confirmed_paint_fallback: true }, ReconcileOutcome::Stale),
        (
            SurfaceSceneKind::Ready { confirmed_paint_fallback: false },
            ReconcileOutcome::Bootstrap(BootstrapSurfaceSceneReason::RequirementsChanged),
        ),
        (SurfaceSceneKind::Stale, ReconcileOutcome::Stale),
        (
            SurfaceSceneKind::Bootstrap,
            ReconcileOutcome::Bootstrap(BootstrapSurfaceSceneReason::RequirementsChanged),
        ),
    ];
    for (kind, expected) in cases {
        let mut ledger = SurfaceRevisionLedger::new();
        let (outcome, stamp) =
            reconcile_surface(&mut ledger, SurfaceId::new(1), Some((kind, previous)), next).expect("issued");
        assert_eq!(outcome, expected);
        assert_eq!(stamp.map(|s| s.requirement()), Some(next));
    }
}

#[test]
fn workspace_replacement_discards_every_plan() {
    let mut ledger = SurfaceRevisionLedger::new();
    let (outcome, _) = reconcile_surface(
        &mut ledger,
        SurfaceId::new(1),
        Some((SurfaceSceneKind::Ready { confirmed_paint_fallback: true }, ticket(1, 1, 1))),
        ticket(1, 2, 1),
    )
    .expect("issued");
    assert_eq!(outcome, ReconcileOutcome::Bootstrap(BootstrapSurfaceSceneReason::WorkspaceReplaced));
}

#[test]
fn returning_surface_never_reuses_a_revision() {
    let mut ledger = SurfaceRevisionLedger::new();
    let first = reconcile_surface(&mut ledger, SurfaceId::new(1), None, ticket(1, 1, 1)).expect("issued");
    let second = reconcile_surface(
        &mut ledger,
        SurfaceId::new(1),
        Some((SurfaceSceneKind::Bootstrap, ticket(1, 1, 1))),
        ticket(1, 1, 2),
    )
    .expect("issued");
    let returned = reconcile_surface(&mut ledger, SurfaceId::new(1), None, ticket(1, 1, 2)).expect("issued");
    let revisions: Vec<u64> = [first, second, returned]
        .iter()
        .map(|(_, stamp)| stamp.expect("stamped").revision().get())
        .collect();
    assert_eq!(revisions, vec![1, 2, 3]);
}
