use dockspace::ids::{
    EngineAuthorityDomainId, PolicyRevision, PresentationConfigRevision, SurfaceId,
    SurfaceRequirementRevision, SurfaceSceneRevision, WorkspaceEpoch,
};
use dockspace::lifecycle::{
    BootstrapSurfaceScene, BootstrapSurfaceSceneReason, RetainedSurfacePlanStamps,
    SurfaceSceneStamp,
};
use dockspace::manifest::keys::SurfaceMeasurementTicket;

fn ticket(surface: u64) -> SurfaceMeasurementTicket {
    SurfaceMeasurementTicket::new(
        EngineAuthorityDomainId::new(1),
        WorkspaceEpoch::new(1),
        PresentationConfigRevision::new(1),
        PolicyRevision::new(1),
        SurfaceRequirementRevision::new(1),
        SurfaceId::new(surface),
    )
}

#[test]
fn a_stamp_authorizes_only_its_ticket_surface() {
    let stamp = SurfaceSceneStamp::new(ticket(4), SurfaceSceneRevision::new(2));
    assert_eq!(stamp.surface(), SurfaceId::new(4));
    assert_eq!(stamp.requirement(), ticket(4));
    assert_eq!(stamp.revision(), SurfaceSceneRevision::new(2));
}

#[test]
fn bootstrap_scene_reports_its_surface_stamp_and_reason() {
    let stamp = SurfaceSceneStamp::new(ticket(3), SurfaceSceneRevision::new(1));
    let scene = BootstrapSurfaceScene::new(stamp, BootstrapSurfaceSceneReason::AwaitingContribution);
    assert_eq!(scene.surface(), SurfaceId::new(3));
    assert_eq!(scene.stamp(), stamp);
    assert_eq!(scene.reason(), BootstrapSurfaceSceneReason::AwaitingContribution);
}

#[test]
fn retained_stamps_are_reported_once_candidate_first() {
    let candidate = SurfaceSceneStamp::new(ticket(1), SurfaceSceneRevision::new(5));
    let fallback = SurfaceSceneStamp::new(ticket(1), SurfaceSceneRevision::new(4));
    let both = RetainedSurfacePlanStamps::new(Some(candidate), Some(fallback));
    assert_eq!(both.unique(), vec![candidate, fallback]);
    let same = RetainedSurfacePlanStamps::new(Some(candidate), Some(candidate));
    assert_eq!(same.unique(), vec![candidate]);
    let fallback_only = RetainedSurfacePlanStamps::new(None, Some(fallback));
    assert_eq!(fallback_only.unique(), vec![fallback]);
    let none = RetainedSurfacePlanStamps::new(None, None);
    assert!(none.unique().is_empty());
    assert_eq!(both.candidate(), Some(candidate));
    assert_eq!(both.paint_fallback(), Some(fallback));
}
