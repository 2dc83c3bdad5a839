use dockspace::compile::{
    check_compilation_inputs, check_compiled_menus, contained_occlusions, SceneCompilationError,
};
use dockspace::plan::PresentationPlan;
use dockspace::records::tab::TabListMenuRecord;
use dockspace::geometry::{HitRegion, LogicalRect};
use dockspace::ids::{
    EngineAuthorityDomainId, FloatingPresentationId, NodeId, PolicyRevision,
    PresentationConfigRevision, RootId, SceneLayerKey, SurfaceId, SurfaceRequirementRevision,
    WorkspaceEpoch,
};
use dockspace::manifest::keys::SurfaceMeasurementTicket;
use dockspace::records::tab::TabBarSceneId;
use dockspace::tab_strip::{
    PopupPlaneRequirement, PopupRoutingRevision, TabListMenuSessionId, TabStripStateKey,
};
use dockspace::validation::contained::IndexedContained;

const SURFACE: SurfaceId = SurfaceId(51);

fn rect(x: i64, y: i64, width: i64, height: i64) -> LogicalRect {
    LogicalRect::new(x, y, width, height).expect("test rectangle is valid")
}

fn ticket(policy: u64) -> SurfaceMeasurementTicket {
    SurfaceMeasurementTicket::new(
        EngineAuthorityDomainId::new(1),
        WorkspaceEpoch::new(1),
        PresentationConfigRevision::new(1),
        PolicyRevision::new(policy),
        SurfaceRequirementRevision::new(1),
        SURFACE,
    )
}

fn active() -> PopupPlaneRequirement {
    let owner = TabStripStateKey::new(
        SURFACE,
        TabBarSceneId { root: RootId::new(1), tabs: NodeId::new(2) },
    );
    PopupPlaneRequirement::Active {
        revision: PopupRoutingRevision::new(3),
        session: TabListMenuSessionId::new(owner, 4),
        owner,
    }
}

fn check(
    measured: SurfaceMeasurementTicket,
    bounds: LogicalRect,
    popup: PopupPlaneRequirement,
    plane: Option<LogicalRect>,
    strips: PopupPlaneRequirement,
) -> Result<(), SceneCompilationError> {
    check_compilation_inputs(ticket(7), measured, PolicyRevision::new(7), bounds, popup, plane, strips)
}

#[test]
fn consistent_inputs_are_accepted() {
    let inactive = PopupPlaneRequirement::inactive();
    assert_eq!(check(ticket(7), rect(0, 0, 100, 100), inactive, None, inactive), Ok(()));
    let plane = Some(rect(0, 0, 100, 100));
    assert_eq!(check(ticket(7), rect(0, 0, 100, 100), active(), plane, active()), Ok(()));
}

#[test]
fn ticket_and_policy_must_match() {
    let inactive = PopupPlaneRequirement::inactive();
    assert_eq!(
        check(ticket(8), rect(0, 0, 100, 100), inactive, None, inactive),
        Err(SceneCompilationError::TicketMismatch { expected: ticket(7), actual: ticket(8) })
    );
    assert_eq!(
        check_compilation_inputs(
            ticket(8),
            ticket(8),
            PolicyRevision::new(7),
            rect(0, 0, 100, 100),
            inactive,
            None,
            inactive
        ),
        Err(SceneCompilationError::PolicyRevisionMismatch {
            ticket: PolicyRevision::new(8),
            snapshot: PolicyRevision::new(7)
        })
    );
}

#[test]
fn empty_surface_and_popup_plane_are_rejected() {
    let inactive = PopupPlaneRequirement::inactive();
    assert_eq!(
        check(ticket(7), rect(0, 0, 0, 100), inactive, None, inactive),
        Err(SceneCompilationError::EmptySurfaceBounds { surface: SURFACE })
    );
    assert_eq!(
        check(ticket(7), rect(0, 0, 100, 100), active(), Some(rect(0, 0, 100, 0)), active()),
        Err(SceneCompilationError::EmptyPopupPlaneBounds { surface: SURFACE })
    );
}

#[test]
fn popup_plane_must_follow_the_popup_requirement() {
    let inactive = PopupPlaneRequirement::inactive();
    let bounds = rect(0, 0, 100, 100);
    assert_eq!(
        check(ticket(7), bounds, active(), None, active()),
        Err(SceneCompilationError::PopupPlaneStateMismatch)
    );
    assert_eq!(
        check(ticket(7), bounds, inactive, Some(bounds), inactive),
        Err(SceneCompilationError::PopupPlaneStateMismatch)
    );
    assert_eq!(
        check(ticket(7), bounds, active(), Some(bounds), inactive),
        Err(SceneCompilationError::PopupPlaneStateMismatch)
    );
}

#[test]
fn contained_occlusions_take_layers_from_roster_positions() {
    let roster = vec![
        IndexedContained {
            floating: FloatingPresentationId::new(21),
            root: RootId::new(11),
            rect: rect(10, 10, 200, 160),
        },
        IndexedContained {
            floating: FloatingPresentationId::new(22),
            root: RootId::new(12),
            rect: rect(30, 30, 200, 160),
        },
    ];
    let occlusions = contained_occlusions(SURFACE, &roster).expect("layers are representable");
    assert_eq!(occlusions.len(), 2);
    assert_eq!(occlusions[0].floating(), FloatingPresentationId::new(21));
    assert_eq!(occlusions[0].layer(), SceneLayerKey::new(2));
    assert_eq!(occlusions[0].region(), HitRegion::new(rect(10, 10, 200, 160)));
    assert_eq!(occlusions[1].floating(), FloatingPresentationId::new(22));
    assert_eq!(occlusions[1].layer(), SceneLayerKey::new(3));
}

fn session() -> TabListMenuSessionId {
    match active() {
        PopupPlaneRequirement::Active { session, .. } => session,
        PopupPlaneRequirement::Inactive { .. } => unreachable!(),
    }
}

fn menu(session: TabListMenuSessionId) -> TabListMenuRecord {
    TabListMenuRecord::new(
        session,
        session.key().bar(),
        rect(0, 0, 50, 50),
        rect(0, 0, 50, 50),
        0,
        0,
        Vec::new(),
        SceneLayerKey::new(9),
    )
}

fn compiled(popup: PopupPlaneRequirement, surface: SurfaceId) -> PresentationPlan {
    let mut measured = ticket(7);
    if surface != SURFACE {
        measured = SurfaceMeasurementTicket::new(
            EngineAuthorityDomainId::new(1),
            WorkspaceEpoch::new(1),
            PresentationConfigRevision::new(1),
            PolicyRevision::new(7),
            SurfaceRequirementRevision::new(1),
            surface,
        );
    }
    PresentationPlan::from_measurements(measured, popup, rect(0, 0, 100, 100), None)
}

#[test]
fn compiled_menus_follow_the_popup_owner() {
    let mut owner = compiled(active(), SURFACE);
    assert_eq!(
        check_compiled_menus(&owner),
        Err(SceneCompilationError::ActiveTabListMenuProjectionUnavailable { session: session() })
    );
    owner.push_tab_list_menu_record(menu(session()));
    assert_eq!(check_compiled_menus(&owner), Ok(()));

    let mut other = compiled(active(), SurfaceId(52));
    assert_eq!(check_compiled_menus(&other), Ok(()));
    other.push_tab_list_menu_record(menu(session()));
    assert_eq!(
        check_compiled_menus(&other),
        Err(SceneCompilationError::ActiveTabListMenuProjectionUnavailable { session: session() })
    );

    let mut idle = compiled(PopupPlaneRequirement::inactive(), SURFACE);
    assert_eq!(check_compiled_menus(&idle), Ok(()));
    idle.push_tab_list_menu_record(menu(session()));
    assert_eq!(check_compiled_menus(&idle), Err(SceneCompilationError::PopupPlaneStateMismatch));
}
