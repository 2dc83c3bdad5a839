use dockspace::geometry::{HitRegion, LogicalRect, LogicalSize};
use dockspace::ids::{
    EngineAuthorityDomainId, FloatingPresentationId, PolicyRevision, PresentationConfigRevision,
    RootId, SceneLayerKey, SurfaceId, SurfaceRequirementRevision, WorkspaceEpoch,
};
use dockspace::manifest::keys::SurfaceMeasurementTicket;
use dockspace::occlusion::DropOcclusionRecord;
use dockspace::plan::PresentationPlan;
use dockspace::records::contained::ContainedMinimumMeasurement;
use dockspace::tab_strip::PopupPlaneRequirement;
use dockspace::validation::contained::IndexedContained;
use dockspace::validation::occlusions::{validate_contained_minimums, validate_drop_occlusions};
use dockspace::validation::{validate_semantic_uniqueness, SceneBuildError};

fn rect(x: i64, y: i64, width: i64, height: i64) -> LogicalRect {
    LogicalRect::new(x, y, width, height).expect("test rectangle is valid")
}

fn bounds() -> LogicalRect {
    rect(0, 0, 800, 600)
}

fn plan_in(surface: SurfaceId, surface_bounds: LogicalRect) -> PresentationPlan {
    let ticket = SurfaceMeasurementTicket::new(
        EngineAuthorityDomainId::new(1),
        WorkspaceEpoch::new(1),
        PresentationConfigRevision::new(1),
        PolicyRevision::new(1),
        SurfaceRequirementRevision::new(1),
        surface,
    );
    PresentationPlan::from_measurements(ticket, PopupPlaneRequirement::inactive(), surface_bounds, None)
}

fn contained_rect(offset: i64) -> LogicalRect {
    rect(offset, offset, 200, 160)
}

/// The contained roster of a rootless surface holding presentations 21 and 22.
fn rootless_roster() -> Vec<IndexedContained> {
    vec![
        IndexedContained {
            floating: FloatingPresentationId::new(21),
            root: RootId::new(11),
            rect: contained_rect(10),
        },
        IndexedContained {
            floating: FloatingPresentationId::new(22),
            root: RootId::new(12),
            rect: contained_rect(30),
        },
    ]
}

fn occlusion(floating: u64, region: LogicalRect, layer: u64) -> DropOcclusionRecord {
    DropOcclusionRecord::new(
        FloatingPresentationId::new(floating),
        HitRegion::new(region),
        SceneLayerKey::new(layer),
    )
}

fn publish_rootless_occlusions(plan: &mut PresentationPlan) {
    plan.push_drop_occlusion(occlusion(21, contained_rect(10), 2));
    plan.push_drop_occlusion(occlusion(22, contained_rect(30), 3));
}

fn contained_minimum(floating: FloatingPresentationId) -> ContainedMinimumMeasurement {
    ContainedMinimumMeasurement::new(
        floating,
        LogicalSize::new(120, 90).expect("contained minimum is valid"),
    )
}

fn publish_rootless_minimums(plan: &mut PresentationPlan) {
    for floating in [FloatingPresentationId::new(22), FloatingPresentationId::new(21)] {
        plan.push_contained_minimum(contained_minimum(floating));
    }
}

fn publish_rootless_facts(plan: &mut PresentationPlan) {
    publish_rootless_occlusions(plan);
    publish_rootless_minimums(plan);
}

#[test]
fn contained_occlusion_layer_is_derived_from_roster_order() {
    let surface = SurfaceId::new(80);
    let mut plan = plan_in(surface, bounds());
    plan.push_drop_occlusion(occlusion(21, contained_rect(10), 3));
    plan.push_drop_occlusion(occlusion(22, contained_rect(30), 3));
    publish_rootless_minimums(&mut plan);

    assert_eq!(
        validate_drop_occlusions(&plan, &rootless_roster()),
        Err(SceneBuildError::DropOcclusionLayerMismatch {
            surface,
            floating: FloatingPresentationId::new(21),
            expected: SceneLayerKey::new(2),
            actual: SceneLayerKey::new(3),
        })
    );
}

#[test]
fn ready_surface_requires_exact_contained_occlusion_coverage() {
    let surface = SurfaceId::new(90);
    let mut plan = plan_in(surface, bounds());
    plan.push_drop_occlusion(occlusion(21, contained_rect(10), 2));
    publish_rootless_minimums(&mut plan);

    assert_eq!(
        validate_drop_occlusions(&plan, &rootless_roster()),
        Err(SceneBuildError::MissingDropOcclusion {
            surface,
            floating: FloatingPresentationId::new(22),
        })
    );
}

#[test]
fn ready_surface_rejects_partial_contained_occlusion_geometry() {
    let surface = SurfaceId::new(100);
    let mut plan = plan_in(surface, bounds());
    plan.push_drop_occlusion(occlusion(21, rect(10, 10, 1, 1), 2));
    plan.push_drop_occlusion(occlusion(22, contained_rect(30), 3));
    publish_rootless_minimums(&mut plan);

    assert!(matches!(
        validate_drop_occlusions(&plan, &rootless_roster()),
        Err(SceneBuildError::DropOcclusionGeometryMismatch {
            surface: rejected,
            floating,
            ..
        }) if rejected == surface && floating == FloatingPresentationId::new(21)
    ));
}

#[test]
fn ready_surface_preserves_outside_occlusion_geometry() {
    let surface = SurfaceId::new(110);
    let expected = vec![contained_rect(10), contained_rect(30)];

    for surface_bounds in [rect(0, 0, 100, 100), rect(400, 400, 100, 100)] {
        let mut plan = plan_in(surface, surface_bounds);
        publish_rootless_facts(&mut plan);
        assert_eq!(validate_drop_occlusions(&plan, &rootless_roster()), Ok(()));
        assert_eq!(validate_contained_minimums(&plan, &rootless_roster()), Ok(()));
        plan.canonicalize_ready();
        assert_eq!(
            plan.drop_occlusions()
                .iter()
                .map(|occlusion| occlusion.region().rect())
                .collect::<Vec<_>>(),
            expected
        );
    }
}

#[test]
fn ready_surface_rejects_zero_area_occlusion() {
    let surface = SurfaceId::new(120);
    let floating = FloatingPresentationId::new(122);
    let durable = rect(10, 10, 200, 160);
    let zero = rect(10, 10, 0, 160);
    let roster = [IndexedContained {
        floating,
        root: RootId::new(121),
        rect: durable,
    }];
    let mut plan = plan_in(surface, bounds());
    plan.push_drop_occlusion(DropOcclusionRecord::new(
        floating,
        HitRegion::new(zero),
        SceneLayerKey::new(2),
    ));
    plan.push_contained_minimum(contained_minimum(floating));

    assert_eq!(
        validate_drop_occlusions(&plan, &roster),
        Err(SceneBuildError::EmptyDropOcclusionRegion { surface, floating })
    );
}

#[test]
fn ready_surface_requires_exact_contained_minimum_coverage() {
    let surface = SurfaceId::new(130);
    let mut plan = plan_in(surface, bounds());
    publish_rootless_occlusions(&mut plan);
    plan.push_contained_minimum(contained_minimum(FloatingPresentationId::new(21)));

    assert_eq!(validate_drop_occlusions(&plan, &rootless_roster()), Ok(()));
    assert_eq!(
        validate_contained_minimums(&plan, &rootless_roster()),
        Err(SceneBuildError::MissingContainedMinimumMeasurement {
            surface,
            floating: FloatingPresentationId::new(22),
        })
    );
}

#[test]
fn duplicate_contained_minimum_has_stable_identity_winner() {
    let surface = SurfaceId::new(140);
    let lower = FloatingPresentationId::new(21);
    let higher = FloatingPresentationId::new(22);

    for order in [[higher, higher, lower, lower], [lower, lower, higher, higher]] {
        let mut plan = plan_in(surface, bounds());
        for floating in order {
            plan.push_contained_minimum(contained_minimum(floating));
        }
        assert_eq!(
            validate_semantic_uniqueness(&plan),
            Err(SceneBuildError::DuplicateContainedMinimumMeasurement { floating: lower })
        );
    }
}

#[test]
fn unexpected_contained_minimum_has_stable_identity_winner() {
    let surface = SurfaceId::new(150);
    let lower = FloatingPresentationId::new(151);
    let higher = FloatingPresentationId::new(152);

    for order in [[higher, lower], [lower, higher]] {
        let mut plan = plan_in(surface, bounds());
        publish_rootless_facts(&mut plan);
        for floating in order {
            plan.push_contained_minimum(contained_minimum(floating));
        }
        assert_eq!(
            validate_contained_minimums(&plan, &rootless_roster()),
            Err(SceneBuildError::UnexpectedContainedMinimumMeasurement {
                surface,
                floating: lower,
            })
        );
    }
}

#[test]
fn ready_surface_rejects_minimum_owned_by_another_surface() {
    let surface = SurfaceId::new(160);
    let own_floating = FloatingPresentationId::new(164);
    let other_floating = FloatingPresentationId::new(165);
    let own_rect = rect(10, 10, 200, 160);
    let roster = [IndexedContained {
        floating: own_floating,
        root: RootId::new(162),
        rect: own_rect,
    }];

    let mut plan = plan_in(surface, bounds());
    plan.push_drop_occlusion(DropOcclusionRecord::new(
        own_floating,
        HitRegion::new(own_rect),
        SceneLayerKey::new(2),
    ));
    plan.push_contained_minimum(contained_minimum(own_floating));
    plan.push_contained_minimum(contained_minimum(other_floating));

    assert_eq!(validate_drop_occlusions(&plan, &roster), Ok(()));
    assert_eq!(
        validate_contained_minimums(&plan, &roster),
        Err(SceneBuildError::UnexpectedContainedMinimumMeasurement {
            surface,
            floating: other_floating,
        })
    );
}

#[test]
fn zero_contained_minimum_is_preserved_and_canonicalized() {
    let surface = SurfaceId::new(170);
    let zero = LogicalSize::new(0, 0).expect("zero minimum is representable");
    let mut plan = plan_in(surface, bounds());
    publish_rootless_occlusions(&mut plan);
    plan.push_contained_minimum(contained_minimum(FloatingPresentationId::new(22)));
    plan.push_contained_minimum(ContainedMinimumMeasurement::new(
        FloatingPresentationId::new(21),
        zero,
    ));

    assert_eq!(validate_semantic_uniqueness(&plan), Ok(()));
    assert_eq!(validate_contained_minimums(&plan, &rootless_roster()), Ok(()));
    plan.canonicalize_ready();
    assert_eq!(
        plan.contained_minimums(),
        [
            ContainedMinimumMeasurement::new(FloatingPresentationId::new(21), zero),
            contained_minimum(FloatingPresentationId::new(22)),
        ]
    );
}

#[test]
fn contained_layers_stack_above_the_surface_base() {
    assert_eq!(SceneLayerKey::surface_base(), SceneLayerKey::new(1));
    assert_eq!(SceneLayerKey::contained(0), Some(SceneLayerKey::new(2)));
    assert_eq!(SceneLayerKey::contained(1), Some(SceneLayerKey::new(3)));
}
