use dockspace::geometry::{HitRegion, LogicalRect, LogicalSize};
use dockspace::ids::{
    EngineAuthorityDomainId, FloatingPresentationId, PolicyRevision, PresentationConfigRevision,
    RootId, SceneLayerKey, SurfaceId, SurfaceRequirementRevision, WorkspaceEpoch,
};
use dockspace::manifest::keys::SurfaceMeasurementTicket;
use dockspace::plan::PresentationPlan;
use dockspace::records::contained::{
    ContainedMinimumMeasurement, ContainedRecord, ContainedResizeDirection, ContainedResizeRecord,
};
use dockspace::tab_strip::PopupPlaneRequirement;
use dockspace::validation::contained::{validate_contained_records, IndexedContained};
use dockspace::validation::SceneBuildError;

const SURFACE: SurfaceId = SurfaceId(41);

fn rect(x: i64, y: i64, width: i64, height: i64) -> LogicalRect {
    LogicalRect::new(x, y, width, height).expect("test rectangle is valid")
}

fn size(width: i64, height: i64) -> LogicalSize {
    LogicalSize::new(width, height).expect("test size is valid")
}

fn plan() -> PresentationPlan {
    let ticket = SurfaceMeasurementTicket::new(
        EngineAuthorityDomainId::new(1),
        WorkspaceEpoch::new(1),
        PresentationConfigRevision::new(1),
        PolicyRevision::new(1),
        SurfaceRequirementRevision::new(1),
        SURFACE,
    );
    PresentationPlan::from_measurements(
        ticket,
        PopupPlaneRequirement::inactive(),
        rect(0, 0, 640, 480),
        None,
    )
}

fn placement(floating: u64, root: u64, placed: LogicalRect) -> IndexedContained {
    IndexedContained {
        floating: FloatingPresentationId::new(floating),
        root: RootId::new(root),
        rect: placed,
    }
}

fn roster() -> Vec<IndexedContained> {
    vec![
        placement(7, 70, rect(100, 100, 200, 150)),
        placement(8, 80, rect(700, 0, 50, 50)),
        placement(9, 90, rect(600, 400, 100, 100)),
    ]
}

fn resize(outer: LogicalRect, edge: i64) -> [ContainedResizeRecord; 8] {
    let (x, y, w, h) = (outer.x() as i64, outer.y() as i64, outer.width() as i64, outer.height() as i64);
    let region = |direction, r: LogicalRect| ContainedResizeRecord::new(direction, HitRegion::new(r));
    [
        region(ContainedResizeDirection::NorthWest, rect(x, y, edge, edge)),
        region(ContainedResizeDirection::North, rect(x + edge, y, w - 2 * edge, edge)),
        region(ContainedResizeDirection::NorthEast, rect(x + w - edge, y, edge, edge)),
        region(ContainedResizeDirection::East, rect(x + w - edge, y + edge, edge, h - 2 * edge)),
        region(ContainedResizeDirection::SouthEast, rect(x + w - edge, y + h - edge, edge, edge)),
        region(ContainedResizeDirection::South, rect(x + edge, y + h - edge, w - 2 * edge, edge)),
        region(ContainedResizeDirection::SouthWest, rect(x, y + h - edge, edge, edge)),
        region(ContainedResizeDirection::West, rect(x, y + edge, edge, h - 2 * edge)),
    ]
}

fn first_record(ordinal: usize, minimum: LogicalSize) -> ContainedRecord {
    let outer = rect(100, 100, 200, 150);
    ContainedRecord::new(
        FloatingPresentationId::new(7),
        RootId::new(70),
        ordinal,
        outer,
        rect(102, 102, 196, 146),
        rect(102, 102, 196, 20),
        HitRegion::new(rect(102, 102, 150, 20)),
        rect(102, 122, 196, 126),
        Some(rect(260, 104, 16, 16)),
        true,
        resize(outer, 2),
        minimum,
        SceneLayerKey::new(2),
    )
}

fn clipped_record(ordinal: usize) -> ContainedRecord {
    let outer = rect(600, 400, 40, 80);
    ContainedRecord::new(
        FloatingPresentationId::new(9),
        RootId::new(90),
        ordinal,
        outer,
        rect(601, 401, 38, 78),
        rect(601, 401, 38, 10),
        HitRegion::new(rect(601, 401, 38, 10)),
        rect(601, 411, 38, 68),
        None,
        true,
        resize(outer, 1),
        size(30, 30),
        SceneLayerKey::new(4),
    )
}

fn measured_plan() -> PresentationPlan {
    let mut ready = plan();
    ready.push_contained_minimum(ContainedMinimumMeasurement::new(
        FloatingPresentationId::new(7),
        size(120, 80),
    ));
    ready.push_contained_minimum(ContainedMinimumMeasurement::new(
        FloatingPresentationId::new(9),
        size(30, 30),
    ));
    ready
}

#[test]
fn visible_roster_presentations_publish_in_roster_order() {
    let mut ready = measured_plan();
    ready.push_contained_record(first_record(0, size(120, 80)));
    ready.push_contained_record(clipped_record(2));
    assert_eq!(validate_contained_records(&ready, &roster()), Ok(()));
}

#[test]
fn a_missing_visible_presentation_is_a_set_mismatch() {
    let mut ready = measured_plan();
    ready.push_contained_record(first_record(0, size(120, 80)));
    assert_eq!(
        validate_contained_records(&ready, &roster()),
        Err(SceneBuildError::ContainedRecordSetMismatch { surface: SURFACE })
    );
}

#[test]
fn roster_ordinal_and_measured_minimum_must_match() {
    let mut misplaced = measured_plan();
    misplaced.push_contained_record(first_record(0, size(120, 80)));
    misplaced.push_contained_record(clipped_record(1));
    assert_eq!(
        validate_contained_records(&misplaced, &roster()),
        Err(SceneBuildError::InvalidContainedRecord {
            surface: SURFACE,
            floating: FloatingPresentationId::new(9),
        })
    );

    let mut stale_minimum = measured_plan();
    stale_minimum.push_contained_record(first_record(0, size(100, 80)));
    stale_minimum.push_contained_record(clipped_record(2));
    assert_eq!(
        validate_contained_records(&stale_minimum, &roster()),
        Err(SceneBuildError::InvalidContainedRecord {
            surface: SURFACE,
            floating: FloatingPresentationId::new(7),
        })
    );
}

#[test]
fn the_latest_minimum_measurement_is_authoritative() {
    let mut ready = measured_plan();
    ready.push_contained_minimum(ContainedMinimumMeasurement::new(
        FloatingPresentationId::new(7),
        size(150, 90),
    ));
    ready.push_contained_record(first_record(0, size(120, 80)));
    ready.push_contained_record(clipped_record(2));
    assert_eq!(
        validate_contained_records(&ready, &roster()),
        Err(SceneBuildError::InvalidContainedRecord {
            surface: SURFACE,
            floating: FloatingPresentationId::new(7),
        })
    );
}

#[test]
fn contained_record_layer_is_derived_from_its_roster_ordinal() {
    let mut ready = measured_plan();
    let outer = rect(100, 100, 200, 150);
    ready.push_contained_record(ContainedRecord::new(
        FloatingPresentationId::new(7),
        RootId::new(70),
        0,
        outer,
        rect(102, 102, 196, 146),
        rect(102, 102, 196, 20),
        HitRegion::new(rect(102, 102, 150, 20)),
        rect(102, 122, 196, 126),
        Some(rect(260, 104, 16, 16)),
        true,
        resize(outer, 2),
        size(120, 80),
        SceneLayerKey::new(3),
    ));
    ready.push_contained_record(clipped_record(2));
    assert_eq!(
        validate_contained_records(&ready, &roster()),
        Err(SceneBuildError::InvalidContainedRecord {
            surface: SURFACE,
            floating: FloatingPresentationId::new(7),
        })
    );
}
