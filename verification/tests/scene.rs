use dockspace::geometry::{HitRegion, LogicalRect};
use dockspace::ids::{FloatingPresentationId, SceneLayerKey};
use dockspace::occlusion::{region_has_authoritative_area, DropOcclusionRecord};

fn occlusion(floating: u64, rect: LogicalRect, layer: u64) -> DropOcclusionRecord {
    DropOcclusionRecord::new(
        FloatingPresentationId::new(floating),
        HitRegion::new(rect),
        SceneLayerKey::new(layer),
    )
}

#[test]
fn splitter_operability_requires_exact_remaining_hit_area() {
    let region = LogicalRect::new(0, 0, 100, 100).expect("region is valid");
    let lower = SceneLayerKey::new(1);

    assert!(region_has_authoritative_area(region, lower, &[]));
    assert!(!region_has_authoritative_area(region, lower, &[occlusion(1, region, 2)]));

    let tiled = [
        occlusion(2, LogicalRect::new(0, 0, 50, 100).expect("left tile is valid"), 2),
        occlusion(3, LogicalRect::new(50, 0, 50, 100).expect("right tile is valid"), 3),
    ];
    assert!(!region_has_authoritative_area(region, lower, &tiled));

    let gap = [
        occlusion(4, LogicalRect::new(0, 0, 49, 100).expect("left cover is valid"), 2),
        occlusion(5, LogicalRect::new(51, 0, 49, 100).expect("right cover is valid"), 3),
    ];
    assert!(region_has_authoritative_area(region, lower, &gap));
    assert!(region_has_authoritative_area(region, SceneLayerKey::new(3), &tiled));
}

#[test]
fn occluders_on_the_same_layer_do_not_hide_a_region() {
    let region = LogicalRect::new(10, 10, 20, 20).expect("region is valid");
    assert!(region_has_authoritative_area(
        region,
        SceneLayerKey::new(2),
        &[occlusion(1, region, 2)],
    ));
}

#[test]
fn an_empty_region_has_no_authoritative_area_to_lose() {
    let region = LogicalRect::new(10, 10, 0, 20).expect("region is valid");
    assert!(region_has_authoritative_area(region, SceneLayerKey::new(0), &[]));
}

#[test]
fn vertical_gap_between_stacked_covers_keeps_the_region_operable() {
    let region = LogicalRect::new(0, 0, 100, 100).expect("region is valid");
    let stacked = [
        occlusion(1, LogicalRect::new(0, 0, 100, 40).expect("top cover is valid"), 2),
        occlusion(2, LogicalRect::new(0, 41, 100, 59).expect("bottom cover is valid"), 2),
    ];
    assert!(region_has_authoritative_area(region, SceneLayerKey::new(1), &stacked));
    let sealed = [
        occlusion(1, LogicalRect::new(0, 0, 100, 41).expect("top cover is valid"), 2),
        occlusion(2, LogicalRect::new(0, 41, 100, 59).expect("bottom cover is valid"), 2),
    ];
    assert!(!region_has_authoritative_area(region, SceneLayerKey::new(1), &sealed));
}
