use std::collections::BTreeMap;

use dockspace::geometry::LogicalRect;
use dockspace::ids::{NodeId, RootId, SceneLayerKey};
use dockspace::junction::derive::derive_indexed_splitter_junction_candidates;
use dockspace::junction::interval::{BandKey, IntervalIndex, IntervalSlot};
use dockspace::junction::splitters::{
    closed_rectangles_touch, IndexedSplitter, SplitterJunctionCandidate, SweepMetrics,
};
use dockspace::records::splitter::{
    Axis, SplitterJunctionDirection, SplitterJunctionId, SplitterSceneId,
};

const LAYER: SceneLayerKey = SceneLayerKey(1);

fn rect(x: i64, y: i64, width: i64, height: i64) -> LogicalRect {
    LogicalRect::new(x, y, width, height).expect("test rectangle is valid")
}

fn splitter(index: usize, axis: Axis, draw: LogicalRect, hit: LogicalRect) -> IndexedSplitter {
    IndexedSplitter { id: splitter_id(index), draw, hit, axis, layer: LAYER }
}

fn splitter_id(index: usize) -> SplitterSceneId {
    SplitterSceneId { root: RootId::new(1), split: NodeId::default(), index }
}

fn derive(splitters: Vec<IndexedSplitter>) -> (Vec<SplitterJunctionCandidate>, SweepMetrics) {
    derive_indexed_splitter_junction_candidates(&splitters)
}

fn assert_arm(
    candidate: SplitterJunctionCandidate,
    direction: SplitterJunctionDirection,
    expected: Option<usize>,
) {
    assert_eq!(candidate.id.arm(direction), expected.map(splitter_id));
}

#[test]
fn t_junction_preserves_three_directional_arms() {
    let north_south = splitter(0, Axis::Horizontal, rect(9, 0, 2, 20), rect(7, 0, 6, 20));
    let west = splitter(1, Axis::Vertical, rect(0, 9, 9, 2), rect(0, 7, 13, 6));

    let (candidates, _) = derive(vec![north_south, west]);

    assert_eq!(candidates.len(), 1);
    let candidate = candidates[0];
    assert_eq!(candidate.hit, rect(7, 7, 6, 6));
    assert_arm(candidate, SplitterJunctionDirection::North, Some(0));
    assert_arm(candidate, SplitterJunctionDirection::East, None);
    assert_arm(candidate, SplitterJunctionDirection::South, Some(0));
    assert_arm(candidate, SplitterJunctionDirection::West, Some(1));
}

#[test]
fn cross_junction_aggregates_four_distinct_touching_handles() {
    let north = splitter(0, Axis::Horizontal, rect(9, 0, 2, 9), rect(7, 0, 6, 13));
    let south = splitter(1, Axis::Horizontal, rect(9, 11, 2, 9), rect(7, 7, 6, 13));
    let west = splitter(2, Axis::Vertical, rect(0, 9, 9, 2), rect(0, 7, 13, 6));
    let east = splitter(3, Axis::Vertical, rect(11, 9, 9, 2), rect(7, 7, 13, 6));

    let (candidates, _) = derive(vec![north, south, west, east]);

    assert_eq!(candidates.len(), 1);
    let candidate = candidates[0];
    assert_eq!(candidate.hit, rect(7, 7, 6, 6));
    assert_arm(candidate, SplitterJunctionDirection::North, Some(0));
    assert_arm(candidate, SplitterJunctionDirection::East, Some(3));
    assert_arm(candidate, SplitterJunctionDirection::South, Some(1));
    assert_arm(candidate, SplitterJunctionDirection::West, Some(2));
}

#[test]
fn ambiguous_direction_fails_closed_without_selecting_a_winner() {
    let north_south = splitter(0, Axis::Horizontal, rect(9, 0, 2, 20), rect(7, 0, 6, 20));
    let west_a = splitter(1, Axis::Vertical, rect(0, 9, 9, 2), rect(0, 7, 13, 6));
    let west_b = splitter(2, Axis::Vertical, rect(1, 9, 8, 2), rect(1, 7, 12, 6));

    let (candidates, _) = derive(vec![north_south, west_a, west_b]);

    assert!(candidates.is_empty());
}

#[test]
fn two_arm_contact_is_not_promoted_to_a_junction() {
    let north = splitter(0, Axis::Horizontal, rect(9, 0, 2, 9), rect(7, 0, 6, 13));
    let west = splitter(1, Axis::Vertical, rect(0, 9, 9, 2), rect(0, 7, 13, 6));

    let (candidates, _) = derive(vec![north, west]);

    assert!(candidates.is_empty());
}

#[test]
fn expanded_hit_overlap_cannot_invent_structural_touching() {
    let north_south = splitter(0, Axis::Horizontal, rect(9, 0, 2, 8), rect(7, 0, 6, 13));
    let west_east = splitter(1, Axis::Vertical, rect(0, 9, 8, 2), rect(0, 7, 13, 6));

    let (candidates, metrics) = derive(vec![north_south, west_east]);

    assert!(candidates.is_empty());
    assert_eq!(metrics.broad_phase_pairs, 0);
    assert_eq!(metrics.structural_contacts, 0);
}

#[test]
fn terminal_arms_form_a_junction_hit_from_perpendicular_bands() {
    let north_south = splitter(0, Axis::Horizontal, rect(4, 0, 2, 20), rect(3, 0, 4, 20));
    let west = splitter(1, Axis::Vertical, rect(0, 9, 4, 2), rect(0, 7, 5, 6));
    let east = splitter(2, Axis::Vertical, rect(6, 9, 4, 2), rect(5, 7, 5, 6));

    let (candidates, metrics) = derive(vec![north_south, west, east]);

    assert_eq!(candidates.len(), 1);
    assert_eq!(candidates[0].hit, rect(3, 7, 4, 6));
    assert_eq!(metrics.structural_contacts, 2);
}

#[test]
fn deterministic_generated_scenes_match_brute_force_oracle() {
    for seed in 1..=64 {
        let splitters = generated_splitters(seed, 48);
        let (indexed, _) = derive(splitters.clone());
        let brute_force = brute_force_candidates(&splitters);
        assert_eq!(indexed, brute_force, "sweep diverged for seed {seed}");
    }
}

#[test]
fn one_thousand_twenty_four_splitters_remain_output_sensitive() {
    const PER_AXIS: usize = 512;
    let mut splitters = Vec::with_capacity(PER_AXIS * 2);
    for index in 0..PER_AXIS {
        let y = index as i64 * 4;
        splitters.push(splitter(index, Axis::Vertical, rect(0, y, 5_000, 1), rect(0, y, 5_000, 1)));
        let x = index as i64 * 8 + 10;
        splitters.push(splitter(
            PER_AXIS + index,
            Axis::Horizontal,
            rect(x, y, 1, 1),
            rect(x, y, 1, 1),
        ));
    }

    let (candidates, metrics) = derive(splitters);

    assert_eq!(candidates.len(), PER_AXIS);
    assert_eq!(metrics.broad_phase_pairs, PER_AXIS);
    assert_eq!(metrics.structural_contacts, PER_AXIS);
    assert!(
        metrics.interval_nodes_visited < PER_AXIS * 32,
        "sweep visited {} interval nodes for {PER_AXIS} output-sensitive junctions",
        metrics.interval_nodes_visited
    );
}

#[test]
fn huge_hit_extents_cannot_turn_sparse_draw_contacts_into_a_quadratic_scan() {
    const PER_AXIS: usize = 512;
    const SPACING: i64 = 40;
    let shared_hit = rect(-100_000, -100_000, 200_000, 200_000);
    let mut splitters = Vec::with_capacity(PER_AXIS * 2);
    for index in 0..PER_AXIS {
        let origin = index as i64 * SPACING;
        splitters.push(splitter(
            index,
            Axis::Horizontal,
            rect(origin + 9, origin, 2, 20),
            shared_hit,
        ));
        splitters.push(splitter(
            PER_AXIS + index,
            Axis::Vertical,
            rect(origin, origin + 9, 20, 2),
            shared_hit,
        ));
    }

    let (candidates, metrics) = derive(splitters);

    assert_eq!(candidates.len(), PER_AXIS);
    assert_eq!(metrics.broad_phase_pairs, PER_AXIS);
    assert_eq!(metrics.structural_contacts, PER_AXIS);
    assert!(
        metrics.interval_nodes_visited < PER_AXIS * 32,
        "draw-bound sweep visited {} interval nodes for {PER_AXIS} sparse contacts",
        metrics.interval_nodes_visited
    );
}

fn band(at: i64) -> BandKey {
    BandKey { root: 1, layer: 1, at }
}

fn entry(index: usize, start: i64, end: i64) -> IntervalSlot {
    IntervalSlot { start: band(start), end: band(end), member: index }
}

#[test]
fn interval_queries_scale_with_tree_height_and_report_exact_overlaps() {
    const COUNT: usize = 1_024;
    let slots: Vec<IntervalSlot> =
        (0..COUNT).map(|index| entry(index, index as i64 * 8, index as i64 * 8 + 4)).collect();
    let mut index = IntervalIndex::new(&slots);
    for position in 0..COUNT {
        index.set_active(position, true);
    }

    let mut total_visits = 0;
    for target in 0..COUNT {
        let start = target as i64 * 8;
        let mut matches = Vec::new();
        index.query(band(start + 1), band(start + 3), &mut matches, &mut total_visits);
        assert_eq!(matches, [target]);
    }

    assert!(
        total_visits < COUNT * 32,
        "balanced interval queries visited {total_visits} nodes for {COUNT} exact hits"
    );
}

#[test]
fn interval_removal_preserves_balance_and_closed_boundaries() {
    let slots = [entry(0, 0, 4), entry(1, 4, 8), entry(2, 2, 6)];
    let mut index = IntervalIndex::new(&slots);
    for position in 0..slots.len() {
        index.set_active(position, true);
    }
    // Slots are ordered by start: 0, 2, 1.
    index.set_active(1, false);

    let mut visited = 0;
    let mut left = Vec::new();
    index.query(band(3), band(4), &mut left, &mut visited);
    assert_eq!(left, [0, 1]);
    let mut right = Vec::new();
    index.query(band(4), band(5), &mut right, &mut visited);
    assert_eq!(right, [0, 1]);
}

#[test]
fn intervals_of_other_bands_never_overlap() {
    let slots = [IntervalSlot { start: BandKey { root: 2, layer: 1, at: 0 }, end: BandKey {
        root: 2,
        layer: 1,
        at: 10,
    }, member: 7 }];
    let mut index = IntervalIndex::new(&slots);
    index.set_active(0, true);
    let mut visited = 0;
    let mut found = Vec::new();
    index.query(band(0), band(10), &mut found, &mut visited);
    assert!(found.is_empty());
}

#[test]
fn junctions_of_different_layers_are_independent() {
    let north_south = splitter(0, Axis::Horizontal, rect(9, 0, 2, 20), rect(7, 0, 6, 20));
    let mut west = splitter(1, Axis::Vertical, rect(0, 9, 9, 2), rect(0, 7, 13, 6));
    west.layer = SceneLayerKey(2);

    let (candidates, metrics) = derive(vec![north_south, west]);

    assert!(candidates.is_empty());
    assert_eq!(metrics.broad_phase_pairs, 0);
}

#[test]
fn junction_hit_is_the_intersection_of_exact_bands() {
    let north_south = splitter(0, Axis::Horizontal, rect(9, 0, 2, 20), rect(9, 0, 2, 20));
    let west = splitter(1, Axis::Vertical, rect(0, 9, 9, 2), rect(0, 9, 8, 2));
    let east = splitter(2, Axis::Vertical, rect(11, 9, 9, 2), rect(12, 9, 8, 2));

    let (candidates, metrics) = derive(vec![north_south, west, east]);

    assert_eq!(metrics.structural_contacts, 2);
    assert_eq!(candidates.len(), 1);
    assert_eq!(candidates[0].hit, rect(9, 9, 2, 2));
}

#[test]
fn closed_contact_includes_shared_corners() {
    assert!(closed_rectangles_touch(rect(0, 0, 2, 2), rect(2, 2, 2, 2)));
    assert!(!closed_rectangles_touch(rect(0, 0, 2, 2), rect(3, 0, 2, 2)));
}

fn doubled_center(north_south: &IndexedSplitter, west_east: &IndexedSplitter) -> (i64, i64) {
    (
        north_south.draw.x as i64 + north_south.draw.max_x(),
        west_east.draw.y as i64 + west_east.draw.max_y(),
    )
}

#[derive(Default)]
struct Oracle {
    north: Vec<SplitterSceneId>,
    east: Vec<SplitterSceneId>,
    south: Vec<SplitterSceneId>,
    west: Vec<SplitterSceneId>,
    x_band: Option<(i64, i64)>,
    y_band: Option<(i64, i64)>,
}

fn claim(arm: &mut Vec<SplitterSceneId>, id: SplitterSceneId) {
    if !arm.contains(&id) {
        arm.push(id);
    }
}

fn meet(band: Option<(i64, i64)>, low: i64, high: i64) -> Option<(i64, i64)> {
    Some(band.map_or((low, high), |(a, b)| (a.max(low), b.min(high))))
}

fn arm(claims: &[SplitterSceneId]) -> Result<Option<SplitterSceneId>, ()> {
    match claims {
        [] => Ok(None),
        [only] => Ok(Some(*only)),
        _ => Err(()),
    }
}

fn brute_force_candidates(splitters: &[IndexedSplitter]) -> Vec<SplitterJunctionCandidate> {
    let mut junctions = BTreeMap::<(u64, u64, i64, i64), Oracle>::new();
    for north_south in splitters.iter().filter(|s| s.axis == Axis::Horizontal) {
        for west_east in splitters.iter().filter(|s| s.axis == Axis::Vertical) {
            if north_south.id.root != west_east.id.root || north_south.layer != west_east.layer {
                continue;
            }
            if !closed_rectangles_touch(north_south.draw, west_east.draw) {
                continue;
            }
            let (cx2, cy2) = doubled_center(north_south, west_east);
            let oracle = junctions
                .entry((north_south.id.root.0, north_south.layer.0, cx2, cy2))
                .or_default();
            if 2 * (north_south.draw.y as i64) < cy2 {
                claim(&mut oracle.north, north_south.id);
            }
            if 2 * north_south.draw.max_y() > cy2 {
                claim(&mut oracle.south, north_south.id);
            }
            if 2 * (west_east.draw.x as i64) < cx2 {
                claim(&mut oracle.west, west_east.id);
            }
            if 2 * west_east.draw.max_x() > cx2 {
                claim(&mut oracle.east, west_east.id);
            }
            oracle.x_band =
                meet(oracle.x_band, north_south.hit.x as i64, north_south.hit.max_x());
            oracle.y_band = meet(oracle.y_band, west_east.hit.y as i64, west_east.hit.max_y());
        }
    }
    let mut candidates = Vec::new();
    for (key, oracle) in junctions {
        let (Ok(north), Ok(east), Ok(south), Ok(west)) =
            (arm(&oracle.north), arm(&oracle.east), arm(&oracle.south), arm(&oracle.west))
        else {
            continue;
        };
        let id = SplitterJunctionId { north, east, south, west };
        if id.arm_count() < 3 {
            continue;
        }
        let (Some((x0, x1)), Some((y0, y1))) = (oracle.x_band, oracle.y_band) else {
            continue;
        };
        if x0 >= x1 || y0 >= y1 {
            continue;
        }
        candidates.push(SplitterJunctionCandidate {
            id,
            hit: rect(x0, y0, x1 - x0, y1 - y0),
            layer: SceneLayerKey(key.1),
        });
    }
    candidates.sort_by_key(|candidate| candidate.id);
    let mut unique = Vec::new();
    for (index, candidate) in candidates.iter().enumerate() {
        let before = index > 0 && candidates[index - 1].id == candidate.id;
        let after = index + 1 < candidates.len() && candidates[index + 1].id == candidate.id;
        if !before && !after {
            unique.push(*candidate);
        }
    }
    unique
}

fn generated_splitters(seed: u64, count: usize) -> Vec<IndexedSplitter> {
    let mut state = seed;
    (0..count)
        .map(|index| {
            let axis = if next(&mut state) % 2 == 0 { Axis::Horizontal } else { Axis::Vertical };
            let x = (next(&mut state) % 32) as i64;
            let y = (next(&mut state) % 32) as i64;
            let width = (next(&mut state) % 12 + 1) as i64;
            let height = (next(&mut state) % 12 + 1) as i64;
            let draw = rect(x, y, width, height);
            let expansion = (next(&mut state) % 4) as i64;
            let hit = rect(x - expansion, y - expansion, width + expansion * 2, height + expansion * 2);
            splitter(index, axis, draw, hit)
        })
        .collect()
}

fn next(state: &mut u64) -> u64 {
    *state = state.wrapping_mul(6_364_136_223_846_793_005).wrapping_add(1_442_695_040_888_963_407);
    *state
}
