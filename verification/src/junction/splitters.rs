//! The splitter geometry a junction derivation reads, and structural contact.

use vstd::prelude::*;

use crate::geometry::LogicalRect;
use crate::ids::SceneLayerKey;
use crate::records::splitter::{Axis, SplitterJunctionId, SplitterRecord, SplitterSceneId};

verus! {

/// The geometry of one operable splitter that junction derivation reads.
#[derive(Debug, Clone, Copy, PartialEq, Eq, Structural)]
pub struct IndexedSplitter {
    /// Splitter identity.
    pub id: SplitterSceneId,
    /// Painted bounds; structural contact is decided on these.
    pub draw: LogicalRect,
    /// Expanded interaction bounds.
    pub hit: LogicalRect,
    /// Axis of the owning split; `Horizontal` splitters run north-south.
    pub axis: Axis,
    /// Presentation layer.
    pub layer: SceneLayerKey,
}

impl IndexedSplitter {
    /// Reads the junction-relevant geometry of one splitter record.
    pub fn from_record(record: &SplitterRecord) -> (r: Self)
        ensures
            r.id == record.spec_id(),
            r.draw == record.draw_bounds(),
            r.hit == record.hit().rect,
            r.axis == record.axis(),
            r.layer == record.layer(),
    {
        IndexedSplitter {
            id: *record.id(),
            draw: record.draw_bounds(),
            hit: record.hit().rect(),
            axis: record.axis(),
            layer: record.layer(),
        }
    }
}

/// One exact three- or four-arm junction derived from splitter geometry.
#[derive(Debug, Clone, Copy, PartialEq, Eq, Structural)]
pub struct SplitterJunctionCandidate {
    /// Directional arms.
    pub id: SplitterJunctionId,
    /// Intersection of the arms' interaction bands.
    pub hit: LogicalRect,
    /// Presentation layer of the arms.
    pub layer: SceneLayerKey,
}

impl SplitterJunctionCandidate {
    /// Returns the junction identity.
    pub fn id(self) -> (r: SplitterJunctionId)
        ensures
            r == self.id,
    {
        self.id
    }
}

/// Work counters of one derivation.
#[derive(Debug, Clone, Copy, PartialEq, Eq, Structural, Default)]
pub struct SweepMetrics {
    /// Interval-index nodes visited by broad-phase queries.
    pub interval_nodes_visited: usize,
    /// Perpendicular pairs reported by the broad phase.
    pub broad_phase_pairs: usize,
    /// Reported pairs whose painted bounds touch.
    pub structural_contacts: usize,
}

/// Closed contact of two rectangles: they overlap or share an edge or corner.
pub open spec fn closed_touch(a: LogicalRect, b: LogicalRect) -> bool {
    a.x <= b.right() && b.x <= a.right() && a.y <= b.bottom() && b.y <= a.bottom()
}

/// Decides closed contact of two rectangles.
pub fn closed_rectangles_touch(a: LogicalRect, b: LogicalRect) -> (r: bool)
    ensures
        r == closed_touch(a, b),
{
    a.x as i64 <= b.max_x() && b.x as i64 <= a.max_x() && a.y as i64 <= b.max_y() && b.y as i64
        <= a.max_y()
}

/// Splitter `i` runs north-south and splitter `j` west-east, both of one root
/// and layer, and their painted bounds touch.
pub open spec fn is_contact(s: Seq<IndexedSplitter>, i: int, j: int) -> bool {
    &&& 0 <= i < s.len()
    &&& 0 <= j < s.len()
    &&& s[i].axis == Axis::Horizontal
    &&& s[j].axis == Axis::Vertical
    &&& s[i].id.root == s[j].id.root
    &&& s[i].layer == s[j].layer
    &&& closed_touch(s[i].draw, s[j].draw)
}

} // verus!
