//! Contained-floating chrome, resize, and measurement records.

use vstd::prelude::*;

use crate::geometry::{HitRegion, LogicalRect, LogicalSize};
use crate::ids::{FloatingPresentationId, RootId, SceneLayerKey};

verus! {

/// One device-independent contained-floating resize direction.
#[derive(Debug, Clone, Copy, PartialEq, Eq, Structural, PartialOrd, Ord, Hash)]
pub enum ContainedResizeDirection {
    /// Top edge.
    North,
    /// Top-right corner.
    NorthEast,
    /// Right edge.
    East,
    /// Bottom-right corner.
    SouthEast,
    /// Bottom edge.
    South,
    /// Bottom-left corner.
    SouthWest,
    /// Left edge.
    West,
    /// Top-left corner.
    NorthWest,
}

/// Exact hit geometry for one contained-floating resize direction.
#[derive(Debug, Clone, Copy, PartialEq, Eq, Structural)]
pub struct ContainedResizeRecord {
    direction: ContainedResizeDirection,
    hit: HitRegion,
}

impl ContainedResizeRecord {
    /// Creates one record from its exact parts.
    pub fn new(direction: ContainedResizeDirection, hit: HitRegion) -> (r: Self)
        ensures
            r.direction() == direction,
            r.hit() == hit,
    {
        Self { direction, hit }
    }

    /// Exact value behind [`Self::direction`].
    pub closed spec fn spec_direction(self) -> ContainedResizeDirection {
        self.direction
    }

    /// Returns the resize direction.
    #[verifier::when_used_as_spec(spec_direction)]
    pub fn direction(self) -> (r: ContainedResizeDirection)
        ensures
            r == self.spec_direction(),
    {
        self.direction
    }

    /// Exact value behind [`Self::hit`].
    pub closed spec fn spec_hit(self) -> HitRegion {
        self.hit
    }

    /// Returns the exact half-open resize hit region.
    #[verifier::when_used_as_spec(spec_hit)]
    pub fn hit(self) -> (r: HitRegion)
        ensures
            r == self.spec_hit(),
    {
        self.hit
    }
}

/// Core-compiled contained-floating frame and chrome geometry.
#[derive(Debug, Clone, PartialEq, Eq)]
pub struct ContainedRecord {
    floating: FloatingPresentationId,
    root: RootId,
    ordinal: usize,
    outer_bounds: LogicalRect,
    inner_bounds: LogicalRect,
    title_bounds: LogicalRect,
    title_drag_hit: HitRegion,
    content_bounds: LogicalRect,
    close_bounds: Option<LogicalRect>,
    transform_operable: bool,
    resize: [ContainedResizeRecord; 8],
    minimum_size: LogicalSize,
    layer: SceneLayerKey,
}

impl ContainedRecord {
    /// Creates one record from its exact parts.
    pub fn new(floating: FloatingPresentationId, root: RootId, ordinal: usize, outer_bounds: LogicalRect, inner_bounds: LogicalRect, title_bounds: LogicalRect, title_drag_hit: HitRegion, content_bounds: LogicalRect, close_bounds: Option<LogicalRect>, transform_operable: bool, resize: [ContainedResizeRecord; 8], minimum_size: LogicalSize, layer: SceneLayerKey) -> (r: Self)
        ensures
            r.floating() == floating,
            r.root() == root,
            r.ordinal() == ordinal,
            r.outer_bounds() == outer_bounds,
            r.inner_bounds() == inner_bounds,
            r.title_bounds() == title_bounds,
            r.title_drag_hit() == title_drag_hit,
            r.content_bounds() == content_bounds,
            r.close_bounds() == close_bounds,
            r.transform_operable() == transform_operable,
            r.spec_resize() == resize,
            r.minimum_size() == minimum_size,
            r.layer() == layer,
    {
        Self { floating, root, ordinal, outer_bounds, inner_bounds, title_bounds, title_drag_hit, content_bounds, close_bounds, transform_operable, resize, minimum_size, layer }
    }

    /// Exact value behind [`Self::floating`].
    pub closed spec fn spec_floating(&self) -> FloatingPresentationId {
        self.floating
    }

    /// Returns the stable contained presentation identity.
    #[verifier::when_used_as_spec(spec_floating)]
    pub fn floating(&self) -> (r: FloatingPresentationId)
        ensures
            r == self.spec_floating(),
    {
        self.floating
    }

    /// Exact value behind [`Self::root`].
    pub closed spec fn spec_root(&self) -> RootId {
        self.root
    }

    /// Returns the presented docking root.
    #[verifier::when_used_as_spec(spec_root)]
    pub fn root(&self) -> (r: RootId)
        ensures
            r == self.spec_root(),
    {
        self.root
    }

    /// Exact value behind [`Self::ordinal`].
    pub closed spec fn spec_ordinal(&self) -> usize {
        self.ordinal
    }

    /// Returns the back-to-front structural roster ordinal.
    #[verifier::when_used_as_spec(spec_ordinal)]
    pub fn ordinal(&self) -> (r: usize)
        ensures
            r == self.spec_ordinal(),
    {
        self.ordinal
    }

    /// Exact value behind [`Self::outer_bounds`].
    pub closed spec fn spec_outer_bounds(&self) -> LogicalRect {
        self.outer_bounds
    }

    /// Returns the surface-clipped outer frame bounds.
    #[verifier::when_used_as_spec(spec_outer_bounds)]
    pub fn outer_bounds(&self) -> (r: LogicalRect)
        ensures
            r == self.spec_outer_bounds(),
    {
        self.outer_bounds
    }

    /// Exact value behind [`Self::inner_bounds`].
    pub closed spec fn spec_inner_bounds(&self) -> LogicalRect {
        self.inner_bounds
    }

    /// Returns the frame interior after border allocation.
    #[verifier::when_used_as_spec(spec_inner_bounds)]
    pub fn inner_bounds(&self) -> (r: LogicalRect)
        ensures
            r == self.spec_inner_bounds(),
    {
        self.inner_bounds
    }

    /// Exact value behind [`Self::title_bounds`].
    pub closed spec fn spec_title_bounds(&self) -> LogicalRect {
        self.title_bounds
    }

    /// Returns the title-bar draw bounds.
    #[verifier::when_used_as_spec(spec_title_bounds)]
    pub fn title_bounds(&self) -> (r: LogicalRect)
        ensures
            r == self.spec_title_bounds(),
    {
        self.title_bounds
    }

    /// Exact value behind [`Self::title_drag_hit`].
    pub closed spec fn spec_title_drag_hit(&self) -> HitRegion {
        self.title_drag_hit
    }

    /// Returns the title-bar drag region excluding resize and close controls.
    #[verifier::when_used_as_spec(spec_title_drag_hit)]
    pub fn title_drag_hit(&self) -> (r: HitRegion)
        ensures
            r == self.spec_title_drag_hit(),
    {
        self.title_drag_hit
    }

    /// Exact value behind [`Self::content_bounds`].
    pub closed spec fn spec_content_bounds(&self) -> LogicalRect {
        self.content_bounds
    }

    /// Returns the root content bounds.
    #[verifier::when_used_as_spec(spec_content_bounds)]
    pub fn content_bounds(&self) -> (r: LogicalRect)
        ensures
            r == self.spec_content_bounds(),
    {
        self.content_bounds
    }

    /// Exact value behind [`Self::close_bounds`].
    pub closed spec fn spec_close_bounds(&self) -> Option<LogicalRect> {
        self.close_bounds
    }

    /// Returns the close-control bounds when frozen policy permits every payload item to close.
    #[verifier::when_used_as_spec(spec_close_bounds)]
    pub fn close_bounds(&self) -> (r: Option<LogicalRect>)
        ensures
            r == self.spec_close_bounds(),
    {
        self.close_bounds
    }

    /// Exact value behind [`Self::transform_operable`].
    pub closed spec fn spec_transform_operable(&self) -> bool {
        self.transform_operable
    }

    /// Returns whether the complete root, every item, and the owning surface permit an in-place contained transform under the frozen policy.
    #[verifier::when_used_as_spec(spec_transform_operable)]
    pub fn transform_operable(&self) -> (r: bool)
        ensures
            r == self.spec_transform_operable(),
    {
        self.transform_operable
    }

    /// Exact value behind [`Self::resize`].
    pub closed spec fn spec_resize(&self) -> [ContainedResizeRecord; 8] {
        self.resize
    }

    /// Returns all eight non-overlapping resize regions in canonical order.
    pub fn resize(&self) -> (r: &[ContainedResizeRecord; 8])
        ensures
            *r == self.spec_resize(),
    {
        &self.resize
    }

    /// Exact value behind [`Self::minimum_size`].
    pub closed spec fn spec_minimum_size(&self) -> LogicalSize {
        self.minimum_size
    }

    /// Returns the measured minimum outer size.
    #[verifier::when_used_as_spec(spec_minimum_size)]
    pub fn minimum_size(&self) -> (r: LogicalSize)
        ensures
            r == self.spec_minimum_size(),
    {
        self.minimum_size
    }

    /// Exact value behind [`Self::layer`].
    pub closed spec fn spec_layer(&self) -> SceneLayerKey {
        self.layer
    }

    /// Returns the roster-derived semantic layer.
    #[verifier::when_used_as_spec(spec_layer)]
    pub fn layer(&self) -> (r: SceneLayerKey)
        ensures
            r == self.spec_layer(),
    {
        self.layer
    }
}

/// Adapter-measured minimum size for one exact contained presentation.
#[derive(Debug, Clone, Copy, PartialEq, Eq, Structural)]
pub struct ContainedMinimumMeasurement {
    floating: FloatingPresentationId,
    minimum_size: LogicalSize,
}

impl ContainedMinimumMeasurement {
    /// Creates one typed contained minimum-size measurement.
    pub fn new(floating: FloatingPresentationId, minimum_size: LogicalSize) -> (r: Self)
        ensures
            r.floating() == floating,
            r.minimum_size() == minimum_size,
    {
        Self { floating, minimum_size }
    }

    /// Exact value behind [`Self::floating`].
    pub closed spec fn spec_floating(self) -> FloatingPresentationId {
        self.floating
    }

    /// Returns the stable contained presentation identity.
    #[verifier::when_used_as_spec(spec_floating)]
    pub fn floating(self) -> (r: FloatingPresentationId)
        ensures
            r == self.spec_floating(),
    {
        self.floating
    }

    /// Exact value behind [`Self::minimum_size`].
    pub closed spec fn spec_minimum_size(self) -> LogicalSize {
        self.minimum_size
    }

    /// Returns the renderer-measured minimum outer size.
    #[verifier::when_used_as_spec(spec_minimum_size)]
    pub fn minimum_size(self) -> (r: LogicalSize)
        ensures
            r == self.spec_minimum_size(),
    {
        self.minimum_size
    }
}
} // verus!
