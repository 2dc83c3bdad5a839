//! Exact device-independent logical geometry on an integer lattice.
//!
//! Coordinates are signed 32-bit logical units and extents are unsigned, so
//! every rectangle is non-negative by construction and every derived edge
//! fits in 64-bit arithmetic without overflow.

use vstd::prelude::*;

verus! {

/// A rejected geometric construction.
#[derive(Debug, Clone, Copy, PartialEq, Eq, Structural, Hash)]
pub enum GeometryError {
    /// A width or height was negative.
    NegativeExtent,
    /// A coordinate or extent does not fit the logical coordinate range.
    OutOfRange,
}

/// One logical point.
#[derive(Debug, Clone, Copy, PartialEq, Eq, Structural, Hash, Default)]
pub struct LogicalPoint {
    /// Horizontal coordinate.
    pub x: i32,
    /// Vertical coordinate.
    pub y: i32,
}

impl LogicalPoint {
    /// Creates one logical point.
    pub fn new(x: i32, y: i32) -> (r: Self)
        ensures
            r.x == x,
            r.y == y,
    {
        LogicalPoint { x, y }
    }

    /// Returns the horizontal coordinate.
    pub fn x(self) -> (r: i32)
        ensures
            r == self.x,
    {
        self.x
    }

    /// Returns the vertical coordinate.
    pub fn y(self) -> (r: i32)
        ensures
            r == self.y,
    {
        self.y
    }
}

/// One non-negative logical size.
#[derive(Debug, Clone, Copy, PartialEq, Eq, Structural, Hash, Default)]
pub struct LogicalSize {
    /// Horizontal extent.
    pub width: u32,
    /// Vertical extent.
    pub height: u32,
}

impl LogicalSize {
    /// Creates a size, rejecting negative or unrepresentable extents.
    pub fn new(width: i64, height: i64) -> (r: Result<Self, GeometryError>)
        ensures
            (width < 0 || height < 0) ==> r == Err::<Self, GeometryError>(
                GeometryError::NegativeExtent,
            ),
            (width >= 0 && height >= 0 && (width > u32::MAX || height > u32::MAX)) ==> r
                == Err::<Self, GeometryError>(GeometryError::OutOfRange),
            (0 <= width <= u32::MAX && 0 <= height <= u32::MAX) ==> r == Ok::<
                Self,
                GeometryError,
            >(LogicalSize { width: width as u32, height: height as u32 }),
    {
        if width < 0 || height < 0 {
            return Err(GeometryError::NegativeExtent);
        }
        if width > u32::MAX as i64 || height > u32::MAX as i64 {
            return Err(GeometryError::OutOfRange);
        }
        Ok(LogicalSize { width: width as u32, height: height as u32 })
    }

    /// Returns the horizontal extent.
    pub fn width(self) -> (r: u32)
        ensures
            r == self.width,
    {
        self.width
    }

    /// Returns the vertical extent.
    pub fn height(self) -> (r: u32)
        ensures
            r == self.height,
    {
        self.height
    }
}

/// One axis-aligned logical rectangle with a non-negative extent.
#[derive(Debug, Clone, Copy, PartialEq, Eq, Structural, Hash, Default)]
pub struct LogicalRect {
    /// Left edge.
    pub x: i32,
    /// Top edge.
    pub y: i32,
    /// Horizontal extent.
    pub width: u32,
    /// Vertical extent.
    pub height: u32,
}

impl LogicalRect {
    /// Right edge as an exact integer.
    pub open spec fn right(self) -> int {
        self.x + self.width
    }

    /// Bottom edge as an exact integer.
    pub open spec fn bottom(self) -> int {
        self.y + self.height
    }

    /// Whether the rectangle has positive area.
    pub open spec fn has_area(self) -> bool {
        self.width > 0 && self.height > 0
    }

    /// Half-open containment of one point.
    pub open spec fn contains_point(self, p: LogicalPoint) -> bool {
        self.x <= p.x < self.right() && self.y <= p.y < self.bottom()
    }

    /// Creates a rectangle from its origin and extent.
    pub fn new(x: i64, y: i64, width: i64, height: i64) -> (r: Result<Self, GeometryError>)
        ensures
            (width < 0 || height < 0) ==> r == Err::<Self, GeometryError>(
                GeometryError::NegativeExtent,
            ),
            r is Ok <==> (width >= 0 && height >= 0 && i32::MIN <= x <= i32::MAX && i32::MIN <= y
                <= i32::MAX && width <= u32::MAX && height <= u32::MAX),
            r matches Ok(rect) ==> rect.x == x && rect.y == y && rect.width == width
                && rect.height == height,
            !(r is Ok) && !(width < 0 || height < 0) ==> r == Err::<Self, GeometryError>(
                GeometryError::OutOfRange,
            ),
    {
        if width < 0 || height < 0 {
            return Err(GeometryError::NegativeExtent);
        }
        if x < i32::MIN as i64 || x > i32::MAX as i64 || y < i32::MIN as i64 || y > i32::MAX as i64
            || width > u32::MAX as i64 || height > u32::MAX as i64 {
            return Err(GeometryError::OutOfRange);
        }
        Ok(LogicalRect { x: x as i32, y: y as i32, width: width as u32, height: height as u32 })
    }

    /// Creates a rectangle spanning two corners given as exact edges.
    pub fn from_edges(left: i64, top: i64, right: i64, bottom: i64) -> (r: Result<
        Self,
        GeometryError,
    >)
        requires
            i32::MIN <= left <= i32::MAX + u32::MAX,
            i32::MIN <= top <= i32::MAX + u32::MAX,
            i32::MIN <= right <= i32::MAX + u32::MAX,
            i32::MIN <= bottom <= i32::MAX + u32::MAX,
        ensures
            r is Ok <==> (left <= right && top <= bottom && left <= i32::MAX && top <= i32::MAX
                && right - left <= u32::MAX && bottom - top <= u32::MAX),
            r matches Ok(rect) ==> rect.x == left && rect.y == top && rect.right() == right
                && rect.bottom() == bottom,
    {
        LogicalRect::new(left, top, right - left, bottom - top)
    }

    /// Returns the left edge.
    pub fn x(self) -> (r: i32)
        ensures
            r == self.x,
    {
        self.x
    }

    /// Returns the top edge.
    pub fn y(self) -> (r: i32)
        ensures
            r == self.y,
    {
        self.y
    }

    /// Returns the horizontal extent.
    pub fn width(self) -> (r: u32)
        ensures
            r == self.width,
    {
        self.width
    }

    /// Returns the vertical extent.
    pub fn height(self) -> (r: u32)
        ensures
            r == self.height,
    {
        self.height
    }

    /// Returns the exact right edge.
    pub fn max_x(self) -> (r: i64)
        ensures
            r == self.right(),
    {
        self.x as i64 + self.width as i64
    }

    /// Returns the exact bottom edge.
    pub fn max_y(self) -> (r: i64)
        ensures
            r == self.bottom(),
    {
        self.y as i64 + self.height as i64
    }

    /// Returns the rectangle's extent.
    pub fn size(self) -> (r: LogicalSize)
        ensures
            r.width == self.width,
            r.height == self.height,
    {
        LogicalSize { width: self.width, height: self.height }
    }

    /// Returns whether the rectangle has positive area.
    pub fn is_positive(self) -> (r: bool)
        ensures
            r == self.has_area(),
    {
        self.width > 0 && self.height > 0
    }

    /// Returns whether one point lies in the half-open rectangle.
    pub fn contains(self, point: LogicalPoint) -> (r: bool)
        ensures
            r == self.contains_point(point),
    {
        self.x <= point.x && (point.x as i64) < self.max_x() && self.y <= point.y && (
        point.y as i64) < self.max_y()
    }
}

/// Exact half-open interaction region.
#[derive(Debug, Clone, Copy, PartialEq, Eq, Structural, Hash, Default)]
pub struct HitRegion {
    /// Region rectangle; its right and bottom edges are excluded.
    pub rect: LogicalRect,
}

impl HitRegion {
    /// Creates a half-open region over one rectangle.
    pub fn new(rect: LogicalRect) -> (r: Self)
        ensures
            r.rect == rect,
    {
        HitRegion { rect }
    }

    /// Returns the region rectangle.
    pub fn rect(self) -> (r: LogicalRect)
        ensures
            r == self.rect,
    {
        self.rect
    }

    /// Returns whether one point lies in the region.
    pub fn contains(self, point: LogicalPoint) -> (r: bool)
        ensures
            r == self.rect.contains_point(point),
    {
        self.rect.contains(point)
    }
}

} // verus!
