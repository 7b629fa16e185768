//! Integer geometry: points, sizes and rectangles measured in pixels.
//!
//! All arithmetic on coordinates saturates instead of wrapping or trapping,
//! so overflow behaviour is explicit in every contract.

use vstd::prelude::*;

verus! {

/// The integer unit for pixel coordinates and dimensions.
pub type PointUnit = u32;

/// Addition of pixel units, clamped at the top of the `u32` range.
pub open spec fn sat_add(a: int, b: int) -> int {
    if a + b > u32::MAX as int {
        u32::MAX as int
    } else {
        a + b
    }
}

/// Subtraction of pixel units, clamped at zero.
pub open spec fn sat_sub(a: int, b: int) -> int {
    if a - b < 0 {
        0
    } else {
        a - b
    }
}

/// Multiplication of pixel units, clamped at the top of the `u32` range.
pub open spec fn sat_mul(a: int, b: int) -> int {
    if a * b > u32::MAX as int {
        u32::MAX as int
    } else {
        a * b
    }
}

/// A pixel position.
#[derive(Debug, Clone, Copy, PartialEq, Eq, Hash, Structural)]
pub struct Point {
    pub x: PointUnit,
    pub y: PointUnit,
}

impl Point {
    pub fn new(x: PointUnit, y: PointUnit) -> (p: Point)
        ensures
            p == (Point { x, y }),
    {
        Point { x, y }
    }
}

/// A pixel extent.
#[derive(Debug, Clone, Copy, PartialEq, Eq, Hash, Structural)]
pub struct Size {
    pub width: PointUnit,
    pub height: PointUnit,
}

/// The size grown by `padding` pixels on every side (saturating).
pub open spec fn spec_outset(s: Size, padding: PointUnit) -> Size {
    Size {
        width: sat_add(s.width as int, sat_add(padding as int, padding as int)) as PointUnit,
        height: sat_add(s.height as int, sat_add(padding as int, padding as int)) as PointUnit,
    }
}

/// The size shrunk by `padding` pixels on every side (saturating at zero).
pub open spec fn spec_inset(s: Size, padding: PointUnit) -> Size {
    Size {
        width: sat_sub(s.width as int, sat_add(padding as int, padding as int)) as PointUnit,
        height: sat_sub(s.height as int, sat_add(padding as int, padding as int)) as PointUnit,
    }
}

/// The per-axis maximum of two sizes.
pub open spec fn spec_max_dimension(a: Size, b: Size) -> Size {
    Size {
        width: if a.width >= b.width {
            a.width
        } else {
            b.width
        },
        height: if a.height >= b.height {
            a.height
        } else {
            b.height
        },
    }
}

impl Size {
    pub fn new(width: PointUnit, height: PointUnit) -> (s: Size)
        ensures
            s == (Size { width, height }),
    {
        Size { width, height }
    }

    /// The number of pixels covered by this size (saturating).
    pub fn area(&self) -> (r: PointUnit)
        ensures
            r == sat_mul(self.width as int, self.height as int),
    {
        assert((self.width as u64) * (self.height as u64) <= u64::MAX) by (nonlinear_arith)
            requires
                self.width <= u32::MAX && self.height <= u32::MAX,
        ;
        let p: u64 = (self.width as u64) * (self.height as u64);
        if p > u32::MAX as u64 {
            u32::MAX
        } else {
            p as u32
        }
    }

    /// Grow by `padding` pixels on every side.
    pub fn outset(&self, padding: PointUnit) -> (r: Size)
        ensures
            r == spec_outset(*self, padding),
    {
        let twice: u32 = padding.saturating_add(padding);
        Size { width: self.width.saturating_add(twice), height: self.height.saturating_add(twice) }
    }

    /// Shrink by `padding` pixels on every side.
    pub fn inset(&self, padding: PointUnit) -> (r: Size)
        ensures
            r == spec_inset(*self, padding),
    {
        let twice: u32 = padding.saturating_add(padding);
        Size { width: self.width.saturating_sub(twice), height: self.height.saturating_sub(twice) }
    }

    /// The per-axis maximum of this size and `other`.
    pub fn max_dimension(&self, other: Size) -> (r: Size)
        ensures
            r == spec_max_dimension(*self, other),
    {
        Size {
            width: if self.width >= other.width {
                self.width
            } else {
                other.width
            },
            height: if self.height >= other.height {
                self.height
            } else {
                other.height
            },
        }
    }
}

/// A rectangle given by its top-left corner and its extent.
#[derive(Debug, Clone, Copy, PartialEq, Eq, Hash, Structural)]
pub struct Rect {
    pub position: Point,
    pub size: Size,
}

/// The first column to the right of `r` (exact, not saturating).
pub open spec fn rect_right(r: Rect) -> int {
    r.position.x + r.size.width
}

/// The first row below `r` (exact, not saturating).
pub open spec fn rect_bottom(r: Rect) -> int {
    r.position.y + r.size.height
}

/// Whether the point lies in the rectangle: closed on the top and left edge,
/// open on the bottom and right edge. The edges saturate, so a rectangle
/// reaching past the coordinate range is open-ended there.
pub open spec fn spec_contains(r: Rect, p: Point) -> bool {
    &&& p.x >= r.position.x
    &&& (p.x as int) < sat_add(r.position.x as int, r.size.width as int)
    &&& p.y >= r.position.y
    &&& (p.y as int) < sat_add(r.position.y as int, r.size.height as int)
}

/// Whether two rectangles share at least one pixel.
pub open spec fn rects_overlap(a: Rect, b: Rect) -> bool {
    &&& a.position.x < rect_right(b)
    &&& b.position.x < rect_right(a)
    &&& a.position.y < rect_bottom(b)
    &&& b.position.y < rect_bottom(a)
}

/// Whether every pixel of `inner` lies in `outer`.
pub open spec fn rect_within(inner: Rect, outer: Rect) -> bool {
    &&& inner.position.x >= outer.position.x
    &&& rect_right(inner) <= rect_right(outer)
    &&& inner.position.y >= outer.position.y
    &&& rect_bottom(inner) <= rect_bottom(outer)
}

/// Whether `r` lies in the area spanned by `bounds` from the origin.
pub open spec fn rect_in_bounds(r: Rect, bounds: Size) -> bool {
    rect_right(r) <= bounds.width && rect_bottom(r) <= bounds.height
}

impl Rect {
    pub fn new(x: PointUnit, y: PointUnit, width: PointUnit, height: PointUnit) -> (r: Rect)
        ensures
            r == (Rect { position: Point { x, y }, size: Size { width, height } }),
    {
        Rect { position: Point { x, y }, size: Size { width, height } }
    }

    /// Check whether a point lies in the rectangle: closed on the top and
    /// left edge, open on the bottom and right edge.
    pub fn contains(&self, p: Point) -> (b: bool)
        ensures
            b == spec_contains(*self, p),
    {
        p.x >= self.position.x && p.x < self.position.x.saturating_add(self.size.width)
            && p.y >= self.position.y && p.y < self.position.y.saturating_add(self.size.height)
    }

    /// Move the rectangle's edges inward by `padding` pixels on every side.
    pub fn inset(&self, padding: PointUnit) -> (r: Rect)
        ensures
            r.position.x == sat_add(self.position.x as int, padding as int),
            r.position.y == sat_add(self.position.y as int, padding as int),
            r.size == spec_inset(self.size, padding),
    {
        Rect {
            position: Point {
                x: self.position.x.saturating_add(padding),
                y: self.position.y.saturating_add(padding),
            },
            size: self.size.inset(padding),
        }
    }
}

} // verus!
