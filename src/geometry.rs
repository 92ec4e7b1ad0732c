use vstd::prelude::*;

verus! {

/// An integer coordinate on (or off) the display.
#[derive(Clone, Copy, Debug, PartialEq, Eq, Structural)]
pub struct Point {
    pub x: i32,
    pub y: i32,
}

/// An unsigned two-dimensional extent.
#[derive(Clone, Copy, Debug, PartialEq, Eq, Structural)]
pub struct Size {
    pub width: u32,
    pub height: u32,
}

/// Whether `v` is representable as an `i32`.
pub open spec fn fits_i32(v: int) -> bool {
    i32::MIN <= v <= i32::MAX
}

/// Whether `a + b` can be formed without leaving the `i32` range on either axis.
pub open spec fn can_add(a: Point, b: Point) -> bool {
    fits_i32(a.x + b.x) && fits_i32(a.y + b.y)
}

/// The componentwise sum of two points.
pub open spec fn add_spec(a: Point, b: Point) -> Point {
    Point { x: (a.x + b.x) as i32, y: (a.y + b.y) as i32 }
}

/// Whether `a - b` can be formed without leaving the `i32` range on either axis.
pub open spec fn can_sub(a: Point, b: Point) -> bool {
    fits_i32(a.x - b.x) && fits_i32(a.y - b.y)
}

/// The componentwise difference of two points.
pub open spec fn sub_spec(a: Point, b: Point) -> Point {
    Point { x: (a.x - b.x) as i32, y: (a.y - b.y) as i32 }
}

pub open spec fn abs_int(v: int) -> int {
    if v < 0 { -v } else { v }
}

pub open spec fn min_int(a: int, b: int) -> int {
    if a <= b { a } else { b }
}

impl Point {
    pub open spec fn zero_spec() -> Point {
        Point { x: 0, y: 0 }
    }

    pub fn new(x: i32, y: i32) -> (r: Point)
        ensures
            r.x == x && r.y == y,
    {
        Point { x, y }
    }

    pub fn zero() -> (r: Point)
        ensures
            r == Self::zero_spec(),
    {
        Point { x: 0, y: 0 }
    }

    /// The componentwise sum; the caller keeps it in range.
    pub fn add(self, other: Point) -> (r: Point)
        requires
            can_add(self, other),
        ensures
            r == add_spec(self, other),
    {
        Point { x: self.x + other.x, y: self.y + other.y }
    }

    /// The componentwise difference; the caller keeps it in range.
    pub fn sub(self, other: Point) -> (r: Point)
        requires
            can_sub(self, other),
        ensures
            r == sub_spec(self, other),
    {
        Point { x: self.x - other.x, y: self.y - other.y }
    }

    /// The point mirrored through the origin; `i32::MIN` has no mirror image.
    pub fn neg(self) -> (r: Point)
        requires
            self.x != i32::MIN,
            self.y != i32::MIN,
        ensures
            r.x == -self.x,
            r.y == -self.y,
    {
        Point { x: -self.x, y: -self.y }
    }

    /// The componentwise sum of a point and an extent.
    pub fn add_size(self, size: Size) -> (r: Point)
        requires
            fits_i32(self.x + size.width),
            fits_i32(self.y + size.height),
        ensures
            r.x == self.x + size.width,
            r.y == self.y + size.height,
    {
        Point { x: (self.x as i64 + size.width as i64) as i32, y: (self.y as i64 + size.height as i64) as i32 }
    }
}

impl Size {
    pub fn new(width: u32, height: u32) -> (r: Size)
        ensures
            r.width == width && r.height == height,
    {
        Size { width, height }
    }

    /// The extent, in pixels and inclusive of both corners, of the box spanned by `a` and `b`.
    pub fn from_bounding_box(a: Point, b: Point) -> (r: Size)
        requires
            abs_int(a.x - b.x) < u32::MAX,
            abs_int(a.y - b.y) < u32::MAX,
        ensures
            r.width == abs_int(a.x - b.x) + 1,
            r.height == abs_int(a.y - b.y) + 1,
    {
        let dx: i64 = if a.x >= b.x { a.x as i64 - b.x as i64 } else { b.x as i64 - a.x as i64 };
        let dy: i64 = if a.y >= b.y { a.y as i64 - b.y as i64 } else { b.y as i64 - a.y as i64 };
        Size { width: (dx + 1) as u32, height: (dy + 1) as u32 }
    }
}

} // verus!
