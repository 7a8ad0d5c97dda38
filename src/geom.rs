use vstd::prelude::*;

verus! {

/// A grid point, in tile coordinates.
#[derive(Clone, Copy, Debug, PartialEq, Eq, Structural, Hash)]
pub struct Point {
    pub x: i32,
    pub y: i32,
}

/// A displacement or an extent on the grid (for a map: its width and height).
#[derive(Clone, Copy, Debug, PartialEq, Eq, Structural, Hash)]
pub struct Vector {
    pub x: i32,
    pub y: i32,
}

/// The width and height of a rectangle.
#[derive(Clone, Copy, Debug, PartialEq, Eq, Structural, Hash)]
pub struct Size {
    pub width: i32,
    pub height: i32,
}

/// An axis-aligned rectangle covering `origin.x .. origin.x + width` by
/// `origin.y .. origin.y + height` (the far edges excluded).
#[derive(Clone, Copy, Debug, PartialEq, Eq, Structural, Hash)]
pub struct Rect {
    pub origin: Point,
    pub size: Size,
}

impl Point {
    pub fn new(x: i32, y: i32) -> (p: Point)
        ensures
            p.x == x,
            p.y == y,
    {
        Point { x, y }
    }
}

impl Vector {
    pub fn new(x: i32, y: i32) -> (v: Vector)
        ensures
            v.x == x,
            v.y == y,
    {
        Vector { x, y }
    }
}

impl Rect {
    pub fn new(origin: Point, size: Size) -> (r: Rect)
        ensures
            r.origin == origin,
            r.size == size,
    {
        Rect { origin, size }
    }

    /// The size is not negative and the far edges are representable.
    pub open spec fn fits(self) -> bool {
        &&& self.size.width >= 0
        &&& self.size.height >= 0
        &&& self.origin.x + self.size.width <= i32::MAX
        &&& self.origin.y + self.size.height <= i32::MAX
    }

    pub open spec fn max_x(self) -> int {
        self.origin.x + self.size.width
    }

    pub open spec fn max_y(self) -> int {
        self.origin.y + self.size.height
    }

    /// The tile `(x, y)` lies inside the rectangle.
    pub open spec fn contains(self, x: int, y: int) -> bool {
        self.origin.x <= x < self.max_x() && self.origin.y <= y < self.max_y()
    }

    /// The two rectangles share area: their half-open extents overlap on both axes.
    pub open spec fn intersects(self, other: Rect) -> bool {
        &&& self.origin.x < other.max_x()
        &&& self.max_x() > other.origin.x
        &&& self.origin.y < other.max_y()
        &&& self.max_y() > other.origin.y
    }

    /// The origin plus half the size, halves rounded down.
    pub open spec fn center(self) -> Point {
        Point {
            x: (self.origin.x + self.size.width / 2) as i32,
            y: (self.origin.y + self.size.height / 2) as i32,
        }
    }
}

/// Relies on euclid's `Rect::intersects`, which compares the boxes
/// `[min, max)` of both rectangles: `a.min.x < b.max.x && a.max.x > b.min.x`,
/// and the same on y.
#[verifier::external_body]
pub(crate) fn rects_intersect(a: &Rect, b: &Rect) -> (r: bool)
    requires
        a.fits(),
        b.fits(),
    ensures
        r == a.intersects(*b),
{
    let ea = euclid::default::Rect::new(
        euclid::point2(a.origin.x, a.origin.y),
        euclid::size2(a.size.width, a.size.height),
    );
    let eb = euclid::default::Rect::new(
        euclid::point2(b.origin.x, b.origin.y),
        euclid::size2(b.size.width, b.size.height),
    );
    ea.intersects(&eb)
}

/// Relies on euclid's `Rect::center`: `origin + size.to_vector() / 2`, which
/// for a size that is not negative halves each extent rounding down.
#[verifier::external_body]
pub(crate) fn rect_center(r: &Rect) -> (c: Point)
    requires
        r.fits(),
    ensures
        c == r.center(),
{
    let c = euclid::default::Rect::new(
        euclid::point2(r.origin.x, r.origin.y),
        euclid::size2(r.size.width, r.size.height),
    ).center();
    Point { x: c.x, y: c.y }
}

} // verus!
