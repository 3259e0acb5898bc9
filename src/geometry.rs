use vstd::prelude::*;

verus! {

/// A position on the grid.
#[derive(Clone, Copy, Debug, PartialEq, Eq, Hash, Structural)]
pub struct Point {
    pub x: i32,
    pub y: i32,
}

impl Point {
    pub fn new(x: i32, y: i32) -> (r: Point)
        ensures
            r.x == x,
            r.y == y,
    {
        Point { x, y }
    }

    pub fn zero() -> (r: Point)
        ensures
            r.x == 0,
            r.y == 0,
    {
        Point { x: 0, y: 0 }
    }
}

/// Squared Euclidean distance between two points.
pub open spec fn dist2(a: Point, b: Point) -> int {
    (a.x - b.x) * (a.x - b.x) + (a.y - b.y) * (a.y - b.y)
}

/// An axis-aligned rectangle; `x2` and `y2` lie one past the covered tiles.
#[derive(Clone, Copy, Debug, PartialEq, Eq, Structural)]
pub struct Rect {
    pub x1: i32,
    pub y1: i32,
    pub x2: i32,
    pub y2: i32,
}

/// Two rectangles intersect when their closed extents meet, so rectangles
/// that only touch count as intersecting.
pub open spec fn rects_intersect(a: Rect, b: Rect) -> bool {
    a.x1 <= b.x2 && a.x2 >= b.x1 && a.y1 <= b.y2 && a.y2 >= b.y1
}

/// The tiles a rectangle covers.
pub open spec fn rect_covers(r: Rect, x: int, y: int) -> bool {
    r.x1 <= x < r.x2 && r.y1 <= y < r.y2
}

pub open spec fn rect_center(r: Rect) -> Point {
    Point { x: ((r.x1 + r.x2) / 2) as i32, y: ((r.y1 + r.y2) / 2) as i32 }
}

impl Rect {
    pub fn with_size(x: i32, y: i32, w: i32, h: i32) -> (r: Rect)
        requires
            x + w <= i32::MAX,
            y + h <= i32::MAX,
            x + w >= i32::MIN,
            y + h >= i32::MIN,
        ensures
            r == (Rect { x1: x, y1: y, x2: (x + w) as i32, y2: (y + h) as i32 }),
    {
        Rect { x1: x, y1: y, x2: x + w, y2: y + h }
    }

    pub fn intersect(&self, other: &Rect) -> (r: bool)
        ensures
            r == rects_intersect(*self, *other),
    {
        self.x1 <= other.x2 && self.x2 >= other.x1 && self.y1 <= other.y2 && self.y2 >= other.y1
    }

    pub fn center(&self) -> (r: Point)
        requires
            self.x1 >= 0,
            self.y1 >= 0,
            self.x2 >= 0,
            self.y2 >= 0,
        ensures
            r == rect_center(*self),
    {
        let x = (self.x1 as i64 + self.x2 as i64) / 2;
        let y = (self.y1 as i64 + self.y2 as i64) / 2;
        Point { x: x as i32, y: y as i32 }
    }

    pub fn point_in_rect(&self, p: Point) -> (r: bool)
        ensures
            r == rect_covers(*self, p.x as int, p.y as int),
    {
        p.x >= self.x1 && p.x < self.x2 && p.y >= self.y1 && p.y < self.y2
    }
}

} // verus!
