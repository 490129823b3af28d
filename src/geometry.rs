use vstd::prelude::*;

verus! {

/// A cell of the map grid.
#[derive(Clone, Copy, PartialEq, Eq, Structural, Debug)]
pub struct Point {
    pub x: i32,
    pub y: i32,
}

/// True when `a` and `b` are distinct cells that touch, sideways or diagonally.
pub open spec fn spec_adjacent(a: Point, b: Point) -> bool {
    let dx = a.x - b.x;
    let dy = a.y - b.y;
    -1 <= dx <= 1 && -1 <= dy <= 1 && !(dx == 0 && dy == 0)
}

impl Point {
    pub fn new(x: i32, y: i32) -> (r: Point)
        ensures
            r.x == x,
            r.y == y,
    {
        Point { x, y }
    }

    /// The cell moved by `delta`; `None` when a coordinate leaves the `i32` range.
    pub fn offset(self, delta: Point) -> (r: Option<Point>)
        ensures
            r matches Some(p) ==> p.x == self.x + delta.x && p.y == self.y + delta.y,
            r is None <==> !(i32::MIN <= self.x + delta.x <= i32::MAX && i32::MIN <= self.y
                + delta.y <= i32::MAX),
    {
        let x = self.x as i64 + delta.x as i64;
        let y = self.y as i64 + delta.y as i64;
        if x < i32::MIN as i64 || x > i32::MAX as i64 || y < i32::MIN as i64 || y > i32::MAX as i64 {
            None
        } else {
            Some(Point { x: x as i32, y: y as i32 })
        }
    }

    /// Whether `other` is one of the eight cells around `self`.
    pub fn is_adjacent(&self, other: &Point) -> (r: bool)
        ensures
            r == spec_adjacent(*self, *other),
    {
        let dx = self.x as i64 - other.x as i64;
        let dy = self.y as i64 - other.y as i64;
        -1 <= dx && dx <= 1 && -1 <= dy && dy <= 1 && !(dx == 0 && dy == 0)
    }
}

} // verus!
