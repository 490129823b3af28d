use vstd::prelude::*;

use crate::geometry::Point;

verus! {

/// The kind of one map cell.
#[derive(Clone, Copy, PartialEq, Eq, Structural, Debug)]
pub enum TileClass {
    Wall,
    Floor,
    Tree,
    ForestFloor,
}

/// A rectangular grid of tiles, stored row by row.
pub struct TileMap {
    pub width: i32,
    pub height: i32,
    pub tiles: Vec<TileClass>,
    pub starting_pos: Point,
    pub valid_spawns: Vec<Point>,
}

pub open spec fn spec_index_of(width: int, p: Point) -> int {
    p.y * width + p.x
}

impl TileMap {
    pub open spec fn wf(&self) -> bool {
        self.width >= 0 && self.height >= 0 && self.tiles@.len() == self.width * self.height
    }

    pub open spec fn in_bounds(&self, p: Point) -> bool {
        0 <= p.x < self.width && 0 <= p.y < self.height
    }

    pub open spec fn tile_at(&self, p: Point) -> TileClass {
        self.tiles@[spec_index_of(self.width as int, p)]
    }

    pub open spec fn spec_walkable(&self, p: Point) -> bool {
        self.in_bounds(p) && self.tile_at(p) != TileClass::Wall && self.tile_at(p)
            != TileClass::Tree
    }

    /// A map of walls only.
    pub fn new(width: i32, height: i32) -> (r: TileMap)
        requires
            width >= 0,
            height >= 0,
            width * height <= usize::MAX,
        ensures
            r.wf(),
            r.width == width,
            r.height == height,
            forall|i: int| 0 <= i < r.tiles@.len() ==> r.tiles@[i] == TileClass::Wall,
            r.valid_spawns@.len() == 0,
    {
        let n = (width as usize) * (height as usize);
        let mut tiles: Vec<TileClass> = Vec::new();
        let mut i: usize = 0;
        while i < n
            invariant
                i <= n,
                tiles@.len() == i,
                forall|j: int| 0 <= j < i ==> tiles@[j] == TileClass::Wall,
            decreases n - i,
        {
            tiles.push(TileClass::Wall);
            i = i + 1;
        }
        TileMap { width, height, tiles, starting_pos: Point { x: 0, y: 0 }, valid_spawns: Vec::new() }
    }

    pub fn point2d_to_index(&self, p: Point) -> (r: usize)
        requires
            self.wf(),
            self.in_bounds(p),
        ensures
            r == spec_index_of(self.width as int, p),
            r < self.tiles@.len(),
    {
        proof {
            lemma_index_in_grid(self.width as int, self.height as int, p.x as int, p.y as int);
            assert(self.tiles@.len() == self.tiles.len());
        }
        let row = (p.y as usize) * (self.width as usize);
        row + (p.x as usize)
    }

    pub fn in_bounds_exec(&self, p: Point) -> (r: bool)
        ensures
            r == self.in_bounds(p),
    {
        0 <= p.x && p.x < self.width && 0 <= p.y && p.y < self.height
    }

    /// Whether a party may stand on `p`.
    pub fn walkable(&self, p: Point) -> (r: bool)
        requires
            self.wf(),
        ensures
            r == self.spec_walkable(p),
    {
        if !self.in_bounds_exec(p) {
            return false;
        }
        let t = self.tiles[self.point2d_to_index(p)];
        t != TileClass::Wall && t != TileClass::Tree
    }
}

/// Distinct cells of the grid have distinct indices.
pub(crate) proof fn lemma_index_injective(w: int, h: int, p: Point, q: Point)
    requires
        0 <= p.x < w,
        0 <= p.y < h,
        0 <= q.x < w,
        0 <= q.y < h,
    ensures
        spec_index_of(w, p) == spec_index_of(w, q) <==> p == q,
{
    if p.y < q.y {
        assert(p.y * w + p.x < q.y * w + q.x) by (nonlinear_arith)
            requires p.y < q.y, 0 <= p.x < w, 0 <= q.x;
    } else if q.y < p.y {
        assert(q.y * w + q.x < p.y * w + p.x) by (nonlinear_arith)
            requires q.y < p.y, 0 <= q.x < w, 0 <= p.x;
    }
}

/// The index of a cell of the grid is a valid index of its tiles.
pub(crate) proof fn lemma_index_bound(map: TileMap, p: Point)
    requires
        map.wf(),
        map.in_bounds(p),
    ensures
        0 <= spec_index_of(map.width as int, p) < map.tiles@.len(),
{
    lemma_index_in_grid(map.width as int, map.height as int, p.x as int, p.y as int);
}

proof fn lemma_index_in_grid(w: int, h: int, x: int, y: int)
    requires
        0 <= x < w,
        0 <= y < h,
    ensures
        0 <= y * w + x < w * h,
        0 <= y * w <= y * w + x,
{
    assert(y * w + x < w * h) by (nonlinear_arith)
        requires 0 <= x < w, 0 <= y < h;
    assert(0 <= y * w) by (nonlinear_arith)
        requires 0 <= y, 0 <= w;
}

} // verus!
