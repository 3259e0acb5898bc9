use vstd::prelude::*;
use crate::geometry::Point;

verus! {

pub const SCREEN_WIDTH: i32 = 80;
pub const SCREEN_HEIGHT: i32 = 50;
pub const NUM_TILES: usize = 4000;

#[derive(Clone, Copy, Debug, PartialEq, Eq, Structural)]
pub enum TileType {
    Wall,
    Floor,
    Exit,
}

pub open spec fn in_bounds_xy(x: int, y: int) -> bool {
    0 <= x < SCREEN_WIDTH && 0 <= y < SCREEN_HEIGHT
}

/// Row-major index of a tile.
pub open spec fn idx_of(x: int, y: int) -> int {
    y * SCREEN_WIDTH + x
}

pub open spec fn x_of(i: int) -> int {
    i % SCREEN_WIDTH as int
}

pub open spec fn y_of(i: int) -> int {
    i / SCREEN_WIDTH as int
}

pub open spec fn walkable(t: TileType) -> bool {
    t != TileType::Wall
}

/// The tile grid of one level, with the tiles the player has seen.
#[derive(Clone, Debug)]
pub struct Grid {
    pub tiles: Vec<TileType>,
    pub revealed_tiles: Vec<bool>,
}

impl Grid {
    pub open spec fn wf(&self) -> bool {
        self.tiles@.len() == NUM_TILES && self.revealed_tiles@.len() == NUM_TILES
    }

    /// An all-wall grid with nothing revealed.
    pub fn new() -> (r: Grid)
        ensures
            r.wf(),
            forall|i: int| 0 <= i < NUM_TILES ==> r.tiles@[i] == TileType::Wall,
            forall|i: int| 0 <= i < NUM_TILES ==> !r.revealed_tiles@[i],
    {
        Grid { tiles: vec![TileType::Wall; NUM_TILES], revealed_tiles: vec![false; NUM_TILES] }
    }

    pub fn in_bounds(&self, p: Point) -> (r: bool)
        ensures
            r == in_bounds_xy(p.x as int, p.y as int),
    {
        p.x >= 0 && p.x < SCREEN_WIDTH && p.y >= 0 && p.y < SCREEN_HEIGHT
    }

    pub fn point2d_to_index(&self, p: Point) -> (r: usize)
        requires
            in_bounds_xy(p.x as int, p.y as int),
        ensures
            r == idx_of(p.x as int, p.y as int),
            r < NUM_TILES,
    {
        map_idx(p.x, p.y)
    }

    pub fn index_to_point2d(&self, i: usize) -> (r: Point)
        requires
            i < NUM_TILES,
        ensures
            r.x == x_of(i as int),
            r.y == y_of(i as int),
            in_bounds_xy(r.x as int, r.y as int),
            idx_of(r.x as int, r.y as int) == i,
    {
        Point::new((i % 80) as i32, (i / 80) as i32)
    }

    /// The index of an in-bounds point, or `None` off the grid.
    pub fn try_idx(&self, p: Point) -> (r: Option<usize>)
        ensures
            r.is_some() == in_bounds_xy(p.x as int, p.y as int),
            r.is_some() ==> r.unwrap() == idx_of(p.x as int, p.y as int) && r.unwrap() < NUM_TILES,
    {
        if self.in_bounds(p) {
            Some(map_idx(p.x, p.y))
        } else {
            None
        }
    }

    /// A point can be entered when it lies on the grid and is not a wall.
    pub fn can_enter_tile(&self, p: Point) -> (r: bool)
        requires
            self.wf(),
        ensures
            r == (in_bounds_xy(p.x as int, p.y as int) && walkable(
                self.tiles@[idx_of(p.x as int, p.y as int)],
            )),
    {
        match self.try_idx(p) {
            Some(i) => self.tiles[i] != TileType::Wall,
            None => false,
        }
    }

    /// Marks every tile revealed, as a dungeon map does.
    pub fn reveal_all(&mut self)
        requires
            old(self).wf(),
        ensures
            final(self).wf(),
            final(self).tiles == old(self).tiles,
            forall|i: int| 0 <= i < NUM_TILES ==> #[trigger] final(self).revealed_tiles@[i],
    {
        let mut i: usize = 0;
        while i < self.revealed_tiles.len()
            invariant
                self.wf(),
                self.tiles == old(self).tiles,
                i <= NUM_TILES,
                forall|j: int| 0 <= j < i ==> #[trigger] self.revealed_tiles@[j],
            decreases NUM_TILES - i,
        {
            self.revealed_tiles.set(i, true);
            i = i + 1;
        }
    }

    /// Sets every tile to `tile`.
    pub fn fill(&mut self, tile: TileType)
        requires
            old(self).wf(),
        ensures
            final(self).wf(),
            final(self).revealed_tiles == old(self).revealed_tiles,
            forall|i: int| 0 <= i < NUM_TILES ==> final(self).tiles@[i] == tile,
    {
        let mut i: usize = 0;
        while i < self.tiles.len()
            invariant
                self.wf(),
                self.revealed_tiles == old(self).revealed_tiles,
                i <= NUM_TILES,
                forall|j: int| 0 <= j < i ==> self.tiles@[j] == tile,
            decreases NUM_TILES - i,
        {
            self.tiles.set(i, tile);
            i = i + 1;
        }
    }
}

impl Grid {
    /// A copy of the grid.
    pub fn duplicate(&self) -> (r: Grid)
        ensures
            r.tiles@ == self.tiles@,
            r.revealed_tiles@ == self.revealed_tiles@,
    {
        let mut tiles: Vec<TileType> = Vec::new();
        let mut i: usize = 0;
        while i < self.tiles.len()
            invariant
                i <= self.tiles@.len(),
                tiles@ == self.tiles@.subrange(0, i as int),
            decreases self.tiles@.len() - i,
        {
            tiles.push(self.tiles[i]);
            i = i + 1;
        }
        let mut revealed_tiles: Vec<bool> = Vec::new();
        let mut j: usize = 0;
        while j < self.revealed_tiles.len()
            invariant
                j <= self.revealed_tiles@.len(),
                revealed_tiles@ == self.revealed_tiles@.subrange(0, j as int),
            decreases self.revealed_tiles@.len() - j,
        {
            revealed_tiles.push(self.revealed_tiles[j]);
            j = j + 1;
        }
        assert(tiles@ =~= self.tiles@);
        assert(revealed_tiles@ =~= self.revealed_tiles@);
        Grid { tiles, revealed_tiles }
    }
}

/// Row-major index of an in-bounds tile.
pub fn map_idx(x: i32, y: i32) -> (r: usize)
    requires
        in_bounds_xy(x as int, y as int),
    ensures
        r == idx_of(x as int, y as int),
        r < NUM_TILES,
{
    ((y as usize) * 80) + (x as usize)
}

} // verus!
