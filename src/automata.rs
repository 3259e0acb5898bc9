use vstd::prelude::*;
use bracket_lib::random::RandomNumberGenerator;
use crate::geometry::{Point, dist2};
use crate::map::{Grid, TileType, NUM_TILES, SCREEN_WIDTH, SCREEN_HEIGHT, x_of, y_of, idx_of, map_idx};
use crate::map_builder::{MapBuilder, spawns_drawn, point_of, point_idx, point_in_bounds, is_most_distant};
use crate::rng;

verus! {

pub const SMOOTHING_PASSES: usize = 10;

/// Builds a cave from random noise smoothed by a cellular automaton.
pub struct CellularAutomataArchitect {}

/// Tiles off the grid's border.
pub open spec fn interior(i: int) -> bool {
    1 <= x_of(i) < SCREEN_WIDTH - 1 && 1 <= y_of(i) < SCREEN_HEIGHT - 1
}

pub open spec fn wall_at(t: Seq<TileType>, i: int) -> int {
    if t[i] == TileType::Wall {
        1
    } else {
        0
    }
}

/// Walls among the eight tiles around tile `i`.
pub open spec fn wall_count(t: Seq<TileType>, i: int) -> int {
    wall_at(t, i - SCREEN_WIDTH - 1) + wall_at(t, i - SCREEN_WIDTH) + wall_at(t, i - SCREEN_WIDTH + 1)
        + wall_at(t, i - 1) + wall_at(t, i + 1) + wall_at(t, i + SCREEN_WIDTH - 1) + wall_at(
        t,
        i + SCREEN_WIDTH,
    ) + wall_at(t, i + SCREEN_WIDTH + 1)
}

/// A tile with more than four walls around it, or none, becomes a wall.
pub open spec fn smoothed(t: Seq<TileType>, i: int) -> TileType {
    if wall_count(t, i) > 4 || wall_count(t, i) == 0 {
        TileType::Wall
    } else {
        TileType::Floor
    }
}

/// One smoothing pass over a whole grid.
pub open spec fn smooth_once(t: Seq<TileType>) -> Seq<TileType> {
    Seq::new(NUM_TILES as nat, |i: int| if interior(i) { smoothed(t, i) } else { t[i] })
}

/// `n` smoothing passes.
pub open spec fn smooth_n(t: Seq<TileType>, n: int) -> Seq<TileType>
    decreases n,
{
    if n <= 0 {
        t
    } else {
        smooth_once(smooth_n(t, n - 1))
    }
}

/// A noise tile: floor on a roll above 55 out of `0..100`, else wall.
pub fn tile_for_roll(roll: i32) -> (t: TileType)
    ensures
        t == if roll > 55 {
            TileType::Floor
        } else {
            TileType::Wall
        },
{
    if roll > 55 {
        TileType::Floor
    } else {
        TileType::Wall
    }
}

pub open spec fn center_point() -> Point {
    Point { x: 40, y: 25 }
}

/// `p` is a floor tile nearest the centre, the first such in index order.
pub open spec fn is_nearest_floor_to_center(t: Seq<TileType>, p: Point) -> bool {
    &&& point_in_bounds(p)
    &&& t[point_idx(p)] == TileType::Floor
    &&& forall|j: int|
        0 <= j < NUM_TILES && t[j] == TileType::Floor ==> dist2(center_point(), point_of(j)) >= dist2(
            center_point(),
            p,
        )
    &&& forall|j: int|
        0 <= j < point_idx(p) && t[j] == TileType::Floor ==> dist2(center_point(), point_of(j))
            > dist2(center_point(), p)
}

fn wall_at_exec(map: &Grid, i: usize) -> (r: usize)
    requires
        map.wf(),
        i < NUM_TILES,
    ensures
        r == wall_at(map.tiles@, i as int),
{
    if map.tiles[i] == TileType::Wall {
        1
    } else {
        0
    }
}

impl CellularAutomataArchitect {
    /// Every tile becomes floor with a roll above 55 out of 0..100, else wall.
    pub fn random_noise_map(&mut self, rng: &mut RandomNumberGenerator, map: &mut Grid)
        requires
            old(map).wf(),
        ensures
            final(map).wf(),
            final(map).revealed_tiles == old(map).revealed_tiles,
            forall|i: int|
                0 <= i < NUM_TILES ==> #[trigger] final(map).tiles@[i] == TileType::Floor
                    || final(map).tiles@[i] == TileType::Wall,
    {
        let mut i: usize = 0;
        while i < map.tiles.len()
            invariant
                map.wf(),
                map.revealed_tiles == old(map).revealed_tiles,
                i <= NUM_TILES,
                forall|j: int|
                    0 <= j < i ==> #[trigger] map.tiles@[j] == TileType::Floor || map.tiles@[j]
                        == TileType::Wall,
            decreases NUM_TILES - i,
        {
            let roll = rng::range(rng, 0, 100);
            map.tiles.set(i, tile_for_roll(roll));
            i = i + 1;
        }
    }

    /// Walls among the eight neighbours of an interior tile.
    pub fn count_neighbours(&self, x: i32, y: i32, map: &Grid) -> (r: usize)
        requires
            map.wf(),
            1 <= x < SCREEN_WIDTH - 1,
            1 <= y < SCREEN_HEIGHT - 1,
        ensures
            r == wall_count(map.tiles@, idx_of(x as int, y as int)),
            r <= 8,
    {
        let i = map_idx(x, y);
        wall_at_exec(map, i - 81) + wall_at_exec(map, i - 80) + wall_at_exec(map, i - 79)
            + wall_at_exec(map, i - 1) + wall_at_exec(map, i + 1) + wall_at_exec(map, i + 79)
            + wall_at_exec(map, i + 80) + wall_at_exec(map, i + 81)
    }

    /// One smoothing pass over the interior, every count taken on the grid
    /// as it stood before the pass; the border is left alone.
    pub fn iteration(&self, map: &mut Grid)
        requires
            old(map).wf(),
        ensures
            final(map).wf(),
            final(map).revealed_tiles == old(map).revealed_tiles,
            final(map).tiles@ == smooth_once(old(map).tiles@),
            forall|i: int|
                0 <= i < NUM_TILES ==> #[trigger] final(map).tiles@[i] == if interior(i) {
                    smoothed(old(map).tiles@, i)
                } else {
                    old(map).tiles@[i]
                },
    {
        let before = map.duplicate();
        let mut y: i32 = 1;
        while y < SCREEN_HEIGHT - 1
            invariant
                map.wf(),
                before.wf(),
                before.tiles@ == old(map).tiles@,
                map.revealed_tiles == old(map).revealed_tiles,
                1 <= y <= SCREEN_HEIGHT - 1,
                forall|i: int|
                    0 <= i < NUM_TILES ==> #[trigger] map.tiles@[i] == if interior(i) && y_of(i) < y {
                        smoothed(before.tiles@, i)
                    } else {
                        before.tiles@[i]
                    },
            decreases SCREEN_HEIGHT - y,
        {
            let mut x: i32 = 1;
            while x < SCREEN_WIDTH - 1
                invariant
                    map.wf(),
                    before.wf(),
                    before.tiles@ == old(map).tiles@,
                    map.revealed_tiles == old(map).revealed_tiles,
                    1 <= y < SCREEN_HEIGHT - 1,
                    1 <= x <= SCREEN_WIDTH - 1,
                    forall|i: int|
                        0 <= i < NUM_TILES ==> #[trigger] map.tiles@[i] == if interior(i) && (y_of(i)
                            < y || (y_of(i) == y && x_of(i) < x)) {
                            smoothed(before.tiles@, i)
                        } else {
                            before.tiles@[i]
                        },
                decreases SCREEN_WIDTH - x,
            {
                let idx = map_idx(x, y);
                let neighbours = self.count_neighbours(x, y, &before);
                if neighbours > 4 || neighbours == 0 {
                    map.tiles.set(idx, TileType::Wall);
                } else {
                    map.tiles.set(idx, TileType::Floor);
                }
                x = x + 1;
            }
            y = y + 1;
        }
        assert(map.tiles@ =~= smooth_once(old(map).tiles@));
    }

    /// The floor tile nearest the grid's centre, the first in index order on
    /// a tie; `None` when there is no floor.
    pub fn find_start(&self, map: &Grid) -> (r: Option<Point>)
        requires
            map.wf(),
        ensures
            r is None <==> forall|j: int| 0 <= j < NUM_TILES ==> map.tiles@[j] != TileType::Floor,
            r is Some ==> is_nearest_floor_to_center(map.tiles@, r.unwrap()),
    {
        let center = Point::new(SCREEN_WIDTH / 2, SCREEN_HEIGHT / 2);
        let mut best: Option<Point> = None;
        let mut best_d: i32 = 0;
        let mut i: usize = 0;
        while i < NUM_TILES
            invariant
                map.wf(),
                center == center_point(),
                i <= NUM_TILES,
                best is None <==> forall|j: int| 0 <= j < i ==> map.tiles@[j] != TileType::Floor,
                best is Some ==> {
                    let p = best.unwrap();
                    &&& point_in_bounds(p)
                    &&& point_idx(p) < i
                    &&& map.tiles@[point_idx(p)] == TileType::Floor
                    &&& best_d == dist2(center, p)
                    &&& forall|j: int|
                        0 <= j < i && map.tiles@[j] == TileType::Floor ==> dist2(center, point_of(j))
                            >= best_d
                    &&& forall|j: int|
                        0 <= j < point_idx(p) && map.tiles@[j] == TileType::Floor ==> dist2(
                            center,
                            point_of(j),
                        ) > best_d
                },
            decreases NUM_TILES - i,
        {
            if map.tiles[i] == TileType::Floor {
                let p = map.index_to_point2d(i);
                let dx = p.x - center.x;
                let dy = p.y - center.y;
                proof {
                    assert(p == point_of(i as int));
                    assert(dist2(center, p) == dx * dx + dy * dy) by (nonlinear_arith)
                        requires
                            dx == p.x - center.x,
                            dy == p.y - center.y,
                    ;
                    assert(0 <= dx * dx <= 6400) by (nonlinear_arith)
                        requires
                            -80 < dx < 80,
                    ;
                    assert(0 <= dy * dy <= 2500) by (nonlinear_arith)
                        requires
                            -50 < dy < 50,
                    ;
                }
                let d = dx * dx + dy * dy;
                match best {
                    None => {
                        best = Some(p);
                        best_d = d;
                    },
                    Some(_) => {
                        if d < best_d {
                            best = Some(p);
                            best_d = d;
                        }
                    },
                }
            }
            i = i + 1;
        }
        best
    }

    /// Noise, ten smoothing passes, the start nearest the centre, spawn
    /// points and the most distant goal.
    pub fn build(&mut self, rng: &mut RandomNumberGenerator) -> (mb: MapBuilder)
        ensures
            mb.wf(),
            mb.map.tiles@[point_idx(mb.player_start)] == TileType::Floor,
            exists|noise: Seq<TileType>|
                #![trigger smooth_n(noise, SMOOTHING_PASSES as int)]
                noise.len() == NUM_TILES && (forall|i: int|
                    0 <= i < NUM_TILES ==> #[trigger] noise[i] == TileType::Floor || noise[i]
                        == TileType::Wall) && (mb.map.tiles@ == smooth_n(noise, SMOOTHING_PASSES as int)
                    || mb.map.tiles@ == smooth_n(noise, SMOOTHING_PASSES as int).update(
                    point_idx(center_point()),
                    TileType::Floor,
                )),
            is_nearest_floor_to_center(mb.map.tiles@, mb.player_start) || (mb.player_start
                == center_point() && forall|i: int|
                0 <= i < NUM_TILES && i != point_idx(center_point()) ==> mb.map.tiles@[i]
                    != TileType::Floor),
            is_most_distant(mb.map.tiles@, mb.player_start, mb.grail_start),
            spawns_drawn(mb.map.tiles@, mb.player_start, mb.monster_spawns@),
            mb.rooms@.len() == 0,
    {
        let mut mb = MapBuilder::empty();
        self.random_noise_map(rng, &mut mb.map);
        let ghost noise = mb.map.tiles@;
        let mut pass: usize = 0;
        while pass < SMOOTHING_PASSES
            invariant
                mb.wf(),
                mb.rooms@.len() == 0,
                pass <= SMOOTHING_PASSES,
                mb.map.tiles@ == smooth_n(noise, pass as int),
            decreases SMOOTHING_PASSES - pass,
        {
            self.iteration(&mut mb.map);
            pass = pass + 1;
        }
        let start = match self.find_start(&mb.map) {
            Some(p) => p,
            None => {
                // No floor survived: open the centre so the level has a start.
                let c = Point::new(SCREEN_WIDTH / 2, SCREEN_HEIGHT / 2);
                let ci = mb.map.point2d_to_index(c);
                mb.map.tiles.set(ci, TileType::Floor);
                c
            },
        };
        mb.monster_spawns = mb.spawn_monsters(&start, rng);
        mb.player_start = start;
        mb.grail_start = mb.find_most_distant();
        mb
    }
}

} // verus!
