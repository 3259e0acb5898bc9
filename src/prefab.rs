use vstd::prelude::*;
use bracket_lib::random::RandomNumberGenerator;
use crate::distance::{distance_field, is_distance_field, MAX_DEPTH};
use crate::geometry::{Point, Rect, rect_covers};
use crate::map::{TileType, NUM_TILES, SCREEN_WIDTH, SCREEN_HEIGHT, x_of, y_of, map_idx};
use crate::map_builder::{MapBuilder, point_idx, point_in_bounds, point_of};
use crate::rng;

verus! {

pub const FORTRESS_WIDTH: i32 = 12;
pub const FORTRESS_HEIGHT: i32 = 11;
/// Placements tried before the prefab is left out.
pub const PREFAB_ATTEMPTS: usize = 10;
/// Every footprint tile must lie further than this from the start...
pub const PREFAB_MIN_DISTANCE: u32 = 20;
/// ...and nearer than this.
pub const PREFAB_MAX_DISTANCE: u32 = 2000;

/// The fortress, row by row: `-` floor, `#` wall, `M` a monster on floor.
pub open spec fn fortress_layout() -> Seq<char> {
    seq![
        '-', '-', '-', '-', '-', '-', '-', '-', '-', '-', '-', '-',
        '-', '-', '-', '#', '#', '#', '#', '#', '#', '-', '-', '-',
        '-', '-', '-', '#', '-', '-', '-', '-', '#', '-', '-', '-',
        '-', '-', '-', '#', '-', 'M', '-', '-', '#', '-', '-', '-',
        '-', '#', '#', '#', '-', '-', '-', '-', '#', '#', '#', '-',
        '-', '-', 'M', '-', '-', '-', '-', '-', '-', 'M', '-', '-',
        '-', '#', '#', '#', '-', '-', '-', '-', '#', '#', '#', '-',
        '-', '-', '-', '#', '-', '-', '-', '-', '#', '-', '-', '-',
        '-', '-', '-', '#', '-', '-', '-', '-', '#', '-', '-', '-',
        '-', '-', '-', '#', '#', '#', '#', '#', '#', '-', '-', '-',
        '-', '-', '-', '-', '-', '-', '-', '-', '-', '-', '-', '-',
    ]
}

pub fn fortress_cells() -> (r: Vec<char>)
    ensures
        r@ == fortress_layout(),
        r@.len() == FORTRESS_WIDTH * FORTRESS_HEIGHT,
{
    vec![
        '-', '-', '-', '-', '-', '-', '-', '-', '-', '-', '-', '-',
        '-', '-', '-', '#', '#', '#', '#', '#', '#', '-', '-', '-',
        '-', '-', '-', '#', '-', '-', '-', '-', '#', '-', '-', '-',
        '-', '-', '-', '#', '-', 'M', '-', '-', '#', '-', '-', '-',
        '-', '#', '#', '#', '-', '-', '-', '-', '#', '#', '#', '-',
        '-', '-', 'M', '-', '-', '-', '-', '-', '-', 'M', '-', '-',
        '-', '#', '#', '#', '-', '-', '-', '-', '#', '#', '#', '-',
        '-', '-', '-', '#', '-', '-', '-', '-', '#', '-', '-', '-',
        '-', '-', '-', '#', '-', '-', '-', '-', '#', '-', '-', '-',
        '-', '-', '-', '#', '#', '#', '#', '#', '#', '-', '-', '-',
        '-', '-', '-', '-', '-', '-', '-', '-', '-', '-', '-', '-',
    ]
}

pub open spec fn cell_tile(c: char) -> TileType {
    if c == '#' {
        TileType::Wall
    } else {
        TileType::Floor
    }
}

/// Tile `i` lies under the footprint `r`.
pub open spec fn under(r: Rect, i: int) -> bool {
    rect_covers(r, x_of(i), y_of(i))
}

/// The cell of the prefab that lands on tile `i` when placed at `r`.
pub open spec fn cell_index(r: Rect, i: int) -> int {
    (y_of(i) - r.y1) * FORTRESS_WIDTH + (x_of(i) - r.x1)
}

pub open spec fn footprint_on_grid(r: Rect) -> bool {
    0 <= r.x1 && r.x2 == r.x1 + FORTRESS_WIDTH && r.x2 <= SCREEN_WIDTH && 0 <= r.y1 && r.y2 == r.y1
        + FORTRESS_HEIGHT && r.y2 <= SCREEN_HEIGHT
}

/// Every footprint tile is reached, at a distance strictly between the
/// bounds, and none of them is the goal.
pub open spec fn placement_valid(d: Seq<Option<u32>>, r: Rect, goal: Point) -> bool {
    forall|i: int|
        0 <= i < NUM_TILES && under(r, i) ==> #[trigger] d[i] is Some && PREFAB_MIN_DISTANCE
            < d[i].unwrap() < PREFAB_MAX_DISTANCE && point_of(i) != goal
}

/// Whether the prefab may be placed at `r`.
pub fn placement_ok(d: &Vec<Option<u32>>, r: Rect, goal: Point) -> (ok: bool)
    requires
        d@.len() == NUM_TILES,
        footprint_on_grid(r),
    ensures
        ok == placement_valid(d@, r, goal),
{
    let mut ok = true;
    let mut y: i32 = r.y1;
    while y < r.y2
        invariant
            d@.len() == NUM_TILES,
            footprint_on_grid(r),
            r.y1 <= y <= r.y2,
            ok == forall|i: int|
                0 <= i < NUM_TILES && under(r, i) && y_of(i) < y ==> #[trigger] d@[i] is Some
                    && PREFAB_MIN_DISTANCE < d@[i].unwrap() < PREFAB_MAX_DISTANCE && point_of(i)
                    != goal,
        decreases r.y2 - y,
    {
        let mut x: i32 = r.x1;
        while x < r.x2
            invariant
                d@.len() == NUM_TILES,
                footprint_on_grid(r),
                r.y1 <= y < r.y2,
                r.x1 <= x <= r.x2,
                ok == forall|i: int|
                    0 <= i < NUM_TILES && under(r, i) && (y_of(i) < y || (y_of(i) == y && x_of(i)
                        < x)) ==> #[trigger] d@[i] is Some && PREFAB_MIN_DISTANCE < d@[i].unwrap()
                        < PREFAB_MAX_DISTANCE && point_of(i) != goal,
            decreases r.x2 - x,
        {
            let idx = map_idx(x, y);
            let good = match d[idx] {
                Some(v) => PREFAB_MIN_DISTANCE < v && v < PREFAB_MAX_DISTANCE && (x != goal.x || y
                    != goal.y),
                None => false,
            };
            proof {
                assert(point_of(idx as int) == Point { x, y });
            }
            ok = ok && good;
            x = x + 1;
        }
        y = y + 1;
    }
    ok
}

/// The first `n` spawn points that lie outside `r`, in their order.
pub open spec fn outside_spawns(spawns: Seq<Point>, r: Rect, n: int) -> Seq<Point>
    decreases n,
{
    if n <= 0 {
        Seq::empty()
    } else if rect_covers(r, spawns[n - 1].x as int, spawns[n - 1].y as int) {
        outside_spawns(spawns, r, n - 1)
    } else {
        outside_spawns(spawns, r, n - 1).push(spawns[n - 1])
    }
}

/// The monster cells among the first `n` cells of a prefab placed at `r`,
/// in row order, as points on the grid.
pub open spec fn monster_cells(cells: Seq<char>, r: Rect, n: int) -> Seq<Point>
    decreases n,
{
    if n <= 0 {
        Seq::empty()
    } else if cells[n - 1] == 'M' {
        monster_cells(cells, r, n - 1).push(
            Point {
                x: (r.x1 + (n - 1) % (FORTRESS_WIDTH as int)) as i32,
                y: (r.y1 + (n - 1) / (FORTRESS_WIDTH as int)) as i32,
            },
        )
    } else {
        monster_cells(cells, r, n - 1)
    }
}

/// The spawn points that lie outside `r`, in their order.
pub fn spawns_outside(spawns: &Vec<Point>, r: Rect) -> (out: Vec<Point>)
    ensures
        out@ == outside_spawns(spawns@, r, spawns@.len() as int),
        (forall|k: int| 0 <= k < spawns@.len() ==> point_in_bounds(#[trigger] spawns@[k])) ==> (
        forall|k: int| 0 <= k < out@.len() ==> point_in_bounds(#[trigger] out@[k])),
        forall|k: int|
            0 <= k < out@.len() ==> spawns@.contains(#[trigger] out@[k]) && !rect_covers(
                r,
                out@[k].x as int,
                out@[k].y as int,
            ),
        forall|k: int|
            0 <= k < spawns@.len() && !rect_covers(r, spawns@[k].x as int, spawns@[k].y as int)
                ==> out@.contains(#[trigger] spawns@[k]),
{
    let mut out: Vec<Point> = Vec::new();
    let mut k: usize = 0;
    while k < spawns.len()
        invariant
            k <= spawns@.len(),
            out@ == outside_spawns(spawns@, r, k as int),
            (forall|j: int| 0 <= j < spawns@.len() ==> point_in_bounds(#[trigger] spawns@[j])) ==> (
            forall|j: int| 0 <= j < out@.len() ==> point_in_bounds(#[trigger] out@[j])),
            forall|j: int|
                0 <= j < out@.len() ==> spawns@.contains(#[trigger] out@[j]) && !rect_covers(
                    r,
                    out@[j].x as int,
                    out@[j].y as int,
                ),
            forall|j: int|
                0 <= j < k && !rect_covers(r, spawns@[j].x as int, spawns@[j].y as int)
                    ==> out@.contains(#[trigger] spawns@[j]),
        decreases spawns@.len() - k,
    {
        let p = spawns[k];
        if !r.point_in_rect(p) {
            let ghost o0 = out@;
            out.push(p);
            proof {
                assert(spawns@[k as int] == p);
                assert(out@[o0.len() as int] == p);
                assert forall|j: int|
                    0 <= j < k + 1 && !rect_covers(r, spawns@[j].x as int, spawns@[j].y as int)
                        implies out@.contains(#[trigger] spawns@[j]) by {
                    if j < k {
                        let m = choose|m: int| 0 <= m < o0.len() && o0[m] == spawns@[j];
                        assert(out@[m] == spawns@[j]);
                    }
                }
            }
        }
        k = k + 1;
    }
    out
}

impl MapBuilder {
    /// Writes the prefab's cells onto the footprint `r`, adding a spawn
    /// point for each monster cell.
    pub fn stamp_prefab(&mut self, r: Rect, cells: &Vec<char>)
        requires
            old(self).wf(),
            footprint_on_grid(r),
            cells@.len() == FORTRESS_WIDTH * FORTRESS_HEIGHT,
        ensures
            final(self).wf(),
            final(self).player_start == old(self).player_start,
            final(self).grail_start == old(self).grail_start,
            final(self).rooms == old(self).rooms,
            final(self).theme == old(self).theme,
            final(self).map.revealed_tiles == old(self).map.revealed_tiles,
            forall|i: int|
                0 <= i < NUM_TILES ==> #[trigger] final(self).map.tiles@[i] == if under(r, i) {
                    cell_tile(cells@[cell_index(r, i)])
                } else {
                    old(self).map.tiles@[i]
                },
            final(self).monster_spawns@ == old(self).monster_spawns@ + monster_cells(
                cells@,
                r,
                FORTRESS_WIDTH * FORTRESS_HEIGHT,
            ),
    {
        let mut ty: i32 = r.y1;
        while ty < r.y2
            invariant
                self.wf(),
                footprint_on_grid(r),
                cells@.len() == FORTRESS_WIDTH * FORTRESS_HEIGHT,
                r.y1 <= ty <= r.y2,
                self.player_start == old(self).player_start,
                self.grail_start == old(self).grail_start,
                self.rooms == old(self).rooms,
                self.theme == old(self).theme,
                self.map.revealed_tiles == old(self).map.revealed_tiles,
                forall|i: int|
                    0 <= i < NUM_TILES ==> #[trigger] self.map.tiles@[i] == if under(r, i) && y_of(i)
                        < ty {
                        cell_tile(cells@[cell_index(r, i)])
                    } else {
                        old(self).map.tiles@[i]
                    },
                self.monster_spawns@ == old(self).monster_spawns@ + monster_cells(
                    cells@,
                    r,
                    (ty - r.y1) * FORTRESS_WIDTH,
                ),
            decreases r.y2 - ty,
        {
            let mut tx: i32 = r.x1;
            while tx < r.x2
                invariant
                    self.wf(),
                    footprint_on_grid(r),
                    cells@.len() == FORTRESS_WIDTH * FORTRESS_HEIGHT,
                    r.y1 <= ty < r.y2,
                    r.x1 <= tx <= r.x2,
                    self.player_start == old(self).player_start,
                    self.grail_start == old(self).grail_start,
                    self.rooms == old(self).rooms,
                    self.theme == old(self).theme,
                    self.map.revealed_tiles == old(self).map.revealed_tiles,
                    forall|i: int|
                        0 <= i < NUM_TILES ==> #[trigger] self.map.tiles@[i] == if under(r, i) && (y_of(
                            i,
                        ) < ty || (y_of(i) == ty && x_of(i) < tx)) {
                            cell_tile(cells@[cell_index(r, i)])
                        } else {
                            old(self).map.tiles@[i]
                        },
                    self.monster_spawns@ == old(self).monster_spawns@ + monster_cells(
                        cells@,
                        r,
                        (ty - r.y1) * FORTRESS_WIDTH + (tx - r.x1),
                    ),
                decreases r.x2 - tx,
            {
                let idx = map_idx(tx, ty);
                let ci = ((ty - r.y1) * FORTRESS_WIDTH + (tx - r.x1)) as usize;
                let c = cells[ci];
                let ghost s_before = self.monster_spawns@;
                proof {
                    assert(ci as int % (FORTRESS_WIDTH as int) == tx - r.x1);
                    assert(ci as int / (FORTRESS_WIDTH as int) == ty - r.y1);
                }
                if c == '#' {
                    self.map.tiles.set(idx, TileType::Wall);
                } else {
                    self.map.tiles.set(idx, TileType::Floor);
                    if c == 'M' {
                        self.monster_spawns.push(Point::new(tx, ty));
                    }
                }
                proof {
                    let m0 = monster_cells(cells@, r, ci as int);
                    assert(monster_cells(cells@, r, ci + 1) == if c == 'M' {
                        m0.push(Point { x: tx, y: ty })
                    } else {
                        m0
                    });
                    assert(self.monster_spawns@ =~= old(self).monster_spawns@ + monster_cells(
                        cells@,
                        r,
                        ci + 1,
                    ));
                }
                tx = tx + 1;
            }
            ty = ty + 1;
        }
    }
}

/// Tries up to `PREFAB_ATTEMPTS` random footprints and returns the first
/// valid one.
pub fn choose_placement(d: &Vec<Option<u32>>, goal: Point, rng: &mut RandomNumberGenerator) -> (r:
    Option<Rect>)
    requires
        d@.len() == NUM_TILES,
    ensures
        r is Some ==> footprint_on_grid(r.unwrap()) && r.unwrap().x1 < SCREEN_WIDTH - FORTRESS_WIDTH
            && r.unwrap().y1 < SCREEN_HEIGHT - FORTRESS_HEIGHT && placement_valid(d@, r.unwrap(), goal),
{
    let mut attempts: usize = 0;
    while attempts < PREFAB_ATTEMPTS
        invariant
            d@.len() == NUM_TILES,
        decreases PREFAB_ATTEMPTS - attempts,
    {
        let x = rng::range(rng, 0, SCREEN_WIDTH - FORTRESS_WIDTH);
        let y = rng::range(rng, 0, SCREEN_HEIGHT - FORTRESS_HEIGHT);
        let dimensions = Rect::with_size(x, y, FORTRESS_WIDTH, FORTRESS_HEIGHT);
        if placement_ok(d, dimensions, goal) {
            return Some(dimensions);
        }
        attempts = attempts + 1;
    }
    None
}

/// The prefab may land on `r` of grid `tiles` with the player at `start`
/// and the goal at `goal`.
pub open spec fn prefab_fits(tiles: Seq<TileType>, start: Point, goal: Point, r: Rect) -> bool {
    exists|d: Seq<Option<u32>>|
        is_distance_field(tiles, seq![point_idx(start) as usize], MAX_DEPTH as int, d)
            && #[trigger] placement_valid(d, r, goal)
}

/// `after` is `before` with the fortress stamped on `r`: its cells on the
/// footprint, the spawn points under it dropped and one added on each
/// monster cell, everything else kept.
pub open spec fn stamped(before: MapBuilder, after: MapBuilder, r: Rect) -> bool {
    &&& after.map.tiles@.len() == NUM_TILES
    &&& forall|i: int|
        0 <= i < NUM_TILES ==> #[trigger] after.map.tiles@[i] == if under(r, i) {
            cell_tile(fortress_layout()[cell_index(r, i)])
        } else {
            before.map.tiles@[i]
        }
    &&& after.monster_spawns@ == outside_spawns(
        before.monster_spawns@,
        r,
        before.monster_spawns@.len() as int,
    ) + monster_cells(fortress_layout(), r, FORTRESS_WIDTH * FORTRESS_HEIGHT)
    &&& after.map.revealed_tiles == before.map.revealed_tiles
    &&& after.player_start == before.player_start
    &&& after.grail_start == before.grail_start
    &&& after.rooms == before.rooms
    &&& after.theme == before.theme
}

/// `after` is `before` untouched, or `before` with the fortress stamped on
/// a footprint drawn in range on which it fits.
pub open spec fn prefab_outcome(before: MapBuilder, after: MapBuilder) -> bool {
    after == before || exists|r: Rect|
        {
            &&& footprint_on_grid(r)
            &&& r.x1 < SCREEN_WIDTH - FORTRESS_WIDTH
            &&& r.y1 < SCREEN_HEIGHT - FORTRESS_HEIGHT
            &&& #[trigger] prefab_fits(before.map.tiles@, before.player_start, before.grail_start, r)
            &&& stamped(before, after, r)
        }
}

/// Tries up to `PREFAB_ATTEMPTS` random placements of the fortress and
/// stamps it at the first valid one, dropping the spawn points it covers;
/// when none is valid the builder is left as it was.
pub fn apply_prefab(mb: &mut MapBuilder, rng: &mut RandomNumberGenerator)
    requires
        old(mb).wf(),
    ensures
        final(mb).wf(),
        prefab_outcome(*old(mb), *final(mb)),
        final(mb).map.tiles@[point_idx(final(mb).grail_start)] == old(mb).map.tiles@[point_idx(
            old(mb).grail_start,
        )],
        final(mb).map.tiles@[point_idx(final(mb).player_start)] == old(mb).map.tiles@[point_idx(
            old(mb).player_start,
        )],
{
    let start = mb.map.point2d_to_index(mb.player_start);
    let seeds = vec![start];
    let d = distance_field(&mb.map, &seeds, MAX_DEPTH);
    assert(seeds@ =~= seq![point_idx(mb.player_start) as usize]);
    let goal = mb.grail_start;
    proof {
        crate::distance::lemma_field_basics(mb.map.tiles@, seeds@, MAX_DEPTH as int, d@);
    }
    match choose_placement(&d, goal, rng) {
        Some(r) => {
            proof {
                let gi = point_idx(goal);
                let si = point_idx(mb.player_start);
                assert(point_of(gi) == goal);
                if under(r, gi) {
                    assert(d@[gi] is Some);
                }
                if under(r, si) {
                    assert(d@[si] is Some);
                }
                assert(seeds@[0] == si);
                assert(d@[si] == Some(0u32));
                assert(prefab_fits(mb.map.tiles@, mb.player_start, goal, r));
            }
            let ghost before = *mb;
            place_fortress(mb, r);
            proof {
                assert(stamped(before, *mb, r));
            }
        },
        None => {},
    }
}

/// Drops the spawn points under `r` and stamps the fortress there.
fn place_fortress(mb: &mut MapBuilder, r: Rect)
    requires
        old(mb).wf(),
        footprint_on_grid(r),
    ensures
        final(mb).wf(),
        stamped(*old(mb), *final(mb), r),
{
    let ghost before = *mb;
    mb.monster_spawns = spawns_outside(&mb.monster_spawns, r);
    let cells = fortress_cells();
    mb.stamp_prefab(r, &cells);
    assert(mb.monster_spawns@ =~= outside_spawns(before.monster_spawns@, r, before.monster_spawns@.len() as int)
        + monster_cells(fortress_layout(), r, FORTRESS_WIDTH * FORTRESS_HEIGHT));
}

} // verus!
