use vstd::prelude::*;
use bracket_lib::random::RandomNumberGenerator;
use crate::distance::{distance_field, is_distance_field, MAX_DEPTH};
use crate::geometry::{Point, Rect, dist2, rects_intersect, rect_covers, rect_center};
use crate::map::{
    Grid, TileType, NUM_TILES, SCREEN_WIDTH, SCREEN_HEIGHT, in_bounds_xy, idx_of, x_of, y_of,
    map_idx, walkable,
};
use crate::rng;
use crate::automata::CellularAutomataArchitect;
use crate::drunkard::DrunkardWalkArchitect;
use crate::rooms::RoomsArchitect;
use crate::prefab::{apply_prefab, prefab_outcome};

verus! {

pub const NUM_ROOMS: usize = 20;
pub const MAX_ROOM_ATTEMPTS: usize = 1000;

/// Visual style of a level.
#[derive(Clone, Copy, Debug, PartialEq, Eq, Structural)]
pub enum MapTheme {
    Dungeon,
    Forest,
}

/// The result of building one level.
#[derive(Clone, Debug)]
pub struct MapBuilder {
    pub map: Grid,
    pub rooms: Vec<Rect>,
    pub monster_spawns: Vec<Point>,
    pub player_start: Point,
    pub grail_start: Point,
    pub theme: MapTheme,
}

pub open spec fn point_in_bounds(p: Point) -> bool {
    in_bounds_xy(p.x as int, p.y as int)
}

pub open spec fn point_idx(p: Point) -> int {
    idx_of(p.x as int, p.y as int)
}

/// A room lies strictly inside the grid, off its border.
pub open spec fn room_inside(r: Rect) -> bool {
    1 <= r.x1 && r.x1 < r.x2 && r.x2 <= SCREEN_WIDTH - 1 && 1 <= r.y1 && r.y1 < r.y2 && r.y2
        <= SCREEN_HEIGHT - 1
}

pub open spec fn rooms_disjoint(rooms: Seq<Rect>) -> bool {
    forall|a: int, b: int|
        0 <= a < rooms.len() && 0 <= b < rooms.len() && a != b ==> !rects_intersect(
            #[trigger] rooms[a],
            #[trigger] rooms[b],
        )
}

pub open spec fn rooms_carved(tiles: Seq<TileType>, rooms: Seq<Rect>) -> bool {
    forall|k: int, i: int|
        0 <= k < rooms.len() && 0 <= i < NUM_TILES && rect_covers(
            #[trigger] rooms[k],
            x_of(i),
            y_of(i),
        ) ==> #[trigger] tiles[i] == TileType::Floor
}

/// Tile `i` lies in one of the rooms from index `from` on.
pub open spec fn in_new_room(rooms: Seq<Rect>, from: int, i: int) -> bool {
    exists|k: int| from <= k < rooms.len() && rect_covers(#[trigger] rooms[k], x_of(i), y_of(i))
}

/// A room as drawn: top-left in `[1, 70) x [1, 40)`, sides in `[2, 10)`.
pub open spec fn room_drawn(r: Rect) -> bool {
    1 <= r.x1 < SCREEN_WIDTH - 10 && 1 <= r.y1 < SCREEN_HEIGHT - 10 && 2 <= r.x2 - r.x1 < 10 && 2
        <= r.y2 - r.y1 < 10
}

/// Tiles only ever turn into floor.
pub open spec fn only_floored(before: Seq<TileType>, after: Seq<TileType>) -> bool {
    forall|i: int| 0 <= i < NUM_TILES ==> #[trigger] after[i] == before[i] || after[i] == TileType::Floor
}

/// `goal` is the first tile, in index order, of greatest finite distance
/// in the distance field from `start`.
pub open spec fn is_most_distant(tiles: Seq<TileType>, start: Point, goal: Point) -> bool {
    exists|d: Seq<Option<u32>>|
        {
            &&& is_distance_field(tiles, seq![point_idx(start) as usize], MAX_DEPTH as int, d)
            &&& point_in_bounds(goal)
            &&& #[trigger] d[point_idx(goal)] is Some
            &&& forall|j: int|
                0 <= j < NUM_TILES && #[trigger] d[j] is Some ==> d[j].unwrap() <= d[point_idx(goal)].unwrap()
            &&& forall|j: int|
                0 <= j < point_idx(goal) && #[trigger] d[j] is Some ==> d[j].unwrap() < d[point_idx(
                    goal,
                )].unwrap()
        }
}

/// The start tile of any grid is reached, at distance 0, by the distance
/// field from it; so the reachable tiles of a grid whose start is floor
/// include that floor tile.
pub proof fn lemma_start_reachable(tiles: Seq<TileType>, start: Point, d: Seq<Option<u32>>)
    requires
        point_in_bounds(start),
        is_distance_field(tiles, seq![point_idx(start) as usize], MAX_DEPTH as int, d),
    ensures
        d[point_idx(start)] == Some(0u32),
{
    crate::distance::lemma_field_basics(tiles, seq![point_idx(start) as usize], MAX_DEPTH as int, d);
    assert(seq![point_idx(start) as usize][0] == point_idx(start) as usize);
}

/// The goal the builder picks is reached from the start: it has a finite
/// distance, and it is walkable when the start is.
pub proof fn lemma_goal_reachable(tiles: Seq<TileType>, start: Point, goal: Point)
    requires
        point_in_bounds(start),
        is_most_distant(tiles, start, goal),
        walkable(tiles[point_idx(start)]),
    ensures
        walkable(tiles[point_idx(goal)]),
        exists|d: Seq<Option<u32>>|
            #[trigger] is_distance_field(tiles, seq![point_idx(start) as usize], MAX_DEPTH as int, d)
                && d[point_idx(goal)] is Some,
{
    let d = choose|d: Seq<Option<u32>>|
        {
            &&& is_distance_field(tiles, seq![point_idx(start) as usize], MAX_DEPTH as int, d)
            &&& point_in_bounds(goal)
            &&& #[trigger] d[point_idx(goal)] is Some
            &&& forall|j: int|
                0 <= j < NUM_TILES && #[trigger] d[j] is Some ==> d[j].unwrap() <= d[point_idx(
                    goal,
                )].unwrap()
            &&& forall|j: int|
                0 <= j < point_idx(goal) && #[trigger] d[j] is Some ==> d[j].unwrap() < d[point_idx(
                    goal,
                )].unwrap()
        };
    reveal(is_distance_field);
    let gi = point_idx(goal);
    if d[gi].unwrap() == 0 {
        assert(crate::distance::is_seed(seq![point_idx(start) as usize], gi));
    }
}

impl MapBuilder {
    pub open spec fn wf(&self) -> bool {
        &&& self.map.wf()
        &&& point_in_bounds(self.player_start)
        &&& point_in_bounds(self.grail_start)
        &&& forall|k: int|
            0 <= k < self.monster_spawns@.len() ==> point_in_bounds(
                #[trigger] self.monster_spawns@[k],
            )
    }

    /// Builds a level: one of the three architects, picked uniformly, makes
    /// the grid, start, goal and spawn points; then the fortress prefab is
    /// stamped where it fits; the theme is picked before that.
    pub fn new(rng: &mut RandomNumberGenerator) -> (mb: MapBuilder)
        ensures
            mb.wf(),
            mb.map.tiles@[point_idx(mb.player_start)] == TileType::Floor,
            walkable(mb.map.tiles@[point_idx(mb.grail_start)]),
            rooms_disjoint(mb.rooms@),
            exists|mb0: MapBuilder|
                #![trigger is_most_distant(mb0.map.tiles@, mb.player_start, mb.grail_start)]
                mb0.wf() && mb0.player_start == mb.player_start && mb0.grail_start == mb.grail_start
                    && is_most_distant(mb0.map.tiles@, mb.player_start, mb.grail_start)
                    && spawns_drawn(mb0.map.tiles@, mb.player_start, mb0.monster_spawns@)
                    && prefab_outcome(mb0, mb),
    {
        let mut mb = match rng::range(rng, 0, 3) {
            0 => {
                let mut a = CellularAutomataArchitect {};
                a.build(rng)
            },
            1 => {
                let mut a = DrunkardWalkArchitect {};
                a.build(rng)
            },
            _ => {
                let mut a = RoomsArchitect {};
                a.build(rng)
            },
        };
        mb.theme = if rng::range(rng, 0, 2) == 0 {
            MapTheme::Dungeon
        } else {
            MapTheme::Forest
        };
        let ghost mb0 = mb;
        proof {
            lemma_goal_reachable(mb0.map.tiles@, mb.player_start, mb.grail_start);
        }
        apply_prefab(&mut mb, rng);
        mb
    }

    /// An all-wall builder with every point at the origin.
    pub fn empty() -> (r: MapBuilder)
        ensures
            r.wf(),
            forall|i: int| 0 <= i < NUM_TILES ==> r.map.tiles@[i] == TileType::Wall,
            r.rooms@.len() == 0,
            r.monster_spawns@.len() == 0,
    {
        MapBuilder {
            map: Grid::new(),
            rooms: Vec::new(),
            monster_spawns: Vec::new(),
            player_start: Point::zero(),
            grail_start: Point::zero(),
            theme: MapTheme::Dungeon,
        }
    }

    pub fn fill(&mut self, tile: TileType)
        requires
            old(self).wf(),
        ensures
            final(self).wf(),
            forall|i: int| 0 <= i < NUM_TILES ==> final(self).map.tiles@[i] == tile,
            final(self).rooms == old(self).rooms,
            final(self).monster_spawns == old(self).monster_spawns,
            final(self).player_start == old(self).player_start,
            final(self).grail_start == old(self).grail_start,
            final(self).theme == old(self).theme,
    {
        self.map.fill(tile);
    }

    /// The reachable tile furthest from the player start.
    pub fn find_most_distant(&self) -> (r: Point)
        requires
            self.wf(),
        ensures
            is_most_distant(self.map.tiles@, self.player_start, r),
    {
        let start = self.map.point2d_to_index(self.player_start);
        let seeds = vec![start];
        let d = distance_field(&self.map, &seeds, MAX_DEPTH);
        proof {
            crate::distance::lemma_field_basics(self.map.tiles@, seeds@, MAX_DEPTH as int, d@);
            assert(seeds@[0] == start);
        }
        assert(d@[start as int] == Some(0u32));
        assert forall|j: int| 0 <= j < NUM_TILES && d@[j] == Some(0u32) implies j == start by {
            assert(crate::distance::is_seed(seeds@, j));
        }
        let mut best: usize = start;
        let mut best_d: u32 = 0;
        let mut i: usize = 0;
        while i < NUM_TILES
            invariant
                d@.len() == NUM_TILES,
                i <= NUM_TILES,
                best < NUM_TILES,
                d@[best as int] == Some(best_d),
                forall|j: int| 0 <= j < i && d@[j] is Some ==> d@[j].unwrap() <= best_d,
                forall|j: int| 0 <= j < i && j < best && d@[j] is Some ==> d@[j].unwrap() < best_d,
                best == start || best < i,
                best == start ==> best_d == 0,
                d@[start as int] == Some(0u32),
                forall|j: int| 0 <= j < NUM_TILES && d@[j] == Some(0u32) ==> j == start,
            decreases NUM_TILES - i,
        {
            match d[i] {
                Some(v) => {
                    if v > best_d {
                        best = i;
                        best_d = v;
                    }
                },
                None => {},
            }
            i = i + 1;
        }
        let r = self.map.index_to_point2d(best);
        assert(seeds@ =~= seq![point_idx(self.player_start) as usize]);
        assert(d@[point_idx(r)] is Some);
        r
    }

    /// Floors the tiles of row `y` between `x1` and `x2`, both included.
    pub fn apply_horizontal_tunnel(&mut self, x1: i32, x2: i32, y: i32)
        requires
            old(self).wf(),
        ensures
            final(self).wf(),
            final(self).rooms == old(self).rooms,
            final(self).monster_spawns == old(self).monster_spawns,
            final(self).player_start == old(self).player_start,
            final(self).grail_start == old(self).grail_start,
            final(self).theme == old(self).theme,
            final(self).map.revealed_tiles == old(self).map.revealed_tiles,
            forall|i: int|
                0 <= i < NUM_TILES ==> #[trigger] final(self).map.tiles@[i] == if y_of(i) == y && (
                x1 <= x_of(i) <= x2 || x2 <= x_of(i) <= x1) {
                    TileType::Floor
                } else {
                    old(self).map.tiles@[i]
                },
    {
        let lo = if x1 < x2 { x1 } else { x2 };
        let hi = if x1 < x2 { x2 } else { x1 };
        if 0 <= y && y < SCREEN_HEIGHT {
            let x0: i32 = if lo < 0 {
                0
            } else if lo > SCREEN_WIDTH {
                SCREEN_WIDTH
            } else {
                lo
            };
            let mut x: i32 = x0;
            while x <= hi && x < SCREEN_WIDTH
                invariant
                    self.wf(),
                    0 <= y < SCREEN_HEIGHT,
                    lo <= hi,
                    x0 == (if lo < 0 {
                        0
                    } else if lo > SCREEN_WIDTH {
                        SCREEN_WIDTH
                    } else {
                        lo
                    }),
                    x >= x0,
                    x <= SCREEN_WIDTH,
                    x == x0 || x <= hi + 1,
                    lo == x1 || lo == x2,
                    hi == x1 || hi == x2,
                    lo <= x1 && lo <= x2,
                    self.rooms == old(self).rooms,
                    self.monster_spawns == old(self).monster_spawns,
                    self.player_start == old(self).player_start,
                    self.grail_start == old(self).grail_start,
                    self.theme == old(self).theme,
                    self.map.revealed_tiles == old(self).map.revealed_tiles,
                    forall|i: int|
                        0 <= i < NUM_TILES ==> #[trigger] self.map.tiles@[i] == if y_of(i) == y
                            && lo <= x_of(i) < x {
                            TileType::Floor
                        } else {
                            old(self).map.tiles@[i]
                        },
                decreases SCREEN_WIDTH - x,
            {
                let idx = map_idx(x, y);
                self.map.tiles.set(idx, TileType::Floor);
                x = x + 1;
            }
        }
    }

    /// Floors the tiles of column `x` between `y1` and `y2`, both included.
    pub fn apply_vertical_tunnel(&mut self, y1: i32, y2: i32, x: i32)
        requires
            old(self).wf(),
        ensures
            final(self).wf(),
            final(self).rooms == old(self).rooms,
            final(self).monster_spawns == old(self).monster_spawns,
            final(self).player_start == old(self).player_start,
            final(self).grail_start == old(self).grail_start,
            final(self).theme == old(self).theme,
            final(self).map.revealed_tiles == old(self).map.revealed_tiles,
            forall|i: int|
                0 <= i < NUM_TILES ==> #[trigger] final(self).map.tiles@[i] == if x_of(i) == x && (
                y1 <= y_of(i) <= y2 || y2 <= y_of(i) <= y1) {
                    TileType::Floor
                } else {
                    old(self).map.tiles@[i]
                },
    {
        let lo = if y1 < y2 { y1 } else { y2 };
        let hi = if y1 < y2 { y2 } else { y1 };
        if 0 <= x && x < SCREEN_WIDTH {
            let y0: i32 = if lo < 0 {
                0
            } else if lo > SCREEN_HEIGHT {
                SCREEN_HEIGHT
            } else {
                lo
            };
            let mut y: i32 = y0;
            while y <= hi && y < SCREEN_HEIGHT
                invariant
                    self.wf(),
                    0 <= x < SCREEN_WIDTH,
                    lo <= hi,
                    y0 == (if lo < 0 {
                        0
                    } else if lo > SCREEN_HEIGHT {
                        SCREEN_HEIGHT
                    } else {
                        lo
                    }),
                    y >= y0,
                    y <= SCREEN_HEIGHT,
                    y == y0 || y <= hi + 1,
                    lo == y1 || lo == y2,
                    hi == y1 || hi == y2,
                    lo <= y1 && lo <= y2,
                    self.rooms == old(self).rooms,
                    self.monster_spawns == old(self).monster_spawns,
                    self.player_start == old(self).player_start,
                    self.grail_start == old(self).grail_start,
                    self.theme == old(self).theme,
                    self.map.revealed_tiles == old(self).map.revealed_tiles,
                    forall|i: int|
                        0 <= i < NUM_TILES ==> #[trigger] self.map.tiles@[i] == if x_of(i) == x
                            && lo <= y_of(i) < y {
                            TileType::Floor
                        } else {
                            old(self).map.tiles@[i]
                        },
                decreases SCREEN_HEIGHT - y,
            {
                let idx = map_idx(x, y);
                self.map.tiles.set(idx, TileType::Floor);
                y = y + 1;
            }
        }
    }

    /// Floors every tile the room covers.
    fn carve_room(&mut self, room: Rect)
        requires
            old(self).wf(),
            room_inside(room),
        ensures
            final(self).wf(),
            final(self).rooms == old(self).rooms,
            final(self).monster_spawns == old(self).monster_spawns,
            final(self).player_start == old(self).player_start,
            final(self).grail_start == old(self).grail_start,
            final(self).theme == old(self).theme,
            final(self).map.revealed_tiles == old(self).map.revealed_tiles,
            forall|i: int|
                0 <= i < NUM_TILES ==> #[trigger] final(self).map.tiles@[i] == if rect_covers(
                    room,
                    x_of(i),
                    y_of(i),
                ) {
                    TileType::Floor
                } else {
                    old(self).map.tiles@[i]
                },
    {
        let mut y: i32 = room.y1;
        while y < room.y2
            invariant
                self.wf(),
                room_inside(room),
                room.y1 <= y <= room.y2,
                self.rooms == old(self).rooms,
                self.monster_spawns == old(self).monster_spawns,
                self.player_start == old(self).player_start,
                self.grail_start == old(self).grail_start,
                self.theme == old(self).theme,
                self.map.revealed_tiles == old(self).map.revealed_tiles,
                forall|i: int|
                    0 <= i < NUM_TILES ==> #[trigger] self.map.tiles@[i] == if rect_covers(
                        room,
                        x_of(i),
                        y_of(i),
                    ) && y_of(i) < y {
                        TileType::Floor
                    } else {
                        old(self).map.tiles@[i]
                    },
            decreases room.y2 - y,
        {
            let mut x: i32 = room.x1;
            while x < room.x2
                invariant
                    self.wf(),
                    room_inside(room),
                    room.y1 <= y < room.y2,
                    room.x1 <= x <= room.x2,
                    self.rooms == old(self).rooms,
                    self.monster_spawns == old(self).monster_spawns,
                    self.player_start == old(self).player_start,
                    self.grail_start == old(self).grail_start,
                    self.theme == old(self).theme,
                    self.map.revealed_tiles == old(self).map.revealed_tiles,
                    forall|i: int|
                        0 <= i < NUM_TILES ==> #[trigger] self.map.tiles@[i] == if rect_covers(
                            room,
                            x_of(i),
                            y_of(i),
                        ) && (y_of(i) < y || (y_of(i) == y && x_of(i) < x)) {
                            TileType::Floor
                        } else {
                            old(self).map.tiles@[i]
                        },
                decreases room.x2 - x,
            {
                let idx = map_idx(x, y);
                self.map.tiles.set(idx, TileType::Floor);
                x = x + 1;
            }
            y = y + 1;
        }
    }

    /// Proposes random rooms until `NUM_ROOMS` are placed or the attempts
    /// run out; a room that meets or touches an earlier one is rejected, an
    /// accepted room is floored.
    pub fn build_random_rooms(&mut self, rng: &mut RandomNumberGenerator)
        requires
            old(self).wf(),
            old(self).rooms@.len() <= NUM_ROOMS,
            rooms_disjoint(old(self).rooms@),
            forall|k: int| 0 <= k < old(self).rooms@.len() ==> room_inside(#[trigger] old(self).rooms@[k]),
            rooms_carved(old(self).map.tiles@, old(self).rooms@),
        ensures
            final(self).wf(),
            final(self).rooms@.len() <= NUM_ROOMS,
            final(self).rooms@.len() >= 1,
            rooms_disjoint(final(self).rooms@),
            forall|k: int| 0 <= k < final(self).rooms@.len() ==> room_inside(#[trigger] final(self).rooms@[k]),
            rooms_carved(final(self).map.tiles@, final(self).rooms@),
            only_floored(old(self).map.tiles@, final(self).map.tiles@),
            final(self).rooms@.subrange(0, old(self).rooms@.len() as int) == old(self).rooms@,
            forall|k: int|
                old(self).rooms@.len() <= k < final(self).rooms@.len() ==> room_drawn(
                    #[trigger] final(self).rooms@[k],
                ),
            forall|i: int|
                0 <= i < NUM_TILES ==> #[trigger] final(self).map.tiles@[i] == if in_new_room(
                    final(self).rooms@,
                    old(self).rooms@.len() as int,
                    i,
                ) {
                    TileType::Floor
                } else {
                    old(self).map.tiles@[i]
                },
            final(self).monster_spawns == old(self).monster_spawns,
            final(self).player_start == old(self).player_start,
            final(self).grail_start == old(self).grail_start,
            final(self).theme == old(self).theme,
    {
        let mut attempts: usize = 0;
        while self.rooms.len() < NUM_ROOMS && (attempts < MAX_ROOM_ATTEMPTS || self.rooms.len() == 0)
            invariant
                self.wf(),
                self.rooms@.len() <= NUM_ROOMS,
                rooms_disjoint(self.rooms@),
                forall|k: int| 0 <= k < self.rooms@.len() ==> room_inside(#[trigger] self.rooms@[k]),
                rooms_carved(self.map.tiles@, self.rooms@),
                only_floored(old(self).map.tiles@, self.map.tiles@),
                self.rooms@.len() >= old(self).rooms@.len(),
                self.rooms@.subrange(0, old(self).rooms@.len() as int) == old(self).rooms@,
                forall|k: int|
                    old(self).rooms@.len() <= k < self.rooms@.len() ==> room_drawn(
                        #[trigger] self.rooms@[k],
                    ),
                forall|i: int|
                    0 <= i < NUM_TILES ==> #[trigger] self.map.tiles@[i] == if in_new_room(
                        self.rooms@,
                        old(self).rooms@.len() as int,
                        i,
                    ) {
                        TileType::Floor
                    } else {
                        old(self).map.tiles@[i]
                    },
                attempts > 0 ==> self.rooms@.len() >= 1,
                attempts <= MAX_ROOM_ATTEMPTS + 1,
                self.monster_spawns == old(self).monster_spawns,
                self.player_start == old(self).player_start,
                self.grail_start == old(self).grail_start,
                self.theme == old(self).theme,
            decreases MAX_ROOM_ATTEMPTS + 1 - attempts,
        {
            let x = rng::range(rng, 1, SCREEN_WIDTH - 10);
            let y = rng::range(rng, 1, SCREEN_HEIGHT - 10);
            let w = rng::range(rng, 2, 10);
            let h = rng::range(rng, 2, 10);
            let room = Rect::with_size(x, y, w, h);
            let mut overlap = false;
            let mut k: usize = 0;
            while k < self.rooms.len()
                invariant
                    k <= self.rooms@.len(),
                    overlap == exists|j: int| 0 <= j < k && rects_intersect(#[trigger] self.rooms@[j], room),
                decreases self.rooms@.len() - k,
            {
                if self.rooms[k].intersect(&room) {
                    overlap = true;
                }
                k = k + 1;
            }
            if !overlap {
                let ghost t0 = self.map.tiles@;
                let ghost r0 = self.rooms@;
                self.carve_room(room);
                self.rooms.push(room);
                assert forall|a: int, b: int|
                    0 <= a < self.rooms@.len() && 0 <= b < self.rooms@.len() && a != b implies !rects_intersect(
                        #[trigger] self.rooms@[a],
                        #[trigger] self.rooms@[b],
                    ) by {
                    if a < r0.len() && b < r0.len() {
                        assert(r0[a] == self.rooms@[a] && r0[b] == self.rooms@[b]);
                    } else if a < r0.len() {
                        assert(r0[a] == self.rooms@[a]);
                    } else {
                        assert(r0[b] == self.rooms@[b]);
                    }
                }
                assert forall|k2: int, i: int|
                    0 <= k2 < self.rooms@.len() && 0 <= i < NUM_TILES && rect_covers(
                        #[trigger] self.rooms@[k2],
                        x_of(i),
                        y_of(i),
                    ) implies #[trigger] self.map.tiles@[i] == TileType::Floor by {
                    if k2 < r0.len() {
                        assert(r0[k2] == self.rooms@[k2]);
                        assert(t0[i] == TileType::Floor);
                    }
                }
                assert(self.rooms@.subrange(0, old(self).rooms@.len() as int) =~= old(self).rooms@);
                let ghost ol = old(self).rooms@.len() as int;
                assert forall|i: int|
                    0 <= i < NUM_TILES implies #[trigger] self.map.tiles@[i] == if in_new_room(
                        self.rooms@,
                        ol,
                        i,
                    ) {
                        TileType::Floor
                    } else {
                        old(self).map.tiles@[i]
                    } by {
                    if in_new_room(r0, ol, i) {
                        let k = choose|k: int| ol <= k < r0.len() && rect_covers(#[trigger] r0[k], x_of(i), y_of(i));
                        assert(self.rooms@[k] == r0[k]);
                    }
                    if in_new_room(self.rooms@, ol, i) && !rect_covers(room, x_of(i), y_of(i)) {
                        let k = choose|k: int| ol <= k < self.rooms@.len() && rect_covers(#[trigger] self.rooms@[k], x_of(i), y_of(i));
                        assert(k < r0.len());
                        assert(self.rooms@[k] == r0[k]);
                    }
                    if rect_covers(room, x_of(i), y_of(i)) {
                        assert(self.rooms@[r0.len() as int] == room);
                    }
                }
                assert(self.rooms@[r0.len() as int] == room);
            }
            attempts = attempts + 1;
        }
    }

    /// Connects the rooms, taken in order of their centres' x, each to the
    /// next by an L-shaped corridor whose bend is chosen at random.
    pub fn build_corridors(&mut self, rng: &mut RandomNumberGenerator)
        requires
            old(self).wf(),
            forall|k: int| 0 <= k < old(self).rooms@.len() ==> room_inside(#[trigger] old(self).rooms@[k]),
        ensures
            final(self).wf(),
            only_floored(old(self).map.tiles@, final(self).map.tiles@),
            corridors_over_sorted(final(self).map.tiles@, old(self).rooms@),
            final(self).rooms == old(self).rooms,
            final(self).monster_spawns == old(self).monster_spawns,
            final(self).player_start == old(self).player_start,
            final(self).grail_start == old(self).grail_start,
            final(self).theme == old(self).theme,
    {
        let rooms = sort_by_center_x(&self.rooms);
        let mut i: usize = 1;
        while i < rooms.len()
            invariant
                self.wf(),
                1 <= i,
                forall|k: int| 0 <= k < rooms@.len() ==> room_inside(#[trigger] rooms@[k]),
                only_floored(old(self).map.tiles@, self.map.tiles@),
                corridors_carved(self.map.tiles@, rooms@, if i <= rooms@.len() { i as int } else { rooms@.len() as int }),
                self.rooms == old(self).rooms,
                self.monster_spawns == old(self).monster_spawns,
                self.player_start == old(self).player_start,
                self.grail_start == old(self).grail_start,
                self.theme == old(self).theme,
            decreases rooms@.len() - i,
        {
            let prev = rooms[i - 1].center();
            let new = rooms[i].center();
            let ghost t0 = self.map.tiles@;
            if rng::range(rng, 0, 2) == 1 {
                self.apply_horizontal_tunnel(prev.x, new.x, prev.y);
                self.apply_vertical_tunnel(prev.y, new.y, new.x);
            } else {
                self.apply_vertical_tunnel(prev.y, new.y, prev.x);
                self.apply_horizontal_tunnel(prev.x, new.x, new.y);
            }
            proof {
                lemma_corridors_kept(t0, self.map.tiles@, rooms@, i as int);
            }
            i = i + 1;
        }
        proof {
            if rooms@.len() <= 1 {
                assert(corridors_carved(self.map.tiles@, rooms@, rooms@.len() as int));
            }
        }
    }

    /// Draws up to `NUM_MONSTERS` distinct spawn points, uniformly without
    /// replacement, among the floor tiles further than ten tiles from `start`.
    pub fn spawn_monsters(&self, start: &Point, rng: &mut RandomNumberGenerator) -> (r: Vec<Point>)
        requires
            self.wf(),
            point_in_bounds(*start),
        ensures
            spawns_drawn(self.map.tiles@, *start, r@),
    {
        let mut spawnable_tiles: Vec<Point> = Vec::new();
        let mut i: usize = 0;
        while i < NUM_TILES
            invariant
                self.wf(),
                point_in_bounds(*start),
                i <= NUM_TILES,
                spawnable_tiles@.len() <= i,
                forall|k: int|
                    0 <= k < spawnable_tiles@.len() ==> point_in_bounds(#[trigger] spawnable_tiles@[k])
                        && point_idx(spawnable_tiles@[k]) < i && spawnable(
                        self.map.tiles@,
                        *start,
                        point_idx(spawnable_tiles@[k]),
                    ),
                forall|a: int, b: int|
                    0 <= a < b < spawnable_tiles@.len() ==> point_idx(spawnable_tiles@[a]) < point_idx(
                        spawnable_tiles@[b],
                    ),
                forall|t: int|
                    0 <= t < i && spawnable(self.map.tiles@, *start, t) ==> spawnable_tiles@.contains(
                        point_of(t),
                    ),
            decreases NUM_TILES - i,
        {
            let p = self.map.index_to_point2d(i);
            let dx = p.x - start.x;
            let dy = p.y - start.y;
            proof {
                assert(p == point_of(i as int));
                assert(dist2(*start, p) == dx * dx + dy * dy) by (nonlinear_arith)
                    requires
                        dx == p.x - start.x,
                        dy == p.y - start.y,
                ;
                assert(0 <= dx * dx <= 6400) by (nonlinear_arith)
                    requires
                        -80 < dx < 80,
                ;
                assert(0 <= dy * dy <= 2500) by (nonlinear_arith)
                    requires
                        -50 < dy < 50,
                ;
            }
            if self.map.tiles[i] == TileType::Floor && dx * dx + dy * dy > 100 {
                let ghost s0 = spawnable_tiles@;
                spawnable_tiles.push(p);
                proof {
                    assert forall|t: int|
                        0 <= t < i + 1 && spawnable(self.map.tiles@, *start, t) implies spawnable_tiles@.contains(
                            point_of(t),
                        ) by {
                        if t < i {
                            let k = choose|k: int| 0 <= k < s0.len() && s0[k] == point_of(t);
                            assert(spawnable_tiles@[k] == point_of(t));
                        } else {
                            assert(spawnable_tiles@[s0.len() as int] == point_of(t));
                        }
                    }
                }
            }
            i = i + 1;
        }
        let mut spawns: Vec<Point> = Vec::new();
        let mut n: usize = 0;
        proof {
            assert forall|a: int, b: int|
                0 <= a < b < spawnable_tiles@.len() implies spawnable_tiles@[a] != spawnable_tiles@[b] by {
                assert(point_idx(spawnable_tiles@[a]) < point_idx(spawnable_tiles@[b]));
            }
            assert forall|t: int|
                0 <= t < NUM_TILES && spawnable(self.map.tiles@, *start, t) implies spawnable_tiles@.contains(
                    point_of(t),
                ) || spawns@.contains(point_of(t)) by {
            }
        }
        while n < NUM_MONSTERS
            invariant
                n <= NUM_MONSTERS,
                spawns@.len() <= n,
                spawnable_tiles@.len() <= NUM_TILES,
                spawnable_tiles@.len() == 0 || spawns@.len() == n,
                pool_inv(self.map.tiles@, *start, spawnable_tiles@, spawns@),
            decreases NUM_MONSTERS - n,
        {
            match rng::random_slice_index(rng, &spawnable_tiles) {
                Some(target) => {
                    take_spawn(&mut spawnable_tiles, &mut spawns, target, Ghost(self.map.tiles@), Ghost(*start));
                },
                None => {},
            }
            n = n + 1;
        }
        spawns
    }
}


pub const NUM_MONSTERS: usize = 50;

/// The point of tile `i`.
pub open spec fn point_of(i: int) -> Point {
    Point { x: x_of(i) as i32, y: y_of(i) as i32 }
}

/// A monster may spawn on a floor tile more than ten tiles from `start`.
pub open spec fn spawnable(tiles: Seq<TileType>, start: Point, i: int) -> bool {
    tiles[i] == TileType::Floor && dist2(start, point_of(i)) > 100
}

pub open spec fn center_x(r: Rect) -> int {
    rect_center(r).x as int
}

/// The same rooms, in order of their centres' x.
pub fn sort_by_center_x(rooms: &Vec<Rect>) -> (r: Vec<Rect>)
    requires
        forall|k: int| 0 <= k < rooms@.len() ==> room_inside(#[trigger] rooms@[k]),
    ensures
        r@.len() == rooms@.len(),
        r@.to_multiset() == rooms@.to_multiset(),
        forall|a: int, b: int| 0 <= a < b < r@.len() ==> center_x(r@[a]) <= center_x(r@[b]),
        forall|k: int| 0 <= k < r@.len() ==> rooms@.contains(#[trigger] r@[k]),
        forall|k: int| 0 <= k < r@.len() ==> room_inside(#[trigger] r@[k]),
{
    let mut r: Vec<Rect> = Vec::new();
    let mut i: usize = 0;
    assert(r@ =~= rooms@.subrange(0, 0));
    while i < rooms.len()
        invariant
            i <= rooms@.len(),
            r@.len() == i,
            r@.to_multiset() == rooms@.subrange(0, i as int).to_multiset(),
            forall|k: int| 0 <= k < rooms@.len() ==> room_inside(#[trigger] rooms@[k]),
            forall|a: int, b: int| 0 <= a < b < r@.len() ==> center_x(r@[a]) <= center_x(r@[b]),
            forall|k: int| 0 <= k < r@.len() ==> rooms@.contains(#[trigger] r@[k]),
            forall|k: int| 0 <= k < r@.len() ==> room_inside(#[trigger] r@[k]),
        decreases rooms@.len() - i,
    {
        let room = rooms[i];
        let c = room.center().x;
        let mut p: usize = 0;
        while p < r.len() && r[p].center().x <= c
            invariant
                p <= r@.len(),
                room_inside(room),
                c == center_x(room),
                forall|k: int| 0 <= k < r@.len() ==> room_inside(#[trigger] r@[k]),
                forall|k: int| 0 <= k < p ==> center_x(#[trigger] r@[k]) <= c,
            decreases r@.len() - p,
        {
            p = p + 1;
        }
        let ghost r0 = r@;
        r.insert(p, room);
        proof {
            assert(rooms@[i as int] == room);
            vstd::seq_lib::to_multiset_insert(r0, p as int, room);
            assert(rooms@.subrange(0, i + 1) =~= rooms@.subrange(0, i as int).push(room));
            vstd::seq_lib::to_multiset_build(rooms@.subrange(0, i as int), room);
            assert forall|a: int, b: int| 0 <= a < b < r@.len() implies center_x(r@[a]) <= center_x(r@[b]) by {
                if p < r0.len() {
                    assert(center_x(r0[p as int]) > c);
                }
                let a0 = if a < p { a } else if a == p { -1 } else { a - 1 };
                let b0 = if b < p { b } else if b == p { -1 } else { b - 1 };
                if a0 >= 0 && b0 >= 0 {
                    assert(r@[a] == r0[a0] && r@[b] == r0[b0]);
                } else if a0 >= 0 {
                    assert(r@[a] == r0[a0]);
                } else if b0 >= 0 {
                    assert(r@[b] == r0[b0]);
                    assert(center_x(r0[p as int]) <= center_x(r0[b0]));
                }
            }
            assert forall|k: int| 0 <= k < r@.len() implies rooms@.contains(#[trigger] r@[k]) && room_inside(r@[k]) by {
                if k < p {
                    assert(r@[k] == r0[k]);
                } else if k > p {
                    assert(r@[k] == r0[k - 1]);
                }
            }
        }
        i = i + 1;
    }
    assert(rooms@.subrange(0, rooms@.len() as int) =~= rooms@);
    r
}


/// What holds of the candidate pool and the spawns drawn from it.
pub open spec fn pool_inv(tiles: Seq<TileType>, start: Point, cands: Seq<Point>, spawns: Seq<Point>) -> bool {
    &&& forall|k: int|
        0 <= k < cands.len() ==> point_in_bounds(#[trigger] cands[k]) && spawnable(
            tiles,
            start,
            point_idx(cands[k]),
        )
    &&& forall|k: int|
        0 <= k < spawns.len() ==> point_in_bounds(#[trigger] spawns[k]) && spawnable(
            tiles,
            start,
            point_idx(spawns[k]),
        )
    &&& forall|a: int, b: int| 0 <= a < b < cands.len() ==> cands[a] != cands[b]
    &&& forall|a: int, b: int| 0 <= a < b < spawns.len() ==> spawns[a] != spawns[b]
    &&& forall|a: int, b: int|
        0 <= a < spawns.len() && 0 <= b < cands.len() ==> spawns[a] != cands[b]
    &&& forall|t: int|
        0 <= t < NUM_TILES && spawnable(tiles, start, t) ==> cands.contains(point_of(t))
            || spawns.contains(point_of(t))
}

/// Moves the candidate at `target` to the spawns.
fn take_spawn(
    cands: &mut Vec<Point>,
    spawns: &mut Vec<Point>,
    target: usize,
    Ghost(tiles): Ghost<Seq<TileType>>,
    Ghost(start): Ghost<Point>,
)
    requires
        target < old(cands)@.len(),
        pool_inv(tiles, start, old(cands)@, old(spawns)@),
    ensures
        pool_inv(tiles, start, final(cands)@, final(spawns)@),
        final(cands)@.len() == old(cands)@.len() - 1,
        final(spawns)@.len() == old(spawns)@.len() + 1,
{
    let ghost c0 = cands@;
    let ghost s0 = spawns@;
    let p = cands.remove(target);
    spawns.push(p);
    proof {
        assert forall|m: int| 0 <= m < c0.len() && m != target implies cands@.contains(c0[m]) by {
            if m < target {
                assert(cands@[m] == c0[m]);
            } else {
                assert(cands@[m - 1] == c0[m]);
            }
        }
        assert forall|t: int|
            0 <= t < NUM_TILES && spawnable(tiles, start, t) implies cands@.contains(point_of(t))
                || spawns@.contains(point_of(t)) by {
            if s0.contains(point_of(t)) {
                let k = choose|k: int| 0 <= k < s0.len() && s0[k] == point_of(t);
                assert(spawns@[k] == point_of(t));
            } else {
                let m = choose|m: int| 0 <= m < c0.len() && c0[m] == point_of(t);
                if m == target {
                    assert(spawns@[s0.len() as int] == point_of(t));
                }
            }
        }
        assert forall|a: int, b: int|
            0 <= a < spawns@.len() && 0 <= b < cands@.len() implies spawns@[a] != cands@[b] by {
            let b0 = if b < target { b } else { b + 1 };
            assert(cands@[b] == c0[b0]);
            if a < s0.len() {
                assert(spawns@[a] == s0[a]);
            }
        }
        assert forall|a: int, b: int| 0 <= a < b < spawns@.len() implies spawns@[a] != spawns@[b] by {
            if b == s0.len() {
                assert(spawns@[a] == s0[a]);
            } else {
                assert(spawns@[a] == s0[a] && spawns@[b] == s0[b]);
            }
        }
        assert forall|a: int, b: int| 0 <= a < b < cands@.len() implies cands@[a] != cands@[b] by {
            let a0 = if a < target { a } else { a + 1 };
            let b0 = if b < target { b } else { b + 1 };
            assert(cands@[a] == c0[a0]);
            assert(cands@[b] == c0[b0]);
        }
        assert forall|k: int| 0 <= k < cands@.len() implies point_in_bounds(#[trigger] cands@[k])
            && spawnable(tiles, start, point_idx(cands@[k])) by {
            let k0 = if k < target { k } else { k + 1 };
            assert(cands@[k] == c0[k0]);
        }
        assert forall|k: int| 0 <= k < spawns@.len() implies point_in_bounds(#[trigger] spawns@[k])
            && spawnable(tiles, start, point_idx(spawns@[k])) by {
            if k < s0.len() {
                assert(spawns@[k] == s0[k]);
            }
        }
    }
}


/// What `spawn_monsters` draws: at most `NUM_MONSTERS` distinct spawnable
/// points, and every spawnable point when there are fewer.
pub open spec fn spawns_drawn(tiles: Seq<TileType>, start: Point, r: Seq<Point>) -> bool {
    &&& r.len() <= NUM_MONSTERS
    &&& forall|k: int|
        0 <= k < r.len() ==> point_in_bounds(#[trigger] r[k]) && spawnable(tiles, start, point_idx(r[k]))
    &&& forall|a: int, b: int| 0 <= a < b < r.len() ==> r[a] != r[b]
    &&& r.len() < NUM_MONSTERS ==> forall|i: int|
        0 <= i < NUM_TILES && spawnable(tiles, start, i) ==> r.contains(point_of(i))
}

/// The rooms, ordered by their centres' x, are each joined to the next by
/// an L-shaped corridor.
pub open spec fn corridors_over_sorted(tiles: Seq<TileType>, rooms: Seq<Rect>) -> bool {
    exists|rs: Seq<Rect>|
        {
            &&& rs.len() == rooms.len()
            &&& rs.to_multiset() == rooms.to_multiset()
            &&& forall|a: int, b: int| 0 <= a < b < rs.len() ==> center_x(rs[a]) <= center_x(rs[b])
            &&& #[trigger] corridors_carved(tiles, rs, rs.len() as int)
        }
}

/// Every tile of row `y` between `x1` and `x2` is floor.
pub open spec fn row_floored(t: Seq<TileType>, x1: int, x2: int, y: int) -> bool {
    forall|i: int|
        0 <= i < NUM_TILES && y_of(i) == y && (x1 <= x_of(i) <= x2 || x2 <= x_of(i) <= x1)
            ==> #[trigger] t[i] == TileType::Floor
}

/// Every tile of column `x` between `y1` and `y2` is floor.
pub open spec fn column_floored(t: Seq<TileType>, y1: int, y2: int, x: int) -> bool {
    forall|i: int|
        0 <= i < NUM_TILES && x_of(i) == x && (y1 <= y_of(i) <= y2 || y2 <= y_of(i) <= y1)
            ==> #[trigger] t[i] == TileType::Floor
}

/// An L-shaped corridor joins `a` and `b`, bending at `(b.x, a.y)` or at
/// `(a.x, b.y)`.
pub open spec fn corridor_between(t: Seq<TileType>, a: Point, b: Point) -> bool {
    (row_floored(t, a.x as int, b.x as int, a.y as int) && column_floored(t, a.y as int, b.y as int, b.x as int))
        || (column_floored(t, a.y as int, b.y as int, a.x as int) && row_floored(t, a.x as int, b.x as int, b.y as int))
}

/// Each of the first `n` rooms is joined to the one before it.
pub open spec fn corridors_carved(t: Seq<TileType>, rs: Seq<Rect>, n: int) -> bool {
    forall|k: int| 1 <= k < n ==> #[trigger] corridor_between(t, rect_center(rs[k - 1]), rect_center(rs[k]))
}

/// Flooring more tiles keeps the corridors already there, and the latest
/// pair of tunnels adds the corridor of room `i`.
proof fn lemma_corridors_kept(before: Seq<TileType>, after: Seq<TileType>, rs: Seq<Rect>, i: int)
    requires
        1 <= i < rs.len(),
        only_floored(before, after),
        corridors_carved(before, rs, i),
        corridor_between(after, rect_center(rs[i - 1]), rect_center(rs[i])),
    ensures
        corridors_carved(after, rs, i + 1),
{
    assert forall|k: int| 1 <= k < i + 1 implies #[trigger] corridor_between(after, rect_center(rs[k - 1]), rect_center(rs[k])) by {
        if k < i {
            let a = rect_center(rs[k - 1]);
            let b = rect_center(rs[k]);
            assert(corridor_between(before, a, b));
            if row_floored(before, a.x as int, b.x as int, a.y as int) && column_floored(before, a.y as int, b.y as int, b.x as int) {
                assert(row_floored(after, a.x as int, b.x as int, a.y as int));
                assert(column_floored(after, a.y as int, b.y as int, b.x as int));
            } else {
                assert(column_floored(after, a.y as int, b.y as int, a.x as int));
                assert(row_floored(after, a.x as int, b.x as int, b.y as int));
            }
        }
    }
}

} // verus!
