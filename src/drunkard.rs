use vstd::prelude::*;
use bracket_lib::random::RandomNumberGenerator;
use crate::distance::{distance_field, is_distance_field, field_seeded, is_seed, MAX_DEPTH};
use crate::geometry::Point;
use crate::map::{Grid, TileType, NUM_TILES, SCREEN_WIDTH, SCREEN_HEIGHT, walkable, in_bounds_xy, x_of};
use crate::map_builder::{MapBuilder, spawns_drawn, only_floored, point_idx, point_in_bounds, is_most_distant};
use crate::rng;

verus! {

/// Steps a walker may take after its first.
pub const STAGGER_DISTANCE: usize = 400;
/// A third of the grid.
pub const DESIRED_FLOOR_TILES: usize = 1333;
/// Walks tried before the architect settles for fewer floor tiles.
pub const MAX_WALKS: usize = 2000;

/// Carves a cave with random walks that all stay connected to the centre.
pub struct DrunkardWalkArchitect {}

/// Number of floor tiles among the first `n`.
pub open spec fn floor_count(t: Seq<TileType>, n: int) -> int
    decreases n,
{
    if n <= 0 {
        0
    } else {
        floor_count(t, n - 1) + if t[n - 1] == TileType::Floor {
            1int
        } else {
            0int
        }
    }
}

/// Every walkable tile has a finite distance from `seed`.
pub open spec fn all_reachable(t: Seq<TileType>, seed: int) -> bool {
    forall|d: Seq<Option<u32>>|
        #![trigger is_distance_field(t, seq![seed as usize], MAX_DEPTH as int, d)]
        is_distance_field(t, seq![seed as usize], MAX_DEPTH as int, d) ==> forall|i: int|
            0 <= i < NUM_TILES && walkable(t[i]) ==> #[trigger] d[i] is Some
}

/// `after` is `before` with every tile the field `d` did not reach walled up.
pub open spec fn pruned_by(before: Seq<TileType>, d: Seq<Option<u32>>, after: Seq<TileType>) -> bool {
    forall|i: int|
        0 <= i < NUM_TILES ==> #[trigger] after[i] == if d[i] is None {
            TileType::Wall
        } else {
            before[i]
        }
}

/// A tile reached before pruning is reached afterwards, no further away.
proof fn lemma_prune_keeps_distance(
    before: Seq<TileType>,
    after: Seq<TileType>,
    seeds: Seq<usize>,
    d_old: Seq<Option<u32>>,
    d_new: Seq<Option<u32>>,
    i: int,
)
    requires
        is_distance_field(before, seeds, MAX_DEPTH as int, d_old),
        is_distance_field(after, seeds, MAX_DEPTH as int, d_new),
        pruned_by(before, d_old, after),
        0 <= i < NUM_TILES,
        d_old[i] is Some,
    ensures
        d_new[i] is Some,
        d_new[i].unwrap() <= d_old[i].unwrap(),
    decreases d_old[i].unwrap(),
{
    reveal(is_distance_field);
    if d_old[i].unwrap() == 0 {
        assert(is_seed(seeds, i));
        let k = choose|k: int| 0 <= k < seeds.len() && seeds[k] == i;
        assert(d_new[seeds[k] as int] == Some(0u32));
    } else {
        let n = choose|n: int|
            crate::distance::adjacent(n, i) && d_old[n] == Some((d_old[i].unwrap() - 1) as u32);
        lemma_prune_keeps_distance(before, after, seeds, d_old, d_new, n);
        assert(after[i] == before[i]);
    }
}

/// Points `a` and `b` are 4-neighbours.
pub open spec fn step(a: Point, b: Point) -> bool {
    ||| (b.x == a.x + 1 && b.y == a.y)
    ||| (b.x == a.x - 1 && b.y == a.y)
    ||| (b.x == a.x && b.y == a.y + 1)
    ||| (b.x == a.x && b.y == a.y - 1)
}

/// A walker's path from `start`: on the grid, one 4-neighbour step at a
/// time, ending after `STAGGER_DISTANCE + 1` tiles or where the next step
/// leaves the grid.
pub open spec fn walk_path(path: Seq<Point>, start: Point) -> bool {
    &&& 1 <= path.len() <= STAGGER_DISTANCE + 1
    &&& path[0] == start
    &&& forall|k: int| 0 <= k < path.len() ==> point_in_bounds(#[trigger] path[k])
    &&& forall|k: int| 0 <= k < path.len() - 1 ==> #[trigger] step(path[k], path[k + 1])
    &&& path.len() == STAGGER_DISTANCE + 1 || exists|q: Point|
        #[trigger] step(path.last(), q) && !point_in_bounds(q)
}

/// Tile `i` lies on the path.
pub open spec fn on_path(path: Seq<Point>, i: int) -> bool {
    exists|k: int| 0 <= k < path.len() && point_idx(#[trigger] path[k]) == i
}

/// `after` is `before` with the path's tiles floored.
pub open spec fn carved_along(before: Seq<TileType>, after: Seq<TileType>, path: Seq<Point>) -> bool {
    forall|i: int|
        0 <= i < NUM_TILES ==> #[trigger] after[i] == if on_path(path, i) {
            TileType::Floor
        } else {
            before[i]
        }
}

/// Walling up what the distance field from `seed` does not reach leaves a
/// grid whose walkable tiles are all reachable from `seed`.
pub proof fn lemma_pruned_grid_connected(
    before: Seq<TileType>,
    after: Seq<TileType>,
    seed: int,
    d_old: Seq<Option<u32>>,
)
    requires
        0 <= seed < NUM_TILES,
        before.len() == NUM_TILES,
        after.len() == NUM_TILES,
        is_distance_field(before, seq![seed as usize], MAX_DEPTH as int, d_old),
        pruned_by(before, d_old, after),
    ensures
        all_reachable(after, seed),
{
    assert forall|d: Seq<Option<u32>>|
        #[trigger] is_distance_field(after, seq![seed as usize], MAX_DEPTH as int, d) implies forall|i: int|
        0 <= i < NUM_TILES && walkable(after[i]) ==> #[trigger] d[i] is Some by {
        assert forall|i: int| 0 <= i < NUM_TILES && walkable(after[i]) implies #[trigger] d[i] is Some by {
            assert(d_old[i] is Some);
            lemma_prune_keeps_distance(before, after, seq![seed as usize], d_old, d, i);
        }
    }
}

/// Walls up every tile that no walkable path joins to `seed`.
pub fn prune_unreachable(map: &mut Grid, seed: usize)
    requires
        old(map).wf(),
        seed < NUM_TILES,
    ensures
        final(map).wf(),
        final(map).revealed_tiles == old(map).revealed_tiles,
        exists|d: Seq<Option<u32>>|
            is_distance_field(old(map).tiles@, seq![seed], MAX_DEPTH as int, d) && pruned_by(
                old(map).tiles@,
                d,
                final(map).tiles@,
            ),
        final(map).tiles@[seed as int] == old(map).tiles@[seed as int],
        all_reachable(final(map).tiles@, seed as int),
{
    let seeds = vec![seed];
    let d = distance_field(map, &seeds, MAX_DEPTH);
    assert(seeds@ =~= seq![seed]);
    let ghost before = map.tiles@;
    proof {
        crate::distance::lemma_field_basics(before, seeds@, MAX_DEPTH as int, d@);
    }
    let mut i: usize = 0;
    while i < NUM_TILES
        invariant
            map.wf(),
            map.revealed_tiles == old(map).revealed_tiles,
            before == old(map).tiles@,
            d@.len() == NUM_TILES,
            i <= NUM_TILES,
            forall|j: int|
                0 <= j < NUM_TILES ==> #[trigger] map.tiles@[j] == if j < i && d@[j] is None {
                    TileType::Wall
                } else {
                    before[j]
                },
        decreases NUM_TILES - i,
    {
        if d[i].is_none() {
            map.tiles.set(i, TileType::Wall);
        }
        i = i + 1;
    }
    proof {
        assert(seeds@[0] == seed);
        assert(d@[seed as int] == Some(0u32));
        lemma_pruned_grid_connected(before, map.tiles@, seed as int, d@);
    }
}

/// Number of floor tiles on the grid.
pub fn count_floor(map: &Grid) -> (r: usize)
    requires
        map.wf(),
    ensures
        r == floor_count(map.tiles@, NUM_TILES as int),
{
    let mut r: usize = 0;
    let mut i: usize = 0;
    while i < NUM_TILES
        invariant
            map.wf(),
            i <= NUM_TILES,
            r == floor_count(map.tiles@, i as int),
            r <= i,
        decreases NUM_TILES - i,
    {
        if map.tiles[i] == TileType::Floor {
            r = r + 1;
        }
        i = i + 1;
    }
    r
}

impl DrunkardWalkArchitect {
    /// A walker floors its tile, then steps in a random cardinal direction,
    /// until it leaves the grid or has gone `STAGGER_DISTANCE` steps.
    pub fn drunkard(&mut self, start: &Point, rng: &mut RandomNumberGenerator, map: &mut Grid)
        requires
            old(map).wf(),
            point_in_bounds(*start),
        ensures
            final(map).wf(),
            final(map).revealed_tiles == old(map).revealed_tiles,
            exists|path: Seq<Point>|
                #[trigger] walk_path(path, *start) && carved_along(old(map).tiles@, final(map).tiles@, path),
    {
        let mut pos = *start;
        let mut staggered_distance: usize = 0;
        let mut walking = true;
        let ghost mut path: Seq<Point> = Seq::empty();
        while walking
            invariant
                map.wf(),
                map.revealed_tiles == old(map).revealed_tiles,
                point_in_bounds(*start),
                carved_along(old(map).tiles@, map.tiles@, path),
                forall|k: int| 0 <= k < path.len() ==> point_in_bounds(#[trigger] path[k]),
                forall|k: int| 0 <= k < path.len() - 1 ==> #[trigger] step(path[k], path[k + 1]),
                path.len() > 0 ==> path[0] == *start,
                walking ==> {
                    &&& path.len() == staggered_distance
                    &&& staggered_distance <= STAGGER_DISTANCE
                    &&& point_in_bounds(pos)
                    &&& path.len() == 0 ==> pos == *start
                    &&& path.len() > 0 ==> step(path.last(), pos)
                },
                !walking ==> walk_path(path, *start),
            decreases STAGGER_DISTANCE + 2 - staggered_distance - (if walking { 0int } else { 1int }),
        {
            let idx = map.point2d_to_index(pos);
            let ghost t0 = map.tiles@;
            let ghost p0 = path;
            map.tiles.set(idx, TileType::Floor);
            proof {
                path = path.push(pos);
                assert forall|i: int| 0 <= i < NUM_TILES implies #[trigger] map.tiles@[i] == if on_path(path, i) {
                    TileType::Floor
                } else {
                    old(map).tiles@[i]
                } by {
                    if on_path(p0, i) {
                        let k = choose|k: int| 0 <= k < p0.len() && point_idx(#[trigger] p0[k]) == i;
                        assert(path[k] == p0[k]);
                    }
                    if i == idx {
                        assert(path[p0.len() as int] == pos);
                    } else if on_path(path, i) {
                        let k = choose|k: int| 0 <= k < path.len() && point_idx(#[trigger] path[k]) == i;
                        assert(k < p0.len());
                        assert(p0[k] == path[k]);
                    }
                }
                assert forall|k: int| 0 <= k < path.len() - 1 implies #[trigger] step(path[k], path[k + 1]) by {
                    if k < p0.len() - 1 {
                        assert(path[k] == p0[k] && path[k + 1] == p0[k + 1]);
                    } else {
                        assert(path[k] == p0.last());
                    }
                }
            }
            let last = pos;
            match rng::range(rng, 0, 4) {
                0 => pos.x = pos.x + 1,
                1 => pos.x = pos.x - 1,
                2 => pos.y = pos.y + 1,
                _ => pos.y = pos.y - 1,
            }
            proof {
                assert(path.last() == last);
                assert(step(last, pos));
            }
            if !map.in_bounds(pos) || staggered_distance >= STAGGER_DISTANCE {
                walking = false;
            } else {
                staggered_distance = staggered_distance + 1;
            }
        }
    }

    /// Walks from the centre, then from random points, walling up whatever
    /// the centre cannot reach after each walk, until a third of the grid
    /// is floor or `MAX_WALKS` more walks have been made.
    pub fn build(&mut self, rng: &mut RandomNumberGenerator) -> (mb: MapBuilder)
        ensures
            mb.wf(),
            mb.player_start == (Point { x: 40, y: 25 }),
            mb.map.tiles@[point_idx(mb.player_start)] == TileType::Floor,
            all_reachable(mb.map.tiles@, point_idx(mb.player_start)),
            exists|paths: Seq<Seq<Point>>|
                #[trigger] walks_carved(mb.map.tiles@, paths, mb.player_start) && paths.len()
                    <= MAX_WALKS + 1 && (floor_count(mb.map.tiles@, NUM_TILES as int)
                    >= DESIRED_FLOOR_TILES || paths.len() == MAX_WALKS + 1),
            is_most_distant(mb.map.tiles@, mb.player_start, mb.grail_start),
            spawns_drawn(mb.map.tiles@, mb.player_start, mb.monster_spawns@),
            mb.rooms@.len() == 0,
    {
        let mut mb = MapBuilder::empty();
        let center = Point::new(SCREEN_WIDTH / 2, SCREEN_HEIGHT / 2);
        let ci = mb.map.point2d_to_index(center);
        let ghost t0 = mb.map.tiles@;
        self.drunkard(&center, rng, &mut mb.map);
        let ghost first = choose|path: Seq<Point>|
            #[trigger] walk_path(path, center) && carved_along(t0, mb.map.tiles@, path);
        let ghost mut paths: Seq<Seq<Point>> = seq![first];
        proof {
            lemma_after_walk(t0, mb.map.tiles@, Seq::empty(), first, center);
            assert(seq![first] =~= Seq::<Seq<Point>>::empty().push(first));
        }
        let ghost t1 = mb.map.tiles@;
        prune_unreachable(&mut mb.map, ci);
        proof {
            lemma_after_prune(t1, mb.map.tiles@, paths, center);
        }
        let mut walks: usize = 0;
        let mut floors = count_floor(&mb.map);
        while floors < DESIRED_FLOOR_TILES && walks < MAX_WALKS
            invariant
                mb.wf(),
                mb.rooms@.len() == 0,
                ci == point_idx(center),
                center == (Point { x: 40, y: 25 }),
                point_in_bounds(center),
                mb.map.tiles@[ci as int] == TileType::Floor,
                all_reachable(mb.map.tiles@, ci as int),
                walks_carved(mb.map.tiles@, paths, center),
                paths.len() == walks + 1,
                walks <= MAX_WALKS,
                floors == floor_count(mb.map.tiles@, NUM_TILES as int),
            decreases MAX_WALKS - walks,
        {
            let x = rng::range(rng, 0, SCREEN_WIDTH);
            let y = rng::range(rng, 0, SCREEN_HEIGHT);
            let from = Point::new(x, y);
            let ghost ta = mb.map.tiles@;
            self.drunkard(&from, rng, &mut mb.map);
            proof {
                let p = choose|path: Seq<Point>|
                    #[trigger] walk_path(path, from) && carved_along(ta, mb.map.tiles@, path);
                lemma_after_walk(ta, mb.map.tiles@, paths, p, center);
                paths = paths.push(p);
            }
            let ghost tb = mb.map.tiles@;
            prune_unreachable(&mut mb.map, ci);
            proof {
                lemma_after_prune(tb, mb.map.tiles@, paths, center);
            }
            walks = walks + 1;
            floors = count_floor(&mb.map);
        }
        mb.monster_spawns = mb.spawn_monsters(&center, rng);
        mb.player_start = center;
        mb.grail_start = mb.find_most_distant();
        assert(walks_carved(mb.map.tiles@, paths, mb.player_start));
        mb
    }
}


/// The grid holds only walls and floor; every floor tile lies on one of the
/// walks, and the first walk, from `center`, is floor all along.
pub open spec fn walks_carved(t: Seq<TileType>, paths: Seq<Seq<Point>>, center: Point) -> bool {
    &&& paths.len() >= 1
    &&& walk_path(paths[0], center)
    &&& forall|k: int| 0 <= k < paths.len() ==> walk_path(#[trigger] paths[k], paths[k][0])
    &&& forall|i: int|
        0 <= i < NUM_TILES && t[i] == TileType::Floor ==> exists|k: int|
            0 <= k < paths.len() && on_path(#[trigger] paths[k], i)
    &&& forall|i: int| 0 <= i < NUM_TILES && on_path(paths[0], i) ==> #[trigger] t[i] == TileType::Floor
    &&& forall|i: int| 0 <= i < NUM_TILES ==> #[trigger] t[i] == TileType::Floor || t[i] == TileType::Wall
}

/// Tiles along a walkable path from the seed are reached, no further away
/// than their place on the path.
proof fn lemma_path_reached(t: Seq<TileType>, seed: int, d: Seq<Option<u32>>, path: Seq<Point>, k: int)
    requires
        0 <= seed < NUM_TILES,
        t.len() == NUM_TILES,
        is_distance_field(t, seq![seed as usize], MAX_DEPTH as int, d),
        1 <= path.len() <= STAGGER_DISTANCE + 1,
        point_idx(path[0]) == seed,
        forall|j: int| 0 <= j < path.len() ==> point_in_bounds(#[trigger] path[j]),
        forall|j: int| 0 <= j < path.len() - 1 ==> #[trigger] step(path[j], path[j + 1]),
        forall|j: int| 0 <= j < path.len() ==> walkable(t[point_idx(#[trigger] path[j])]),
        0 <= k < path.len(),
    ensures
        d[point_idx(path[k])] is Some,
        d[point_idx(path[k])].unwrap() <= k,
    decreases k,
{
    reveal(is_distance_field);
    if k == 0 {
        assert(seq![seed as usize][0] == seed);
    } else {
        lemma_path_reached(t, seed, d, path, k - 1);
        let a = path[k - 1];
        let b = path[k];
        assert(step(path[k - 1], path[(k - 1) + 1]));
        assert(point_in_bounds(a) && point_in_bounds(b));
        assert(x_of(point_idx(b)) == b.x && x_of(point_idx(a)) == a.x);
        assert(crate::distance::adjacent(point_idx(a), point_idx(b)));
        assert(walkable(t[point_idx(b)]));
    }
}

proof fn lemma_after_walk(
    before: Seq<TileType>,
    after: Seq<TileType>,
    paths: Seq<Seq<Point>>,
    p: Seq<Point>,
    center: Point,
)
    requires
        paths.len() == 0 ==> forall|i: int| 0 <= i < NUM_TILES ==> #[trigger] before[i] == TileType::Wall,
        paths.len() == 0 ==> walk_path(p, center),
        paths.len() > 0 ==> walks_carved(before, paths, center),
        walk_path(p, p[0]),
        carved_along(before, after, p),
    ensures
        walks_carved(after, paths.push(p), center),
{
    let ps = paths.push(p);
    assert(ps[paths.len() as int] == p);
    assert forall|k: int| 0 <= k < ps.len() implies walk_path(#[trigger] ps[k], ps[k][0]) by {
        if k < paths.len() {
            assert(ps[k] == paths[k]);
        }
    }
    assert forall|i: int|
        0 <= i < NUM_TILES && after[i] == TileType::Floor implies exists|k: int|
            0 <= k < ps.len() && on_path(#[trigger] ps[k], i) by {
        if on_path(p, i) {
            assert(on_path(ps[paths.len() as int], i));
        } else {
            assert(before[i] == TileType::Floor);
            let k = choose|k: int| 0 <= k < paths.len() && on_path(#[trigger] paths[k], i);
            assert(ps[k] == paths[k]);
        }
    }
    assert(ps[0] == if paths.len() == 0 { p } else { paths[0] });
}

proof fn lemma_after_prune(before: Seq<TileType>, after: Seq<TileType>, paths: Seq<Seq<Point>>, center: Point)
    requires
        walks_carved(before, paths, center),
        center == (Point { x: 40, y: 25 }),
        before.len() == NUM_TILES,
        exists|d: Seq<Option<u32>>|
            is_distance_field(before, seq![point_idx(center) as usize], MAX_DEPTH as int, d)
                && pruned_by(before, d, after),
    ensures
        walks_carved(after, paths, center),
{
    let d = choose|d: Seq<Option<u32>>|
        is_distance_field(before, seq![point_idx(center) as usize], MAX_DEPTH as int, d)
            && pruned_by(before, d, after);
    let first = paths[0];
    assert forall|j: int| 0 <= j < first.len() implies walkable(before[point_idx(#[trigger] first[j])]) by {
        assert(on_path(first, point_idx(first[j])));
    }
    assert forall|i: int| 0 <= i < NUM_TILES && on_path(paths[0], i) implies #[trigger] after[i] == TileType::Floor by {
        let k = choose|k: int| 0 <= k < first.len() && point_idx(#[trigger] first[k]) == i;
        lemma_path_reached(before, point_idx(center), d, first, k);
    }
    assert forall|i: int|
        0 <= i < NUM_TILES && after[i] == TileType::Floor implies exists|k: int|
            0 <= k < paths.len() && on_path(#[trigger] paths[k], i) by {
        assert(before[i] == TileType::Floor);
    }
}

} // verus!
