use vstd::prelude::*;
use crate::map::{Grid, TileType, NUM_TILES, SCREEN_WIDTH, walkable, x_of};

verus! {

/// Search depth used by the map builder.
pub const MAX_DEPTH: u32 = 1024;

/// Tiles `i` and `j` are 4-connected neighbours on the grid.
pub open spec fn adjacent(i: int, j: int) -> bool {
    &&& 0 <= i < NUM_TILES
    &&& 0 <= j < NUM_TILES
    &&& {
        ||| (j == i + 1 && x_of(j) != 0)
        ||| (i == j + 1 && x_of(i) != 0)
        ||| j == i + SCREEN_WIDTH
        ||| i == j + SCREEN_WIDTH
    }
}

pub open spec fn is_seed(seeds: Seq<usize>, i: int) -> bool {
    exists|k: int| 0 <= k < seeds.len() && seeds[k] == i
}

pub open spec fn seeds_valid(seeds: Seq<usize>) -> bool {
    forall|k: int| 0 <= k < seeds.len() ==> seeds[k] < NUM_TILES
}

/// Every finite entry other than a seed's lies on a walkable tile next to
/// an entry exactly one step closer.
pub open spec fn field_sound(tiles: Seq<TileType>, d: Seq<Option<u32>>) -> bool {
    forall|i: int|
        #![trigger d[i]]
        0 <= i < NUM_TILES && d[i] is Some && d[i].unwrap() > 0 ==> walkable(tiles[i]) && exists|
            n: int,
        | adjacent(n, i) && d[n] == Some((d[i].unwrap() - 1) as u32)
}

/// Every finite entry below `lim` reaches each walkable neighbour in one step.
pub open spec fn field_complete_below(tiles: Seq<TileType>, d: Seq<Option<u32>>, lim: int) -> bool {
    forall|i: int, j: int|
        #![trigger adjacent(i, j), d[i], d[j]]
        adjacent(i, j) && d[i] is Some && d[i].unwrap() < lim && walkable(tiles[j]) ==> d[j] is Some
            && d[j].unwrap() <= d[i].unwrap() + 1
}

pub open spec fn field_seeded(seeds: Seq<usize>, d: Seq<Option<u32>>) -> bool {
    &&& forall|k: int| 0 <= k < seeds.len() ==> d[seeds[k] as int] == Some(0u32)
    &&& forall|i: int| 0 <= i < NUM_TILES && d[i] == Some(0u32) ==> is_seed(seeds, i)
}

pub open spec fn field_bounded(d: Seq<Option<u32>>, lim: int) -> bool {
    forall|i: int| 0 <= i < NUM_TILES && d[i] is Some ==> d[i].unwrap() <= lim
}

/// `d` is the breadth-first distance field of `tiles` from `seeds`, expanded
/// no further than `max_depth` steps; `None` marks a tile not reached.
#[verifier::opaque]
pub open spec fn is_distance_field(
    tiles: Seq<TileType>,
    seeds: Seq<usize>,
    max_depth: int,
    d: Seq<Option<u32>>,
) -> bool {
    &&& d.len() == NUM_TILES
    &&& field_seeded(seeds, d)
    &&& field_bounded(d, max_depth)
    &&& field_sound(tiles, d)
    &&& field_complete_below(tiles, d, max_depth)
}

pub open spec fn lists_exactly(v: Seq<usize>, d: Seq<Option<u32>>, depth: int) -> bool {
    &&& forall|m: int| 0 <= m < v.len() ==> v[m] < NUM_TILES && d[v[m] as int] == Some(depth as u32)
    &&& forall|i: int|
        0 <= i < NUM_TILES && d[i] == Some(depth as u32) ==> exists|m: int|
            0 <= m < v.len() && v[m] == i
}

spec fn layer_inv(
    tiles: Seq<TileType>,
    seeds: Seq<usize>,
    d: Seq<Option<u32>>,
    frontier: Seq<usize>,
    next: Seq<usize>,
    depth: int,
) -> bool {
    &&& d.len() == NUM_TILES
    &&& seeds_valid(seeds)
    &&& 0 <= depth < u32::MAX
    &&& field_seeded(seeds, d)
    &&& field_bounded(d, depth + 1)
    &&& field_sound(tiles, d)
    &&& lists_exactly(frontier, d, depth)
    &&& lists_exactly(next, d, depth + 1)
    &&& field_complete_below(tiles, d, depth)
}

spec fn grows(old_d: Seq<Option<u32>>, d: Seq<Option<u32>>) -> bool {
    forall|t: int| 0 <= t < NUM_TILES && old_d[t] is Some ==> d[t] == old_d[t]
}

/// Gives tile `j` distance `depth + 1` when it is walkable and not yet reached.
fn visit(
    grid: &Grid,
    d: &mut Vec<Option<u32>>,
    next: &mut Vec<usize>,
    i: usize,
    j: usize,
    depth: u32,
    Ghost(seeds): Ghost<Seq<usize>>,
    Ghost(frontier): Ghost<Seq<usize>>,
)
    requires
        grid.wf(),
        layer_inv(grid.tiles@, seeds, old(d)@, frontier, old(next)@, depth as int),
        adjacent(i as int, j as int),
        old(d)@[i as int] == Some(depth),
    ensures
        layer_inv(grid.tiles@, seeds, final(d)@, frontier, final(next)@, depth as int),
        grows(old(d)@, final(d)@),
        walkable(grid.tiles@[j as int]) ==> final(d)@[j as int] is Some,
{
    if grid.tiles[j] != TileType::Wall && d[j].is_none() {
        let ghost d0 = d@;
        let ghost n0 = next@;
        d.set(j, Some(depth + 1));
        next.push(j);
        proof {
            assert forall|t: int|
                0 <= t < NUM_TILES && d@[t] is Some && d@[t].unwrap() > 0 implies walkable(
                    grid.tiles@[t],
                ) && exists|n: int| adjacent(n, t) && d@[n] == Some((d@[t].unwrap() - 1) as u32) by {
                if t == j {
                    assert(adjacent(i as int, t) && d@[i as int] == Some(depth));
                } else {
                    assert(d0[t] is Some);
                    let n = choose|n: int| adjacent(n, t) && d0[n] == Some((d0[t].unwrap() - 1) as u32);
                    assert(d@[n] == d0[n]);
                }
            }
            assert forall|t: int|
                0 <= t < NUM_TILES && d@[t] == Some((depth + 1) as u32) implies exists|m: int|
                    0 <= m < next@.len() && next@[m] == t by {
                if t == j {
                    assert(next@[n0.len() as int] == t);
                } else {
                    let m = choose|m: int| 0 <= m < n0.len() && n0[m] == t;
                    assert(next@[m] == t);
                }
            }
            assert forall|t: int|
                0 <= t < NUM_TILES && d@[t] == Some(depth as u32) implies exists|m: int|
                    0 <= m < frontier.len() && frontier[m] == t by {
                assert(d0[t] == d@[t]);
            }
            assert forall|a: int, b: int|
                adjacent(a, b) && d@[a] is Some && d@[a].unwrap() < depth && walkable(grid.tiles@[b])
                    implies d@[b] is Some && d@[b].unwrap() <= d@[a].unwrap() + 1 by {
                assert(d0[a] == d@[a]);
                assert(d0[b] is Some);
            }
            assert forall|t: int| 0 <= t < NUM_TILES && d@[t] == Some(0u32) implies is_seed(seeds, t) by {
                assert(d0[t] == d@[t]);
            }
            assert forall|m: int| 0 <= m < seeds.len() implies d@[seeds[m] as int] == Some(0u32) by {
                assert(d0[seeds[m] as int] == Some(0u32));
            }
            assert forall|m: int| 0 <= m < frontier.len() implies frontier[m] < NUM_TILES
                && d@[frontier[m] as int] == Some(depth as u32) by {
                assert(d0[frontier[m] as int] == Some(depth as u32));
            }
            assert forall|m: int| 0 <= m < next@.len() implies next@[m] < NUM_TILES
                && d@[next@[m] as int] == Some((depth + 1) as u32) by {
                if m < n0.len() {
                    assert(d0[n0[m] as int] == Some((depth + 1) as u32));
                }
            }
        }
    }
}

/// Visits the four neighbours of frontier tile `i`.
fn expand(
    grid: &Grid,
    d: &mut Vec<Option<u32>>,
    next: &mut Vec<usize>,
    i: usize,
    depth: u32,
    Ghost(seeds): Ghost<Seq<usize>>,
    Ghost(frontier): Ghost<Seq<usize>>,
)
    requires
        grid.wf(),
        layer_inv(grid.tiles@, seeds, old(d)@, frontier, old(next)@, depth as int),
        i < NUM_TILES,
        old(d)@[i as int] == Some(depth),
    ensures
        layer_inv(grid.tiles@, seeds, final(d)@, frontier, final(next)@, depth as int),
        grows(old(d)@, final(d)@),
        forall|j: int| #[trigger] adjacent(i as int, j) && walkable(grid.tiles@[j]) ==> final(d)@[j] is Some,
{
    let ghost d0 = d@;
    if i % 80 != 0 {
        visit(grid, d, next, i, i - 1, depth, Ghost(seeds), Ghost(frontier));
    }
    let ghost d1 = d@;
    if i + 1 < NUM_TILES && (i + 1) % 80 != 0 {
        visit(grid, d, next, i, i + 1, depth, Ghost(seeds), Ghost(frontier));
    }
    let ghost d2 = d@;
    if i >= 80 {
        visit(grid, d, next, i, i - 80, depth, Ghost(seeds), Ghost(frontier));
    }
    let ghost d3 = d@;
    if i + 80 < NUM_TILES {
        visit(grid, d, next, i, i + 80, depth, Ghost(seeds), Ghost(frontier));
    }
    assert forall|j: int| #[trigger] adjacent(i as int, j) && walkable(grid.tiles@[j]) implies d@[j] is Some by {
        if j == i - 1 {
            assert(d1[j] is Some);
        } else if j == i + 1 {
            assert(d2[j] is Some);
        } else if j == i - 80 {
            assert(d3[j] is Some);
        }
    }
}

/// Multi-source breadth-first distances over walkable tiles, 4-connected,
/// with unit step cost. Seeds sit at distance 0; tiles further than
/// `max_depth` steps, or cut off by walls, stay `None`.
pub fn distance_field(grid: &Grid, seeds: &Vec<usize>, max_depth: u32) -> (d: Vec<Option<u32>>)
    requires
        grid.wf(),
        seeds_valid(seeds@),
        max_depth < u32::MAX,
    ensures
        is_distance_field(grid.tiles@, seeds@, max_depth as int, d@),
{
    let mut d: Vec<Option<u32>> = vec![None; NUM_TILES];
    let mut frontier: Vec<usize> = Vec::new();
    let mut k: usize = 0;
    while k < seeds.len()
        invariant
            d@.len() == NUM_TILES,
            seeds_valid(seeds@),
            k <= seeds@.len(),
            forall|m: int| 0 <= m < k ==> d@[seeds@[m] as int] == Some(0u32),
            forall|i: int|
                0 <= i < NUM_TILES && d@[i] is Some ==> d@[i] == Some(0u32) && exists|m: int|
                    0 <= m < k && seeds@[m] == i,
            lists_exactly(frontier@, d@, 0),
        decreases seeds@.len() - k,
    {
        let s = seeds[k];
        if d[s].is_none() {
            let ghost f0 = frontier@;
            d.set(s, Some(0));
            frontier.push(s);
            assert forall|i: int|
                0 <= i < NUM_TILES && d@[i] == Some(0u32) implies exists|m: int|
                    0 <= m < frontier@.len() && frontier@[m] == i by {
                if i == s {
                    assert(frontier@[f0.len() as int] == i);
                } else {
                    let m = choose|m: int| 0 <= m < f0.len() && f0[m] == i;
                    assert(frontier@[m] == i);
                }
            }
        }
        k = k + 1;
    }
    let mut depth: u32 = 0;
    while frontier.len() > 0 && depth < max_depth
        invariant
            grid.wf(),
            max_depth < u32::MAX,
            depth <= max_depth,
            seeds_valid(seeds@),
            d@.len() == NUM_TILES,
            field_seeded(seeds@, d@),
            field_bounded(d@, depth as int),
            field_sound(grid.tiles@, d@),
            lists_exactly(frontier@, d@, depth as int),
            field_complete_below(grid.tiles@, d@, depth as int),
        decreases max_depth - depth,
    {
        let mut next: Vec<usize> = Vec::new();
        let mut m: usize = 0;
        while m < frontier.len()
            invariant
                grid.wf(),
                depth < max_depth < u32::MAX,
                m <= frontier@.len(),
                layer_inv(grid.tiles@, seeds@, d@, frontier@, next@, depth as int),
                forall|p: int, j: int|
                    0 <= p < m && #[trigger] adjacent(frontier@[p] as int, j) && walkable(
                        grid.tiles@[j],
                    ) ==> d@[j] is Some,
            decreases frontier@.len() - m,
        {
            let i = frontier[m];
            let ghost d0 = d@;
            expand(grid, &mut d, &mut next, i, depth, Ghost(seeds@), Ghost(frontier@));
            assert forall|p: int, j: int|
                0 <= p < m + 1 && #[trigger] adjacent(frontier@[p] as int, j) && walkable(
                    grid.tiles@[j],
                ) implies d@[j] is Some by {
                if p < m {
                    assert(d0[j] is Some);
                } else {
                    assert(adjacent(i as int, j));
                }
            }
            m = m + 1;
        }
        proof {
            assert forall|a: int, b: int|
                adjacent(a, b) && d@[a] is Some && d@[a].unwrap() < depth + 1 && walkable(
                    grid.tiles@[b],
                ) implies d@[b] is Some && d@[b].unwrap() <= d@[a].unwrap() + 1 by {
                if d@[a].unwrap() == depth {
                    let p = choose|p: int| 0 <= p < frontier@.len() && frontier@[p] == a;
                    assert(adjacent(frontier@[p] as int, b));
                }
            }
        }
        frontier = next;
        depth = depth + 1;
    }
    proof {
        reveal(is_distance_field);
        if frontier@.len() == 0 {
            assert forall|i: int| 0 <= i < NUM_TILES && d@[i] is Some implies d@[i].unwrap() < depth by {
                if d@[i].unwrap() == depth {
                    assert(exists|m: int| 0 <= m < frontier@.len() && frontier@[m] == i);
                }
            }
        }
    }
    d
}

/// A field has its length, and every seed at distance 0.
pub proof fn lemma_field_basics(
    tiles: Seq<TileType>,
    seeds: Seq<usize>,
    max_depth: int,
    d: Seq<Option<u32>>,
)
    requires
        is_distance_field(tiles, seeds, max_depth, d),
    ensures
        d.len() == NUM_TILES,
        forall|k: int| 0 <= k < seeds.len() ==> d[#[trigger] seeds[k] as int] == Some(0u32),
        forall|i: int| 0 <= i < NUM_TILES && d[i] == Some(0u32) ==> is_seed(seeds, i),
{
    reveal(is_distance_field);
}

/// One step of a field: a walkable neighbour of an entry below the depth
/// limit is at most one further.
pub proof fn lemma_field_step(
    tiles: Seq<TileType>,
    seeds: Seq<usize>,
    max_depth: int,
    d: Seq<Option<u32>>,
    a: int,
    b: int,
)
    requires
        is_distance_field(tiles, seeds, max_depth, d),
        adjacent(a, b),
        d[a] is Some,
        d[a].unwrap() < max_depth,
        walkable(tiles[b]),
    ensures
        d[b] is Some,
        d[b].unwrap() <= d[a].unwrap() + 1,
{
    reveal(is_distance_field);
}

/// A reached entry other than a seed lies on a walkable tile next to an
/// entry one step closer.
pub proof fn lemma_field_back(
    tiles: Seq<TileType>,
    seeds: Seq<usize>,
    max_depth: int,
    d: Seq<Option<u32>>,
    i: int,
) -> (n: int)
    requires
        is_distance_field(tiles, seeds, max_depth, d),
        0 <= i < NUM_TILES,
        d[i] is Some,
        d[i].unwrap() > 0,
    ensures
        walkable(tiles[i]),
        adjacent(n, i),
        d[n] == Some((d[i].unwrap() - 1) as u32),
        d[i].unwrap() <= max_depth,
{
    reveal(is_distance_field);
    choose|n: int| adjacent(n, i) && d[n] == Some((d[i].unwrap() - 1) as u32)
}

} // verus!
