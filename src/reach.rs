use vstd::prelude::*;
use crate::distance::{adjacent, is_distance_field, is_seed, MAX_DEPTH, lemma_field_step, lemma_field_back, lemma_field_basics};
use crate::geometry::Rect;
use crate::map::{TileType, NUM_TILES, x_of, y_of, idx_of, walkable};
use crate::map_builder::{MapBuilder, point_idx, point_in_bounds, point_of};
use crate::prefab::{
    fortress_layout, footprint_on_grid, under, cell_index, prefab_outcome, stamped, prefab_fits,
    placement_valid,
};

verus! {

/// Cell `c` of the fortress lies on its outer ring.
pub open spec fn on_ring(c: int) -> bool {
    0 <= c < 132 && (c % 12 == 0 || c % 12 == 11 || c / 12 == 0 || c / 12 == 10)
}

/// The fortress's outer ring is all floor.
pub proof fn lemma_ring_floor(c: int)
    requires
        on_ring(c),
    ensures
        fortress_layout()[c] == '-',
{
    let l = fortress_layout();
    assert(l.len() == 132);
    if c / 12 == 0 {
        assert(l[c] == '-');
    } else if c / 12 == 10 {
        assert(l[c] == '-');
    } else if c % 12 == 0 {
        assert(l[c] == '-');
    } else {
        assert(l[c] == '-');
    }
}


/// Column of the `p`-th ring cell, going round from the top-left corner.
pub open spec fn ring_x(p: int) -> int {
    if p < 11 {
        p
    } else if p < 21 {
        11
    } else if p < 32 {
        11 - (p - 21)
    } else {
        0
    }
}

pub open spec fn ring_y(p: int) -> int {
    if p < 11 {
        0
    } else if p < 21 {
        p - 11
    } else if p < 32 {
        10
    } else {
        10 - (p - 32)
    }
}

/// The grid tile of the `p`-th ring cell of a footprint at `r`.
#[verifier::opaque]
pub open spec fn ring_tile(r: Rect, p: int) -> int {
    idx_of(r.x1 + ring_x(p), r.y1 + ring_y(p))
}

pub open spec fn ring_next(p: int) -> int {
    if p == 41 {
        0
    } else {
        p + 1
    }
}

proof fn lemma_ring_tile(r: Rect, p: int)
    requires
        footprint_on_grid(r),
        0 <= p < 42,
    ensures
        0 <= ring_tile(r, p) < NUM_TILES,
        under(r, ring_tile(r, p)),
        on_ring(cell_index(r, ring_tile(r, p))),
        adjacent(ring_tile(r, p), ring_tile(r, ring_next(p))),
        adjacent(ring_tile(r, ring_next(p)), ring_tile(r, p)),
{
    reveal(ring_tile);
    let i = ring_tile(r, p);
    let j = ring_tile(r, ring_next(p));
    assert(x_of(i) == r.x1 + ring_x(p) && y_of(i) == r.y1 + ring_y(p));
    assert(x_of(j) == r.x1 + ring_x(ring_next(p)) && y_of(j) == r.y1 + ring_y(ring_next(p)));
    assert(cell_index(r, i) == ring_y(p) * 12 + ring_x(p));
}

proof fn lemma_ring_onto(r: Rect, i: int) -> (p: int)
    requires
        footprint_on_grid(r),
        0 <= i < NUM_TILES,
        under(r, i),
        on_ring(cell_index(r, i)),
    ensures
        0 <= p < 42,
        ring_tile(r, p) == i,
{
    reveal(ring_tile);
    let cx = x_of(i) - r.x1;
    let cy = y_of(i) - r.y1;
    assert(cell_index(r, i) == cy * 12 + cx);
    assert(cell_index(r, i) % 12 == cx && cell_index(r, i) / 12 == cy);
    let p = if cy == 0 {
        cx
    } else if cx == 11 {
        11 + cy
    } else if cy == 10 {
        21 + (11 - cx)
    } else {
        32 + (10 - cy)
    };
    assert(ring_x(p) == cx && ring_y(p) == cy);
    assert(idx_of(x_of(i), y_of(i)) == i);
    p
}

/// A footprint tile next to a tile outside the footprint is on the ring.
proof fn lemma_edge_on_ring(r: Rect, n: int, i: int)
    requires
        footprint_on_grid(r),
        under(r, n),
        !under(r, i),
        adjacent(n, i) || adjacent(i, n),
    ensures
        on_ring(cell_index(r, n)),
{
    let cx = x_of(n) - r.x1;
    let cy = y_of(n) - r.y1;
    assert(cell_index(r, n) == cy * 12 + cx);
    assert(cell_index(r, n) % 12 == cx && cell_index(r, n) / 12 == cy);
}

pub open spec fn ring_prev(p: int) -> int {
    if p == 0 {
        41
    } else {
        p - 1
    }
}

pub open spec fn ring_fwd(p: int, k: int) -> int
    decreases k,
{
    if k <= 0 {
        p
    } else {
        ring_next(ring_fwd(p, k - 1))
    }
}

pub open spec fn ring_bwd(p: int, k: int) -> int
    decreases k,
{
    if k <= 0 {
        p
    } else {
        ring_prev(ring_bwd(p, k - 1))
    }
}

proof fn lemma_fwd_range(p: int, k: int)
    requires
        0 <= p < 42,
        0 <= k,
    ensures
        0 <= ring_fwd(p, k) < 42,
        0 <= ring_bwd(p, k) < 42,
        k < 42 ==> ring_fwd(p, k) == (p + k) % 42,
        k < 42 ==> ring_bwd(p, k) == (p + 42 - k) % 42,
    decreases k,
{
    if k > 0 {
        lemma_fwd_range(p, k - 1);
    }
}

/// Walking the ring forwards or backwards costs one step per cell.
proof fn lemma_ring_walk(
    t: Seq<TileType>,
    seeds: Seq<usize>,
    d: Seq<Option<u32>>,
    r: Rect,
    p0: int,
    k: int,
    v: int,
)
    requires
        footprint_on_grid(r),
        is_distance_field(t, seeds, MAX_DEPTH as int, d),
        t.len() == NUM_TILES,
        forall|j: int| 0 <= j < NUM_TILES && under(r, j) && on_ring(cell_index(r, j)) ==> #[trigger] t[j] == TileType::Floor,
        0 <= p0 < 42,
        d[ring_tile(r, p0)] is Some,
        d[ring_tile(r, p0)].unwrap() <= v,
        v + 21 < MAX_DEPTH,
        0 <= k <= 21,
    ensures
        d[ring_tile(r, ring_fwd(p0, k))] is Some,
        d[ring_tile(r, ring_fwd(p0, k))].unwrap() <= v + k,
        d[ring_tile(r, ring_bwd(p0, k))] is Some,
        d[ring_tile(r, ring_bwd(p0, k))].unwrap() <= v + k,
    decreases k,
{
    if k > 0 {
        lemma_ring_walk(t, seeds, d, r, p0, k - 1, v);
        lemma_fwd_range(p0, k - 1);
        let a = ring_fwd(p0, k - 1);
        lemma_ring_tile(r, a);
        lemma_ring_tile(r, ring_next(a));
        let ta = ring_tile(r, a);
        let tb = ring_tile(r, ring_next(a));
        assert(t[tb] == TileType::Floor);
        lemma_field_step(t, seeds, MAX_DEPTH as int, d, ta, tb);
        let b = ring_bwd(p0, k - 1);
        let c = ring_prev(b);
        assert(ring_next(c) == b);
        lemma_ring_tile(r, c);
        let tb2 = ring_tile(r, b);
        let tc = ring_tile(r, c);
        assert(t[tc] == TileType::Floor);
        lemma_field_step(t, seeds, MAX_DEPTH as int, d, tb2, tc);
    }
}

/// The least distance on the first `n` ring cells.
pub open spec fn ring_min(d: Seq<Option<u32>>, r: Rect, n: int) -> int
    decreases n,
{
    if n <= 1 {
        d[ring_tile(r, 0)].unwrap() as int
    } else {
        let a = ring_min(d, r, n - 1);
        let b = d[ring_tile(r, n - 1)].unwrap() as int;
        if b < a {
            b
        } else {
            a
        }
    }
}

proof fn lemma_ring_min(d: Seq<Option<u32>>, r: Rect, n: int) -> (p: int)
    requires
        1 <= n <= 42,
    ensures
        0 <= p < n,
        d[ring_tile(r, p)].unwrap() == ring_min(d, r, n),
        forall|q: int| 0 <= q < n ==> d[ring_tile(r, q)].unwrap() >= ring_min(d, r, n),
    decreases n,
{
    if n <= 1 {
        0
    } else {
        let p0 = lemma_ring_min(d, r, n - 1);
        if (d[ring_tile(r, n - 1)].unwrap() as int) < ring_min(d, r, n - 1) {
            n - 1
        } else {
            p0
        }
    }
}

/// What stamping the fortress on `r` leaves: the ring floor, everything
/// outside the footprint as it was, and every footprint tile reached
/// before, more than 20 steps from the seed.
pub open spec fn stamp_setting(
    before: Seq<TileType>,
    after: Seq<TileType>,
    r: Rect,
    s: int,
    d0: Seq<Option<u32>>,
    d1: Seq<Option<u32>>,
) -> bool {
    &&& footprint_on_grid(r)
    &&& before.len() == NUM_TILES
    &&& after.len() == NUM_TILES
    &&& 0 <= s < NUM_TILES
    &&& forall|j: int| 0 <= j < NUM_TILES && !under(r, j) ==> #[trigger] after[j] == before[j]
    &&& forall|j: int|
        0 <= j < NUM_TILES && under(r, j) && on_ring(cell_index(r, j)) ==> #[trigger] after[j]
            == TileType::Floor
    &&& is_distance_field(before, seq![s as usize], MAX_DEPTH as int, d0)
    &&& is_distance_field(after, seq![s as usize], MAX_DEPTH as int, d1)
    &&& forall|j: int|
        0 <= j < NUM_TILES && under(r, j) ==> #[trigger] d0[j] is Some && d0[j].unwrap() > 20
}

proof fn lemma_footprint_above_min(
    before: Seq<TileType>,
    after: Seq<TileType>,
    r: Rect,
    s: int,
    d0: Seq<Option<u32>>,
    d1: Seq<Option<u32>>,
    j: int,
)
    requires
        stamp_setting(before, after, r, s, d0, d1),
        0 <= j < NUM_TILES,
        under(r, j),
    ensures
        d0[j].unwrap() >= ring_min(d0, r, 42),
    decreases d0[j].unwrap(),
{
    assert(d0[j] is Some);
    if on_ring(cell_index(r, j)) {
        let p = lemma_ring_onto(r, j);
        let _ = lemma_ring_min(d0, r, 42);
    } else {
        let n = lemma_field_back(before, seq![s as usize], MAX_DEPTH as int, d0, j);
        if !under(r, n) {
            lemma_edge_on_ring(r, j, n);
        }
        lemma_footprint_above_min(before, after, r, s, d0, d1, n);
    }
}

proof fn lemma_below_min_kept(
    before: Seq<TileType>,
    after: Seq<TileType>,
    r: Rect,
    s: int,
    d0: Seq<Option<u32>>,
    d1: Seq<Option<u32>>,
    j: int,
)
    requires
        stamp_setting(before, after, r, s, d0, d1),
        0 <= j < NUM_TILES,
        d0[j] is Some,
        d0[j].unwrap() < ring_min(d0, r, 42),
    ensures
        !under(r, j),
        d1[j] is Some,
        d1[j].unwrap() <= d0[j].unwrap(),
    decreases d0[j].unwrap(),
{
    if under(r, j) {
        lemma_footprint_above_min(before, after, r, s, d0, d1, j);
    }
    if d0[j].unwrap() == 0 {
        lemma_field_basics(before, seq![s as usize], MAX_DEPTH as int, d0);
        lemma_field_basics(after, seq![s as usize], MAX_DEPTH as int, d1);
        assert(is_seed(seq![s as usize], j));
        assert(seq![s as usize][0] == s);
        assert(d1[seq![s as usize][0] as int] == Some(0u32));
    } else {
        let n = lemma_field_back(before, seq![s as usize], MAX_DEPTH as int, d0, j);
        lemma_below_min_kept(before, after, r, s, d0, d1, n);
        assert(after[j] == before[j]);
        lemma_field_step(after, seq![s as usize], MAX_DEPTH as int, d1, n, j);
    }
}

/// From a ring cell within `m` steps, every ring cell is within `m + 21`.
proof fn lemma_ring_any(
    t: Seq<TileType>,
    seeds: Seq<usize>,
    d: Seq<Option<u32>>,
    r: Rect,
    p: int,
    q: int,
    m: int,
)
    requires
        footprint_on_grid(r),
        is_distance_field(t, seeds, MAX_DEPTH as int, d),
        t.len() == NUM_TILES,
        forall|j: int| 0 <= j < NUM_TILES && under(r, j) && on_ring(cell_index(r, j)) ==> #[trigger] t[j] == TileType::Floor,
        0 <= p < 42,
        0 <= q < 42,
        d[ring_tile(r, p)] is Some,
        d[ring_tile(r, p)].unwrap() <= m,
        m + 21 < MAX_DEPTH,
    ensures
        d[ring_tile(r, q)] is Some,
        d[ring_tile(r, q)].unwrap() <= m + 21,
{
    let k = if q >= p { q - p } else { q - p + 42 };
    if k <= 21 {
        lemma_fwd_range(p, k);
        assert(ring_fwd(p, k) == q);
        lemma_ring_walk(t, seeds, d, r, p, k, m);
    } else {
        lemma_fwd_range(p, 42 - k);
        assert(ring_bwd(p, 42 - k) == q);
        lemma_ring_walk(t, seeds, d, r, p, 42 - k, m);
    }
}

/// The least ring distance before stamping lies above 20, and the ring
/// cell holding it is within that many steps afterwards.
proof fn lemma_ring_entry(
    before: Seq<TileType>,
    after: Seq<TileType>,
    r: Rect,
    s: int,
    d0: Seq<Option<u32>>,
    d1: Seq<Option<u32>>,
) -> (p: int)
    requires
        stamp_setting(before, after, r, s, d0, d1),
    ensures
        0 <= p < 42,
        ring_min(d0, r, 42) > 20,
        d1[ring_tile(r, p)] is Some,
        d1[ring_tile(r, p)].unwrap() <= ring_min(d0, r, 42),
{
    let p = lemma_ring_min(d0, r, 42);
    lemma_ring_tile(r, p);
    let e = ring_tile(r, p);
    assert(d0[e] is Some);
    let n = lemma_field_back(before, seq![s as usize], MAX_DEPTH as int, d0, e);
    lemma_below_min_kept(before, after, r, s, d0, d1, n);
    assert(after[e] == TileType::Floor);
    lemma_field_step(after, seq![s as usize], MAX_DEPTH as int, d1, n, e);
    p
}

/// Stamping the fortress keeps every tile outside its footprint that was
/// reached before reached afterwards, at most 21 steps further (the half
/// round of its floor ring), so whenever that stays within the depth
/// limit. The tiles lost are thus at most the footprint's own.
pub proof fn lemma_prefab_keeps_reach(
    before: Seq<TileType>,
    after: Seq<TileType>,
    r: Rect,
    s: int,
    d0: Seq<Option<u32>>,
    d1: Seq<Option<u32>>,
    i: int,
)
    requires
        stamp_setting(before, after, r, s, d0, d1),
        0 <= i < NUM_TILES,
        !under(r, i),
        d0[i] is Some,
        d0[i].unwrap() + 21 < MAX_DEPTH,
    ensures
        d1[i] is Some,
        d1[i].unwrap() <= d0[i].unwrap() + 21,
    decreases d0[i].unwrap(),
{
    let m = ring_min(d0, r, 42);
    let pe = lemma_ring_entry(before, after, r, s, d0, d1);
    if (d0[i].unwrap() as int) < m {
        lemma_below_min_kept(before, after, r, s, d0, d1, i);
    } else {
        let n = lemma_field_back(before, seq![s as usize], MAX_DEPTH as int, d0, i);
        assert(after[i] == before[i]);
        if !under(r, n) {
            lemma_prefab_keeps_reach(before, after, r, s, d0, d1, n);
        } else {
            lemma_edge_on_ring(r, n, i);
            lemma_footprint_above_min(before, after, r, s, d0, d1, n);
            let q = lemma_ring_onto(r, n);
            lemma_ring_any(after, seq![s as usize], d1, r, pe, q, m);
        }
        lemma_field_step(after, seq![s as usize], MAX_DEPTH as int, d1, n, i);
    }
}

/// Two fields of one grid from the same seeds agree where the first has
/// reached: the second reaches there too, no further.
proof fn lemma_field_within(
    t: Seq<TileType>,
    seeds: Seq<usize>,
    da: Seq<Option<u32>>,
    db: Seq<Option<u32>>,
    i: int,
)
    requires
        t.len() == NUM_TILES,
        is_distance_field(t, seeds, MAX_DEPTH as int, da),
        is_distance_field(t, seeds, MAX_DEPTH as int, db),
        0 <= i < NUM_TILES,
        da[i] is Some,
    ensures
        db[i] is Some,
        db[i].unwrap() <= da[i].unwrap(),
    decreases da[i].unwrap(),
{
    if da[i].unwrap() == 0 {
        lemma_field_basics(t, seeds, MAX_DEPTH as int, da);
        lemma_field_basics(t, seeds, MAX_DEPTH as int, db);
        assert(is_seed(seeds, i));
        let k = choose|k: int| 0 <= k < seeds.len() && seeds[k] == i;
        assert(db[seeds[k] as int] == Some(0u32));
    } else {
        let n = lemma_field_back(t, seeds, MAX_DEPTH as int, da, i);
        lemma_field_within(t, seeds, da, db, n);
        lemma_field_step(t, seeds, MAX_DEPTH as int, db, n, i);
    }
}

/// A grid has one distance field from given seeds.
proof fn lemma_field_unique(t: Seq<TileType>, seeds: Seq<usize>, da: Seq<Option<u32>>, db: Seq<Option<u32>>)
    requires
        t.len() == NUM_TILES,
        is_distance_field(t, seeds, MAX_DEPTH as int, da),
        is_distance_field(t, seeds, MAX_DEPTH as int, db),
    ensures
        forall|j: int| 0 <= j < NUM_TILES ==> #[trigger] da[j] == db[j],
{
    assert forall|j: int| 0 <= j < NUM_TILES implies #[trigger] da[j] == db[j] by {
        if da[j] is Some {
            lemma_field_within(t, seeds, da, db, j);
            lemma_field_within(t, seeds, db, da, j);
        } else if db[j] is Some {
            lemma_field_within(t, seeds, db, da, j);
        }
    }
}

/// Placing the prefab loses no reached tile outside its footprint: each
/// stays reached, at most 21 steps further, whenever that keeps it within
/// the depth limit. So the goal, which the footprint never covers, stays
/// reachable on the same terms, and the tiles lost are at most the
/// footprint's 132.
pub proof fn lemma_prefab_keeps_reachable(
    before: MapBuilder,
    after: MapBuilder,
    d0: Seq<Option<u32>>,
    d1: Seq<Option<u32>>,
    i: int,
)
    requires
        before.wf(),
        prefab_outcome(before, after),
        is_distance_field(before.map.tiles@, seq![point_idx(before.player_start) as usize], MAX_DEPTH as int, d0),
        is_distance_field(after.map.tiles@, seq![point_idx(before.player_start) as usize], MAX_DEPTH as int, d1),
        0 <= i < NUM_TILES,
        d0[i] is Some,
        d0[i].unwrap() + 21 < MAX_DEPTH,
    ensures
        (d1[i] is Some && d1[i].unwrap() <= d0[i].unwrap() + 21) || exists|r: Rect|
            footprint_on_grid(r) && #[trigger] stamped(before, after, r) && under(r, i),
        i == point_idx(before.grail_start) ==> d1[i] is Some,
{
    let s = point_idx(before.player_start);
    let seeds = seq![s as usize];
    if after == before {
        lemma_field_within(before.map.tiles@, seeds, d0, d1, i);
    } else {
        let r = choose|r: Rect|
            {
                &&& footprint_on_grid(r)
                &&& r.x1 < 68
                &&& r.y1 < 39
                &&& #[trigger] prefab_fits(before.map.tiles@, before.player_start, before.grail_start, r)
                &&& stamped(before, after, r)
            };
        let d = choose|d: Seq<Option<u32>>|
            is_distance_field(before.map.tiles@, seq![point_idx(before.player_start) as usize], MAX_DEPTH as int, d)
                && #[trigger] placement_valid(d, r, before.grail_start);
        lemma_field_unique(before.map.tiles@, seeds, d, d0);
        assert forall|j: int|
            0 <= j < NUM_TILES && under(r, j) && on_ring(cell_index(r, j)) implies #[trigger] after.map.tiles@[j]
                == TileType::Floor by {
            lemma_ring_floor(cell_index(r, j));
        }
        assert forall|j: int| 0 <= j < NUM_TILES && under(r, j) implies #[trigger] d0[j] is Some
            && d0[j].unwrap() > 20 by {
            assert(d[j] is Some);
        }
        assert(stamp_setting(before.map.tiles@, after.map.tiles@, r, s, d0, d1));
        if !under(r, i) {
            lemma_prefab_keeps_reach(before.map.tiles@, after.map.tiles@, r, s, d0, d1, i);
        }
        if i == point_idx(before.grail_start) {
            assert(point_of(i) == before.grail_start);
            if under(r, i) {
                assert(d[i] is Some);
            }
        }
    }
}

} // verus!
