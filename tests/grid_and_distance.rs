use dungeoncrawl::distance::{distance_field, MAX_DEPTH};
use dungeoncrawl::geometry::{Point, Rect};
use dungeoncrawl::map::{map_idx, Grid, TileType, NUM_TILES};

#[test]
fn single_floor_seed_has_distance_zero_and_rest_unreached() {
    let mut g = Grid::new();
    let seed = map_idx(5, 5);
    g.tiles[seed] = TileType::Floor;
    let d = distance_field(&g, &vec![seed], MAX_DEPTH);
    assert_eq!(d.len(), NUM_TILES);
    for (i, v) in d.iter().enumerate() {
        if i == seed {
            assert_eq!(*v, Some(0));
        } else {
            assert_eq!(*v, None);
        }
    }
}

#[test]
fn corridor_distances_count_steps() {
    let mut g = Grid::new();
    for x in 2..8 {
        g.tiles[map_idx(x, 3)] = TileType::Floor;
    }
    let d = distance_field(&g, &vec![map_idx(2, 3)], MAX_DEPTH);
    for x in 2..8 {
        assert_eq!(d[map_idx(x, 3)], Some((x - 2) as u32));
    }
    assert_eq!(d[map_idx(8, 3)], None);
    assert_eq!(d[map_idx(2, 4)], None);
}

#[test]
fn distance_field_respects_depth_cutoff() {
    let mut g = Grid::new();
    for x in 0..10 {
        g.tiles[map_idx(x, 0)] = TileType::Floor;
    }
    let d = distance_field(&g, &vec![map_idx(0, 0)], 3);
    assert_eq!(d[map_idx(3, 0)], Some(3));
    assert_eq!(d[map_idx(4, 0)], None);
}

#[test]
fn distance_field_from_two_seeds_takes_nearest() {
    let mut g = Grid::new();
    for x in 0..11 {
        g.tiles[map_idx(x, 1)] = TileType::Floor;
    }
    let d = distance_field(&g, &vec![map_idx(0, 1), map_idx(10, 1)], MAX_DEPTH);
    assert_eq!(d[map_idx(5, 1)], Some(5));
    assert_eq!(d[map_idx(8, 1)], Some(2));
}

#[test]
fn rows_do_not_wrap_between_edges() {
    let mut g = Grid::new();
    g.tiles[map_idx(79, 0)] = TileType::Floor;
    g.tiles[map_idx(0, 1)] = TileType::Floor;
    let d = distance_field(&g, &vec![map_idx(79, 0)], MAX_DEPTH);
    assert_eq!(d[map_idx(0, 1)], None);
}

#[test]
fn grid_bounds_and_indices() {
    let mut g = Grid::new();
    assert!(g.in_bounds(Point::new(0, 0)));
    assert!(g.in_bounds(Point::new(79, 49)));
    assert!(!g.in_bounds(Point::new(80, 0)));
    assert!(!g.in_bounds(Point::new(0, -1)));
    assert_eq!(g.try_idx(Point::new(3, 2)), Some(163));
    assert_eq!(g.try_idx(Point::new(-1, 2)), None);
    assert_eq!(g.index_to_point2d(163), Point::new(3, 2));
    assert_eq!(g.point2d_to_index(Point::new(79, 49)), 3999);
    assert!(!g.can_enter_tile(Point::new(3, 2)));
    g.tiles[163] = TileType::Exit;
    assert!(g.can_enter_tile(Point::new(3, 2)));
    assert!(!g.can_enter_tile(Point::new(100, 2)));
    g.fill(TileType::Floor);
    assert!(g.tiles.iter().all(|t| *t == TileType::Floor));
}

#[test]
fn rect_geometry() {
    let a = Rect::with_size(1, 1, 4, 4);
    assert_eq!(a, Rect { x1: 1, y1: 1, x2: 5, y2: 5 });
    assert_eq!(a.center(), Point::new(3, 3));
    let touching = Rect::with_size(5, 1, 2, 2);
    assert!(a.intersect(&touching));
    let apart = Rect::with_size(6, 1, 2, 2);
    assert!(!a.intersect(&apart));
    assert!(a.point_in_rect(Point::new(4, 4)));
    assert!(!a.point_in_rect(Point::new(5, 4)));
}
