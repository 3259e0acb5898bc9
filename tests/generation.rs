use bracket_lib::random::RandomNumberGenerator;
use dungeoncrawl::automata::{tile_for_roll, CellularAutomataArchitect};
use dungeoncrawl::distance::{distance_field, MAX_DEPTH};
use dungeoncrawl::drunkard::{count_floor, prune_unreachable, DrunkardWalkArchitect};
use dungeoncrawl::geometry::{Point, Rect};
use dungeoncrawl::level::prepare_goal;
use dungeoncrawl::map::{map_idx, Grid, TileType, NUM_TILES};
use dungeoncrawl::map_builder::{sort_by_center_x, MapBuilder};
use dungeoncrawl::prefab::{apply_prefab, fortress_cells, placement_ok, spawns_outside};
use dungeoncrawl::rooms::RoomsArchitect;

fn field_from(mb: &MapBuilder) -> Vec<Option<u32>> {
    let s = mb.map.point2d_to_index(mb.player_start);
    distance_field(&mb.map, &vec![s], MAX_DEPTH)
}

fn check_builder(mb: &MapBuilder) {
    let d = field_from(mb);
    let s = mb.map.point2d_to_index(mb.player_start);
    assert_eq!(d[s], Some(0));
    assert_ne!(mb.map.tiles[s], TileType::Wall);
    let g = mb.map.point2d_to_index(mb.grail_start);
    assert!(d[g].is_some());
}

#[test]
fn rooms_never_overlap() {
    for seed in 0..5u64 {
        let mut rng = RandomNumberGenerator::seeded(seed);
        let mb = RoomsArchitect {}.build(&mut rng);
        assert!(!mb.rooms.is_empty());
        for (i, a) in mb.rooms.iter().enumerate() {
            for (j, b) in mb.rooms.iter().enumerate() {
                if i != j {
                    assert!(!a.intersect(b));
                }
            }
        }
        assert_eq!(mb.player_start, mb.rooms[0].center());
        for p in mb.monster_spawns.iter() {
            let dx = p.x - mb.player_start.x;
            let dy = p.y - mb.player_start.y;
            assert!(dx * dx + dy * dy > 100);
            assert_eq!(mb.map.tiles[mb.map.point2d_to_index(*p)], TileType::Floor);
        }
        check_builder(&mb);
    }
}

#[test]
fn drunkard_output_is_connected() {
    for seed in 0..3u64 {
        let mut rng = RandomNumberGenerator::seeded(seed);
        let mb = DrunkardWalkArchitect {}.build(&mut rng);
        assert_eq!(mb.player_start, Point::new(40, 25));
        let d = field_from(&mb);
        for i in 0..NUM_TILES {
            if mb.map.tiles[i] != TileType::Wall {
                assert!(d[i].is_some());
            }
        }
        check_builder(&mb);
    }
}

#[test]
fn automata_start_is_nearest_floor_to_centre() {
    let mut rng = RandomNumberGenerator::seeded(11);
    let mb = CellularAutomataArchitect {}.build(&mut rng);
    let s = mb.player_start;
    assert_eq!(mb.map.tiles[mb.map.point2d_to_index(s)], TileType::Floor);
    let d2 = |p: Point| (p.x - 40) * (p.x - 40) + (p.y - 25) * (p.y - 25);
    for i in 0..NUM_TILES {
        if mb.map.tiles[i] == TileType::Floor {
            assert!(d2(mb.map.index_to_point2d(i)) >= d2(s));
        }
    }
    check_builder(&mb);
}

#[test]
fn map_builder_levels_are_playable() {
    for seed in 0..6u64 {
        let mut rng = RandomNumberGenerator::seeded(seed);
        let mb = MapBuilder::new(&mut rng);
        assert_eq!(mb.map.tiles[mb.map.point2d_to_index(mb.player_start)], TileType::Floor);
        assert_ne!(mb.map.tiles[mb.map.point2d_to_index(mb.grail_start)], TileType::Wall);
        for p in mb.monster_spawns.iter() {
            assert!(mb.map.in_bounds(*p));
        }
    }
}

#[test]
fn most_distant_is_end_of_corridor() {
    let mut mb = MapBuilder::empty();
    for x in 10..20 {
        mb.map.tiles[map_idx(x, 10)] = TileType::Floor;
    }
    for y in 10..15 {
        mb.map.tiles[map_idx(19, y)] = TileType::Floor;
    }
    mb.player_start = Point::new(10, 10);
    assert_eq!(mb.find_most_distant(), Point::new(19, 14));
}

#[test]
fn pruning_walls_up_unreachable_pockets() {
    let mut g = Grid::new();
    g.tiles[map_idx(5, 5)] = TileType::Floor;
    g.tiles[map_idx(6, 5)] = TileType::Floor;
    g.tiles[map_idx(30, 30)] = TileType::Floor;
    prune_unreachable(&mut g, map_idx(5, 5));
    assert_eq!(g.tiles[map_idx(6, 5)], TileType::Floor);
    assert_eq!(g.tiles[map_idx(30, 30)], TileType::Wall);
    assert_eq!(count_floor(&g), 2);
}

#[test]
fn smoothing_pass_follows_neighbour_rule() {
    let arch = CellularAutomataArchitect {};
    let mut g = Grid::new();
    g.fill(TileType::Floor);
    g.tiles[map_idx(10, 10)] = TileType::Wall;
    assert_eq!(arch.count_neighbours(10, 10, &g), 0);
    assert_eq!(arch.count_neighbours(11, 10, &g), 1);
    arch.iteration(&mut g);
    // A floor with no wall around it turns to wall; one wall nearby keeps floor.
    assert_eq!(g.tiles[map_idx(20, 20)], TileType::Wall);
    assert_eq!(g.tiles[map_idx(11, 10)], TileType::Floor);
    assert_eq!(g.tiles[map_idx(10, 10)], TileType::Wall);
    // The border is left alone.
    assert_eq!(g.tiles[map_idx(0, 0)], TileType::Floor);
}

#[test]
fn find_start_on_empty_grid_is_none() {
    let arch = CellularAutomataArchitect {};
    let g = Grid::new();
    assert_eq!(arch.find_start(&g), None);
    let mut g2 = Grid::new();
    g2.tiles[map_idx(41, 25)] = TileType::Floor;
    g2.tiles[map_idx(39, 25)] = TileType::Floor;
    assert_eq!(arch.find_start(&g2), Some(Point::new(39, 25)));
}

#[test]
fn tunnels_floor_inclusive_spans() {
    let mut mb = MapBuilder::empty();
    mb.apply_horizontal_tunnel(7, 3, 2);
    for x in 3..=7 {
        assert_eq!(mb.map.tiles[map_idx(x, 2)], TileType::Floor);
    }
    assert_eq!(mb.map.tiles[map_idx(8, 2)], TileType::Wall);
    assert_eq!(mb.map.tiles[map_idx(2, 2)], TileType::Wall);
    mb.apply_vertical_tunnel(-5, 1, 0);
    assert_eq!(mb.map.tiles[map_idx(0, 0)], TileType::Floor);
    assert_eq!(mb.map.tiles[map_idx(0, 1)], TileType::Floor);
    assert_eq!(mb.map.tiles[map_idx(0, 2)], TileType::Wall);
}

#[test]
fn rooms_sorted_by_centre() {
    let rooms = vec![
        Rect::with_size(30, 1, 4, 4),
        Rect::with_size(2, 1, 4, 4),
        Rect::with_size(10, 10, 2, 2),
    ];
    let sorted = sort_by_center_x(&rooms);
    let xs: Vec<i32> = sorted.iter().map(|r| r.center().x).collect();
    assert_eq!(xs, vec![4, 11, 32]);
}

#[test]
fn spawn_points_are_distinct_far_floors() {
    let mut mb = MapBuilder::empty();
    mb.map.fill(TileType::Floor);
    let start = Point::new(40, 25);
    let mut rng = RandomNumberGenerator::seeded(3);
    let spawns = mb.spawn_monsters(&start, &mut rng);
    assert_eq!(spawns.len(), 50);
    for (i, p) in spawns.iter().enumerate() {
        let dx = p.x - start.x;
        let dy = p.y - start.y;
        assert!(dx * dx + dy * dy > 100);
        for q in spawns.iter().skip(i + 1) {
            assert_ne!(p, q);
        }
    }
}

#[test]
fn few_candidates_are_all_taken() {
    let mut mb = MapBuilder::empty();
    mb.map.tiles[map_idx(1, 1)] = TileType::Floor;
    mb.map.tiles[map_idx(70, 40)] = TileType::Floor;
    mb.map.tiles[map_idx(41, 25)] = TileType::Floor;
    let mut rng = RandomNumberGenerator::seeded(9);
    let mut spawns = mb.spawn_monsters(&Point::new(40, 25), &mut rng);
    spawns.sort_by_key(|p| (p.x, p.y));
    assert_eq!(spawns, vec![Point::new(1, 1), Point::new(70, 40)]);
}

#[test]
fn prefab_placement_rules() {
    let mut mb = MapBuilder::empty();
    mb.map.fill(TileType::Floor);
    mb.player_start = Point::new(0, 0);
    mb.grail_start = Point::new(79, 49);
    let d = field_from(&mb);
    // Far from the start and away from the goal: valid.
    assert!(placement_ok(&d, Rect::with_size(40, 30, 12, 11), mb.grail_start));
    // Too close to the start.
    assert!(!placement_ok(&d, Rect::with_size(0, 0, 12, 11), mb.grail_start));
    // Covers the goal.
    assert!(!placement_ok(&d, Rect::with_size(68, 39, 12, 11), mb.grail_start));
}

#[test]
fn stamping_writes_fortress_and_moves_spawns() {
    let mut mb = MapBuilder::empty();
    mb.map.fill(TileType::Floor);
    let r = Rect::with_size(40, 30, 12, 11);
    mb.monster_spawns = vec![Point::new(45, 35), Point::new(1, 1)];
    mb.monster_spawns = spawns_outside(&mb.monster_spawns, r);
    assert_eq!(mb.monster_spawns, vec![Point::new(1, 1)]);
    let cells = fortress_cells();
    mb.stamp_prefab(r, &cells);
    assert_eq!(mb.map.tiles[map_idx(43, 31)], TileType::Wall);
    assert_eq!(mb.map.tiles[map_idx(40, 30)], TileType::Floor);
    assert_eq!(
        mb.monster_spawns,
        vec![Point::new(1, 1), Point::new(45, 33), Point::new(42, 35), Point::new(49, 35)]
    );
}

#[test]
fn prefab_never_covers_goal() {
    for seed in 0..8u64 {
        let mut rng = RandomNumberGenerator::seeded(seed);
        let mut mb = MapBuilder::empty();
        mb.map.fill(TileType::Floor);
        mb.player_start = Point::new(1, 1);
        mb.grail_start = mb.find_most_distant();
        let goal_tile = mb.map.tiles[mb.map.point2d_to_index(mb.grail_start)];
        apply_prefab(&mut mb, &mut rng);
        assert_eq!(mb.map.tiles[mb.map.point2d_to_index(mb.grail_start)], goal_tile);
    }
}

#[test]
fn goal_becomes_exit_except_on_final_level() {
    let mut mb = MapBuilder::empty();
    mb.grail_start = Point::new(3, 3);
    assert!(!prepare_goal(&mut mb, 1));
    assert_eq!(mb.map.tiles[map_idx(3, 3)], TileType::Exit);
    let mut mb2 = MapBuilder::empty();
    mb2.grail_start = Point::new(3, 3);
    assert!(prepare_goal(&mut mb2, 2));
    assert_eq!(mb2.map.tiles[map_idx(3, 3)], TileType::Wall);
}

#[test]
fn noise_map_has_no_exits() {
    let mut rng = RandomNumberGenerator::seeded(5);
    let mut g = Grid::new();
    let mut arch = CellularAutomataArchitect {};
    arch.random_noise_map(&mut rng, &mut g);
    assert!(g.tiles.iter().all(|t| *t != TileType::Exit));
    assert!(g.tiles.iter().any(|t| *t == TileType::Floor));
    assert!(g.tiles.iter().any(|t| *t == TileType::Wall));
}

#[test]
fn drunkard_walk_floors_its_start() {
    let mut rng = RandomNumberGenerator::seeded(5);
    let mut g = Grid::new();
    let mut arch = DrunkardWalkArchitect {};
    arch.drunkard(&Point::new(10, 10), &mut rng, &mut g);
    assert_eq!(g.tiles[map_idx(10, 10)], TileType::Floor);
    let floors = count_floor(&g);
    assert!(floors >= 1 && floors <= 402);
}

#[test]
fn corridors_join_consecutive_rooms() {
    let mut rng = RandomNumberGenerator::seeded(4);
    let mut mb = MapBuilder::empty();
    mb.build_random_rooms(&mut rng);
    mb.build_corridors(&mut rng);
    let rooms = sort_by_center_x(&mb.rooms);
    let start = mb.map.point2d_to_index(rooms[0].center());
    let d = distance_field(&mb.map, &vec![start], MAX_DEPTH);
    for r in rooms.iter() {
        assert!(d[mb.map.point2d_to_index(r.center())].is_some());
    }
}

#[test]
fn noise_threshold_is_above_55() {
    assert_eq!(tile_for_roll(55), TileType::Wall);
    assert_eq!(tile_for_roll(56), TileType::Floor);
    assert_eq!(tile_for_roll(0), TileType::Wall);
}

#[test]
fn drunkard_level_meets_floor_target() {
    let mut rng = RandomNumberGenerator::seeded(21);
    let mb = DrunkardWalkArchitect {}.build(&mut rng);
    assert!(count_floor(&mb.map) >= 1333);
}

#[test]
fn prefab_keeps_outside_tiles_reachable() {
    for seed in 0..6u64 {
        let mut rng = RandomNumberGenerator::seeded(seed);
        let mut mb = MapBuilder::empty();
        mb.map.fill(TileType::Floor);
        mb.player_start = Point::new(1, 1);
        mb.grail_start = mb.find_most_distant();
        let before = field_from(&mb);
        apply_prefab(&mut mb, &mut rng);
        let after = field_from(&mb);
        assert!(after[mb.map.point2d_to_index(mb.grail_start)].is_some());
        let mut lost = 0;
        for i in 0..NUM_TILES {
            if before[i].is_some() && after[i].is_none() {
                lost += 1;
            }
        }
        assert!(lost <= 132);
    }
}
