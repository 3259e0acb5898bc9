use bracket_lib::random::RandomNumberGenerator;
use dungeoncrawl::camera::Camera;
use dungeoncrawl::geometry::Point;
use dungeoncrawl::map::{map_idx, Grid, TileType};
use dungeoncrawl::level::enter_next_level;
use dungeoncrawl::spawner::{
    effects_of, monster_for_roll, spawn_grail, spawn_level, spawn_monster, spawn_player,
    EntityKind, EntityType, Health, Template, Templates,
};
use dungeoncrawl::systems::{
    action_for_key, combat, entity_render, map_render, movement, player_input, use_item, Action,
    Command, Key, Placed,
};
use dungeoncrawl::turn_state::{phase_for, Phase, TurnState};

fn template(name: &str, t: EntityType, levels: Vec<usize>, freq: i32) -> Template {
    Template {
        entity_type: t,
        levels,
        frequency: freq,
        name: name.to_string(),
        glyph: 'x',
        provides: None,
        hp: Some(3),
        base_damage: None,
    }
}

#[test]
fn player_spawns_with_full_health() {
    let e = spawn_player(Point::new(2, 3));
    assert_eq!(e.kind, EntityKind::Player);
    assert_eq!(e.health, Some(Health { current: 100, max: 100 }));
    assert_eq!(e.fov_radius, Some(8));
    assert_eq!(e.damage, Some(1));
    assert_eq!(e.map_level, Some(0));
}

#[test]
fn monster_rolls_pick_goblin_or_orc() {
    let g = monster_for_roll(8, Point::new(1, 1));
    assert_eq!(g.name.as_deref(), Some("Goblin"));
    assert_eq!(g.health, Some(Health { current: 1, max: 1 }));
    let o = monster_for_roll(9, Point::new(1, 1));
    assert_eq!(o.name.as_deref(), Some("Orc"));
    assert_eq!(o.glyph, 'o');
    let mut rng = RandomNumberGenerator::seeded(1);
    let m = spawn_monster(&mut rng, Point::new(4, 4));
    assert_eq!(m.position, Point::new(4, 4));
    assert!(m.health == Some(Health { current: 1, max: 1 }) || m.health == Some(Health { current: 2, max: 2 }));
}

#[test]
fn grail_is_named() {
    let e = spawn_grail(Point::new(7, 7));
    assert_eq!(e.kind, EntityKind::Grail);
    assert_eq!(e.name.as_deref(), Some("The Holy Grail"));
}

#[test]
fn unknown_effects_are_ignored() {
    let effects = vec![
        ("Healing".to_string(), 6),
        ("Teleport".to_string(), 1),
        ("MagicMap".to_string(), 0),
    ];
    assert_eq!(effects_of(&effects), (Some(6), true));
    assert_eq!(effects_of(&vec![("Nope".to_string(), 2)]), (None, false));
}

#[test]
fn weighted_templates_follow_frequency() {
    let ts = Templates {
        entities: vec![
            template("a", EntityType::Enemy, vec![0, 1], 2),
            template("b", EntityType::Item, vec![1], 3),
            template("c", EntityType::Item, vec![0], 1),
        ],
    };
    assert_eq!(ts.available_entities(0), vec![0, 0, 2]);
    assert_eq!(ts.available_entities(1), vec![0, 0, 1, 1, 1]);
    assert_eq!(ts.available_entities(5), Vec::<usize>::new());
}

#[test]
fn level_spawns_one_entity_per_point() {
    let ts = Templates { entities: vec![template("a", EntityType::Enemy, vec![0], 1)] };
    let points = vec![Point::new(1, 1), Point::new(2, 2)];
    let mut rng = RandomNumberGenerator::seeded(2);
    let es = spawn_level(&ts, &mut rng, 0, &points);
    assert_eq!(es.len(), 2);
    assert_eq!(es[1].position, Point::new(2, 2));
    assert_eq!(es[0].health, Some(Health { current: 3, max: 3 }));
    assert!(spawn_level(&ts, &mut rng, 1, &points).is_empty());
}

#[test]
fn item_template_with_damage_is_weapon() {
    let mut t = template("sword", EntityType::Item, vec![0], 1);
    t.base_damage = Some(2);
    let e = t.spawn_entity(Point::new(1, 2));
    assert_eq!(e.kind, EntityKind::Item);
    assert!(e.weapon);
    assert_eq!(e.damage, Some(2));
    assert_eq!(e.health, None);
}

#[test]
fn keys_map_to_actions() {
    let p = Point::new(5, 5);
    assert_eq!(action_for_key(Some(Key::A), p), Action::Move(Point::new(-1, 0)));
    assert_eq!(action_for_key(Some(Key::Down), p), Action::Move(Point::new(0, 1)));
    assert_eq!(action_for_key(Some(Key::G), p), Action::PickupAt(p));
    assert_eq!(action_for_key(Some(Key::Digit(3)), p), Action::Use(2));
    assert_eq!(action_for_key(Some(Key::Digit(0)), p), Action::Idle);
    assert_eq!(action_for_key(None, p), Action::Idle);
}

#[test]
fn moving_into_enemy_attacks() {
    let enemies = vec![Placed { id: 7, pos: Point::new(6, 5) }];
    let (cmds, st) = player_input(1, Point::new(5, 5), Some(Key::Right), &enemies, &vec![], &vec![], TurnState::AwaitingInput);
    assert_eq!(cmds, vec![Command::Attack { attacker: 1, victim: 7 }]);
    assert_eq!(st, TurnState::PlayerTurn);
    let (cmds, _) = player_input(1, Point::new(5, 5), Some(Key::Left), &enemies, &vec![], &vec![], TurnState::AwaitingInput);
    assert_eq!(cmds, vec![Command::Move { entity: 1, destination: Point::new(4, 5) }]);
}

#[test]
fn no_key_keeps_waiting() {
    let (cmds, st) = player_input(1, Point::new(5, 5), None, &vec![], &vec![], &vec![], TurnState::AwaitingInput);
    assert!(cmds.is_empty());
    assert_eq!(st, TurnState::AwaitingInput);
    let (cmds, st) = player_input(1, Point::new(5, 5), Some(Key::Digit(2)), &vec![], &vec![], &vec![9], TurnState::AwaitingInput);
    assert!(cmds.is_empty());
    assert_eq!(st, TurnState::AwaitingInput);
}

#[test]
fn pickup_and_use() {
    let items = vec![Placed { id: 4, pos: Point::new(5, 5) }, Placed { id: 6, pos: Point::new(1, 1) }];
    let (cmds, st) = player_input(1, Point::new(5, 5), Some(Key::G), &vec![], &items, &vec![], TurnState::AwaitingInput);
    assert_eq!(cmds, vec![Command::Pickup { item: 4, carrier: 1 }]);
    assert_eq!(st, TurnState::PlayerTurn);
    let (cmds, _) = player_input(1, Point::new(5, 5), Some(Key::Digit(2)), &vec![], &vec![], &vec![8, 9], TurnState::AwaitingInput);
    assert_eq!(cmds, vec![Command::Activate { used_by: 1, item: 9 }]);
}

#[test]
fn player_movement_reveals_and_moves_camera() {
    let mut g = Grid::new();
    g.tiles[map_idx(10, 10)] = TileType::Floor;
    let mut cam = Camera::new(Point::new(0, 0));
    let visible = vec![Point::new(10, 10), Point::new(11, 10), Point::new(-1, 0)];
    assert!(movement(&mut g, &mut cam, Point::new(10, 10), true, &visible));
    assert!(g.revealed_tiles[map_idx(11, 10)]);
    assert!(!g.revealed_tiles[map_idx(12, 10)]);
    assert_eq!(cam, Camera::new(Point::new(10, 10)));
    assert_eq!(cam.left_x, -10);
    assert!(!movement(&mut g, &mut cam, Point::new(11, 10), true, &visible));
    assert_eq!(cam, Camera::new(Point::new(10, 10)));
}

#[test]
fn combat_adds_weapon_damage() {
    let (h, slain) = combat(Health { current: 5, max: 5 }, 1, &vec![2, 1], false);
    assert_eq!(h, Health { current: 1, max: 5 });
    assert!(!slain);
    let (h, slain) = combat(Health { current: 2, max: 2 }, 1, &vec![1], false);
    assert_eq!(h.current, 0);
    assert!(slain);
    let (_, slain) = combat(Health { current: 1, max: 10 }, 5, &vec![], true);
    assert!(!slain);
}

#[test]
fn healing_caps_at_max() {
    assert_eq!(use_item(Health { current: 3, max: 10 }, 6), Health { current: 9, max: 10 });
    assert_eq!(use_item(Health { current: 8, max: 10 }, 6), Health { current: 10, max: 10 });
}

#[test]
fn entities_render_relative_to_camera() {
    let cam = Camera::new(Point::new(30, 20));
    let out = entity_render(&cam, &vec![(Point::new(30, 20), '@')]);
    assert_eq!(out, vec![(Point::new(20, 12), '@')]);
}

#[test]
fn map_render_draws_seen_and_remembered_tiles() {
    let mut g = Grid::new();
    g.tiles[map_idx(5, 5)] = TileType::Floor;
    g.revealed_tiles[map_idx(6, 5)] = true;
    let cam = Camera::new(Point::new(10, 10));
    let cells = map_render(&g, &cam, &vec![Point::new(5, 5)]);
    assert_eq!(cells.len(), 2);
    assert_eq!(cells[0].screen, Point::new(5 - cam.left_x, 5 - cam.top_y));
    assert_eq!(cells[0].tile, TileType::Floor);
    assert!(cells[0].lit);
    assert!(!cells[1].lit);
    assert_eq!(cells[1].tile, TileType::Wall);
}

#[test]
fn each_state_runs_one_phase() {
    assert_eq!(phase_for(TurnState::AwaitingInput), Phase::InputSystems);
    assert_eq!(phase_for(TurnState::PlayerTurn), Phase::PlayerSystems);
    assert_eq!(phase_for(TurnState::EnemyTurn), Phase::EnemySystems);
    assert_eq!(phase_for(TurnState::NextLevel), Phase::AdvanceLevel);
    assert_eq!(phase_for(TurnState::GameOver), Phase::GameOverScreen);
    assert_eq!(phase_for(TurnState::Victory), Phase::VictoryScreen);
}

#[test]
fn any_action_starts_the_player_turn() {
    let (cmds, st) = player_input(1, Point::new(5, 5), Some(Key::Right), &vec![], &vec![], &vec![], TurnState::EnemyTurn);
    assert_eq!(cmds.len(), 1);
    assert_eq!(st, TurnState::PlayerTurn);
}

#[test]
fn dungeon_map_reveals_everything() {
    let mut g = Grid::new();
    g.reveal_all();
    assert!(g.revealed_tiles.iter().all(|r| *r));
}

#[test]
fn next_level_moves_player_to_start() {
    assert_eq!(enter_next_level(1, Point::new(3, 4)), (2, Point::new(3, 4)));
}
