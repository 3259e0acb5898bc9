use vstd::prelude::*;
use crate::camera::{Camera, camera_safe, centred_on};
use crate::geometry::Point;
use crate::map::{Grid, TileType, NUM_TILES, in_bounds_xy, idx_of, walkable, x_of, y_of};
use crate::map_builder::{point_in_bounds, point_idx};
use crate::spawner::Health;
use crate::turn_state::{TurnState, input_outcome, input_outcome_spec};

verus! {

/// The keys the game reacts to.
#[derive(Clone, Copy, Debug, PartialEq, Eq, Structural)]
pub enum Key {
    Left,
    Right,
    Up,
    Down,
    A,
    D,
    W,
    S,
    G,
    Digit(u8),
    Other,
}

/// What the player asked for.
#[derive(Clone, Copy, Debug, PartialEq, Eq, Structural)]
pub enum Action {
    Idle,
    Move(Point),
    PickupAt(Point),
    Use(usize),
}

/// A deferred change to the world, applied when the phase ends.
#[derive(Clone, Copy, Debug, PartialEq, Eq, Structural)]
pub enum Command {
    Attack { attacker: u64, victim: u64 },
    Move { entity: u64, destination: Point },
    Pickup { item: u64, carrier: u64 },
    Activate { used_by: u64, item: u64 },
}

/// An entity and where it stands.
#[derive(Clone, Copy, Debug, PartialEq, Eq, Structural)]
pub struct Placed {
    pub id: u64,
    pub pos: Point,
}

pub open spec fn action_for(key: Option<Key>, pos: Point) -> Action {
    match key {
        Some(Key::Left) | Some(Key::A) => Action::Move(Point { x: -1i32, y: 0 }),
        Some(Key::Right) | Some(Key::D) => Action::Move(Point { x: 1, y: 0 }),
        Some(Key::Up) | Some(Key::W) => Action::Move(Point { x: 0, y: -1i32 }),
        Some(Key::Down) | Some(Key::S) => Action::Move(Point { x: 0, y: 1 }),
        Some(Key::G) => Action::PickupAt(pos),
        Some(Key::Digit(n)) => if 1 <= n <= 9 {
            Action::Use((n - 1) as usize)
        } else {
            Action::Idle
        },
        _ => Action::Idle,
    }
}

/// Arrows or WASD move, G picks up, 1 to 9 use an inventory slot.
pub fn action_for_key(key: Option<Key>, pos: Point) -> (a: Action)
    ensures
        a == action_for(key, pos),
{
    match key {
        Some(Key::Left) | Some(Key::A) => Action::Move(Point::new(-1, 0)),
        Some(Key::Right) | Some(Key::D) => Action::Move(Point::new(1, 0)),
        Some(Key::Up) | Some(Key::W) => Action::Move(Point::new(0, -1)),
        Some(Key::Down) | Some(Key::S) => Action::Move(Point::new(0, 1)),
        Some(Key::G) => Action::PickupAt(pos),
        Some(Key::Digit(n)) => {
            if 1 <= n && n <= 9 {
                Action::Use((n - 1) as usize)
            } else {
                Action::Idle
            }
        },
        _ => Action::Idle,
    }
}

/// Attacks on the entities among the first `n` standing on `dest`.
pub open spec fn attacks_on(es: Seq<Placed>, dest: Point, attacker: u64, n: int) -> Seq<Command>
    decreases n,
{
    if n <= 0 {
        Seq::empty()
    } else if es[n - 1].pos == dest {
        attacks_on(es, dest, attacker, n - 1).push(
            Command::Attack { attacker, victim: es[n - 1].id },
        )
    } else {
        attacks_on(es, dest, attacker, n - 1)
    }
}

/// Pick-ups of the items among the first `n` standing on `at`.
pub open spec fn pickups_at(items: Seq<Placed>, at: Point, carrier: u64, n: int) -> Seq<Command>
    decreases n,
{
    if n <= 0 {
        Seq::empty()
    } else if items[n - 1].pos == at {
        pickups_at(items, at, carrier, n - 1).push(Command::Pickup { item: items[n - 1].id, carrier })
    } else {
        pickups_at(items, at, carrier, n - 1)
    }
}

/// The commands an action issues and whether it counts as the player's move.
pub open spec fn input_commands(
    action: Action,
    player: u64,
    pos: Point,
    enemies: Seq<Placed>,
    items: Seq<Placed>,
    carried: Seq<u64>,
) -> (Seq<Command>, bool) {
    match action {
        Action::Move(delta) => {
            let dest = Point { x: (pos.x + delta.x) as i32, y: (pos.y + delta.y) as i32 };
            let hits = attacks_on(enemies, dest, player, enemies.len() as int);
            if hits.len() > 0 {
                (hits, true)
            } else {
                (seq![Command::Move { entity: player, destination: dest }], true)
            }
        },
        Action::PickupAt(p) => (pickups_at(items, p, player, items.len() as int), true),
        Action::Use(i) => if i < carried.len() {
            (seq![Command::Activate { used_by: player, item: carried[i as int] }], true)
        } else {
            (Seq::empty(), false)
        },
        Action::Idle => (Seq::empty(), false),
    }
}

fn attacks_exec(enemies: &Vec<Placed>, dest: Point, attacker: u64) -> (r: Vec<Command>)
    ensures
        r@ == attacks_on(enemies@, dest, attacker, enemies@.len() as int),
{
    let mut r: Vec<Command> = Vec::new();
    let mut k: usize = 0;
    while k < enemies.len()
        invariant
            k <= enemies@.len(),
            r@ == attacks_on(enemies@, dest, attacker, k as int),
        decreases enemies@.len() - k,
    {
        if enemies[k].pos == dest {
            r.push(Command::Attack { attacker, victim: enemies[k].id });
        }
        k = k + 1;
    }
    r
}

fn pickups_exec(items: &Vec<Placed>, at: Point, carrier: u64) -> (r: Vec<Command>)
    ensures
        r@ == pickups_at(items@, at, carrier, items@.len() as int),
{
    let mut r: Vec<Command> = Vec::new();
    let mut k: usize = 0;
    while k < items.len()
        invariant
            k <= items@.len(),
            r@ == pickups_at(items@, at, carrier, k as int),
        decreases items@.len() - k,
    {
        if items[k].pos == at {
            r.push(Command::Pickup { item: items[k].id, carrier });
        }
        k = k + 1;
    }
    r
}

/// Resolves the key pressed while waiting for input: moving into an enemy
/// attacks it, moving elsewhere asks to move, G picks up what lies under
/// the player, a digit uses that inventory slot. Any of these starts the
/// player's turn; no key, another key or an empty slot leaves the state.
pub fn player_input(
    player: u64,
    player_pos: Point,
    key: Option<Key>,
    enemies: &Vec<Placed>,
    items: &Vec<Placed>,
    carried: &Vec<u64>,
    turn_state: TurnState,
) -> (r: (Vec<Command>, TurnState))
    requires
        point_in_bounds(player_pos),
    ensures
        r.0@ == input_commands(action_for(key, player_pos), player, player_pos, enemies@, items@, carried@).0,
        r.1 == input_outcome_spec(
            turn_state,
            input_commands(action_for(key, player_pos), player, player_pos, enemies@, items@, carried@).1,
        ),
{
    let action = action_for_key(key, player_pos);
    let (commands, acted) = match action {
        Action::Move(delta) => {
            let dest = Point::new(player_pos.x + delta.x, player_pos.y + delta.y);
            let hits = attacks_exec(enemies, dest, player);
            if hits.len() > 0 {
                (hits, true)
            } else {
                let mut v: Vec<Command> = Vec::new();
                v.push(Command::Move { entity: player, destination: dest });
                assert(v@ =~= seq![Command::Move { entity: player, destination: dest }]);
                (v, true)
            }
        },
        Action::PickupAt(p) => (pickups_exec(items, p, player), true),
        Action::Use(i) => {
            if i < carried.len() {
                let mut v: Vec<Command> = Vec::new();
                v.push(Command::Activate { used_by: player, item: carried[i] });
                assert(v@ =~= seq![Command::Activate { used_by: player, item: carried@[i as int] }]);
                (v, true)
            } else {
                (Vec::new(), false)
            }
        },
        Action::Idle => (Vec::new(), false),
    };
    assert(commands@ =~= input_commands(action, player, player_pos, enemies@, items@, carried@).0);
    (commands, input_outcome(turn_state, acted))
}

/// Tile `i` is one of the points in `visible`.
pub open spec fn seen(visible: Seq<Point>, i: int) -> bool {
    exists|k: int|
        0 <= k < visible.len() && point_in_bounds(#[trigger] visible[k]) && point_idx(visible[k]) == i
}

/// Carries out a move request: the mover goes to `destination` only if it
/// can enter it. When the player moves, the camera follows, and the tiles
/// in its field of view join the revealed tiles, which never shrink.
pub fn movement(
    map: &mut Grid,
    camera: &mut Camera,
    destination: Point,
    is_player: bool,
    visible: &Vec<Point>,
) -> (moved: bool)
    requires
        old(map).wf(),
    ensures
        final(map).wf(),
        moved == (in_bounds_xy(destination.x as int, destination.y as int) && walkable(
            old(map).tiles@[idx_of(destination.x as int, destination.y as int)],
        )),
        final(map).tiles == old(map).tiles,
        moved && is_player ==> *final(camera) == centred_on(destination),
        !(moved && is_player) ==> *final(camera) == *old(camera),
        forall|i: int|
            0 <= i < NUM_TILES ==> #[trigger] final(map).revealed_tiles@[i] == (old(
                map,
            ).revealed_tiles@[i] || (moved && is_player && seen(visible@, i))),
{
    let moved = map.can_enter_tile(destination);
    if moved && is_player {
        camera.on_player_move(destination);
        let ghost r0 = map.revealed_tiles@;
        let mut k: usize = 0;
        while k < visible.len()
            invariant
                map.wf(),
                map.tiles == old(map).tiles,
                r0 == old(map).revealed_tiles@,
                k <= visible@.len(),
                forall|i: int|
                    0 <= i < NUM_TILES ==> #[trigger] map.revealed_tiles@[i] == (r0[i] || exists|
                        j: int,
                    |
                        0 <= j < k && point_in_bounds(#[trigger] visible@[j]) && point_idx(visible@[j])
                            == i),
            decreases visible@.len() - k,
        {
            let p = visible[k];
            match map.try_idx(p) {
                Some(idx) => {
                    map.revealed_tiles.set(idx, true);
                    proof {
                        assert forall|i: int|
                            0 <= i < NUM_TILES implies #[trigger] map.revealed_tiles@[i] == (r0[i]
                                || exists|j: int|
                                0 <= j < k + 1 && point_in_bounds(#[trigger] visible@[j])
                                    && point_idx(visible@[j]) == i) by {
                            if i == idx {
                                assert(visible@[k as int] == p);
                            }
                        }
                    }
                },
                None => {
                    proof {
                        assert forall|i: int|
                            0 <= i < NUM_TILES implies #[trigger] map.revealed_tiles@[i] == (r0[i]
                                || exists|j: int|
                                0 <= j < k + 1 && point_in_bounds(#[trigger] visible@[j])
                                    && point_idx(visible@[j]) == i) by {
                            assert(visible@[k as int] == p);
                        }
                    }
                },
            }
            k = k + 1;
        }
    }
    moved
}

pub open spec fn clamp_i32(v: int) -> int {
    if v > i32::MAX {
        i32::MAX as int
    } else if v < i32::MIN {
        i32::MIN as int
    } else {
        v
    }
}

fn clamp_to_i32(v: i64) -> (r: i32)
    ensures
        r == clamp_i32(v as int),
{
    if v > i32::MAX as i64 {
        i32::MAX
    } else if v < i32::MIN as i64 {
        i32::MIN
    } else {
        v as i32
    }
}

/// The first `n` weapon damages added one by one, each sum held within `i32`.
pub open spec fn weapon_total(w: Seq<i32>, n: int) -> int
    decreases n,
{
    if n <= 0 {
        0
    } else {
        clamp_i32(weapon_total(w, n - 1) + w[n - 1])
    }
}

/// An attack deals the attacker's base damage plus that of every weapon it
/// carries. The victim loses that much health; a victim other than the
/// player dies below 1 health. Sums saturate at the bounds of `i32`.
pub fn combat(victim_health: Health, base_damage: i32, weapon_damages: &Vec<i32>, victim_is_player: bool) -> (r: (
    Health,
    bool,
))
    ensures
        r.0.max == victim_health.max,
        r.0.current == clamp_i32(
            victim_health.current - clamp_i32(
                base_damage + weapon_total(weapon_damages@, weapon_damages@.len() as int),
            ),
        ),
        r.1 == (r.0.current < 1 && !victim_is_player),
{
    let mut weapons: i32 = 0;
    let mut k: usize = 0;
    while k < weapon_damages.len()
        invariant
            k <= weapon_damages@.len(),
            weapons == weapon_total(weapon_damages@, k as int),
        decreases weapon_damages@.len() - k,
    {
        weapons = clamp_to_i32(weapons as i64 + weapon_damages[k] as i64);
        k = k + 1;
    }
    let damage = clamp_to_i32(base_damage as i64 + weapons as i64);
    let current = clamp_to_i32(victim_health.current as i64 - damage as i64);
    let h = Health { current, max: victim_health.max };
    (h, current < 1 && !victim_is_player)
}

/// Healing restores `amount` health, never above the maximum.
pub fn use_item(health: Health, amount: i32) -> (r: Health)
    ensures
        r.max == health.max,
        r.current == clamp_i32(
            if health.current + amount < health.max {
                health.current + amount
            } else {
                health.max as int
            },
        ),
{
    let sum = health.current as i64 + amount as i64;
    let capped = if sum < health.max as i64 {
        sum
    } else {
        health.max as i64
    };
    let current = if capped < i32::MIN as i64 {
        i32::MIN
    } else {
        capped as i32
    };
    Health { current, max: health.max }
}

/// One tile to draw: where on screen, what it is, and whether it is in
/// view (drawn bright) or only remembered (drawn dim).
#[derive(Clone, Copy, Debug, PartialEq, Eq, Structural)]
pub struct TileDraw {
    pub screen: Point,
    pub tile: TileType,
    pub lit: bool,
}

pub open spec fn in_window(c: Camera, i: int) -> bool {
    c.left_x <= x_of(i) <= c.right_x && c.top_y <= y_of(i) <= c.bottom_y
}

pub open spec fn draw_of(tiles: Seq<TileType>, c: Camera, visible: Seq<Point>, i: int) -> TileDraw {
    TileDraw {
        screen: Point { x: (x_of(i) - c.left_x) as i32, y: (y_of(i) - c.top_y) as i32 },
        tile: tiles[i],
        lit: seen(visible, i),
    }
}

fn is_seen(map: &Grid, visible: &Vec<Point>, i: usize) -> (r: bool)
    requires
        i < NUM_TILES,
    ensures
        r == seen(visible@, i as int),
{
    let mut k: usize = 0;
    while k < visible.len()
        invariant
            k <= visible@.len(),
            i < NUM_TILES,
            forall|j: int|
                0 <= j < k ==> !(point_in_bounds(#[trigger] visible@[j]) && point_idx(visible@[j]) == i),
        decreases visible@.len() - k,
    {
        let p = visible[k];
        match map.try_idx(p) {
            Some(idx) => {
                if idx == i {
                    assert(visible@[k as int] == p);
                    return true;
                }
            },
            None => {},
        }
        k = k + 1;
    }
    false
}

/// The tiles inside the camera's window that are in view or already
/// revealed, in index order, each with its screen position.
pub fn map_render(map: &Grid, camera: &Camera, visible: &Vec<Point>) -> (r: Vec<TileDraw>)
    requires
        map.wf(),
        camera.wf(),
    ensures
        forall|k: int|
            #![trigger r@[k]]
            0 <= k < r@.len() ==> exists|i: int|
                0 <= i < NUM_TILES && in_window(*camera, i) && (seen(visible@, i)
                    || map.revealed_tiles@[i]) && r@[k] == #[trigger] draw_of(
                    map.tiles@,
                    *camera,
                    visible@,
                    i,
                ),
        forall|i: int|
            0 <= i < NUM_TILES && in_window(*camera, i) && (seen(visible@, i) || map.revealed_tiles@[i])
                ==> r@.contains(draw_of(map.tiles@, *camera, visible@, i)),
{
    let mut r: Vec<TileDraw> = Vec::new();
    let mut i: usize = 0;
    while i < NUM_TILES
        invariant
            map.wf(),
            camera.wf(),
            i <= NUM_TILES,
            forall|k: int|
                #![trigger r@[k]]
                0 <= k < r@.len() ==> exists|t: int|
                    0 <= t < NUM_TILES && in_window(*camera, t) && (seen(visible@, t)
                        || map.revealed_tiles@[t]) && r@[k] == #[trigger] draw_of(
                        map.tiles@,
                        *camera,
                        visible@,
                        t,
                    ),
            forall|t: int|
                0 <= t < i && in_window(*camera, t) && (seen(visible@, t) || map.revealed_tiles@[t])
                    ==> r@.contains(draw_of(map.tiles@, *camera, visible@, t)),
        decreases NUM_TILES - i,
    {
        let p = map.index_to_point2d(i);
        if camera.left_x <= p.x && p.x <= camera.right_x && camera.top_y <= p.y && p.y <= camera.bottom_y {
            let lit = is_seen(map, visible, i);
            if lit || map.revealed_tiles[i] {
                let d = TileDraw {
                    screen: Point::new(p.x - camera.left_x, p.y - camera.top_y),
                    tile: map.tiles[i],
                    lit,
                };
                let ghost r0 = r@;
                r.push(d);
                proof {
                    assert(d == draw_of(map.tiles@, *camera, visible@, i as int));
                    assert(r@[r0.len() as int] == d);
                    assert forall|k: int|
                        #![trigger r@[k]]
                        0 <= k < r@.len() implies exists|t: int|
                            0 <= t < NUM_TILES && in_window(*camera, t) && (seen(visible@, t)
                                || map.revealed_tiles@[t]) && r@[k] == #[trigger] draw_of(
                                map.tiles@,
                                *camera,
                                visible@,
                                t,
                            ) by {
                        if k < r0.len() {
                            assert(r@[k] == r0[k]);
                        } else {
                            assert(r@[k] == draw_of(map.tiles@, *camera, visible@, i as int));
                        }
                    }
                    assert forall|t: int|
                        0 <= t < i + 1 && in_window(*camera, t) && (seen(visible@, t) || map.revealed_tiles@[t])
                            implies r@.contains(draw_of(map.tiles@, *camera, visible@, t)) by {
                        if t < i {
                            let k = choose|k: int| 0 <= k < r0.len() && r0[k] == draw_of(map.tiles@, *camera, visible@, t);
                            assert(r@[k] == r0[k]);
                        }
                    }
                }
            }
        }
        i = i + 1;
    }
    r
}

/// Screen positions of the entities: each map position less the camera's
/// top-left corner.
pub fn entity_render(camera: &Camera, entities: &Vec<(Point, char)>) -> (r: Vec<(Point, char)>)
    requires
        camera.wf(),
        forall|k: int| 0 <= k < entities@.len() ==> camera_safe(#[trigger] entities@[k].0),
    ensures
        r@.len() == entities@.len(),
        forall|k: int|
            0 <= k < r@.len() ==> (#[trigger] r@[k]).1 == entities@[k].1 && r@[k].0.x == entities@[k].0.x
                - camera.left_x && r@[k].0.y == entities@[k].0.y - camera.top_y,
{
    let mut r: Vec<(Point, char)> = Vec::new();
    let mut k: usize = 0;
    while k < entities.len()
        invariant
            camera.wf(),
            k <= entities@.len(),
            forall|j: int| 0 <= j < entities@.len() ==> camera_safe(#[trigger] entities@[j].0),
            r@.len() == k,
            forall|j: int|
                0 <= j < r@.len() ==> (#[trigger] r@[j]).1 == entities@[j].1 && r@[j].0.x
                    == entities@[j].0.x - camera.left_x && r@[j].0.y == entities@[j].0.y
                    - camera.top_y,
        decreases entities@.len() - k,
    {
        let (p, glyph) = entities[k];
        r.push((Point::new(p.x - camera.left_x, p.y - camera.top_y), glyph));
        k = k + 1;
    }
    r
}

} // verus!
