use vstd::prelude::*;
use crate::geometry::Point;
use crate::map::TileType;
use crate::map_builder::{MapBuilder, point_idx};

verus! {

/// The level on which the grail waits instead of an exit.
pub const FINAL_LEVEL: u32 = 2;

/// An entity, and who carries it.
#[derive(Clone, Copy, Debug, PartialEq, Eq, Structural)]
pub struct EntityRecord {
    pub id: u64,
    pub carried_by: Option<u64>,
}

pub open spec fn present(es: Seq<EntityRecord>, id: u64) -> bool {
    exists|j: int| 0 <= j < es.len() && (#[trigger] es[j]).id == id
}

pub open spec fn carried_by_player(es: Seq<EntityRecord>, player: u64, id: u64) -> bool {
    exists|j: int| 0 <= j < es.len() && (#[trigger] es[j]).id == id && es[j].carried_by == Some(player)
}

/// The player and what it carries cross into the next level.
pub open spec fn crosses_over(es: Seq<EntityRecord>, player: u64, id: u64) -> bool {
    id == player || carried_by_player(es, player, id)
}

/// Splits the entities at a level boundary into those that stay, the
/// player and every entity it carries, and those to destroy.
pub fn advance_level_entities(player: u64, entities: &Vec<EntityRecord>) -> (r: (Vec<u64>, Vec<u64>))
    requires
        present(entities@, player),
    ensures
        forall|id: u64| r.0@.contains(id) <==> crosses_over(entities@, player, id),
        forall|id: u64| r.1@.contains(id) <==> present(entities@, id) && !crosses_over(entities@, player, id),
{
    let mut keep: Vec<u64> = Vec::new();
    keep.push(player);
    let mut k: usize = 0;
    while k < entities.len()
        invariant
            k <= entities@.len(),
            keep@.len() >= 1,
            keep@[0] == player,
            forall|id: u64|
                keep@.contains(id) ==> id == player || carried_by_player(entities@, player, id),
            forall|j: int|
                0 <= j < k && (#[trigger] entities@[j]).carried_by == Some(player) ==> keep@.contains(
                    entities@[j].id,
                ),
        decreases entities@.len() - k,
    {
        let e = entities[k];
        if e.carried_by == Some(player) {
            let ghost k0 = keep@;
            keep.push(e.id);
            proof {
                assert(keep@[k0.len() as int] == e.id);
                assert forall|id: u64| keep@.contains(id) implies id == player || carried_by_player(
                    entities@,
                    player,
                    id,
                ) by {
                    let m = choose|m: int| 0 <= m < keep@.len() && keep@[m] == id;
                    if m < k0.len() {
                        assert(k0[m] == id);
                        assert(k0.contains(id));
                    } else {
                        assert(entities@[k as int] == e);
                        assert(entities@[k as int].id == id && entities@[k as int].carried_by == Some(player));
                    }
                }
                assert forall|j: int|
                    0 <= j < k + 1 && (#[trigger] entities@[j]).carried_by == Some(player) implies keep@.contains(
                        entities@[j].id,
                    ) by {
                    if j < k {
                        let m = choose|m: int| 0 <= m < k0.len() && k0[m] == entities@[j].id;
                        assert(keep@[m] == entities@[j].id);
                    }
                }
            }
        }
        k = k + 1;
    }
    assert(keep@[0] == player);
    let mut remove: Vec<u64> = Vec::new();
    let mut k: usize = 0;
    while k < entities.len()
        invariant
            k <= entities@.len(),
            forall|id: u64| keep@.contains(id) <==> crosses_over(entities@, player, id),
            forall|id: u64|
                remove@.contains(id) ==> present(entities@, id) && !crosses_over(entities@, player, id),
            forall|j: int|
                0 <= j < k && !crosses_over(entities@, player, (#[trigger] entities@[j]).id)
                    ==> remove@.contains(entities@[j].id),
        decreases entities@.len() - k,
    {
        let e = entities[k];
        let stays = contains_id(&keep, e.id);
        if !stays {
            let ghost r0 = remove@;
            remove.push(e.id);
            proof {
                assert(entities@[k as int].id == e.id);
                assert forall|id: u64| remove@.contains(id) implies present(entities@, id)
                    && !crosses_over(entities@, player, id) by {
                    let m = choose|m: int| 0 <= m < remove@.len() && remove@[m] == id;
                    if m < r0.len() {
                        assert(r0[m] == id);
                    }
                }
                assert forall|j: int|
                    0 <= j < k + 1 && !crosses_over(entities@, player, (#[trigger] entities@[j]).id)
                        implies remove@.contains(entities@[j].id) by {
                    if j < k {
                        let m = choose|m: int| 0 <= m < r0.len() && r0[m] == entities@[j].id;
                        assert(remove@[m] == entities@[j].id);
                    } else {
                        assert(remove@[r0.len() as int] == entities@[j].id);
                    }
                }
            }
        }
        k = k + 1;
    }
    assert forall|id: u64| present(entities@, id) && !crosses_over(entities@, player, id) implies remove@.contains(id) by {
        let j = choose|j: int| 0 <= j < entities@.len() && (#[trigger] entities@[j]).id == id;
    }
    (keep, remove)
}

fn contains_id(v: &Vec<u64>, id: u64) -> (r: bool)
    ensures
        r == v@.contains(id),
{
    let mut k: usize = 0;
    while k < v.len()
        invariant
            k <= v@.len(),
            forall|j: int| 0 <= j < k ==> v@[j] != id,
        decreases v@.len() - k,
    {
        if v[k] == id {
            assert(v@[k as int] == id);
            return true;
        }
        k = k + 1;
    }
    false
}

/// After a level change, the entities present are exactly the player and
/// what it carried when the change began; every other entity is gone.
pub proof fn lemma_level_carry_over(
    player: u64,
    entities: Seq<EntityRecord>,
    keep: Seq<u64>,
    remove: Seq<u64>,
    id: u64,
)
    requires
        present(entities, player),
        forall|x: u64| keep.contains(x) <==> crosses_over(entities, player, x),
        forall|x: u64| remove.contains(x) <==> present(entities, x) && !crosses_over(entities, player, x),
    ensures
        (present(entities, id) && !remove.contains(id)) <==> (id == player || carried_by_player(
            entities,
            player,
            id,
        )),
{
    if carried_by_player(entities, player, id) {
        let j = choose|j: int|
            0 <= j < entities.len() && (#[trigger] entities[j]).id == id && entities[j].carried_by
                == Some(player);
        assert(present(entities, id));
    }
}

/// The player's level number after a level change, and where it starts.
pub fn enter_next_level(map_level: u32, start: Point) -> (r: (u32, Point))
    requires
        map_level < u32::MAX,
    ensures
        r.0 == map_level + 1,
        r.1 == start,
{
    (map_level + 1, start)
}

/// Marks the goal for the level about to start: on the final level the
/// grail will stand there (returns `true`); elsewhere its tile becomes the
/// exit (returns `false`).
pub fn prepare_goal(mb: &mut MapBuilder, map_level: u32) -> (grail: bool)
    requires
        old(mb).wf(),
    ensures
        final(mb).wf(),
        grail == (map_level == FINAL_LEVEL),
        final(mb).player_start == old(mb).player_start,
        final(mb).grail_start == old(mb).grail_start,
        final(mb).monster_spawns == old(mb).monster_spawns,
        final(mb).map.tiles@ == if grail {
            old(mb).map.tiles@
        } else {
            old(mb).map.tiles@.update(point_idx(old(mb).grail_start), TileType::Exit)
        },
{
    if map_level == FINAL_LEVEL {
        true
    } else {
        let idx = mb.map.point2d_to_index(mb.grail_start);
        mb.map.tiles.set(idx, TileType::Exit);
        false
    }
}

} // verus!
