use vstd::prelude::*;
use bracket_lib::random::RandomNumberGenerator;
use crate::geometry::{rect_center, rect_covers};
use crate::map::{TileType, NUM_TILES, x_of, y_of};
use crate::map_builder::{
    MapBuilder, rooms_disjoint, rooms_carved, point_idx, is_most_distant, corridors_over_sorted,
    spawns_drawn,
};

verus! {

/// Builds a level of rectangular rooms joined by corridors.
pub struct RoomsArchitect {}

impl RoomsArchitect {
    /// Random rooms, corridors between them, the player in the centre of the
    /// first room; monsters spawn on floor tiles away from the player.
    pub fn build(&mut self, rng: &mut RandomNumberGenerator) -> (mb: MapBuilder)
        ensures
            mb.wf(),
            mb.rooms@.len() >= 1,
            rooms_disjoint(mb.rooms@),
            mb.player_start == rect_center(mb.rooms@[0]),
            mb.map.tiles@[point_idx(mb.player_start)] == TileType::Floor,
            rooms_carved(mb.map.tiles@, mb.rooms@),
            corridors_over_sorted(mb.map.tiles@, mb.rooms@),
            forall|i: int| 0 <= i < NUM_TILES ==> #[trigger] mb.map.tiles@[i] != TileType::Exit,
            spawns_drawn(mb.map.tiles@, mb.player_start, mb.monster_spawns@),
            is_most_distant(mb.map.tiles@, mb.player_start, mb.grail_start),
    {
        let mut mb = MapBuilder::empty();
        mb.fill(TileType::Wall);
        mb.build_random_rooms(rng);
        let ghost carved = mb.map.tiles@;
        mb.build_corridors(rng);
        let first = mb.rooms[0];
        let start = first.center();
        proof {
            let i = point_idx(start);
            assert(x_of(i) == start.x && y_of(i) == start.y);
            assert(rect_covers(mb.rooms@[0], x_of(i), y_of(i)));
            assert(carved[i] == TileType::Floor);
        }
        mb.monster_spawns = mb.spawn_monsters(&start, rng);
        mb.player_start = start;
        mb.grail_start = mb.find_most_distant();
        mb
    }
}

} // verus!
