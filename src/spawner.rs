use vstd::prelude::*;
use bracket_lib::random::RandomNumberGenerator;
use crate::geometry::Point;
use crate::rng;

verus! {

#[derive(Clone, Copy, Debug, PartialEq, Eq, Structural)]
pub struct Health {
    pub current: i32,
    pub max: i32,
}

/// What a template spawns.
#[derive(Clone, Copy, Debug, PartialEq, Eq, Structural)]
pub enum EntityType {
    Enemy,
    Item,
}

/// The role an entity plays.
#[derive(Clone, Copy, Debug, PartialEq, Eq, Structural)]
pub enum EntityKind {
    Player,
    Enemy,
    Item,
    Grail,
}

/// The components of one entity to be created in the world.
#[derive(Clone, Debug)]
pub struct EntitySpawn {
    pub kind: EntityKind,
    pub position: Point,
    pub glyph: char,
    pub name: Option<String>,
    pub health: Option<Health>,
    pub fov_radius: Option<i32>,
    pub damage: Option<i32>,
    /// Set on the player: the dungeon level it is on.
    pub map_level: Option<u32>,
    pub chasing_player: bool,
    pub healing: Option<i32>,
    pub magic_map: bool,
    pub weapon: bool,
}

/// One entry of the declarative spawn table.
#[derive(Clone, Debug)]
pub struct Template {
    pub entity_type: EntityType,
    pub levels: Vec<usize>,
    pub frequency: i32,
    pub name: String,
    pub glyph: char,
    pub provides: Option<Vec<(String, i32)>>,
    pub hp: Option<i32>,
    pub base_damage: Option<i32>,
}

/// The spawn table.
#[derive(Clone, Debug)]
pub struct Templates {
    pub entities: Vec<Template>,
}

/// The player, with full health, at level 0.
pub fn spawn_player(position: Point) -> (e: EntitySpawn)
    ensures
        e.kind == EntityKind::Player,
        e.position == position,
        e.glyph == '@',
        e.name is None,
        e.health == Some(Health { current: 100, max: 100 }),
        e.fov_radius == Some(8i32),
        e.damage == Some(1i32),
        e.map_level == Some(0u32),
        !e.chasing_player && e.healing is None && !e.magic_map && !e.weapon,
{
    EntitySpawn {
        kind: EntityKind::Player,
        position,
        glyph: '@',
        name: None,
        health: Some(Health { current: 100, max: 100 }),
        fov_radius: Some(8),
        damage: Some(1),
        map_level: Some(0),
        chasing_player: false,
        healing: None,
        magic_map: false,
        weapon: false,
    }
}

pub open spec fn monster_hp(roll: i32) -> i32 {
    if 1 <= roll <= 8 {
        1
    } else {
        2
    }
}

pub open spec fn monster_glyph(roll: i32) -> char {
    if 1 <= roll <= 8 {
        'g'
    } else {
        'o'
    }
}

/// A goblin on a roll of 1 to 8, an orc otherwise.
pub fn monster_for_roll(roll: i32, position: Point) -> (e: EntitySpawn)
    ensures
        e.kind == EntityKind::Enemy,
        e.position == position,
        e.glyph == monster_glyph(roll),
        e.health == Some(Health { current: monster_hp(roll), max: monster_hp(roll) }),
        e.name is Some && e.name.unwrap()@ == (if 1 <= roll <= 8 {
            "Goblin"@
        } else {
            "Orc"@
        }),
        e.fov_radius == Some(6i32),
        e.chasing_player,
        e.damage is None && e.map_level is None && e.healing is None && !e.magic_map && !e.weapon,
{
    let (hp, name, glyph) = if 1 <= roll && roll <= 8 {
        (1, "Goblin".to_owned(), 'g')
    } else {
        (2, "Orc".to_owned(), 'o')
    };
    EntitySpawn {
        kind: EntityKind::Enemy,
        position,
        glyph,
        name: Some(name),
        health: Some(Health { current: hp, max: hp }),
        fov_radius: Some(6),
        damage: None,
        map_level: None,
        chasing_player: true,
        healing: None,
        magic_map: false,
        weapon: false,
    }
}

/// A monster chosen by a roll of one ten-sided die.
pub fn spawn_monster(rng: &mut RandomNumberGenerator, position: Point) -> (e: EntitySpawn)
    ensures
        e.kind == EntityKind::Enemy,
        e.position == position,
        exists|roll: i32|
            1 <= roll <= 10 && e.glyph == monster_glyph(roll) && e.health == Some(
                Health { current: monster_hp(roll), max: monster_hp(roll) },
            ) && e.name is Some && e.name.unwrap()@ == (if 1 <= roll <= 8 {
                "Goblin"@
            } else {
                "Orc"@
            }),
        e.fov_radius == Some(6i32),
        e.chasing_player,
        e.damage is None && e.map_level is None && e.healing is None && !e.magic_map && !e.weapon,
{
    let roll = rng::roll_dice(rng, 1, 10);
    monster_for_roll(roll, position)
}

/// The grail, an item.
pub fn spawn_grail(position: Point) -> (e: EntitySpawn)
    ensures
        e.kind == EntityKind::Grail,
        e.position == position,
        e.glyph == '|',
        e.name is Some && e.name.unwrap()@ == "The Holy Grail"@,
        e.health is None && e.fov_radius is None && e.damage is None && e.map_level is None,
        !e.chasing_player && e.healing is None && !e.magic_map && !e.weapon,
{
    EntitySpawn {
        kind: EntityKind::Grail,
        position,
        glyph: '|',
        name: Some("The Holy Grail".to_owned()),
        health: None,
        fov_radius: None,
        damage: None,
        map_level: None,
        chasing_player: false,
        healing: None,
        magic_map: false,
        weapon: false,
    }
}

pub open spec fn allowed_on(t: Template, level: usize) -> bool {
    t.levels@.contains(level)
}

/// The weighted list of template indices for `level`, over the first `n`
/// templates: each allowed template appears `frequency` times in a row.
pub open spec fn weighted(es: Seq<Template>, level: usize, n: int) -> Seq<usize>
    decreases n,
{
    if n <= 0 {
        Seq::empty()
    } else {
        weighted(es, level, n - 1) + if allowed_on(es[n - 1], level) && es[n - 1].frequency > 0 {
            Seq::new(es[n - 1].frequency as nat, |k: int| (n - 1) as usize)
        } else {
            Seq::empty()
        }
    }
}

/// Which effect an effect name grants: `Some(true)` healing, `Some(false)`
/// the dungeon map, `None` an unknown name, which is ignored.
pub open spec fn effect_kind(name: Seq<char>) -> Option<bool> {
    if name == "Healing"@ {
        Some(true)
    } else if name == "MagicMap"@ {
        Some(false)
    } else {
        None
    }
}

/// The healing the effects grant: the amount of the last healing entry.
pub open spec fn healing_of(effects: Seq<(String, i32)>, n: int) -> Option<i32>
    decreases n,
{
    if n <= 0 {
        None
    } else if effect_kind(effects[n - 1].0@) == Some(true) {
        Some(effects[n - 1].1)
    } else {
        healing_of(effects, n - 1)
    }
}

pub open spec fn magic_map_of(effects: Seq<(String, i32)>) -> bool {
    exists|k: int| 0 <= k < effects.len() && effect_kind(#[trigger] effects[k].0@) == Some(false)
}

/// The healing amount and dungeon-map flag that a list of effects grants;
/// unknown effect names are ignored.
pub fn effects_of(effects: &Vec<(String, i32)>) -> (r: (Option<i32>, bool))
    ensures
        r.0 == healing_of(effects@, effects@.len() as int),
        r.1 == magic_map_of(effects@),
{
    let healing_name = "Healing".to_owned();
    let map_name = "MagicMap".to_owned();
    proof {
        reveal_strlit("Healing");
        reveal_strlit("MagicMap");
    }
    let mut healing: Option<i32> = None;
    let mut magic_map = false;
    let mut k: usize = 0;
    while k < effects.len()
        invariant
            k <= effects@.len(),
            healing_name@ == "Healing"@,
            map_name@ == "MagicMap"@,
            healing == healing_of(effects@, k as int),
            magic_map == exists|j: int|
                0 <= j < k && effect_kind(#[trigger] effects@[j].0@) == Some(false),
        decreases effects@.len() - k,
    {
        let (name, n) = &effects[k];
        if *name == healing_name {
            healing = Some(*n);
        } else if *name == map_name {
            magic_map = true;
        }
        proof {
            assert(effects@[k as int].0 == *name);
            assert(effects@[k as int].1 == *n);
            if magic_map && !(exists|j: int| 0 <= j < k && effect_kind(#[trigger] effects@[j].0@) == Some(false)) {
                assert(effect_kind(effects@[k as int].0@) == Some(false));
            }
            if exists|j: int| 0 <= j < k + 1 && effect_kind(#[trigger] effects@[j].0@) == Some(false) {
                let j = choose|j: int| 0 <= j < k + 1 && effect_kind(#[trigger] effects@[j].0@) == Some(false);
                if j == k {
                    assert(name@ == "MagicMap"@);
                }
            }
        }
        k = k + 1;
    }
    (healing, magic_map)
}

impl Template {
    /// Whether the template may appear on `level`.
    pub fn allows_level(&self, level: usize) -> (r: bool)
        ensures
            r == allowed_on(*self, level),
    {
        let mut k: usize = 0;
        while k < self.levels.len()
            invariant
                k <= self.levels@.len(),
                forall|j: int| 0 <= j < k ==> self.levels@[j] != level,
            decreases self.levels@.len() - k,
        {
            if self.levels[k] == level {
                assert(self.levels@[k as int] == level);
                return true;
            }
            k = k + 1;
        }
        false
    }

    /// The entity this template makes at `pt`. Enemies carry the template's
    /// hit points, so an enemy template must have them.
    pub fn spawn_entity(&self, pt: Point) -> (e: EntitySpawn)
        requires
            self.entity_type == EntityType::Enemy ==> self.hp is Some,
        ensures
            e.position == pt,
            e.glyph == self.glyph,
            e.name is Some && e.name.unwrap()@ == self.name@,
            self.entity_type == EntityType::Item ==> e.kind == EntityKind::Item && e.health is None
                && e.fov_radius is None && !e.chasing_player,
            self.entity_type == EntityType::Enemy ==> e.kind == EntityKind::Enemy && e.health == Some(
                Health { current: self.hp.unwrap(), max: self.hp.unwrap() },
            ) && e.fov_radius == Some(6i32) && e.chasing_player,
            e.healing == match self.provides {
                Some(v) => healing_of(v@, v@.len() as int),
                None => None,
            },
            e.magic_map == match self.provides {
                Some(v) => magic_map_of(v@),
                None => false,
            },
            e.damage == self.base_damage,
            e.weapon == (self.base_damage is Some && self.entity_type == EntityType::Item),
            e.map_level is None,
    {
        let mut e = EntitySpawn {
            kind: EntityKind::Item,
            position: pt,
            glyph: self.glyph,
            name: Some(self.name.clone()),
            health: None,
            fov_radius: None,
            damage: None,
            map_level: None,
            chasing_player: false,
            healing: None,
            magic_map: false,
            weapon: false,
        };
        match self.entity_type {
            EntityType::Item => {},
            EntityType::Enemy => {
                let hp = self.hp.unwrap();
                e.kind = EntityKind::Enemy;
                e.fov_radius = Some(6);
                e.chasing_player = true;
                e.health = Some(Health { current: hp, max: hp });
            },
        }
        match &self.provides {
            Some(effects) => {
                let (healing, magic_map) = effects_of(effects);
                e.healing = healing;
                e.magic_map = magic_map;
            },
            None => {},
        }
        match self.base_damage {
            Some(damage) => {
                e.damage = Some(damage);
                if self.entity_type == EntityType::Item {
                    e.weapon = true;
                }
            },
            None => {},
        }
        e
    }
}

impl Templates {
    /// Template indices for `level`, each allowed template repeated as
    /// often as its frequency, so a uniform draw follows the weights.
    pub fn available_entities(&self, level: usize) -> (r: Vec<usize>)
        ensures
            r@ == weighted(self.entities@, level, self.entities@.len() as int),
    {
        let mut r: Vec<usize> = Vec::new();
        let mut i: usize = 0;
        while i < self.entities.len()
            invariant
                i <= self.entities@.len(),
                r@ == weighted(self.entities@, level, i as int),
            decreases self.entities@.len() - i,
        {
            let t = &self.entities[i];
            if t.allows_level(level) && t.frequency > 0 {
                let ghost r0 = r@;
                let mut f: i32 = 0;
                while f < t.frequency
                    invariant
                        0 <= f <= t.frequency,
                        r@ == r0 + Seq::new(f as nat, |k: int| i),
                    decreases t.frequency - f,
                {
                    r.push(i);
                    assert(r@ =~= r0 + Seq::new((f + 1) as nat, |k: int| i));
                    f = f + 1;
                }
            } else {
                assert(weighted(self.entities@, level, i + 1) =~= weighted(self.entities@, level, i as int));
            }
            i = i + 1;
        }
        r
    }

    /// For each spawn point, an entity drawn from the weighted templates of
    /// `level`; nothing spawns when no template allows the level.
    pub fn spawn_entities(
        &self,
        rng: &mut RandomNumberGenerator,
        level: usize,
        spawn_points: &Vec<Point>,
    ) -> (r: Vec<EntitySpawn>)
        requires
            forall|k: int|
                0 <= k < self.entities@.len() ==> (#[trigger] self.entities@[k]).entity_type
                    == EntityType::Enemy ==> self.entities@[k].hp is Some,
        ensures
            r@.len() <= spawn_points@.len(),
            weighted(self.entities@, level, self.entities@.len() as int).len() == 0 ==> r@.len() == 0,
            weighted(self.entities@, level, self.entities@.len() as int).len() > 0 && weighted(
                self.entities@,
                level,
                self.entities@.len() as int,
            ).len() < i32::MAX ==> r@.len() == spawn_points@.len(),
            forall|k: int| 0 <= k < r@.len() ==> (#[trigger] r@[k]).position == spawn_points@[k],
            forall|k: int|
                0 <= k < r@.len() ==> exists|t: int|
                    0 <= t < self.entities@.len() && allowed_on(self.entities@[t], level)
                        && self.entities@[t].frequency > 0 && (#[trigger] r@[k]).name is Some
                        && r@[k].name.unwrap()@ == self.entities@[t].name@ && r@[k].glyph
                        == self.entities@[t].glyph,
    {
        let available = self.available_entities(level);
        let n_templates = self.entities.len();
        let mut r: Vec<EntitySpawn> = Vec::new();
        if available.len() >= 0x7fff_ffff {
            return r;
        }
        let mut k: usize = 0;
        while k < spawn_points.len()
            invariant
                k <= spawn_points@.len(),
                available@ == weighted(self.entities@, level, self.entities@.len() as int),
                available@.len() < i32::MAX,
                n_templates == self.entities@.len(),
                forall|m: int|
                    0 <= m < self.entities@.len() ==> (#[trigger] self.entities@[m]).entity_type
                        == EntityType::Enemy ==> self.entities@[m].hp is Some,
                available@.len() == 0 ==> r@.len() == 0,
                available@.len() > 0 ==> r@.len() == k,
                r@.len() <= k,
                forall|m: int| 0 <= m < r@.len() ==> (#[trigger] r@[m]).position == spawn_points@[m],
                forall|m: int|
                    0 <= m < r@.len() ==> exists|t: int|
                        0 <= t < self.entities@.len() && allowed_on(self.entities@[t], level)
                            && self.entities@[t].frequency > 0 && (#[trigger] r@[m]).name is Some
                            && r@[m].name.unwrap()@ == self.entities@[t].name@ && r@[m].glyph
                            == self.entities@[t].glyph,
            decreases spawn_points@.len() - k,
        {
            match rng::random_slice_index(rng, &available) {
                Some(pick) => {
                    let t = available[pick];
                    proof {
                        lemma_weighted_in_range(self.entities@, level, self.entities@.len() as int);
                    }
                    let e = self.entities[t].spawn_entity(spawn_points[k]);
                    let ghost r0 = r@;
                    r.push(e);
                    proof {
                        assert(r@[k as int].position == spawn_points@[k as int]);
                        assert(available@[pick as int] == t);
                        assert forall|m: int|
                            0 <= m < r@.len() implies exists|u: int|
                                0 <= u < self.entities@.len() && allowed_on(self.entities@[u], level)
                                    && self.entities@[u].frequency > 0 && (#[trigger] r@[m]).name is Some
                                    && r@[m].name.unwrap()@ == self.entities@[u].name@
                                    && r@[m].glyph == self.entities@[u].glyph by {
                            if m < r0.len() {
                                assert(r@[m] == r0[m]);
                            } else {
                                assert(r@[m] == e);
                                assert(allowed_on(self.entities@[t as int], level));
                            }
                        }
                    }
                },
                None => {},
            }
            k = k + 1;
        }
        r
    }
}

/// Every entry of the weighted list indexes one of the templates.
proof fn lemma_weighted_in_range(es: Seq<Template>, level: usize, n: int)
    requires
        0 <= n <= es.len(),
        n <= usize::MAX,
    ensures
        forall|k: int|
            0 <= k < weighted(es, level, n).len() ==> {
                let t = #[trigger] weighted(es, level, n)[k];
                t < n && allowed_on(es[t as int], level) && es[t as int].frequency > 0
            },
    decreases n,
{
    if n > 0 {
        lemma_weighted_in_range(es, level, n - 1);
        let w = weighted(es, level, n - 1);
        assert forall|k: int| 0 <= k < weighted(es, level, n).len() implies {
            let t = #[trigger] weighted(es, level, n)[k];
            t < n && allowed_on(es[t as int], level) && es[t as int].frequency > 0
        } by {
            if k >= w.len() {
                assert(weighted(es, level, n)[k] == (n - 1) as usize);
            } else {
                assert(weighted(es, level, n)[k] == w[k]);
            }
        }
    }
}

/// The entities for one level: one per spawn point, drawn from the
/// weighted templates of `level`.
pub fn spawn_level(
    templates: &Templates,
    rng: &mut RandomNumberGenerator,
    level: usize,
    spawn_points: &Vec<Point>,
) -> (r: Vec<EntitySpawn>)
    requires
        forall|k: int|
            0 <= k < templates.entities@.len() ==> (#[trigger] templates.entities@[k]).entity_type
                == EntityType::Enemy ==> templates.entities@[k].hp is Some,
    ensures
        r@.len() <= spawn_points@.len(),
        weighted(templates.entities@, level, templates.entities@.len() as int).len() == 0
            ==> r@.len() == 0,
        weighted(templates.entities@, level, templates.entities@.len() as int).len() > 0 && weighted(
            templates.entities@,
            level,
            templates.entities@.len() as int,
        ).len() < i32::MAX ==> r@.len() == spawn_points@.len(),
        forall|k: int| 0 <= k < r@.len() ==> (#[trigger] r@[k]).position == spawn_points@[k],
        forall|k: int|
            0 <= k < r@.len() ==> exists|t: int|
                0 <= t < templates.entities@.len() && allowed_on(templates.entities@[t], level)
                    && templates.entities@[t].frequency > 0 && (#[trigger] r@[k]).name is Some
                    && r@[k].name.unwrap()@ == templates.entities@[t].name@ && r@[k].glyph
                    == templates.entities@[t].glyph,
{
    templates.spawn_entities(rng, level, spawn_points)
}

} // verus!
