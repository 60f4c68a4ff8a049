//! The shared entity registry: entities are indices into a vector of
//! records, each record a bag of optional components. Exactly one registry
//! exists per run, and every pass borrows it exclusively for its turn slice.

use vstd::prelude::*;

use crate::components::{
    CombatStats, Equipped, HungerClock, InBackpack, Position, Renderable, Viewshed,
    WantsToPickupItem, WantsToUseItem,
};

verus! {

/// One entity: a liveness flag, capability tags, and optional components.
pub struct EntityRecord {
    pub alive: bool,
    pub player: bool,
    pub monster: bool,
    pub item: bool,
    pub blocks_tile: bool,
    pub hidden: bool,
    pub entry_trigger: bool,
    pub single_activation: bool,
    pub entity_moved: bool,
    pub position: Option<Position>,
    pub viewshed: Option<Viewshed>,
    pub combat_stats: Option<CombatStats>,
    pub suffer_damage: Vec<i32>,
    pub wants_to_melee: Option<usize>,
    pub wants_to_pickup: Option<WantsToPickupItem>,
    pub wants_to_use: Option<WantsToUseItem>,
    pub wants_to_drop: Option<usize>,
    pub wants_to_remove: Option<usize>,
    pub ranged: Option<i32>,
    pub in_backpack: Option<InBackpack>,
    pub equipped: Option<Equipped>,
    pub inflicts_damage: Option<i32>,
    pub hunger_clock: Option<HungerClock>,
    pub renderable: Option<Renderable>,
    pub name: Option<String>,
}

/// A record that carries nothing: dead, no tags, no components.
pub open spec fn is_cleared(rec: EntityRecord) -> bool {
    &&& !rec.alive
    &&& !rec.player
    &&& !rec.monster
    &&& !rec.item
    &&& !rec.blocks_tile
    &&& !rec.hidden
    &&& !rec.entry_trigger
    &&& !rec.single_activation
    &&& !rec.entity_moved
    &&& rec.position is None
    &&& rec.viewshed is None
    &&& rec.combat_stats is None
    &&& rec.suffer_damage@.len() == 0
    &&& rec.wants_to_melee is None
    &&& rec.wants_to_pickup is None
    &&& rec.wants_to_use is None
    &&& rec.wants_to_drop is None
    &&& rec.wants_to_remove is None
    &&& rec.ranged is None
    &&& rec.in_backpack is None
    &&& rec.equipped is None
    &&& rec.inflicts_damage is None
    &&& rec.hunger_clock is None
    &&& rec.renderable is None
    &&& rec.name is None
}

impl EntityRecord {
    /// An empty, dead record: the starting point of every spawn.
    pub fn new() -> (rec: EntityRecord)
        ensures
            is_cleared(rec),
    {
        EntityRecord {
            alive: false,
            player: false,
            monster: false,
            item: false,
            blocks_tile: false,
            hidden: false,
            entry_trigger: false,
            single_activation: false,
            entity_moved: false,
            position: None,
            viewshed: None,
            combat_stats: None,
            suffer_damage: Vec::new(),
            wants_to_melee: None,
            wants_to_pickup: None,
            wants_to_use: None,
            wants_to_drop: None,
            wants_to_remove: None,
            ranged: None,
            in_backpack: None,
            equipped: None,
            inflicts_damage: None,
            hunger_clock: None,
            renderable: None,
            name: None,
        }
    }
}

/// Every living entity's position lies on the grid.
pub open spec fn positions_in_bounds(w: Seq<EntityRecord>) -> bool {
    forall|e: int|
        0 <= e < w.len() && (#[trigger] w[e]).alive ==> (w[e].position matches Some(p) ==> 0 <= p.x
            < crate::map::MAPWIDTH && 0 <= p.y < crate::map::MAPHEIGHT)
}

/// Every handle in the map's occupancy index points into the registry.
pub open spec fn content_valid(map: crate::map::GameMap, w: Seq<EntityRecord>) -> bool {
    forall|i: int, k: int|
        0 <= i < map.tile_content@.len() && 0 <= k < map.tile_content@[i]@.len() ==> (
        #[trigger] map.tile_content@[i]@[k]) < w.len()
}

/// The registry of all entities. A handle is an index into `entities`;
/// handles of deleted entities stay valid but point at cleared records.
pub struct World {
    pub entities: Vec<EntityRecord>,
}

impl World {
    pub fn new() -> (w: World)
        ensures
            w.entities@.len() == 0,
    {
        World { entities: Vec::new() }
    }

    /// The number of entity slots ever created.
    pub fn len(&self) -> (n: usize)
        ensures
            n == self.entities@.len(),
    {
        self.entities.len()
    }

    /// Add an entity and hand back its handle.
    pub fn create_entity(&mut self, rec: EntityRecord) -> (e: usize)
        ensures
            final(self).entities@ == old(self).entities@.push(rec),
            e == old(self).entities@.len(),
    {
        let e = self.entities.len();
        self.entities.push(rec);
        e
    }

    /// Remove an entity from the world: its record is cleared, every other
    /// record is untouched, and no handle moves.
    pub fn delete_entity(&mut self, e: usize)
        requires
            e < old(self).entities@.len(),
        ensures
            final(self).entities@.len() == old(self).entities@.len(),
            is_cleared(final(self).entities@[e as int]),
            forall|j: int|
                0 <= j < old(self).entities@.len() && j != e ==> final(self).entities@[j] == old(
                    self,
                ).entities@[j],
    {
        self.entities[e] = EntityRecord::new();
    }
}

} // verus!
