//! The room populator: fixed entity definitions for the player and for the
//! monsters the builders place in their accepted rooms.

use vstd::prelude::*;

use crate::components::{CombatStats, HungerClock, HungerState, Position, Renderable, Rgb, Viewshed};
use crate::map_builders::{lemma_center_in_interior, room_ok};
use crate::rect::Rect;
use crate::world::{EntityRecord, World};

verus! {

pub const PLAYER_MAX_HP: i32 = 30;
pub const MONSTER_MAX_HP: i32 = 16;
pub const SIGHT_RANGE: i32 = 8;

/// What the player-controlled entity's record looks like on spawn.
pub open spec fn is_player_at(rec: EntityRecord, pos: Position) -> bool {
    &&& rec.alive
    &&& rec.player
    &&& !rec.monster
    &&& !rec.blocks_tile
    &&& !rec.item
    &&& !rec.hidden
    &&& !rec.entry_trigger
    &&& !rec.entity_moved
    &&& rec.position == Some(pos)
    &&& rec.viewshed matches Some(v) && v.range == SIGHT_RANGE && v.dirty && v.visible_tiles@.len()
        == 0
    &&& rec.combat_stats == Some(
        CombatStats { max_hp: PLAYER_MAX_HP, hp: PLAYER_MAX_HP, defense: 2, power: 5 },
    )
    &&& rec.suffer_damage@.len() == 0
    &&& rec.wants_to_melee is None
    &&& rec.wants_to_pickup is None
    &&& rec.wants_to_use is None
    &&& rec.ranged is None
    &&& rec.hunger_clock == Some(HungerClock { state: HungerState::WellFed, duration: 20 })
    &&& rec.name matches Some(n) && n@ == "Player"@
}

/// What a freshly spawned monster's record looks like.
pub open spec fn is_monster_at(rec: EntityRecord, pos: Position) -> bool {
    &&& rec.alive
    &&& !rec.player
    &&& rec.monster
    &&& rec.blocks_tile
    &&& !rec.item
    &&& !rec.hidden
    &&& !rec.entry_trigger
    &&& !rec.entity_moved
    &&& rec.position == Some(pos)
    &&& rec.viewshed matches Some(v) && v.range == SIGHT_RANGE && v.dirty && v.visible_tiles@.len()
        == 0
    &&& rec.combat_stats == Some(
        CombatStats { max_hp: MONSTER_MAX_HP, hp: MONSTER_MAX_HP, defense: 1, power: 4 },
    )
    &&& rec.suffer_damage@.len() == 0
    &&& rec.wants_to_melee is None
    &&& rec.wants_to_pickup is None
    &&& rec.wants_to_use is None
    &&& rec.ranged is None
    &&& rec.name matches Some(n) && n@ == "Monster"@
}

/// Spawn the player-controlled entity at (x, y).
pub fn player(ecs: &mut World, player_x: i32, player_y: i32) -> (e: usize)
    ensures
        e == old(ecs).entities@.len(),
        final(ecs).entities@.len() == old(ecs).entities@.len() + 1,
        forall|j: int|
            0 <= j < old(ecs).entities@.len() ==> final(ecs).entities@[j] == old(ecs).entities@[j],
        is_player_at(final(ecs).entities@[e as int], Position { x: player_x, y: player_y }),
{
    let mut rec = EntityRecord::new();
    rec.alive = true;
    rec.player = true;
    rec.position = Some(Position { x: player_x, y: player_y });
    rec.viewshed = Some(Viewshed { visible_tiles: Vec::new(), range: SIGHT_RANGE, dirty: true });
    rec.combat_stats = Some(
        CombatStats { max_hp: PLAYER_MAX_HP, hp: PLAYER_MAX_HP, defense: 2, power: 5 },
    );
    rec.hunger_clock = Some(HungerClock { state: HungerState::WellFed, duration: 20 });
    rec.renderable = Some(
        Renderable {
            glyph: 64,
            fg: Rgb { r: 255, g: 255, b: 0 },
            bg: Rgb { r: 0, g: 0, b: 0 },
            render_order: 0,
        },
    );
    rec.name = Some("Player".to_owned());
    ecs.create_entity(rec)
}

/// Spawn a monster at (x, y): it blocks its tile, watches with a dirty
/// viewshed, and fights with fixed stats.
pub fn spawn_monster(ecs: &mut World, x: i32, y: i32) -> (e: usize)
    ensures
        e == old(ecs).entities@.len(),
        final(ecs).entities@.len() == old(ecs).entities@.len() + 1,
        forall|j: int|
            0 <= j < old(ecs).entities@.len() ==> final(ecs).entities@[j] == old(ecs).entities@[j],
        is_monster_at(final(ecs).entities@[e as int], Position { x: x, y: y }),
{
    let mut rec = EntityRecord::new();
    rec.alive = true;
    rec.monster = true;
    rec.blocks_tile = true;
    rec.position = Some(Position { x: x, y: y });
    rec.viewshed = Some(Viewshed { visible_tiles: Vec::new(), range: SIGHT_RANGE, dirty: true });
    rec.combat_stats = Some(
        CombatStats { max_hp: MONSTER_MAX_HP, hp: MONSTER_MAX_HP, defense: 1, power: 4 },
    );
    rec.renderable = Some(
        Renderable {
            glyph: 103,
            fg: Rgb { r: 255, g: 0, b: 0 },
            bg: Rgb { r: 0, g: 0, b: 0 },
            render_order: 1,
        },
    );
    rec.name = Some("Monster".to_owned());
    ecs.create_entity(rec)
}

/// Populate one accepted room: a single monster at its centre.
pub fn spawn_room(ecs: &mut World, room: &Rect) -> (e: usize)
    requires
        room_ok(*room),
    ensures
        e == old(ecs).entities@.len(),
        final(ecs).entities@.len() == old(ecs).entities@.len() + 1,
        forall|j: int|
            0 <= j < old(ecs).entities@.len() ==> final(ecs).entities@[j] == old(ecs).entities@[j],
        is_monster_at(final(ecs).entities@[e as int], room.spec_center()),
{
    proof {
        lemma_center_in_interior(*room);
    }
    let c = room.center();
    spawn_monster(ecs, c.x, c.y)
}

} // verus!
