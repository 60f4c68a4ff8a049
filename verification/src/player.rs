//! Player action resolution: moving (and bumping into something that can
//! fight back), waiting, picking an item up, and descending the stairs.
//! The keystroke itself is mapped to a command by the input collaborator.

use vstd::prelude::*;

use crate::components::{CombatStats, Position, WantsToPickupItem};
use crate::gamelog::LogEntry;
use crate::map::{spec_idx, GameMap, TileType, MAPCOUNT};
use crate::state::{InputCommand, RunState, State};
use crate::world::EntityRecord;

verus! {

/// The first occupant of a tile that can fight back, in handle order: the
/// melee target a bump selects.
pub open spec fn first_combat_occupant(w: Seq<EntityRecord>, s: Seq<usize>) -> Option<usize>
    decreases s.len(),
{
    if s.len() == 0 {
        None
    } else if w[s[0] as int].combat_stats is Some {
        Some(s[0])
    } else {
        first_combat_occupant(w, s.drop_first())
    }
}

/// The last registry entity carrying the item tag that stands at `pos`:
/// what a pickup grabs.
pub open spec fn last_item_at(w: Seq<EntityRecord>, pos: Position) -> Option<usize>
    decreases w.len(),
{
    if w.len() == 0 {
        None
    } else if {
        let r = w[w.len() - 1];
        r.alive && r.item && r.position == Some(pos)
    } {
        Some((w.len() - 1) as usize)
    } else {
        last_item_at(w.drop_last(), pos)
    }
}

/// Whether the destination of a step lies in the interior the walker may
/// enter.
pub open spec fn move_dest_ok(map: GameMap, p: Position, dx: int, dy: int) -> bool {
    1 <= p.x + dx < map.width && 1 <= p.y + dy < map.height
}

/// `b` is `a` moved to `dest`: position updated, the moved marker set, the
/// viewshed marked dirty, everything else untouched.
pub open spec fn moved_to(a: EntityRecord, b: EntityRecord, dest: Position) -> bool {
    &&& b.position == Some(dest)
    &&& b.entity_moved
    &&& (a.viewshed matches Some(va) && b.viewshed == Some(
        crate::components::Viewshed {
            visible_tiles: va.visible_tiles,
            range: va.range,
            dirty: true,
        },
    ))
    &&& b.alive == a.alive
    &&& b.player == a.player
    &&& b.monster == a.monster
    &&& b.item == a.item
    &&& b.blocks_tile == a.blocks_tile
    &&& b.hidden == a.hidden
    &&& b.entry_trigger == a.entry_trigger
    &&& b.single_activation == a.single_activation
    &&& b.combat_stats == a.combat_stats
    &&& b.suffer_damage@ == a.suffer_damage@
    &&& b.wants_to_melee == a.wants_to_melee
    &&& b.wants_to_pickup == a.wants_to_pickup
    &&& b.wants_to_use == a.wants_to_use
    &&& b.wants_to_drop == a.wants_to_drop
    &&& b.wants_to_remove == a.wants_to_remove
    &&& b.ranged == a.ranged
    &&& b.in_backpack == a.in_backpack
    &&& b.equipped == a.equipped
    &&& b.inflicts_damage == a.inflicts_damage
    &&& b.hunger_clock == a.hunger_clock
    &&& b.renderable == a.renderable
    &&& b.name == a.name
}

/// Try to move the player one step. A destination outside the walkable
/// interior does nothing; a destination with an occupant that can fight
/// back writes a melee intent instead of moving; a blocked destination
/// does nothing; otherwise the player steps there, its viewshed goes
/// dirty, and the moved marker is set.
#[verifier::loop_isolation(false)]
pub fn try_move_player(delta_x: i32, delta_y: i32, gs: &mut State)
    requires
        old(gs).wf(),
        -1 <= delta_x <= 1,
        -1 <= delta_y <= 1,
    ensures
        final(gs).wf(),
        final(gs).map == old(gs).map,
        final(gs).log.entries@ == old(gs).log.entries@,
        final(gs).run_state == old(gs).run_state,
        final(gs).player_entity == old(gs).player_entity,
        final(gs).ecs.entities@.len() == old(gs).ecs.entities@.len(),
        forall|e: int|
            0 <= e < old(gs).ecs.entities@.len() && e != old(gs).player_entity
                ==> #[trigger] final(gs).ecs.entities@[e] == old(gs).ecs.entities@[e],
        ({
            let p0 = old(gs).player_pos;
            let dest = Position { x: (p0.x + delta_x) as i32, y: (p0.y + delta_y) as i32 };
            let didx = spec_idx(dest.x as int, dest.y as int);
            if !move_dest_ok(old(gs).map, p0, delta_x as int, delta_y as int) {
                final(gs).ecs.entities@ == old(gs).ecs.entities@ && final(gs).player_pos == p0
            } else if first_combat_occupant(
                old(gs).ecs.entities@,
                old(gs).map.tile_content@[didx]@,
            ) is Some {
                let target = first_combat_occupant(
                    old(gs).ecs.entities@,
                    old(gs).map.tile_content@[didx]@,
                )->Some_0;
                &&& final(gs).player_pos == p0
                &&& final(gs).ecs.entities@ == old(gs).ecs.entities@.update(
                    old(gs).player_entity as int,
                    final(gs).player_rec(),
                )
                &&& final(gs).player_rec() == (EntityRecord {
                    wants_to_melee: Some(target),
                    ..old(gs).player_rec()
                })
            } else if !old(gs).map.blocked@[didx] {
                &&& final(gs).player_pos == dest
                &&& moved_to(old(gs).player_rec(), final(gs).player_rec(), dest)
            } else {
                final(gs).ecs.entities@ == old(gs).ecs.entities@ && final(gs).player_pos == p0
            }
        }),
{
    let pe = gs.player_entity;
    let pos = gs.player_pos;

    if pos.x + delta_x < 1 || pos.x + delta_x > gs.map.width - 1 || pos.y + delta_y < 1 || pos.y
        + delta_y > gs.map.height - 1 {
        return ;
    }
    let destination_idx = gs.map.xy_idx(pos.x + delta_x, pos.y + delta_y);

    let ghost w = gs.ecs.entities@;
    let ghost occ = gs.map.tile_content@[destination_idx as int]@;
    let occupants = gs.map.tile_content[destination_idx].len();
    proof {
        assert(occ.skip(0) =~= occ);
    }
    let mut k: usize = 0;
    while k < occupants
        invariant
            k <= occupants,
            occupants == occ.len(),
            occ == gs.map.tile_content@[destination_idx as int]@,
            destination_idx < MAPCOUNT,
            gs == old(gs),
            first_combat_occupant(w, occ) == first_combat_occupant(w, occ.skip(k as int)),
        decreases occupants - k,
    {
        let potential_target = gs.map.tile_content[destination_idx][k];
        let has_stats = gs.ecs.entities[potential_target].combat_stats.is_some();
        proof {
            assert(occ.skip(k as int)[0] == occ[k as int]);
            assert(occ.skip(k as int).drop_first() =~= occ.skip(k + 1));
        }
        if has_stats {
            let prec = &mut gs.ecs.entities[pe];
            prec.wants_to_melee = Some(potential_target);
            proof {
                assert(first_combat_occupant(w, occ) == Some(potential_target));
            }
            return ;
        }
        k = k + 1;
    }
    proof {
        assert(occ.skip(occupants as int) =~= Seq::<usize>::empty());
        assert(first_combat_occupant(w, occ) is None);
    }

    if !gs.map.blocked[destination_idx] {
        let new_x = if pos.x + delta_x > 0 {
            if pos.x + delta_x < 79 {
                pos.x + delta_x
            } else {
                79
            }
        } else {
            0
        };
        let new_y = if pos.y + delta_y > 0 {
            if pos.y + delta_y < 49 {
                pos.y + delta_y
            } else {
                49
            }
        } else {
            0
        };
        let prec = &mut gs.ecs.entities[pe];
        prec.position = Some(Position { x: new_x, y: new_y });
        prec.entity_moved = true;
        if let Some(vs) = &mut prec.viewshed {
            vs.dirty = true;
        }
        gs.player_pos = Position { x: new_x, y: new_y };
    }
}

/// Whether some monster stands on a tile of the occupant list at `idx`.
pub open spec fn tile_has_monster(map: GameMap, w: Seq<EntityRecord>, idx: int) -> bool {
    exists|k: int|
        0 <= k < map.tile_content@[idx]@.len() && w[#[trigger] map.tile_content@[idx]@[k] as int].monster
}

/// Whether any monster stands on a tile the player currently sees.
pub open spec fn monster_visible(gs: State) -> bool {
    exists|t: int|
        #![trigger gs.player_rec().viewshed->Some_0.visible_tiles@[t]]
        0 <= t < gs.player_rec().viewshed->Some_0.visible_tiles@.len() && tile_has_monster(
            gs.map,
            gs.ecs.entities@,
            spec_idx(
                gs.player_rec().viewshed->Some_0.visible_tiles@[t].x as int,
                gs.player_rec().viewshed->Some_0.visible_tiles@[t].y as int,
            ),
        )
}

/// Whether waiting heals: no monster in sight and the player not hungry or
/// starving.
pub open spec fn spec_can_heal(gs: State) -> bool {
    &&& !monster_visible(gs)
    &&& (gs.player_rec().hunger_clock matches Some(hc) ==> hc.state
        != crate::components::HungerState::Hungry && hc.state
        != crate::components::HungerState::Starving)
}

/// Wait in place. When no monster is in sight and the player is neither
/// hungry nor starving, the rest heals one hit point, capped at the
/// maximum; the turn is consumed either way.
#[verifier::loop_isolation(false)]
#[verifier::rlimit(60)]
fn skip_turn(gs: &mut State) -> (r: RunState)
    requires
        old(gs).wf(),
        old(gs).player_rec().combat_stats->Some_0.hp < i32::MAX,
    ensures
        final(gs).wf(),
        r == RunState::PlayerTurn,
        final(gs).map == old(gs).map,
        final(gs).log.entries@ == old(gs).log.entries@,
        final(gs).player_pos == old(gs).player_pos,
        final(gs).ecs.entities@.len() == old(gs).ecs.entities@.len(),
        forall|e: int|
            0 <= e < old(gs).ecs.entities@.len() && e != old(gs).player_entity
                ==> #[trigger] final(gs).ecs.entities@[e] == old(gs).ecs.entities@[e],
        ({
            let s0 = old(gs).player_rec().combat_stats->Some_0;
            let s1 = final(gs).player_rec().combat_stats->Some_0;
            &&& s1.max_hp == s0.max_hp
            &&& s1.defense == s0.defense
            &&& s1.power == s0.power
            &&& s1.hp == (if spec_can_heal(*old(gs)) && s0.hp + 1 <= s0.max_hp {
                s0.hp + 1
            } else if spec_can_heal(*old(gs)) {
                s0.max_hp as int
            } else {
                s0.hp as int
            })
        }),
        final(gs).ecs.entities@ == old(gs).ecs.entities@.update(
            old(gs).player_entity as int,
            final(gs).player_rec(),
        ),
        ({
            let a = old(gs).player_rec();
            let b = final(gs).player_rec();
            &&& b.position == a.position
            &&& b.viewshed == a.viewshed
            &&& b.wants_to_pickup == a.wants_to_pickup
    &&& b.wants_to_use == a.wants_to_use
    &&& b.wants_to_drop == a.wants_to_drop
    &&& b.wants_to_remove == a.wants_to_remove
    &&& b.ranged == a.ranged
            &&& b.alive == a.alive
            &&& b.player == a.player
        }),
{
    let pe = gs.player_entity;
    let ghost w = gs.ecs.entities@;
    let tiles_len = match &gs.ecs.entities[pe].viewshed {
        Some(vs) => vs.visible_tiles.len(),
        None => 0,
    };

    let mut can_heal = true;
    let mut t: usize = 0;
    while t < tiles_len
        invariant
            t <= tiles_len,
            gs == old(gs),
            pe == gs.player_entity,
            tiles_len == gs.player_rec().viewshed->Some_0.visible_tiles@.len(),
            can_heal == !(exists|u: int|
                #![trigger gs.player_rec().viewshed->Some_0.visible_tiles@[u]]
                0 <= u < t && tile_has_monster(
                    gs.map,
                    gs.ecs.entities@,
                    spec_idx(
                        gs.player_rec().viewshed->Some_0.visible_tiles@[u].x as int,
                        gs.player_rec().viewshed->Some_0.visible_tiles@[u].y as int,
                    ),
                )),
        decreases tiles_len - t,
    {
        let tile = match &gs.ecs.entities[pe].viewshed {
            Some(vs) => vs.visible_tiles[t],
            None => Position { x: 0, y: 0 },
        };
        let idx = gs.map.xy_idx(tile.x, tile.y);
        let occupants = gs.map.tile_content[idx].len();
        let mut o: usize = 0;
        let mut monster_here = false;
        while o < occupants
            invariant
                o <= occupants,
                gs == old(gs),
                idx < MAPCOUNT,
                occupants == gs.map.tile_content@[idx as int]@.len(),
                monster_here == (exists|k: int|
                    0 <= k < o && gs.ecs.entities@[#[trigger] gs.map.tile_content@[idx as int]@[k] as int].monster),
            decreases occupants - o,
        {
            let entity_id = gs.map.tile_content[idx][o];
            if gs.ecs.entities[entity_id].monster {
                monster_here = true;
            }
            o = o + 1;
        }
        proof {
            assert(monster_here == tile_has_monster(gs.map, gs.ecs.entities@, idx as int));
        }
        if monster_here {
            can_heal = false;
        }
        t = t + 1;
    }

    if let Some(hc) = &gs.ecs.entities[pe].hunger_clock {
        match hc.state {
            crate::components::HungerState::Hungry => {
                can_heal = false;
            },
            crate::components::HungerState::Starving => {
                can_heal = false;
            },
            _ => {},
        }
    }

    proof {
        assert(can_heal == spec_can_heal(*gs));
    }

    if can_heal {
        let prec = &mut gs.ecs.entities[pe];
        if let Some(stats) = prec.combat_stats {
            let healed = if stats.hp + 1 < stats.max_hp {
                stats.hp + 1
            } else {
                stats.max_hp
            };
            prec.combat_stats = Some(
                CombatStats {
                    max_hp: stats.max_hp,
                    hp: healed,
                    defense: stats.defense,
                    power: stats.power,
                },
            );
        }
    } else {
        proof {
            assert(gs.ecs.entities@ =~= old(gs).ecs.entities@.update(
                old(gs).player_entity as int,
                gs.player_rec(),
            ));
        }
    }

    RunState::PlayerTurn
}

/// Pick up whatever item lies under the player: the pickup intent is
/// written for the item-collection pass, or a log line says there is
/// nothing, and the turn is not wasted on bookkeeping.
fn get_item(gs: &mut State) -> (found: bool)
    requires
        old(gs).wf(),
    ensures
        final(gs).wf(),
        final(gs).map == old(gs).map,
        final(gs).player_pos == old(gs).player_pos,
        final(gs).ecs.entities@.len() == old(gs).ecs.entities@.len(),
        found == (last_item_at(old(gs).ecs.entities@, old(gs).player_pos) is Some),
        ({
            let target = last_item_at(old(gs).ecs.entities@, old(gs).player_pos);
            if target is Some {
                let item = target->Some_0;
                &&& final(gs).player_rec() == (EntityRecord {
                    wants_to_pickup: Some(
                        WantsToPickupItem { collected_by: old(gs).player_entity, item },
                    ),
                    ..old(gs).player_rec()
                })
                &&& final(gs).ecs.entities@ == old(gs).ecs.entities@.update(
                    old(gs).player_entity as int,
                    final(gs).player_rec(),
                )
                &&& final(gs).log.entries@ == old(gs).log.entries@
            } else {
                &&& final(gs).ecs.entities@ == old(gs).ecs.entities@
                &&& final(gs).log.entries@ == old(gs).log.entries@.push(
                    LogEntry::NothingToPickUp,
                )
            }
        }),
{
    let pe = gs.player_entity;
    let player_pos = gs.player_pos;
    let ghost w = gs.ecs.entities@;
    let n = gs.ecs.entities.len();

    let mut target_item: Option<usize> = None;
    let mut e: usize = 0;
    while e < n
        invariant
            e <= n,
            n == gs.ecs.entities@.len(),
            gs == old(gs),
            pe == gs.player_entity,
            player_pos == gs.player_pos,
            target_item == last_item_at(gs.ecs.entities@.take(e as int), player_pos),
        decreases n - e,
    {
        let rec = &gs.ecs.entities[e];
        let here = rec.alive && rec.item && match rec.position {
            Some(p) => p.x == player_pos.x && p.y == player_pos.y,
            None => false,
        };
        proof {
            assert(gs.ecs.entities@.take(e + 1).drop_last() =~= gs.ecs.entities@.take(e as int));
            assert(gs.ecs.entities@.take(e + 1).last() == gs.ecs.entities@[e as int]);
            if here {
                assert(gs.ecs.entities@[e as int].position == Some(player_pos));
            }
        }
        if here {
            target_item = Some(e);
        }
        e = e + 1;
    }
    proof {
        assert(gs.ecs.entities@.take(n as int) =~= gs.ecs.entities@);
    }

    match target_item {
        Some(item) => {
            proof {
                lemma_last_item_is_item(gs.ecs.entities@, player_pos);
            }
            let prec = &mut gs.ecs.entities[pe];
            prec.wants_to_pickup = Some(WantsToPickupItem { collected_by: pe, item });
            true
        },
        None => {
            gs.log.push(LogEntry::NothingToPickUp);
            false
        },
    }
}

/// Whatever `last_item_at` finds is a live, item-tagged entity standing at
/// the position, with a handle on the registry.
pub proof fn lemma_last_item_is_item(w: Seq<EntityRecord>, pos: Position)
    requires
        w.len() <= usize::MAX,
    ensures
        last_item_at(w, pos) matches Some(i) ==> i < w.len() && w[i as int].alive && w[
            i as int].item && w[i as int].position == Some(pos),
    decreases w.len(),
{
    if w.len() > 0 {
        lemma_last_item_is_item(w.drop_last(), pos);
        if !{
            let r = w[w.len() - 1];
            r.alive && r.item && r.position == Some(pos)
        } {
            assert forall|i: int| 0 <= i < w.drop_last().len() implies w.drop_last()[i] == w[i] by {}
        }
    }
}

/// Whether the tile under the player is the way down; when it is not, a
/// log line says so and no turn is consumed.
pub fn try_next_level(gs: &mut State) -> (r: bool)
    requires
        old(gs).wf(),
    ensures
        final(gs).wf(),
        r == (old(gs).map.tiles@[spec_idx(
            old(gs).player_pos.x as int,
            old(gs).player_pos.y as int,
        )] == TileType::DownStairs),
        final(gs).map == old(gs).map,
        final(gs).ecs.entities@ == old(gs).ecs.entities@,
        final(gs).player_pos == old(gs).player_pos,
        final(gs).player_entity == old(gs).player_entity,
        final(gs).run_state == old(gs).run_state,
        final(gs).particles.requests@ == old(gs).particles.requests@,
        final(gs).mapgen_next_state == old(gs).mapgen_next_state,
        final(gs).mapgen_history@ == old(gs).mapgen_history@,
        final(gs).mapgen_index == old(gs).mapgen_index,
        r ==> final(gs).log.entries@ == old(gs).log.entries@,
        !r ==> final(gs).log.entries@ == old(gs).log.entries@.push(LogEntry::NoWayDown),
{
    let player_pos = gs.player_pos;
    let player_idx = gs.map.xy_idx(player_pos.x, player_pos.y);
    if matches!(gs.map.tiles[player_idx], TileType::DownStairs) {
        true
    } else {
        gs.log.push(LogEntry::NoWayDown);
        false
    }
}

/// Resolve one tick's worth of player input: a movement key tries the
/// step, waiting may heal, a pickup writes the intent, the menu keys open
/// their menus, the period key descends when the stairs are underfoot, and
/// escape saves; no actionable key keeps the scheduler awaiting input, and
/// a soft failure — nothing underfoot to pick up, or a descend with no
/// stairs — logs its line without costing the turn.
pub fn player_input(gs: &mut State, cmd: Option<InputCommand>) -> (r: RunState)
    requires
        old(gs).wf(),
        old(gs).player_rec().combat_stats->Some_0.hp < i32::MAX,
    ensures
        final(gs).wf(),
        final(gs).map == old(gs).map,
        cmd is None ==> r == RunState::AwaitingInput && final(gs).ecs.entities@ == old(gs).ecs.entities@ && final(gs).log.entries@ == old(gs).log.entries@ && final(gs).player_pos
            == old(gs).player_pos,
        cmd == Some(InputCommand::Other) ==> r == RunState::AwaitingInput && final(gs).ecs.entities@ == old(gs).ecs.entities@ && final(gs).log.entries@ == old(gs).log.entries@
            && final(gs).player_pos == old(gs).player_pos,
        cmd == Some(InputCommand::OpenInventory) ==> r == RunState::ShowInventory,
        cmd == Some(InputCommand::DropItem) ==> r == RunState::ShowDropItem,
        cmd == Some(InputCommand::RemoveItem) ==> r == RunState::ShowRemoveItem,
        cmd == Some(InputCommand::SaveAndQuit) ==> r == RunState::SaveGame,
        (cmd == Some(InputCommand::OpenInventory) || cmd == Some(InputCommand::DropItem) || cmd
            == Some(InputCommand::RemoveItem) || cmd == Some(InputCommand::SaveAndQuit)) ==> final(gs).ecs.entities@ == old(gs).ecs.entities@ && final(gs).log.entries@ == old(gs).log.entries@
            && final(gs).player_pos == old(gs).player_pos,
        cmd == Some(InputCommand::Descend) ==> (if old(gs).map.tiles@[spec_idx(
            old(gs).player_pos.x as int,
            old(gs).player_pos.y as int,
        )] == TileType::DownStairs {
            r == RunState::NextLevel
        } else {
            r == RunState::AwaitingInput && final(gs).ecs.entities@ == old(gs).ecs.entities@
                && final(gs).player_pos == old(gs).player_pos && final(gs).log.entries@ == old(
                gs,
            ).log.entries@.push(LogEntry::NoWayDown)
        }),
        cmd == Some(InputCommand::Pickup) ==> (if last_item_at(
            old(gs).ecs.entities@,
            old(gs).player_pos,
        ) is Some {
            r == RunState::PlayerTurn
        } else {
            r == RunState::AwaitingInput && final(gs).ecs.entities@ == old(gs).ecs.entities@
                && final(gs).player_pos == old(gs).player_pos && final(gs).log.entries@ == old(
                gs,
            ).log.entries@.push(LogEntry::NothingToPickUp)
        }),
        (cmd matches Some(c) && (c == InputCommand::MoveLeft || c == InputCommand::MoveRight || c
            == InputCommand::MoveUp || c == InputCommand::MoveDown || c == InputCommand::MoveUpLeft
            || c == InputCommand::MoveUpRight || c == InputCommand::MoveDownLeft || c
            == InputCommand::MoveDownRight || c == InputCommand::SkipTurn)) ==> r
            == RunState::PlayerTurn,
{
    match cmd {
        None => {
            return RunState::AwaitingInput;
        },
        Some(key) => match key {
            InputCommand::MoveLeft => try_move_player(-1, 0, gs),
            InputCommand::MoveUpLeft => try_move_player(-1, -1, gs),
            InputCommand::MoveUp => try_move_player(0, -1, gs),
            InputCommand::MoveUpRight => try_move_player(1, -1, gs),
            InputCommand::MoveRight => try_move_player(1, 0, gs),
            InputCommand::MoveDownRight => try_move_player(1, 1, gs),
            InputCommand::MoveDown => try_move_player(0, 1, gs),
            InputCommand::MoveDownLeft => try_move_player(-1, 1, gs),
            InputCommand::SkipTurn => {
                return skip_turn(gs);
            },
            InputCommand::Pickup => {
                if get_item(gs) {
                    return RunState::PlayerTurn;
                } else {
                    return RunState::AwaitingInput;
                }
            },
            InputCommand::OpenInventory => {
                return RunState::ShowInventory;
            },
            InputCommand::DropItem => {
                return RunState::ShowDropItem;
            },
            InputCommand::RemoveItem => {
                return RunState::ShowRemoveItem;
            },
            InputCommand::Descend => {
                if try_next_level(gs) {
                    return RunState::NextLevel;
                } else {
                    return RunState::AwaitingInput;
                }
            },
            InputCommand::SaveAndQuit => {
                return RunState::SaveGame;
            },
            InputCommand::Other => {
                return RunState::AwaitingInput;
            },
        },
    }

    RunState::PlayerTurn
}

} // verus!
