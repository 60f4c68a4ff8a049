//! The per-turn passes and the run-state scheduler, driven through the
//! public interface with hand-built worlds and with freshly generated
//! games.

use dungeon_core::components::{CombatStats, ParticleBuilder, Position, Viewshed};
use dungeon_core::gamelog::{GameLog, LogEntry};
use dungeon_core::map::{GameMap, TileType, MAPCOUNT, MAPWIDTH};
use dungeon_core::map_builders::apply_room_to_map;
use dungeon_core::player::try_move_player;
use dungeon_core::rect::Rect;
use dungeon_core::state::{
    GameOverResult, InputCommand, ItemMenuResult, MainMenuResult, MainMenuSelection, RunState,
    State, TickAction, TickEvent,
};
use dungeon_core::systems::damage_system::{delete_the_dead, DamageSystem};
use dungeon_core::systems::inventory_system::ItemCollectionSystem;
use dungeon_core::systems::map_indexing_system::MapIndexingSystem;
use dungeon_core::systems::trigger_system::TriggerSystem;
use dungeon_core::systems::visibility_system::{FovUpdate, VisibilitySystem};
use dungeon_core::world::{EntityRecord, World};

fn idx(x: i32, y: i32) -> usize {
    (y as usize) * MAPWIDTH + (x as usize)
}

fn open_map() -> GameMap {
    let mut map = GameMap::new(1);
    let room = Rect::with_size(4, 4, 20, 20);
    apply_room_to_map(&mut map, &room);
    map
}

fn fighter_at(x: i32, y: i32, hp: i32) -> EntityRecord {
    let mut rec = EntityRecord::new();
    rec.alive = true;
    rec.position = Some(Position { x, y });
    rec.combat_stats = Some(CombatStats { max_hp: 16, hp, defense: 1, power: 4 });
    rec
}

#[test]
fn indexing_pass_is_idempotent_without_movement() {
    let mut map = open_map();
    let mut ecs = World::new();
    let mut blocker = fighter_at(10, 10, 16);
    blocker.blocks_tile = true;
    ecs.create_entity(blocker);
    ecs.create_entity(fighter_at(10, 10, 16));
    ecs.create_entity(fighter_at(12, 12, 16));

    MapIndexingSystem::run(&mut map, &ecs);
    let blocked_once = map.blocked.clone();
    let content_once: Vec<Vec<usize>> = map.tile_content.clone();

    MapIndexingSystem::run(&mut map, &ecs);
    assert_eq!(map.blocked, blocked_once);
    assert_eq!(map.tile_content, content_once);

    assert_eq!(map.tile_content[idx(10, 10)], vec![0, 1]);
    assert_eq!(map.tile_content[idx(12, 12)], vec![2]);
    assert!(map.blocked[idx(10, 10)]);
    assert!(!map.blocked[idx(12, 12)]);
}

#[test]
fn damage_pass_drains_queues_into_hit_points() {
    let mut ecs = World::new();
    let mut hurt = fighter_at(10, 10, 16);
    hurt.suffer_damage = vec![3, 4];
    ecs.create_entity(hurt);

    DamageSystem::run(&mut ecs);
    let rec = &ecs.entities[0];
    assert_eq!(rec.combat_stats.unwrap().hp, 9);
    assert!(rec.suffer_damage.is_empty());
}

#[test]
fn entity_with_one_hit_point_taking_one_damage_is_removed() {
    let mut ecs = World::new();
    let mut victim = fighter_at(10, 10, 1);
    victim.suffer_damage = vec![1];
    ecs.create_entity(victim);

    DamageSystem::run(&mut ecs);
    assert_eq!(ecs.entities[0].combat_stats.unwrap().hp, 0);

    let player_died = delete_the_dead(&mut ecs);
    assert!(!player_died);
    assert!(!ecs.entities[0].alive);
    assert!(ecs.entities[0].combat_stats.is_none());
}

#[test]
fn dead_player_is_kept_and_reported() {
    let mut ecs = World::new();
    let mut player = fighter_at(10, 10, 0);
    player.player = true;
    ecs.create_entity(player);

    let player_died = delete_the_dead(&mut ecs);
    assert!(player_died);
    assert!(ecs.entities[0].alive);
}

#[test]
fn trigger_pass_springs_a_trap_under_a_mover() {
    let mut map = open_map();
    let mut ecs = World::new();
    let mut mover = fighter_at(10, 10, 16);
    mover.entity_moved = true;
    ecs.create_entity(mover);

    let mut trap = EntityRecord::new();
    trap.alive = true;
    trap.position = Some(Position { x: 10, y: 10 });
    trap.entry_trigger = true;
    trap.hidden = true;
    trap.single_activation = true;
    trap.inflicts_damage = Some(6);
    trap.name = Some("Trap".to_owned());
    ecs.create_entity(trap);

    MapIndexingSystem::run(&mut map, &ecs);
    let mut log = GameLog::new();
    let mut particles = ParticleBuilder::new();
    TriggerSystem::run(&map, &mut ecs, &mut log, &mut particles);

    assert_eq!(ecs.entities[0].suffer_damage, vec![6]);
    assert!(!ecs.entities[0].entity_moved);
    assert!(!ecs.entities[1].alive, "single-activation trap is deleted");
    assert_eq!(particles.requests.len(), 1);
    assert_eq!(particles.requests[0].x, 10);
    assert!(matches!(log.entries[0], LogEntry::Triggers { .. }));
}

#[test]
fn trigger_pass_is_a_no_op_when_nothing_moved() {
    let map = open_map();
    let mut ecs = World::new();
    ecs.create_entity(fighter_at(10, 10, 16));
    let mut log = GameLog::new();
    let mut particles = ParticleBuilder::new();
    TriggerSystem::run(&map, &mut ecs, &mut log, &mut particles);
    assert!(ecs.entities[0].alive);
    assert!(ecs.entities[0].suffer_damage.is_empty());
    assert!(log.entries.is_empty());
    assert!(particles.requests.is_empty());
}

#[test]
fn visibility_pass_reveals_what_the_player_sees_and_keeps_it() {
    let mut map = open_map();
    map.revealed_tiles[idx(30, 30)] = true;

    let mut ecs = World::new();
    let mut player = fighter_at(10, 10, 30);
    player.player = true;
    player.viewshed = Some(Viewshed { visible_tiles: Vec::new(), range: 8, dirty: true });
    ecs.create_entity(player);

    let mut rng = bracket_lib::prelude::RandomNumberGenerator::new();
    let mut log = GameLog::new();
    let fov = vec![FovUpdate {
        entity: 0,
        tiles: vec![
            Position { x: 10, y: 10 },
            Position { x: 11, y: 10 },
            Position { x: -3, y: 99 },
        ],
    }];
    VisibilitySystem::run(&mut map, &mut ecs, &mut rng, &mut log, &fov);

    assert!(map.visible_tiles[idx(10, 10)]);
    assert!(map.visible_tiles[idx(11, 10)]);
    assert!(!map.visible_tiles[idx(12, 10)]);
    // Everything visible is revealed, and old reveals are kept.
    for i in 0..MAPCOUNT {
        if map.visible_tiles[i] {
            assert!(map.revealed_tiles[i]);
        }
    }
    assert!(map.revealed_tiles[idx(30, 30)]);

    // The viewshed stored only the in-bounds tiles and is clean again.
    let vs = ecs.entities[0].viewshed.as_ref().unwrap();
    assert!(!vs.dirty);
    assert_eq!(vs.visible_tiles.len(), 2);
}

#[test]
fn pickup_intent_moves_the_item_into_the_backpack() {
    let mut ecs = World::new();
    let mut player = fighter_at(10, 10, 30);
    player.player = true;
    ecs.create_entity(player);

    let mut potion = EntityRecord::new();
    potion.alive = true;
    potion.item = true;
    potion.position = Some(Position { x: 10, y: 10 });
    potion.name = Some("Potion".to_owned());
    ecs.create_entity(potion);

    ecs.entities[0].wants_to_pickup = Some(dungeon_core::components::WantsToPickupItem {
        collected_by: 0,
        item: 1,
    });

    let mut log = GameLog::new();
    ItemCollectionSystem::run(&mut ecs, &mut log, 0);

    assert!(ecs.entities[0].wants_to_pickup.is_none());
    assert!(ecs.entities[1].position.is_none());
    assert_eq!(ecs.entities[1].in_backpack.unwrap().owner, 0);
    assert!(matches!(log.entries[0], LogEntry::PickedUp { .. }));
}

#[test]
fn awaiting_input_with_no_key_is_a_self_loop() {
    let mut gs = State::new();
    gs.run_state = RunState::AwaitingInput;
    let entities_before = gs.ecs.entities.len();
    let log_before = gs.log.entries.len();
    let depth_before = gs.map.depth;

    let action = gs.tick(TickEvent::Key { cmd: None }, &Vec::new());

    assert!(matches!(action, TickAction::Nothing));
    assert!(matches!(gs.run_state, RunState::AwaitingInput));
    assert_eq!(gs.ecs.entities.len(), entities_before);
    assert_eq!(gs.log.entries.len(), log_before);
    assert_eq!(gs.map.depth, depth_before);
}

#[test]
fn next_level_heals_to_at_least_half_and_descends() {
    let mut gs = State::new();
    let pe = gs.player_entity;
    let stats = gs.ecs.entities[pe].combat_stats.unwrap();
    assert_eq!(stats.max_hp, 30);
    gs.ecs.entities[pe].combat_stats =
        Some(CombatStats { max_hp: 30, hp: 10, defense: stats.defense, power: stats.power });
    gs.run_state = RunState::NextLevel;
    assert_eq!(gs.map.depth, 1);

    let action = gs.tick(TickEvent::Nothing, &Vec::new());

    assert!(matches!(action, TickAction::Nothing));
    assert_eq!(gs.map.depth, 2);
    let healed = gs.ecs.entities[pe].combat_stats.unwrap();
    assert_eq!(healed.hp, 15);
    assert_eq!(healed.max_hp, 30);
    assert!(matches!(gs.run_state, RunState::PreRun));
}

#[test]
fn dead_player_steers_the_run_to_game_over() {
    let mut gs = State::new();
    let pe = gs.player_entity;
    gs.ecs.entities[pe].combat_stats =
        Some(CombatStats { max_hp: 30, hp: 0, defense: 2, power: 5 });
    gs.run_state = RunState::AwaitingInput;

    gs.tick(TickEvent::Key { cmd: None }, &Vec::new());

    assert!(matches!(gs.run_state, RunState::GameOver));
    assert!(gs
        .log
        .entries
        .iter()
        .any(|e| matches!(e, LogEntry::YouAreDead)));
    assert!(gs.ecs.entities[pe].alive, "the player is never deleted");
}

#[test]
fn save_game_state_asks_the_shell_to_persist() {
    let mut gs = State::new();
    gs.run_state = RunState::SaveGame;
    let action = gs.tick(TickEvent::Nothing, &Vec::new());
    assert!(matches!(action, TickAction::SaveGame));
    assert!(matches!(
        gs.run_state,
        RunState::MainMenu { menu_selection: MainMenuSelection::LoadGame }
    ));
}

#[test]
fn quitting_from_the_menu_asks_the_shell_to_quit() {
    let mut gs = State::new();
    gs.run_state = RunState::MainMenu { menu_selection: MainMenuSelection::NewGame };
    let action = gs.tick(
        TickEvent::Menu {
            result: MainMenuResult::Selected { selected: MainMenuSelection::Quit },
        },
        &Vec::new(),
    );
    assert!(matches!(action, TickAction::Quit));
}

#[test]
fn game_over_acknowledgement_returns_to_the_menu_with_a_fresh_player() {
    let mut gs = State::new();
    gs.run_state = RunState::GameOver;
    gs.tick(
        TickEvent::GameOverMenu { result: GameOverResult::QuitToMenu },
        &Vec::new(),
    );
    assert!(matches!(
        gs.run_state,
        RunState::MainMenu { menu_selection: MainMenuSelection::NewGame }
    ));
    assert_eq!(gs.map.depth, 1);
    let pe = gs.player_entity;
    assert_eq!(gs.ecs.entities[pe].combat_stats.unwrap().hp, 30);
}

#[test]
fn input_commands_open_their_menus() {
    let mut gs = State::new();
    gs.run_state = RunState::AwaitingInput;
    gs.tick(
        TickEvent::Key { cmd: Some(InputCommand::OpenInventory) },
        &Vec::new(),
    );
    assert!(matches!(gs.run_state, RunState::ShowInventory));

    gs.run_state = RunState::AwaitingInput;
    gs.tick(TickEvent::Key { cmd: Some(InputCommand::DropItem) }, &Vec::new());
    assert!(matches!(gs.run_state, RunState::ShowDropItem));

    gs.run_state = RunState::AwaitingInput;
    gs.tick(
        TickEvent::Key { cmd: Some(InputCommand::SaveAndQuit) },
        &Vec::new(),
    );
    assert!(matches!(gs.run_state, RunState::SaveGame));
}

#[test]
fn cancelling_the_inventory_returns_to_input() {
    let mut gs = State::new();
    gs.run_state = RunState::ShowInventory;
    gs.tick(
        TickEvent::ItemMenu { result: ItemMenuResult::Cancel, item: None },
        &Vec::new(),
    );
    assert!(matches!(gs.run_state, RunState::AwaitingInput));
}

#[test]
fn magic_map_reveal_walks_the_rows_then_hands_back_the_turn() {
    let mut gs = State::new();
    gs.run_state = RunState::MagicMapReveal { row: 0 };
    gs.tick(TickEvent::Nothing, &Vec::new());
    for x in 0..MAPWIDTH as i32 {
        assert!(gs.map.revealed_tiles[idx(x, 0)]);
    }
    assert!(matches!(gs.run_state, RunState::MagicMapReveal { row: 1 }));

    gs.run_state = RunState::MagicMapReveal { row: 42 };
    gs.tick(TickEvent::Nothing, &Vec::new());
    assert!(matches!(gs.run_state, RunState::MonsterTurn));
}

#[test]
fn moving_into_a_wall_consumes_the_turn_without_moving() {
    let mut gs = State::new();
    gs.run_state = RunState::AwaitingInput;
    // Index the map so blocked tiles are current, then walk the player
    // into the nearest wall repeatedly: its position must stay on the grid
    // and walls must never be entered.
    MapIndexingSystem::run(&mut gs.map, &gs.ecs);
    let before = gs.player_pos;
    try_move_player(-1, 0, &mut gs);
    let after = gs.player_pos;
    let i = gs.map.xy_idx(after.x, after.y);
    assert!(!matches!(gs.map.tiles[i], TileType::Wall));
    assert!((after.x - before.x).abs() <= 1);
}

#[test]
fn nothing_to_pick_up_is_a_soft_failure() {
    let mut gs = State::new();
    gs.run_state = RunState::AwaitingInput;
    let log_before = gs.log.entries.len();
    gs.tick(TickEvent::Key { cmd: Some(InputCommand::Pickup) }, &Vec::new());
    assert!(matches!(gs.run_state, RunState::AwaitingInput));
    assert!(matches!(
        gs.log.entries[log_before],
        LogEntry::NothingToPickUp
    ));
}

#[test]
fn no_intent_survives_a_player_turn() {
    let mut gs = State::new();
    gs.run_state = RunState::AwaitingInput;
    // Walking into a wall or open floor either way ends in a PlayerTurn
    // tick; afterwards every one-shot intent storage must be empty.
    gs.tick(
        TickEvent::Key { cmd: Some(InputCommand::MoveLeft) },
        &Vec::new(),
    );
    gs.tick(TickEvent::Nothing, &Vec::new());
    for rec in gs.ecs.entities.iter() {
        assert!(rec.wants_to_melee.is_none());
        assert!(rec.wants_to_pickup.is_none());
        assert!(rec.wants_to_use.is_none());
        assert!(rec.wants_to_drop.is_none());
        assert!(rec.wants_to_remove.is_none());
        assert!(rec.suffer_damage.is_empty());
        assert!(!rec.entity_moved);
    }
}

#[test]
fn waiting_heals_when_nothing_threatens() {
    let mut gs = State::new();
    let pe = gs.player_entity;
    let stats = gs.ecs.entities[pe].combat_stats.unwrap();
    gs.ecs.entities[pe].combat_stats =
        Some(CombatStats { max_hp: stats.max_hp, hp: 10, defense: stats.defense, power: stats.power });
    // An empty viewshed sees no monster, so the rest heals.
    if let Some(vs) = &mut gs.ecs.entities[pe].viewshed {
        vs.visible_tiles.clear();
        vs.dirty = false;
    }
    gs.run_state = RunState::AwaitingInput;
    gs.tick(TickEvent::Key { cmd: Some(InputCommand::SkipTurn) }, &Vec::new());
    let healed = gs.ecs.entities[pe].combat_stats.unwrap();
    assert_eq!(healed.hp, 11);
}

#[test]
fn descending_needs_the_stairs_underfoot() {
    let mut gs = State::new();
    gs.run_state = RunState::AwaitingInput;
    // Stand the player on a plain floor tile of its own room: no way down.
    let log_before = gs.log.entries.len();
    let i = gs.map.xy_idx(gs.player_pos.x, gs.player_pos.y);
    if matches!(gs.map.tiles[i], TileType::Floor) {
        gs.tick(TickEvent::Key { cmd: Some(InputCommand::Descend) }, &Vec::new());
        assert!(matches!(gs.run_state, RunState::AwaitingInput));
        assert!(matches!(gs.log.entries[log_before], LogEntry::NoWayDown));
        assert_eq!(gs.map.depth, 1);
    } else {
        // The start room's centre held the stairs: the descent goes ahead.
        gs.tick(TickEvent::Key { cmd: Some(InputCommand::Descend) }, &Vec::new());
        assert!(matches!(gs.run_state, RunState::NextLevel));
    }
}

#[test]
fn prerun_pipeline_hands_control_to_input() {
    let mut gs = State::new();
    gs.run_state = RunState::PreRun;
    // Feed the freshly generated world's dirty viewsheds nothing: the
    // pipeline still runs and control passes to input, with viewsheds kept
    // dirty for the shell to fill next frame.
    gs.tick(TickEvent::Nothing, &Vec::new());
    assert!(matches!(gs.run_state, RunState::AwaitingInput));
    for rec in gs.ecs.entities.iter() {
        assert!(rec.suffer_damage.is_empty());
        assert!(rec.wants_to_pickup.is_none());
    }
}
