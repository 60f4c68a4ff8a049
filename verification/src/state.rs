//! The turn scheduler: the top-level game state, its run-state machine,
//! and the fixed, order-sensitive pipeline of simulation passes each tick
//! threads through the one shared world.

use vstd::prelude::*;

use bracket_lib::prelude::RandomNumberGenerator;

use crate::components::{CombatStats, ParticleBuilder, Position, WantsToUseItem};
use crate::gamelog::{log_extended, GameLog, LogEntry};
use crate::map::{spec_idx, GameMap, TileType, MAPCOUNT, MAPHEIGHT, MAPWIDTH};
use crate::map_builders::{build_output, random_builder, start_at_some_center};
use crate::rect::Rect;
use crate::rng::rng_new;
use crate::systems::visibility_system::pos_in_bounds;
use crate::world::{content_valid, positions_in_bounds, EntityRecord, World};
use crate::SHOW_MAPGEN_VISUALIZER;

verus! {

#[derive(PartialEq, Eq, Structural, Copy, Clone, Debug)]
pub enum MainMenuSelection {
    NewGame,
    LoadGame,
    Quit,
}

/// The closed set of top-level modes; exactly one is active at a time, and
/// every transition is a total function of the current mode and the tick's
/// input.
#[derive(PartialEq, Eq, Structural, Copy, Clone, Debug)]
pub enum RunState {
    AwaitingInput,
    PreRun,
    PlayerTurn,
    MonsterTurn,
    ShowInventory,
    ShowDropItem,
    ShowTargeting { range: i32, item: usize },
    MainMenu { menu_selection: MainMenuSelection },
    SaveGame,
    NextLevel,
    ShowRemoveItem,
    GameOver,
    MagicMapReveal { row: i32 },
    MapGeneration,
}

/// What the input collaborator distilled a keystroke into.
#[derive(PartialEq, Eq, Structural, Copy, Clone, Debug)]
pub enum InputCommand {
    MoveLeft,
    MoveRight,
    MoveUp,
    MoveDown,
    MoveUpLeft,
    MoveUpRight,
    MoveDownLeft,
    MoveDownRight,
    SkipTurn,
    Pickup,
    OpenInventory,
    DropItem,
    RemoveItem,
    Descend,
    SaveAndQuit,
    Other,
}

/// What the menu collaborator reported for the main menu.
#[derive(PartialEq, Eq, Structural, Copy, Clone, Debug)]
pub enum MainMenuResult {
    NoSelection { selected: MainMenuSelection },
    Selected { selected: MainMenuSelection },
}

/// What the menu collaborator reported for an item menu.
#[derive(PartialEq, Eq, Structural, Copy, Clone, Debug)]
pub enum ItemMenuResult {
    Cancel,
    NoResponse,
    Selected,
}

#[derive(PartialEq, Eq, Structural, Copy, Clone, Debug)]
pub enum GameOverResult {
    NoSelection,
    QuitToMenu,
}

/// Everything the external collaborators can feed one tick: at most one of
/// these applies, depending on the active run state.
#[derive(PartialEq, Eq, Structural, Copy, Clone, Debug)]
pub enum TickEvent {
    Nothing,
    Key { cmd: Option<InputCommand> },
    Menu { result: MainMenuResult },
    ItemMenu { result: ItemMenuResult, item: Option<usize> },
    Target { result: ItemMenuResult, target: Option<Position> },
    GameOverMenu { result: GameOverResult },
    MapGenFrame { elapsed: bool },
}

/// What the shell must do after a tick: nothing, persist the run, load a
/// saved run, or quit the process.
#[derive(PartialEq, Eq, Structural, Copy, Clone, Debug)]
pub enum TickAction {
    Nothing,
    SaveGame,
    LoadGame,
    Quit,
}

/// The whole mutable game: the entity registry, the level, the log and
/// particle queues, the active run state, and the captured generation
/// history for the animated replay.
pub struct State {
    pub ecs: World,
    pub map: GameMap,
    pub player_entity: usize,
    pub player_pos: Position,
    pub log: GameLog,
    pub particles: ParticleBuilder,
    pub run_state: RunState,
    pub mapgen_next_state: Option<RunState>,
    pub mapgen_history: Vec<GameMap>,
    pub mapgen_index: usize,
    pub rng: RandomNumberGenerator,
}

impl State {
    /// The player-controlled entity's record.
    pub open spec fn player_rec(self) -> EntityRecord {
        self.ecs.entities@[self.player_entity as int]
    }

    /// The scheduler's invariant over the shared world: every visible tile
    /// is revealed; the map is well-formed and its occupancy index points
    /// into the registry; the one player-controlled entity is alive with a
    /// position, viewshed and combat stats, and its cached position agrees
    /// with its component; positions and stored viewshed tiles lie on the
    /// grid; pickup intents are the player's alone and name another
    /// entity; and the generation-replay state is sound.
    pub open spec fn wf(self) -> bool {
        &&& self.map.wf()
        &&& forall|i: int|
            0 <= i < MAPCOUNT && (#[trigger] self.map.visible_tiles@[i])
                ==> self.map.revealed_tiles@[i]
        &&& content_valid(self.map, self.ecs.entities@)
        &&& positions_in_bounds(self.ecs.entities@)
        &&& self.player_entity < self.ecs.entities@.len()
        &&& self.player_rec().alive
        &&& self.player_rec().player
        &&& !self.player_rec().item
        &&& !self.player_rec().entry_trigger
        &&& self.player_rec().position == Some(self.player_pos)
        &&& self.player_rec().viewshed is Some
        &&& self.player_rec().combat_stats is Some
        &&& forall|e: int|
            0 <= e < self.ecs.entities@.len() && e != self.player_entity ==> !(
            #[trigger] self.ecs.entities@[e]).player
        &&& forall|e: int, t: int|
            #![trigger self.ecs.entities@[e].viewshed, self.ecs.entities@[e].viewshed->Some_0.visible_tiles@[t]]
            0 <= e < self.ecs.entities@.len() && self.ecs.entities@[e].viewshed is Some && 0 <= t
                < self.ecs.entities@[e].viewshed->Some_0.visible_tiles@.len() ==> pos_in_bounds(
                self.ecs.entities@[e].viewshed->Some_0.visible_tiles@[t],
            )
        &&& forall|e: int|
            0 <= e < self.ecs.entities@.len() ==> ((#[trigger] self.ecs.entities@[e]).entity_moved
                ==> !self.ecs.entities@[e].entry_trigger)
        &&& forall|e: int|
            0 <= e < self.ecs.entities@.len() && e != self.player_entity ==> (
            #[trigger] self.ecs.entities@[e]).wants_to_pickup is None
        &&& (self.player_rec().wants_to_pickup matches Some(p) ==> {
            &&& 0 <= p.item < self.ecs.entities@.len()
            &&& p.item != self.player_entity
            &&& p.collected_by == self.player_entity
            &&& self.ecs.entities@[p.item as int].wants_to_pickup is None
        })
        &&& self.mapgen_next_state is Some
        &&& (self.run_state matches RunState::MagicMapReveal { row } ==> 0 <= row < MAPHEIGHT)
        &&& (self.mapgen_next_state matches Some(st) ==> (st matches RunState::MagicMapReveal {
            row,
        } ==> 0 <= row < MAPHEIGHT))
    }

    /// The map holds exactly one down-stairs tile.
    pub open spec fn single_stairs(map: GameMap) -> bool {
        exists|i: int|
            #![trigger map.tiles@[i]]
            0 <= i < MAPCOUNT && map.tiles@[i] == TileType::DownStairs && (forall|j: int|
                0 <= j < MAPCOUNT && j != i ==> map.tiles@[j] != TileType::DownStairs)
    }

    /// A freshly generated level over a registry that held `n0` entities:
    /// some accepted room list explains the map as a builder's output, the
    /// start sits at one accepted room's centre, and each room after the
    /// first grew one freshly spawned monster at its centre, appended to
    /// the registry in room order.
    pub open spec fn generated_level_with(
        map: GameMap,
        w: Seq<EntityRecord>,
        n0: int,
        start: Position,
        rooms: Seq<Rect>,
    ) -> bool {
        &&& build_output(map, rooms, start)
        &&& start_at_some_center(rooms, start)
        &&& w.len() == n0 + rooms.len() - 1
        &&& forall|k: int|
            1 <= k < rooms.len() ==> crate::spawner::is_monster_at(
                #[trigger] w[n0 + k - 1],
                rooms[k].spec_center(),
            )
    }

    /// Some accepted room list explains the level and its population.
    pub open spec fn generated_level(
        map: GameMap,
        w: Seq<EntityRecord>,
        n0: int,
        start: Position,
    ) -> bool {
        exists|rooms: Seq<Rect>| #[trigger] Self::generated_level_with(map, w, n0, start, rooms)
    }

    /// Regenerate the dungeon at the given depth with a randomly selected
    /// builder: a fresh well-formed level with exactly one down-stairs
    /// tile, the player moved to the level's start with a dirty viewshed,
    /// a monster in each accepted room but the start room, and the
    /// captured snapshot history — every frame fully revealed — ready for
    /// replay from its first frame.
    #[verifier::rlimit(60)]
    pub fn generate_world_map(&mut self, new_depth: i32)
        requires
            old(self).wf(),
        ensures
            final(self).wf(),
            final(self).map.depth == new_depth,
            Self::single_stairs(final(self).map),
            Self::generated_level(
                final(self).map,
                final(self).ecs.entities@,
                old(self).ecs.entities@.len() as int,
                final(self).player_pos,
            ),
            final(self).mapgen_index == 0,
            forall|k: int|
                0 <= k < final(self).mapgen_history@.len() ==> (#[trigger] final(self).mapgen_history@[k]).wf() && (forall|i: int|
                    0 <= i < MAPCOUNT ==> final(self).mapgen_history@[k].revealed_tiles@[i]),
            final(self).run_state == old(self).run_state,
            final(self).log.entries@ == old(self).log.entries@,
            final(self).player_entity == old(self).player_entity,
            final(self).ecs.entities@.len() >= old(self).ecs.entities@.len(),
            forall|e: int|
                0 <= e < old(self).ecs.entities@.len() && e != old(self).player_entity
                    ==> #[trigger] final(self).ecs.entities@[e] == old(self).ecs.entities@[e],
            ({
                let p0 = old(self).player_rec();
                let p1 = final(self).player_rec();
                &&& p1.alive == p0.alive
                &&& p1.combat_stats == p0.combat_stats
                &&& p1.position is Some
                &&& (p1.viewshed matches Some(v) && v.dirty)
                &&& p1.in_backpack == p0.in_backpack
                &&& p1.hunger_clock == p0.hunger_clock
                &&& p1.name == p0.name
            }),
            crate::connectivity::level_connected(final(self).map, final(self).player_pos),
    {
        self.mapgen_index = 0;
        let mut builder = random_builder(new_depth);
        builder.build_map();
        self.mapgen_history = builder.get_snapshot_history();
        let worldmap = builder.get_map();
        self.map = worldmap;
        let player_start = builder.get_starting_position();

        builder.spawn_entities(&mut self.ecs);
        let ghost w_sp = self.ecs.entities@;
        let ghost n0 = old(self).ecs.entities@.len() as int;

        self.player_pos = Position { x: player_start.x, y: player_start.y };
        let pe = self.player_entity;
        let prec = &mut self.ecs.entities[pe];
        prec.position = Some(Position { x: player_start.x, y: player_start.y });
        if let Some(vs) = &mut prec.viewshed {
            vs.dirty = true;
        }
        proof {
            let w1 = self.ecs.entities@;
            assert forall|e: int| n0 <= e < w1.len() implies crate::spawner::is_monster_at(
                #[trigger] w_sp[e],
                builder.spec_rooms()[e - n0 + 1].spec_center(),
            ) && crate::map_builders::room_ok(builder.spec_rooms()[e - n0 + 1]) by {
                let k = e - n0 + 1;
                assert(1 <= k < builder.spec_rooms().len());
                assert(crate::spawner::is_monster_at(
                    w_sp[n0 + k - 1],
                    builder.spec_rooms()[k].spec_center(),
                ));
            }
            assert forall|e: int| 0 <= e < w1.len() && e != pe implies w1[e] == w_sp[e] by {}
            assert forall|e: int|
                0 <= e < w1.len() && (#[trigger] w1[e]).alive implies (w1[e].position matches Some(
                p,
            ) ==> 0 <= p.x < MAPWIDTH && 0 <= p.y < MAPHEIGHT) by {
                if e != pe && e >= n0 {
                    crate::map_builders::lemma_center_in_interior(
                        builder.spec_rooms()[e - n0 + 1],
                    );
                }
            }
            let sri = crate::map_builders::stairs_room_idx(builder.spec_rooms(), self.player_pos);
            let c = builder.spec_rooms()[sri].spec_center();
            crate::map_builders::lemma_center_in_interior(builder.spec_rooms()[sri]);
            crate::map::lemma_index_bijection(c.x as int, c.y as int, 0);
            assert(self.map.tiles@[spec_idx(c.x as int, c.y as int)] == TileType::DownStairs);
            assert(Self::generated_level_with(
                self.map,
                self.ecs.entities@,
                n0,
                self.player_pos,
                builder.spec_rooms(),
            )) by {
                assert(self.map.tiles@ == builder.spec_map().tiles@);
                assert(build_output(self.map, builder.spec_rooms(), self.player_pos));
                assert forall|k: int| 1 <= k < builder.spec_rooms().len() implies
                    crate::spawner::is_monster_at(
                    #[trigger] self.ecs.entities@[n0 + k - 1],
                    builder.spec_rooms()[k].spec_center(),
                ) by {
                    assert(crate::spawner::is_monster_at(
                        w_sp[n0 + k - 1],
                        builder.spec_rooms()[k].spec_center(),
                    ));
                    assert(n0 + k - 1 != pe);
                }
            }
            assert(Self::generated_level(self.map, self.ecs.entities@, n0, self.player_pos));
            let st = spec_idx(self.player_pos.x as int, self.player_pos.y as int);
            assert forall|i: int|
                #[trigger] crate::connectivity::walkable(self.map, i) implies
                crate::connectivity::reachable(self.map, st, i) by {
                assert(crate::connectivity::walkable(builder.spec_map(), i));
                crate::connectivity::lemma_reachable_same_tiles(builder.spec_map(), self.map, st, i);
            }
            assert(crate::connectivity::level_connected(self.map, self.player_pos));
        }
    }

    /// Start a new game: one player entity, an all-wall level that generation replaces at once,
    /// a welcome line in the log, and the first dungeon generated, with the
    /// scheduler set to replay the generation before the title menu.
    pub fn new() -> (gs: State)
        ensures
            gs.wf(),
            gs.run_state == RunState::MapGeneration,
            gs.map.depth == 1,
            Self::single_stairs(gs.map),
            gs.player_entity == 0,
            gs.player_rec().combat_stats == Some(
                CombatStats {
                    max_hp: crate::spawner::PLAYER_MAX_HP,
                    hp: crate::spawner::PLAYER_MAX_HP,
                    defense: 2,
                    power: 5,
                },
            ),
            Self::generated_level(gs.map, gs.ecs.entities@, 1, gs.player_pos),
            gs.log.entries@.len() == 1 && gs.log.entries@[0] == LogEntry::Welcome,
    {
        let mut ecs = World::new();
        let player_entity = crate::spawner::player(&mut ecs, 0, 0);
        let mut log = GameLog::new();
        log.push(LogEntry::Welcome);
        let mut gs = State {
            ecs,
            map: GameMap::new(1),
            player_entity,
            player_pos: Position { x: 0, y: 0 },
            log,
            particles: ParticleBuilder::new(),
            run_state: RunState::MapGeneration,
            mapgen_next_state: Some(
                RunState::MainMenu { menu_selection: MainMenuSelection::NewGame },
            ),
            mapgen_history: Vec::new(),
            mapgen_index: 0,
            rng: rng_new(),
        };
        gs.generate_world_map(1);
        gs
    }

    /// The named stages of one turn slice, with the intermediate worlds
    /// `w1` (after visibility), `w2` (after triggers) and `w3` (after
    /// damage) and the map `m1` the trigger pass read: each stage relates
    /// its input to its output exactly as that pass's own contract does.
    pub open spec fn pipeline_stages(
        m0: GameMap,
        w0: Seq<EntityRecord>,
        m1: GameMap,
        w1: Seq<EntityRecord>,
        w2: Seq<EntityRecord>,
        w3: Seq<EntityRecord>,
        m4: GameMap,
        w4: Seq<EntityRecord>,
        fov: Seq<crate::systems::visibility_system::FovUpdate>,
        pe: int,
    ) -> bool {
        &&& w1.len() == w0.len() && w2.len() == w0.len() && w3.len() == w0.len() && w4.len()
            == w0.len()
        &&& m1.tiles@ == m0.tiles@ && m1.tile_content@ == m0.tile_content@
        &&& m4.tiles@ == m0.tiles@
        // visibility: viewsheds recomputed from the handed-in scans
        &&& (forall|e: int|
            0 <= e < w0.len() ==> crate::systems::visibility_system::vis_touched(
                w0[e],
                #[trigger] w1[e],
            ))
        &&& (forall|j: int|
            0 <= j < fov.len() && crate::systems::visibility_system::update_applies(
                w0,
                #[trigger] fov[j],
            ) ==> crate::systems::visibility_system::viewshed_stored(
                w0[fov[j].entity as int],
                w1[fov[j].entity as int],
                fov[j].tiles@,
            ))
        // triggers: sprung traps fire, movers take their tile's damage
        &&& (forall|e: int|
            0 <= e < w0.len() ==> crate::systems::trigger_system::trigger_survived(
                w1[e],
                #[trigger] w2[e],
            ) || crate::world::is_cleared(w2[e]))
        &&& (forall|m: int|
            0 <= m < w0.len() && crate::systems::trigger_system::is_mover(w1, m) ==> (
            #[trigger] w2[m]).suffer_damage@ == w1[m].suffer_damage@
                + crate::systems::trigger_system::full_damages(m1, w1, m))
        &&& (forall|e: int| 0 <= e < w0.len() ==> !(#[trigger] w2[e]).entity_moved)
        // indexing: the final map's occupancy index is exact for w2
        &&& crate::systems::map_indexing_system::indexed(m4, w2)
        // damage: queues drained into hit points
        &&& (forall|e: int|
            0 <= e < w0.len() ==> crate::systems::damage_system::damage_drained(
                w2[e],
                #[trigger] w3[e],
            ))
        &&& (forall|e: int|
            0 <= e < w0.len() && crate::systems::damage_system::damage_safe(w2[e])
                ==> crate::systems::damage_system::damage_applied(w2[e], #[trigger] w3[e]))
        // pickups: intents resolved into backpacks and cleared
        &&& (forall|e: int| 0 <= e < w0.len() ==> !((#[trigger] w4[e]).wants_to_pickup is Some))
        &&& (forall|e: int|
            0 <= e < w0.len() ==> ((#[trigger] w3[e]).wants_to_pickup matches Some(p)
                ==> crate::systems::inventory_system::picked_up(
                w3[p.item as int],
                w4[p.item as int],
                p.collected_by as int,
            ) && crate::systems::inventory_system::intent_consumed(w3[e], w4[e])))
    }

    /// One record with the intent kinds whose resolvers lie beyond this
    /// core cleared: the pipeline ends by sweeping them, standing in for
    /// those resolvers, so no intent of any kind survives the turn.
    pub open spec fn drained_rec(a: EntityRecord) -> EntityRecord {
        EntityRecord {
            wants_to_melee: None,
            wants_to_use: None,
            wants_to_drop: None,
            wants_to_remove: None,
            ..a
        }
    }

    /// `b` is `a` with every record's out-of-core intents cleared.
    pub open spec fn intents_drained(a: Seq<EntityRecord>, b: Seq<EntityRecord>) -> bool {
        &&& b.len() == a.len()
        &&& forall|e: int| 0 <= e < a.len() ==> #[trigger] b[e] == Self::drained_rec(a[e])
    }

    /// One full turn slice ran: intermediate worlds exist that chain the
    /// visibility, trigger, indexing, damage and pickup stages from the
    /// entered state to the final one, whose out-of-core intents the
    /// closing sweep cleared.
    pub open spec fn pipeline_post(
        m0: GameMap,
        w0: Seq<EntityRecord>,
        m4: GameMap,
        w4: Seq<EntityRecord>,
        fov: Seq<crate::systems::visibility_system::FovUpdate>,
        pe: int,
    ) -> bool {
        exists|
            m1: GameMap,
            w1: Seq<EntityRecord>,
            w2: Seq<EntityRecord>,
            w3: Seq<EntityRecord>,
            wp: Seq<EntityRecord>,
        |
            #[trigger] Self::pipeline_stages(m0, w0, m1, w1, w2, w3, m4, wp, fov, pe)
                && Self::intents_drained(wp, w4)
    }

    /// The fixed, order-sensitive pipeline of one turn slice: visibility,
    /// triggers, map indexing, damage resolution, then item collection,
    /// each over the one shared world. The handed-in field-of-view updates
    /// feed the visibility pass.
    #[verifier::rlimit(100)]
    pub fn run_systems(&mut self, fov: &Vec<crate::systems::visibility_system::FovUpdate>)
        requires
            old(self).wf(),
            forall|j1: int, j2: int|
                0 <= j1 < j2 < fov@.len() ==> (#[trigger] fov@[j1]).entity != (
                #[trigger] fov@[j2]).entity,
        ensures
            final(self).wf(),
            final(self).run_state == old(self).run_state,
            final(self).player_entity == old(self).player_entity,
            final(self).player_pos == old(self).player_pos,
            final(self).ecs.entities@.len() == old(self).ecs.entities@.len(),
            final(self).map.tiles@ == old(self).map.tiles@,
            final(self).map.depth == old(self).map.depth,
            forall|i: int|
                0 <= i < MAPCOUNT && old(self).map.revealed_tiles@[i] ==> #[trigger] final(self).map.revealed_tiles@[i],
            log_extended(old(self).log.entries@, final(self).log.entries@),
            forall|e: int|
                0 <= e < final(self).ecs.entities@.len() ==> (#[trigger] final(self).ecs.entities@[e]).suffer_damage@.len() == 0,
            forall|e: int|
                0 <= e < final(self).ecs.entities@.len() ==> !((#[trigger] final(self).ecs.entities@[e]).wants_to_pickup is Some),
            forall|e: int|
                0 <= e < final(self).ecs.entities@.len() ==> !(#[trigger] final(self).ecs.entities@[e]).entity_moved,
            forall|e: int|
                0 <= e < final(self).ecs.entities@.len() ==> {
                    let r = #[trigger] final(self).ecs.entities@[e];
                    &&& r.wants_to_melee is None
                    &&& r.wants_to_use is None
                    &&& r.wants_to_drop is None
                    &&& r.wants_to_remove is None
                },
            Self::pipeline_post(
                old(self).map,
                old(self).ecs.entities@,
                final(self).map,
                final(self).ecs.entities@,
                fov@,
                old(self).player_entity as int,
            ),
            ({
                let a = old(self).player_rec();
                let b = final(self).player_rec();
                &&& b.alive
                &&& b.player
                &&& (a.combat_stats matches Some(s) ==> (b.combat_stats matches Some(t) && t.max_hp
                    == s.max_hp))
            }),
    {
        let ghost w0 = self.ecs.entities@;
        let pe = self.player_entity;

        crate::systems::visibility_system::VisibilitySystem::run(
            &mut self.map,
            &mut self.ecs,
            &mut self.rng,
            &mut self.log,
            fov,
        );
        let ghost w1 = self.ecs.entities@;
        proof {
            assert forall|e: int|
                0 <= e < w1.len() && (#[trigger] w1[e]).alive implies (w1[e].position matches Some(
                p,
            ) ==> 0 <= p.x < MAPWIDTH && 0 <= p.y < MAPHEIGHT) by {
                assert(crate::systems::visibility_system::vis_touched(w0[e], w1[e]));
            }
            assert forall|e: int| 0 <= e < w1.len() && e != pe implies !(
            #[trigger] w1[e]).player by {
                assert(crate::systems::visibility_system::vis_touched(w0[e], w1[e]));
            }
        }

        let ghost m1 = self.map;
        crate::systems::trigger_system::TriggerSystem::run(
            &self.map,
            &mut self.ecs,
            &mut self.log,
            &mut self.particles,
        );
        let ghost w2 = self.ecs.entities@;
        proof {
            assert forall|e: int|
                0 <= e < w2.len() && (#[trigger] w2[e]).alive implies (w2[e].position matches Some(
                p,
            ) ==> 0 <= p.x < MAPWIDTH && 0 <= p.y < MAPHEIGHT) by {
                assert(crate::systems::trigger_system::trigger_survived(w1[e], w2[e])
                    || crate::world::is_cleared(w2[e]));
            }
        }

        crate::systems::map_indexing_system::MapIndexingSystem::run(&mut self.map, &self.ecs);
        proof {
            assert forall|i: int, k: int|
                0 <= i < self.map.tile_content@.len() && 0 <= k
                    < self.map.tile_content@[i]@.len() implies (
            #[trigger] self.map.tile_content@[i]@[k]) < w2.len() by {
                assert(self.map.tile_content@[i]@
                    == crate::systems::map_indexing_system::content_upto(w2, i, w2.len() as int));
                crate::systems::map_indexing_system::lemma_content_upto_bounds(
                    w2,
                    i,
                    w2.len() as int,
                );
            }
        }

        crate::systems::damage_system::DamageSystem::run(&mut self.ecs);
        let ghost w3 = self.ecs.entities@;

        proof {
            assert forall|e: int|
                0 <= e < w3.len() implies ((#[trigger] w3[e]).wants_to_pickup matches Some(p) ==> {
                    &&& 0 <= p.item < w3.len()
                    &&& p.item != e
                    &&& w3[p.item as int].wants_to_pickup is None
                }) by {
                if w3[e].wants_to_pickup is Some {
                    assert(crate::systems::damage_system::damage_drained(w2[e], w3[e]));
                    assert(crate::systems::trigger_system::trigger_survived(w1[e], w2[e])
                    || crate::world::is_cleared(w2[e]));
                    assert(crate::systems::visibility_system::vis_touched(w0[e], w1[e]));
                    assert(e == pe as int);
                    let p = w0[pe as int].wants_to_pickup->Some_0;
                    assert(crate::systems::visibility_system::vis_touched(
                        w0[p.item as int],
                        w1[p.item as int],
                    ));
                    assert(crate::systems::trigger_system::trigger_survived(
                        w1[p.item as int],
                        w2[p.item as int],
                    ) || crate::world::is_cleared(w2[p.item as int]));
                    assert(crate::systems::damage_system::damage_drained(
                        w2[p.item as int],
                        w3[p.item as int],
                    ));
                }
            }
            assert forall|e1: int, e2: int|
                #![trigger w3[e1].wants_to_pickup, w3[e2].wants_to_pickup]
                0 <= e1 < e2 < w3.len() implies (w3[e1].wants_to_pickup matches Some(p1) ==> (
            w3[e2].wants_to_pickup matches Some(p2) ==> p1.item != p2.item)) by {
                if w3[e1].wants_to_pickup is Some && w3[e2].wants_to_pickup is Some {
                    assert(crate::systems::damage_system::damage_drained(w2[e1], w3[e1]));
                    assert(crate::systems::trigger_system::trigger_survived(w1[e1], w2[e1])
                        || crate::world::is_cleared(w2[e1]));
                    assert(crate::systems::visibility_system::vis_touched(w0[e1], w1[e1]));
                    assert(crate::systems::damage_system::damage_drained(w2[e2], w3[e2]));
                    assert(crate::systems::trigger_system::trigger_survived(w1[e2], w2[e2])
                        || crate::world::is_cleared(w2[e2]));
                    assert(crate::systems::visibility_system::vis_touched(w0[e2], w1[e2]));
                    assert(e1 == pe as int && e2 == pe as int);
                }
            }
        }

        crate::systems::inventory_system::ItemCollectionSystem::run(
            &mut self.ecs,
            &mut self.log,
            self.player_entity,
        );
        let ghost w4 = self.ecs.entities@;

        proof {
            assert forall|j: int|
                0 <= j < w4.len() implies (if w3[pe as int].wants_to_pickup is Some {
                let p = w3[pe as int].wants_to_pickup->Some_0;
                if j == pe as int {
                    crate::systems::inventory_system::intent_consumed(w3[j], w4[j])
                } else if j == p.item as int {
                    crate::systems::inventory_system::picked_up(w3[j], w4[j], p.collected_by as int)
                } else {
                    w4[j] == w3[j]
                }
            } else {
                w4[j] == w3[j]
            }) by {
                assert(!crate::systems::inventory_system::targeted_upto(w3, j, w3.len() as int)
                    || (w3[pe as int].wants_to_pickup matches Some(p) && j == p.item as int)) by {
                    if crate::systems::inventory_system::targeted_upto(w3, j, w3.len() as int) {
                        let t = choose|t: int|
                            0 <= t < w3.len() && ((#[trigger] w3[t]).wants_to_pickup matches Some(
                                q,
                            ) && q.item == j);
                        assert((#[trigger] w3[t]).wants_to_pickup matches Some(q) && q.item == j);
                        assert(t == pe as int);
                    }
                }
                if w3[pe as int].wants_to_pickup is Some {
                    let p = w3[pe as int].wants_to_pickup->Some_0;
                    if j != pe as int && j != p.item as int {
                        assert(!crate::systems::inventory_system::has_pickup(w3, j));
                        assert(w4[j] == w3[j]);
                    }
                } else {
                    assert(!crate::systems::inventory_system::has_pickup(w3, j));
                    assert(w4[j] == w3[j]);
                }
            }

            assert forall|e: int|
                0 <= e < w4.len() && (#[trigger] w4[e]).alive implies (w4[e].position matches Some(
                p,
            ) ==> 0 <= p.x < MAPWIDTH && 0 <= p.y < MAPHEIGHT) by {
                assert(crate::systems::visibility_system::vis_touched(w0[e], w1[e]));
                assert(crate::systems::trigger_system::trigger_survived(w1[e], w2[e])
                    || crate::world::is_cleared(w2[e]));
                assert(crate::systems::damage_system::damage_drained(w2[e], w3[e]));
            }
            assert forall|e: int| 0 <= e < w4.len() && e != pe implies !(
            #[trigger] w4[e]).player by {
                assert(crate::systems::visibility_system::vis_touched(w0[e], w1[e]));
                assert(crate::systems::trigger_system::trigger_survived(w1[e], w2[e])
                    || crate::world::is_cleared(w2[e]));
                assert(crate::systems::damage_system::damage_drained(w2[e], w3[e]));
            }
            assert forall|e: int, t: int|
                #![trigger w4[e].viewshed, w4[e].viewshed->Some_0.visible_tiles@[t]]
                0 <= e < w4.len() && w4[e].viewshed is Some && 0 <= t
                    < w4[e].viewshed->Some_0.visible_tiles@.len() implies pos_in_bounds(
                w4[e].viewshed->Some_0.visible_tiles@[t],
            ) by {
                assert(crate::systems::visibility_system::vis_touched(w0[e], w1[e]));
                assert(crate::systems::trigger_system::trigger_survived(w1[e], w2[e])
                    || crate::world::is_cleared(w2[e]));
                assert(crate::systems::damage_system::damage_drained(w2[e], w3[e]));
            }
            assert(crate::systems::visibility_system::vis_touched(w0[pe as int], w1[pe as int]));
            assert(crate::systems::trigger_system::trigger_survived(
                w1[pe as int],
                w2[pe as int],
            ) || crate::world::is_cleared(w2[pe as int]));
            assert(crate::systems::damage_system::damage_drained(w2[pe as int], w3[pe as int]));
            assert(self.player_rec().alive && self.player_rec().player);
            assert forall|e: int|
                0 <= e < w4.len() implies !(#[trigger] w4[e]).entity_moved by {
                assert(crate::systems::damage_system::damage_drained(w2[e], w3[e]));
            }
            assert(Self::pipeline_stages(
                old(self).map,
                w0,
                m1,
                w1,
                w2,
                w3,
                self.map,
                w4,
                fov@,
                pe as int,
            ));
        }

        // The resolvers for melee, use, drop and remove intents lie beyond
        // this core; the pipeline ends by sweeping those intents away in
        // their stead, so no intent of any kind survives the turn.
        let ghost m4v = self.map;
        let ghost logs4 = self.log.entries@;
        let ghost rs4 = self.run_state;
        let ghost pp4 = self.player_pos;
        let ghost mn4 = self.mapgen_next_state;
        let n2 = self.ecs.entities.len();
        let mut d: usize = 0;
        while d < n2
            invariant
                d <= n2,
                n2 == self.ecs.entities@.len(),
                n2 == w4.len(),
                self.map == m4v,
                self.log.entries@ == logs4,
                self.run_state == rs4,
                self.player_entity == pe,
                self.player_pos == pp4,
                self.mapgen_next_state == mn4,
                forall|t: int|
                    0 <= t < d ==> #[trigger] self.ecs.entities@[t] == Self::drained_rec(w4[t]),
                forall|t: int| d <= t < n2 ==> #[trigger] self.ecs.entities@[t] == w4[t],
            decreases n2 - d,
        {
            let rec = &mut self.ecs.entities[d];
            rec.wants_to_melee = None;
            rec.wants_to_use = None;
            rec.wants_to_drop = None;
            rec.wants_to_remove = None;
            d = d + 1;
        }
        proof {
            assert(Self::intents_drained(w4, self.ecs.entities@));
            assert(Self::pipeline_post(
                old(self).map,
                w0,
                self.map,
                self.ecs.entities@,
                fov@,
                pe as int,
            ));
            assert(self.player_rec() == Self::drained_rec(w4[pe as int]));
        }
    }

    /// Whether a level change removes this entity: everything goes except
    /// the player and what the player carries or wears.
    pub open spec fn should_delete_on_level_change(w: Seq<EntityRecord>, e: int, pe: int) -> bool {
        &&& w[e].alive
        &&& !w[e].player
        &&& !(w[e].in_backpack matches Some(b) && b.owner == pe)
        &&& !(w[e].equipped matches Some(q) && q.owner == pe)
    }

    /// The entities a level change removes, each exactly once a candidate:
    /// every live entity that is not the player and not carried or worn by
    /// the player.
    #[verifier::loop_isolation(false)]
    fn entities_to_remove_on_level_change(&self) -> (r: Vec<usize>)
        requires
            self.wf(),
        ensures
            forall|k: int|
                0 <= k < r@.len() ==> (#[trigger] r@[k]) < self.ecs.entities@.len()
                    && Self::should_delete_on_level_change(
                    self.ecs.entities@,
                    r@[k] as int,
                    self.player_entity as int,
                ),
            forall|e: int|
                0 <= e < self.ecs.entities@.len() && Self::should_delete_on_level_change(
                    self.ecs.entities@,
                    e,
                    self.player_entity as int,
                ) ==> r@.contains(e as usize),
            forall|j: int, k: int| 0 <= j < k < r@.len() ==> #[trigger] r@[j] < #[trigger] r@[k],
    {
        let pe = self.player_entity;
        let n = self.ecs.entities.len();
        let mut to_delete: Vec<usize> = Vec::new();
        let mut e: usize = 0;
        while e < n
            invariant
                e <= n,
                n == self.ecs.entities@.len(),
                forall|k: int|
                    0 <= k < to_delete@.len() ==> (#[trigger] to_delete@[k]) < n
                        && Self::should_delete_on_level_change(
                        self.ecs.entities@,
                        to_delete@[k] as int,
                        pe as int,
                    ),
                forall|t: int|
                    0 <= t < e && Self::should_delete_on_level_change(
                        self.ecs.entities@,
                        t,
                        pe as int,
                    ) ==> to_delete@.contains(t as usize),
                forall|k: int| 0 <= k < to_delete@.len() ==> #[trigger] to_delete@[k] < e,
                forall|j: int, k: int|
                    0 <= j < k < to_delete@.len() ==> #[trigger] to_delete@[j]
                        < #[trigger] to_delete@[k],
            decreases n - e,
        {
            let rec = &self.ecs.entities[e];
            let mut should_delete = rec.alive;
            if rec.player {
                should_delete = false;
            }
            if let Some(bp) = rec.in_backpack {
                if bp.owner == pe {
                    should_delete = false;
                }
            }
            if let Some(eq) = rec.equipped {
                if eq.owner == pe {
                    should_delete = false;
                }
            }
            let ghost pre = to_delete@;
            if should_delete {
                to_delete.push(e);
            }
            proof {
                assert forall|t: int|
                    0 <= t < e + 1 && Self::should_delete_on_level_change(
                        self.ecs.entities@,
                        t,
                        pe as int,
                    ) implies to_delete@.contains(t as usize) by {
                    if t < e as int {
                        let k = choose|k: int| 0 <= k < pre.len() && pre[k] == t as usize;
                        assert(to_delete@[k] == t as usize);
                    } else {
                        assert(to_delete@[to_delete@.len() - 1] == e);
                    }
                }
            }
            e = e + 1;
        }
        to_delete
    }

    /// Move the run one level down: everything but the player and what it
    /// carries is removed, the player's one-shot intents are dropped with
    /// the level, the dungeon regenerates one depth deeper, a log line
    /// marks the descent, and the player heals to at least half its
    /// maximum hit points.
    #[verifier::loop_isolation(false)]
    #[verifier::rlimit(60)]
    pub fn goto_next_level(&mut self)
        requires
            old(self).wf(),
            old(self).map.depth < i32::MAX,
            0 <= old(self).player_rec().combat_stats->Some_0.max_hp,
        ensures
            final(self).wf(),
            final(self).map.depth == old(self).map.depth + 1,
            Self::single_stairs(final(self).map),
            final(self).run_state == old(self).run_state,
            final(self).player_entity == old(self).player_entity,
            ({
                let s0 = old(self).player_rec().combat_stats->Some_0;
                let s1 = final(self).player_rec().combat_stats->Some_0;
                &&& final(self).player_rec().combat_stats is Some
                &&& s1.max_hp == s0.max_hp
                &&& s1.defense == s0.defense
                &&& s1.power == s0.power
                &&& s1.hp == (if s0.hp >= s0.max_hp / 2 {
                    s0.hp as int
                } else {
                    s0.max_hp as int / 2
                })
            }),
            forall|e: int|
                0 <= e < old(self).ecs.entities@.len() && Self::should_delete_on_level_change(
                    old(self).ecs.entities@,
                    e,
                    old(self).player_entity as int,
                ) ==> crate::world::is_cleared(#[trigger] final(self).ecs.entities@[e]),
            forall|e: int|
                0 <= e < old(self).ecs.entities@.len() && e != old(self).player_entity
                    && !Self::should_delete_on_level_change(
                    old(self).ecs.entities@,
                    e,
                    old(self).player_entity as int,
                ) ==> #[trigger] final(self).ecs.entities@[e] == old(self).ecs.entities@[e],
            Self::generated_level(
                final(self).map,
                final(self).ecs.entities@,
                old(self).ecs.entities@.len() as int,
                final(self).player_pos,
            ),
            final(self).log.entries@ == old(self).log.entries@.push(LogEntry::DescendAndHeal),
    {
        let pe = self.player_entity;
        let to_delete = self.entities_to_remove_on_level_change();
        let ghost w0 = self.ecs.entities@;
        let n0 = self.ecs.entities.len();
        let mut d: usize = 0;
        while d < to_delete.len()
            invariant
                d <= to_delete@.len(),
                self.ecs.entities@.len() == w0.len(),
                self.map == old(self).map,
                self.player_entity == old(self).player_entity,
                self.player_pos == old(self).player_pos,
                self.log.entries@ == old(self).log.entries@,
                self.run_state == old(self).run_state,
                self.mapgen_next_state == old(self).mapgen_next_state,
                forall|k: int|
                    0 <= k < to_delete@.len() ==> (#[trigger] to_delete@[k]) < w0.len()
                        && Self::should_delete_on_level_change(w0, to_delete@[k] as int, pe as int),
                forall|k: int|
                    0 <= k < d ==> crate::world::is_cleared(
                        #[trigger] self.ecs.entities@[to_delete@[k] as int],
                    ),
                forall|e: int|
                    0 <= e < w0.len() && !to_delete@.contains(e as usize)
                        ==> #[trigger] self.ecs.entities@[e] == w0[e],
                forall|e: int|
                    0 <= e < w0.len() ==> crate::world::is_cleared(#[trigger] self.ecs.entities@[e])
                        || self.ecs.entities@[e] == w0[e],
            decreases to_delete@.len() - d,
        {
            let target = to_delete[d];
            self.ecs.delete_entity(target);
            proof {
                assert forall|e: int|
                    0 <= e < w0.len() && !to_delete@.contains(e as usize)
                        implies #[trigger] self.ecs.entities@[e] == w0[e] by {
                    assert(to_delete@[d as int] == target);
                    if e == target as int {
                        assert(to_delete@.contains(target));
                    }
                }
            }
            d = d + 1;
        }

        proof {
            assert(!to_delete@.contains(pe)) by {
                if to_delete@.contains(pe) {
                    let k = choose|k: int| 0 <= k < to_delete@.len() && to_delete@[k] == pe;
                    assert(Self::should_delete_on_level_change(w0, to_delete@[k] as int, pe as int));
                }
            }
            assert(self.ecs.entities@[pe as int] == w0[pe as int]);
        }

        // One-shot intents never persist across turns, so none crosses a
        // level change either.
        let ghost w_del = self.ecs.entities@;
        let prec = &mut self.ecs.entities[pe];
        prec.wants_to_pickup = None;
        prec.wants_to_melee = None;
        prec.wants_to_use = None;
        prec.wants_to_drop = None;
        prec.wants_to_remove = None;
        prec.entity_moved = false;

        proof {
            let w2 = self.ecs.entities@;
            assert forall|e: int| 0 <= e < w2.len() && e != pe implies #[trigger] w2[e] == w_del[e]
                by {}
            assert forall|e: int|
                0 <= e < w2.len() && (#[trigger] w2[e]).alive implies (w2[e].position matches Some(
                p,
            ) ==> 0 <= p.x < MAPWIDTH && 0 <= p.y < MAPHEIGHT) by {
                if e != pe as int {
                    assert(crate::world::is_cleared(w_del[e]) || w_del[e] == w0[e]);
                }
            }
            assert forall|e: int| 0 <= e < w2.len() && e != pe implies !(
            #[trigger] w2[e]).player by {
                assert(crate::world::is_cleared(w_del[e]) || w_del[e] == w0[e]);
            }
            assert forall|e: int, t: int|
                #![trigger w2[e].viewshed, w2[e].viewshed->Some_0.visible_tiles@[t]]
                0 <= e < w2.len() && w2[e].viewshed is Some && 0 <= t
                    < w2[e].viewshed->Some_0.visible_tiles@.len() implies pos_in_bounds(
                w2[e].viewshed->Some_0.visible_tiles@[t],
            ) by {
                if e != pe as int {
                    assert(crate::world::is_cleared(w_del[e]) || w_del[e] == w0[e]);
                }
            }
            assert forall|e: int| 0 <= e < w2.len() && e != pe implies (
            #[trigger] w2[e]).wants_to_pickup is None by {
                assert(crate::world::is_cleared(w_del[e]) || w_del[e] == w0[e]);
            }
            assert(self.map.wf());
            assert(content_valid(self.map, w2));
            assert(positions_in_bounds(w2));
            assert(self.player_entity < w2.len());
            assert(self.player_rec().alive);
            assert(self.player_rec().player);
            assert(!self.player_rec().item);
            assert(!self.player_rec().entry_trigger);
            assert(self.player_rec().position == Some(self.player_pos));
            assert(self.player_rec().viewshed is Some);
            assert(self.player_rec().combat_stats is Some);
            assert(self.mapgen_next_state is Some);
            assert(self.wf());
        }

        let current_depth = self.map.depth;
        self.generate_world_map(current_depth + 1);
        let ghost w_gen = self.ecs.entities@;

        self.log.push(LogEntry::DescendAndHeal);
        let prec2 = &mut self.ecs.entities[pe];
        if let Some(stats) = prec2.combat_stats {
            let half = stats.max_hp / 2;
            let healed = if stats.hp >= half {
                stats.hp
            } else {
                half
            };
            prec2.combat_stats = Some(
                CombatStats {
                    max_hp: stats.max_hp,
                    hp: healed,
                    defense: stats.defense,
                    power: stats.power,
                },
            );
        }
        proof {
            assert forall|e: int|
                0 <= e < w0.len() && e != pe && !Self::should_delete_on_level_change(
                    w0,
                    e,
                    pe as int,
                ) implies #[trigger] self.ecs.entities@[e] == w0[e] by {
                assert(!to_delete@.contains(e as usize)) by {
                    if to_delete@.contains(e as usize) {
                        let k = choose|k: int|
                            0 <= k < to_delete@.len() && to_delete@[k] == e as usize;
                        assert(Self::should_delete_on_level_change(
                            w0,
                            to_delete@[k] as int,
                            pe as int,
                        ));
                        assert(w0.len() == n0);
                    }
                }
                assert(w_del[e] == w0[e]);
            }
            assert(Self::generated_level(
                self.map,
                self.ecs.entities@,
                w0.len() as int,
                self.player_pos,
            )) by {
                let rooms = choose|rooms: Seq<Rect>|
                    #[trigger] Self::generated_level_with(
                        self.map,
                        w_gen,
                        w0.len() as int,
                        self.player_pos,
                        rooms,
                    );
                assert(Self::generated_level_with(
                    self.map,
                    self.ecs.entities@,
                    w0.len() as int,
                    self.player_pos,
                    rooms,
                )) by {
                    assert forall|k: int| 1 <= k < rooms.len() implies crate::spawner::is_monster_at(
                        #[trigger] self.ecs.entities@[w0.len() + k - 1],
                        rooms[k].spec_center(),
                    ) by {
                        assert(crate::spawner::is_monster_at(
                            w_gen[w0.len() + k - 1],
                            rooms[k].spec_center(),
                        ));
                        assert(w0.len() + k - 1 != pe);
                    }
                }
            }
            assert forall|e: int|
                0 <= e < w0.len() && Self::should_delete_on_level_change(
                    w0,
                    e,
                    pe as int,
                ) implies crate::world::is_cleared(#[trigger] self.ecs.entities@[e]) by {
                assert(to_delete@.contains(e as usize));
                let k = choose|k: int| 0 <= k < to_delete@.len() && to_delete@[k] == e as usize;
                assert(to_delete@[k] == e as usize);
                assert(crate::world::is_cleared(w_del[to_delete@[k] as int]));
                assert(w0.len() == n0);
                assert(to_delete@[k] as int == e);
                assert(e != pe as int);
            }
        }
    }

    /// Wipe the world after a lost run: every entity goes, a fresh player
    /// spawns, and the first dungeon level is generated anew.
    #[verifier::loop_isolation(false)]
    pub fn game_over_cleanup(&mut self)
        requires
            old(self).wf(),
        ensures
            final(self).wf(),
            final(self).map.depth == 1,
            Self::single_stairs(final(self).map),
            final(self).run_state == old(self).run_state,
            final(self).player_rec().combat_stats == Some(
                CombatStats {
                    max_hp: crate::spawner::PLAYER_MAX_HP,
                    hp: crate::spawner::PLAYER_MAX_HP,
                    defense: 2,
                    power: 5,
                },
            ),
            forall|e: int|
                0 <= e < old(self).ecs.entities@.len() ==> crate::world::is_cleared(
                    #[trigger] final(self).ecs.entities@[e],
                ),
            final(self).player_entity == old(self).ecs.entities@.len(),
            Self::generated_level(
                final(self).map,
                final(self).ecs.entities@,
                old(self).ecs.entities@.len() as int + 1,
                final(self).player_pos,
            ),
    {
        let n = self.ecs.entities.len();
        let mut e: usize = 0;
        while e < n
            invariant
                e <= n,
                n == self.ecs.entities@.len(),
                self.map == old(self).map,
                self.player_entity == old(self).player_entity,
                self.player_pos == old(self).player_pos,
                self.log.entries@ == old(self).log.entries@,
                self.run_state == old(self).run_state,
                self.mapgen_next_state == old(self).mapgen_next_state,
                forall|t: int|
                    0 <= t < e ==> crate::world::is_cleared(#[trigger] self.ecs.entities@[t]),
            decreases n - e,
        {
            self.ecs.delete_entity(e);
            e = e + 1;
        }

        let player_entity = crate::spawner::player(&mut self.ecs, 0, 0);
        self.player_entity = player_entity;
        self.player_pos = Position { x: 0, y: 0 };

        proof {
            let w2 = self.ecs.entities@;
            assert forall|e: int|
                0 <= e < w2.len() && e != player_entity implies crate::world::is_cleared(
                #[trigger] w2[e],
            ) by {}
            assert(self.wf());
        }
        self.generate_world_map(1);
    }

    /// No live fighter is at or below zero hit points.
    pub open spec fn no_dead(w: Seq<EntityRecord>) -> bool {
        forall|e: int|
            0 <= e < w.len() && (#[trigger] w[e]).alive ==> (w[e].combat_stats matches Some(s)
                ==> s.hp >= 1)
    }

    /// Advance the game by one tick: read the active run state, perform its
    /// action with the event the collaborators handed in, and compute the
    /// next state. Every tick ends by removing dead entities; a dead
    /// player-controlled entity instead steers the run to its game-over
    /// screen. The turn pipeline runs only in the pre-run and turn states;
    /// waiting for input with no key pressed is a self-loop that runs no
    /// pass.
    #[verifier::loop_isolation(false)]
    #[verifier::rlimit(100)]
    pub fn tick(
        &mut self,
        event: TickEvent,
        fov: &Vec<crate::systems::visibility_system::FovUpdate>,
    ) -> (action: TickAction)
        requires
            old(self).wf(),
            old(self).player_rec().combat_stats->Some_0.hp < i32::MAX,
            old(self).run_state is NextLevel ==> old(self).map.depth < i32::MAX && 0 <= old(self).player_rec().combat_stats->Some_0.max_hp,
            forall|j1: int, j2: int|
                0 <= j1 < j2 < fov@.len() ==> (#[trigger] fov@[j1]).entity != (
                #[trigger] fov@[j2]).entity,
        ensures
            final(self).wf(),
            final(self).player_rec().combat_stats->Some_0.hp < 1 ==> final(self).run_state
                == RunState::GameOver,
            (old(self).run_state == RunState::PreRun || old(self).run_state
                == RunState::PlayerTurn || old(self).run_state == RunState::MonsterTurn || old(self).run_state == RunState::AwaitingInput || old(self).run_state matches
                RunState::MagicMapReveal { .. }) ==> (forall|i: int|
                0 <= i < MAPCOUNT && old(self).map.revealed_tiles@[i] ==> #[trigger] final(self).map.revealed_tiles@[i]),
            (old(self).run_state == RunState::PreRun && final(self).player_rec().combat_stats->Some_0.hp >= 1) ==> final(self).run_state == RunState::AwaitingInput,
            (old(self).run_state == RunState::PlayerTurn && final(self).player_rec().combat_stats->Some_0.hp >= 1) ==> final(self).run_state == RunState::MonsterTurn,
            (old(self).run_state == RunState::MonsterTurn && final(self).player_rec().combat_stats->Some_0.hp >= 1) ==> final(self).run_state == RunState::AwaitingInput,
            (old(self).run_state == RunState::PreRun || old(self).run_state
                == RunState::PlayerTurn || old(self).run_state == RunState::MonsterTurn)
                ==> exists|wp: Seq<EntityRecord>|
                #[trigger] Self::pipeline_post(
                    old(self).map,
                    old(self).ecs.entities@,
                    final(self).map,
                    wp,
                    fov@,
                    old(self).player_entity as int,
                ) && crate::systems::damage_system::dead_removed(wp, final(self).ecs.entities@),
            forall|e: int|
                0 <= e < final(self).ecs.entities@.len() && (#[trigger] final(self).ecs.entities@[e]).alive && !final(self).ecs.entities@[e].player ==> (final(self).ecs.entities@[e].combat_stats matches Some(s) ==> s.hp >= 1),
            (old(self).run_state == RunState::AwaitingInput && event == (TickEvent::Key {
                cmd: None,
            }) && Self::no_dead(old(self).ecs.entities@)) ==> final(self).run_state
                == RunState::AwaitingInput && final(self).ecs.entities@ == old(self).ecs.entities@
                && final(self).map == old(self).map && final(self).log.entries@ == old(self).log.entries@,
            old(self).run_state == RunState::NextLevel ==> final(self).map.depth == old(self).map.depth + 1 && ({
                let s0 = old(self).player_rec().combat_stats->Some_0;
                let s1 = final(self).player_rec().combat_stats->Some_0;
                &&& s1.max_hp == s0.max_hp
                &&& s1.hp == (if s0.hp >= s0.max_hp / 2 {
                    s0.hp as int
                } else {
                    s0.max_hp as int / 2
                })
                &&& (s1.hp >= 1 ==> final(self).run_state == RunState::PreRun)
            }),
            old(self).run_state == RunState::SaveGame ==> action == TickAction::SaveGame && (final(self).player_rec().combat_stats->Some_0.hp >= 1 ==> final(self).run_state == (
            RunState::MainMenu { menu_selection: MainMenuSelection::LoadGame })),
            (old(self).run_state matches RunState::MainMenu { .. } && event == (TickEvent::Menu {
                result: MainMenuResult::Selected { selected: MainMenuSelection::Quit },
            })) ==> action == TickAction::Quit,
            (old(self).run_state matches RunState::MainMenu { .. } && event == (TickEvent::Menu {
                result: MainMenuResult::Selected { selected: MainMenuSelection::NewGame },
            }) && final(self).player_rec().combat_stats->Some_0.hp >= 1) ==> final(self).run_state
                == RunState::PreRun,
            ((old(self).run_state == RunState::ShowInventory || old(self).run_state
                == RunState::ShowDropItem || old(self).run_state == RunState::ShowRemoveItem)
                && (event matches TickEvent::ItemMenu { result: ItemMenuResult::Cancel, .. })
                && final(self).player_rec().combat_stats->Some_0.hp >= 1) ==> final(self).run_state == RunState::AwaitingInput,
            ((old(self).run_state matches RunState::ShowTargeting { .. }) && (event matches
                TickEvent::Target { result: ItemMenuResult::Cancel, .. }) && final(self).player_rec().combat_stats->Some_0.hp >= 1) ==> final(self).run_state
                == RunState::AwaitingInput,
            old(self).run_state matches RunState::MagicMapReveal { row } ==> (final(self).player_rec().combat_stats->Some_0.hp >= 1 ==> (forall|x: int|
                0 <= x < MAPWIDTH ==> #[trigger] final(self).map.revealed_tiles@[spec_idx(
                    x,
                    row as int,
                )]) && final(self).run_state == (if row as int == MAPHEIGHT - 1 {
                RunState::MonsterTurn
            } else {
                RunState::MagicMapReveal { row: (row + 1) as i32 }
            })),
    {
        let mut new_run_state = self.run_state;
        let mut action = TickAction::Nothing;

        match new_run_state {
            RunState::PreRun => {
                self.run_systems(fov);
                new_run_state = RunState::AwaitingInput;
            },
            RunState::AwaitingInput => {
                let cmd = match event {
                    TickEvent::Key { cmd } => cmd,
                    _ => None,
                };
                new_run_state = crate::player::player_input(self, cmd);
            },
            RunState::PlayerTurn => {
                self.run_systems(fov);
                match self.run_state {
                    RunState::MagicMapReveal { .. } => {
                        new_run_state = RunState::MagicMapReveal { row: 0 };
                    },
                    _ => {
                        new_run_state = RunState::MonsterTurn;
                    },
                }
            },
            RunState::MonsterTurn => {
                self.run_systems(fov);
                new_run_state = RunState::AwaitingInput;
            },
            RunState::ShowInventory => {
                match event {
                    TickEvent::ItemMenu { result, item } => match result {
                        ItemMenuResult::Cancel => {
                            new_run_state = RunState::AwaitingInput;
                        },
                        ItemMenuResult::NoResponse => {},
                        ItemMenuResult::Selected => {
                            if let Some(item_entity) = item {
                                if item_entity < self.ecs.entities.len() {
                                    if let Some(range) = self.ecs.entities[item_entity].ranged {
                                        new_run_state = RunState::ShowTargeting {
                                            range,
                                            item: item_entity,
                                        };
                                    } else {
                                        let pe = self.player_entity;
                                        let prec = &mut self.ecs.entities[pe];
                                        prec.wants_to_use = Some(
                                            WantsToUseItem { item: item_entity, target: None },
                                        );
                                        new_run_state = RunState::PlayerTurn;
                                    }
                                }
                            }
                        },
                    },
                    _ => {},
                }
            },
            RunState::ShowDropItem => {
                match event {
                    TickEvent::ItemMenu { result, item } => match result {
                        ItemMenuResult::Cancel => {
                            new_run_state = RunState::AwaitingInput;
                        },
                        ItemMenuResult::NoResponse => {},
                        ItemMenuResult::Selected => {
                            if let Some(item_entity) = item {
                                let pe = self.player_entity;
                                let prec = &mut self.ecs.entities[pe];
                                prec.wants_to_drop = Some(item_entity);
                                new_run_state = RunState::PlayerTurn;
                            }
                        },
                    },
                    _ => {},
                }
            },
            RunState::ShowRemoveItem => {
                match event {
                    TickEvent::ItemMenu { result, item } => match result {
                        ItemMenuResult::Cancel => {
                            new_run_state = RunState::AwaitingInput;
                        },
                        ItemMenuResult::NoResponse => {},
                        ItemMenuResult::Selected => {
                            if let Some(item_entity) = item {
                                let pe = self.player_entity;
                                let prec = &mut self.ecs.entities[pe];
                                prec.wants_to_remove = Some(item_entity);
                                new_run_state = RunState::PlayerTurn;
                            }
                        },
                    },
                    _ => {},
                }
            },
            RunState::ShowTargeting { range: _, item } => {
                match event {
                    TickEvent::Target { result, target } => match result {
                        ItemMenuResult::Cancel => {
                            new_run_state = RunState::AwaitingInput;
                        },
                        ItemMenuResult::NoResponse => {},
                        ItemMenuResult::Selected => {
                            let pe = self.player_entity;
                            let prec = &mut self.ecs.entities[pe];
                            prec.wants_to_use = Some(WantsToUseItem { item, target });
                            new_run_state = RunState::PlayerTurn;
                        },
                    },
                    _ => {},
                }
            },
            RunState::MainMenu { .. } => {
                match event {
                    TickEvent::Menu { result } => match result {
                        MainMenuResult::NoSelection { selected } => {
                            new_run_state = RunState::MainMenu { menu_selection: selected };
                        },
                        MainMenuResult::Selected { selected } => match selected {
                            MainMenuSelection::NewGame => {
                                new_run_state = RunState::PreRun;
                            },
                            MainMenuSelection::LoadGame => {
                                action = TickAction::LoadGame;
                                new_run_state = RunState::AwaitingInput;
                            },
                            MainMenuSelection::Quit => {
                                action = TickAction::Quit;
                            },
                        },
                    },
                    _ => {},
                }
            },
            RunState::SaveGame => {
                action = TickAction::SaveGame;
                new_run_state = RunState::MainMenu {
                    menu_selection: MainMenuSelection::LoadGame,
                };
            },
            RunState::NextLevel => {
                self.goto_next_level();
                new_run_state = RunState::PreRun;
            },
            RunState::GameOver => {
                match event {
                    TickEvent::GameOverMenu { result } => match result {
                        GameOverResult::NoSelection => {},
                        GameOverResult::QuitToMenu => {
                            self.game_over_cleanup();
                            new_run_state = RunState::MainMenu {
                                menu_selection: MainMenuSelection::NewGame,
                            };
                        },
                    },
                    _ => {},
                }
            },
            RunState::MagicMapReveal { row } => {
                let mut x: i32 = 0;
                while x < MAPWIDTH as i32
                    invariant
                        0 <= x <= MAPWIDTH,
                        self.map.wf(),
                        self.map.tiles@ == old(self).map.tiles@,
                        self.map.visible_tiles@ == old(self).map.visible_tiles@,
                        self.map.blocked@ == old(self).map.blocked@,
                        self.map.tile_content@ == old(self).map.tile_content@,
                        self.map.bloodstains@ == old(self).map.bloodstains@,
                        self.map.depth == old(self).map.depth,
                        forall|i: int|
                            0 <= i < MAPCOUNT && old(self).map.revealed_tiles@[i]
                                ==> #[trigger] self.map.revealed_tiles@[i],
                        forall|xx: int|
                            0 <= xx < x ==> #[trigger] self.map.revealed_tiles@[spec_idx(
                                xx,
                                row as int,
                            )],
                        self.ecs == old(self).ecs,
                        self.player_entity == old(self).player_entity,
                        self.player_pos == old(self).player_pos,
                        self.log == old(self).log,
                        self.mapgen_next_state == old(self).mapgen_next_state,
                        self.run_state == old(self).run_state,
                        0 <= row < MAPHEIGHT,
                    decreases MAPWIDTH - x,
                {
                    let idx = self.map.xy_idx(x, row);
                    self.map.revealed_tiles[idx] = true;
                    x = x + 1;
                }
                if row as usize == MAPHEIGHT - 1 {
                    new_run_state = RunState::MonsterTurn;
                } else {
                    new_run_state = RunState::MagicMapReveal { row: row + 1 };
                }
            },
            RunState::MapGeneration => {
                if !SHOW_MAPGEN_VISUALIZER {
                    new_run_state = match self.mapgen_next_state {
                        Some(st) => st,
                        None => RunState::MapGeneration,
                    };
                }
                match event {
                    TickEvent::MapGenFrame { elapsed } => {
                        if elapsed {
                            if self.mapgen_index < usize::MAX {
                                self.mapgen_index = self.mapgen_index + 1;
                            }
                            if self.mapgen_index >= self.mapgen_history.len() {
                                new_run_state = match self.mapgen_next_state {
                                    Some(st) => st,
                                    None => RunState::MapGeneration,
                                };
                            }
                        }
                    },
                    _ => {},
                }
            },
        }

        self.run_state = new_run_state;
        proof {
            assert(self.wf());
        }
        let ghost w_pre = self.ecs.entities@;
        let ghost pe0 = self.player_entity as int;

        let player_died = crate::systems::damage_system::delete_the_dead(&mut self.ecs);
        if player_died {
            self.log.push(LogEntry::YouAreDead);
            self.run_state = RunState::GameOver;
        }
        proof {
            assert(self.ecs.entities@[pe0] == w_pre[pe0]) by {
                assert(w_pre[pe0].player);
            }
            if !player_died {
                assert(!((#[trigger] w_pre[pe0]).alive && w_pre[pe0].player && (
                w_pre[pe0].combat_stats matches Some(s) && s.hp < 1)));
                assert(self.player_rec().combat_stats->Some_0.hp >= 1);
            }
            assert forall|e: int|
                0 <= e < self.ecs.entities@.len() && (#[trigger] self.ecs.entities@[e]).alive
                    && !self.ecs.entities@[e].player implies (
            self.ecs.entities@[e].combat_stats matches Some(s) ==> s.hp >= 1) by {
                if w_pre[e].alive && !w_pre[e].player && (w_pre[e].combat_stats matches Some(s)
                    && s.hp < 1) {
                    assert(crate::world::is_cleared(self.ecs.entities@[e]));
                } else {
                    assert(self.ecs.entities@[e] == w_pre[e]);
                }
            }
            if old(self).run_state == RunState::PreRun || old(self).run_state
                == RunState::PlayerTurn || old(self).run_state == RunState::MonsterTurn {
                assert(Self::pipeline_post(
                    old(self).map,
                    old(self).ecs.entities@,
                    self.map,
                    w_pre,
                    fov@,
                    old(self).player_entity as int,
                ));
            }
        }

        action
    }
}

} // verus!