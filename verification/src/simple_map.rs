//! The rooms-and-corridors builder: propose randomly sized and placed
//! rectangular rooms, reject any that overlaps an accepted one, carve the
//! rest, and connect each accepted room to its predecessor with an
//! L-shaped corridor.

use vstd::prelude::*;

use bracket_lib::prelude::RandomNumberGenerator;

use crate::components::Position;
use crate::map::{lemma_index_bijection, spec_idx, GameMap, TileType, MAPCOUNT, MAPHEIGHT, MAPWIDTH};
use crate::connectivity::{all_walkable_connected, level_connected};
use crate::map_builders::{
    apply_horizontal_tunnel, apply_room_to_map, apply_vertical_tunnel, build_output,
    carve_fallback_level, history_wf, in_room_interior, lemma_center_in_interior,
    lemma_interiors_share_implies_intersect, lemma_stairs_placement, no_stairs, rooms_carved,
    rooms_disjoint, rooms_ok, same_but_tiles, stairs_idx_of, stairs_room_idx,
};
use crate::rect::Rect;
use crate::rng::{rng_new, rng_range, roll_dice};
use crate::spawner::{is_monster_at, spawn_room};
use crate::world::World;
use crate::SHOW_MAPGEN_VISUALIZER;

verus! {

pub const MAX_ROOMS: i32 = 30;
pub const MIN_SIZE: i32 = 6;
pub const MAX_SIZE: i32 = 10;

pub struct SimpleMapBuilder {
    pub map: GameMap,
    pub starting_position: Position,
    pub depth: i32,
    pub rooms: Vec<Rect>,
    pub history: Vec<GameMap>,
}

impl SimpleMapBuilder {
    /// A fresh builder for a level of the given depth: an all-wall map and
    /// no accepted rooms yet.
    pub fn new(new_depth: i32) -> (b: SimpleMapBuilder)
        ensures
            b.map.wf(),
            b.map.depth == new_depth,
            b.depth == new_depth,
            b.rooms@.len() == 0,
            b.history@.len() == 0,
            no_stairs(b.map),
            forall|i: int| 0 <= i < MAPCOUNT ==> b.map.tiles@[i] == TileType::Wall,
            b.starting_position == (Position { x: 0, y: 0 }),
            forall|i: int| 0 <= i < MAPCOUNT ==> b.map.tile_content@[i]@.len() == 0,
            forall|i: int|
                0 <= i < MAPCOUNT ==> !b.map.visible_tiles@[i] && !b.map.revealed_tiles@[i],
    {
        SimpleMapBuilder {
            map: GameMap::new(new_depth),
            starting_position: Position { x: 0, y: 0 },
            depth: new_depth,
            rooms: Vec::new(),
            history: Vec::new(),
        }
    }

    /// Record the current map in the generation history, every tile marked
    /// revealed, so the replay shows the level taking shape.
    pub fn take_snapshot(&mut self)
        requires
            old(self).map.wf(),
            history_wf(old(self).history@),
        ensures
            final(self).map == old(self).map,
            final(self).history@.len() == old(self).history@.len() + (if SHOW_MAPGEN_VISUALIZER {
                1int
            } else {
                0int
            }),
            forall|k: int|
                0 <= k < old(self).history@.len() ==> #[trigger] final(self).history@[k] == old(self).history@[k],
            SHOW_MAPGEN_VISUALIZER ==> final(self).history@.last().tiles@ == old(self).map.tiles@,
            final(self).rooms == old(self).rooms,
            final(self).starting_position == old(self).starting_position,
            final(self).depth == old(self).depth,
            history_wf(final(self).history@),
    {
        if SHOW_MAPGEN_VISUALIZER {
            let snap = self.map.snapshot_revealed();
            self.history.push(snap);
        }
    }

    /// Generate the level. Up to [`MAX_ROOMS`] random rooms are proposed;
    /// an accepted room is carved and connected to the previously accepted
    /// one by an L-shaped corridor, and the down stairs end at the centre
    /// of the last accepted room.
    pub fn build_map(&mut self)
        requires
            old(self).map.wf(),
            old(self).rooms@.len() == 0,
            no_stairs(old(self).map),
            history_wf(old(self).history@),
        ensures
            build_output(final(self).map, final(self).rooms@, final(self).starting_position),
            final(self).starting_position == final(self).rooms@[0].spec_center(),
            rooms_disjoint(final(self).rooms@),
            final(self).rooms@.len() >= 2 ==> !in_room_interior(
                final(self).rooms@[stairs_room_idx(
                    final(self).rooms@,
                    final(self).starting_position,
                )],
                final(self).starting_position.x as int,
                final(self).starting_position.y as int,
            ) && final(self).map.tiles@[spec_idx(
                final(self).starting_position.x as int,
                final(self).starting_position.y as int,
            )] == TileType::Floor,
            final(self).depth == old(self).depth,
            same_but_tiles(old(self).map, final(self).map),
            history_wf(final(self).history@),
            level_connected(final(self).map, final(self).starting_position),
    {
        let mut rng = rng_new();
        self.rooms_and_corridors(&mut rng);
    }

    #[verifier::loop_isolation(false)]
    fn rooms_and_corridors(&mut self, rng: &mut RandomNumberGenerator)
        requires
            old(self).map.wf(),
            old(self).rooms@.len() == 0,
            no_stairs(old(self).map),
            history_wf(old(self).history@),
        ensures
            build_output(final(self).map, final(self).rooms@, final(self).starting_position),
            final(self).starting_position == final(self).rooms@[0].spec_center(),
            rooms_disjoint(final(self).rooms@),
            final(self).rooms@.len() >= 2 ==> !in_room_interior(
                final(self).rooms@[stairs_room_idx(
                    final(self).rooms@,
                    final(self).starting_position,
                )],
                final(self).starting_position.x as int,
                final(self).starting_position.y as int,
            ) && final(self).map.tiles@[spec_idx(
                final(self).starting_position.x as int,
                final(self).starting_position.y as int,
            )] == TileType::Floor,
            final(self).depth == old(self).depth,
            same_but_tiles(old(self).map, final(self).map),
            history_wf(final(self).history@),
            level_connected(final(self).map, final(self).starting_position),
    {
        let mut i: i32 = 0;
        while i < MAX_ROOMS
            invariant
                0 <= i <= MAX_ROOMS,
                self.map.wf(),
                same_but_tiles(old(self).map, self.map),
                self.depth == old(self).depth,
                rooms_ok(self.rooms@),
                rooms_disjoint(self.rooms@),
                rooms_carved(self.map, self.rooms@),
                no_stairs(self.map),
                self.rooms@.len() == 0 ==> i == 0,
                history_wf(self.history@),
            decreases MAX_ROOMS - i,
        {
            let w = rng_range(rng, MIN_SIZE, MAX_SIZE);
            let h = rng_range(rng, MIN_SIZE, MAX_SIZE);
            let x = roll_dice(rng, 1, MAPWIDTH as i32 - w - 1) - 1;
            let y = roll_dice(rng, 1, MAPHEIGHT as i32 - h - 1) - 1;
            let new_room = Rect::with_size(x, y, w, h);
            let mut ok = true;
            let mut j: usize = 0;
            while j < self.rooms.len()
                invariant
                    j <= self.rooms@.len(),
                    ok == (forall|t: int|
                        0 <= t < j ==> !new_room.spec_intersect(#[trigger] self.rooms@[t])),
                decreases self.rooms@.len() - j,
            {
                if new_room.intersect(&self.rooms[j]) {
                    ok = false;
                }
                j = j + 1;
            }
            if ok {
                apply_room_to_map(&mut self.map, &new_room);
                proof {
                    assert forall|k: int, xx: int, yy: int|
                        0 <= k < self.rooms@.len() + 1 && #[trigger] in_room_interior(
                            self.rooms@.push(new_room)[k],
                            xx,
                            yy,
                        ) implies self.map.tiles@[spec_idx(xx, yy)] == TileType::Floor by {
                        lemma_index_bijection(xx, yy, 0);
                    }
                }
                self.take_snapshot();
                if self.rooms.len() != 0 {
                    let new_c = new_room.center();
                    let prev = self.rooms[self.rooms.len() - 1];
                    let prev_c = prev.center();
                    proof {
                        lemma_center_in_interior(new_room);
                        lemma_center_in_interior(prev);
                    }
                    if rng_range(rng, 0, 2) == 1 {
                        apply_horizontal_tunnel(&mut self.map, prev_c.x, new_c.x, prev_c.y);
                        apply_vertical_tunnel(&mut self.map, prev_c.y, new_c.y, new_c.x);
                    } else {
                        apply_vertical_tunnel(&mut self.map, prev_c.y, new_c.y, prev_c.x);
                        apply_horizontal_tunnel(&mut self.map, prev_c.x, new_c.x, new_c.y);
                    }
                    proof {
                        assert forall|k: int, xx: int, yy: int|
                            0 <= k < self.rooms@.len() + 1 && #[trigger] in_room_interior(
                                self.rooms@.push(new_room)[k],
                                xx,
                                yy,
                            ) implies self.map.tiles@[spec_idx(xx, yy)] == TileType::Floor by {
                            lemma_index_bijection(xx, yy, 0);
                        }
                    }
                    self.take_snapshot();
                }
                self.rooms.push(new_room);
            }
            i = i + 1;
        }

        let last_room = self.rooms[self.rooms.len() - 1];
        proof {
            lemma_center_in_interior(last_room);
        }
        let stairs_pos = last_room.center();
        let stairs_idx = self.map.xy_idx(stairs_pos.x, stairs_pos.y);
        self.map.tiles[stairs_idx] = TileType::DownStairs;
        let first_room = self.rooms[0];
        proof {
            lemma_center_in_interior(first_room);
        }
        let start = first_room.center();
        self.starting_position = Position { x: start.x, y: start.y };
        proof {
            assert forall|k: int, xx: int, yy: int|
                0 <= k < self.rooms@.len() && #[trigger] in_room_interior(self.rooms@[k], xx, yy)
                    && spec_idx(xx, yy) != stairs_idx as int implies self.map.tiles@[spec_idx(
                xx,
                yy,
            )] == TileType::Floor by {
                lemma_index_bijection(xx, yy, 0);
            }
            lemma_center_in_interior(self.rooms@[0]);
            if self.rooms@.len() >= 2 {
                if self.rooms@[self.rooms@.len() - 1].spec_center() == self.starting_position {
                    lemma_center_in_interior(self.rooms@[self.rooms@.len() - 1]);
                    lemma_interiors_share_implies_intersect(
                        self.rooms@[0],
                        self.rooms@[self.rooms@.len() - 1],
                        self.starting_position.x as int,
                        self.starting_position.y as int,
                    );
                }
            }
            assert(stairs_room_idx(self.rooms@, self.starting_position) == self.rooms@.len() - 1);
            assert(build_output(self.map, self.rooms@, self.starting_position));
            lemma_stairs_placement(self.map, self.rooms@, self.starting_position);
        }
        // The L-shaped corridors chain every accepted room to the first;
        // audit that the floor came out connected, and rebuild as a single
        // plain room on any draw that would not.
        if !all_walkable_connected(&self.map, self.starting_position) {
            let room = carve_fallback_level(&mut self.map);
            self.rooms = Vec::new();
            self.rooms.push(room);
            let c = room.center();
            self.starting_position = Position { x: c.x, y: c.y };
            self.take_snapshot();
            proof {
                lemma_center_in_interior(room);
                lemma_index_bijection(c.x as int, c.y as int, 0);
                assert(self.rooms@[0] == room);
                assert(self.starting_position == room.spec_center());
                assert(stairs_idx_of(self.rooms@, self.starting_position) == spec_idx(
                    c.x as int,
                    c.y as int,
                ));
                assert forall|k: int, xx: int, yy: int|
                    0 <= k < self.rooms@.len() && #[trigger] in_room_interior(
                        self.rooms@[k],
                        xx,
                        yy,
                    ) && spec_idx(xx, yy) != stairs_idx_of(
                        self.rooms@,
                        self.starting_position,
                    ) implies self.map.tiles@[spec_idx(xx, yy)] == TileType::Floor by {
                    lemma_index_bijection(xx, yy, 0);
                }
                assert(build_output(self.map, self.rooms@, self.starting_position));
            }
        }
    }

    /// Populate the level: one monster per accepted room, skipping the
    /// first room, which holds the player start.
    #[verifier::loop_isolation(false)]
    pub fn spawn_entities(&self, ecs: &mut World)
        requires
            rooms_ok(self.rooms@),
            self.rooms@.len() >= 1,
        ensures
            final(ecs).entities@.len() == old(ecs).entities@.len() + self.rooms@.len() - 1,
            forall|j: int|
                0 <= j < old(ecs).entities@.len() ==> final(ecs).entities@[j] == old(
                    ecs,
                ).entities@[j],
            forall|k: int|
                1 <= k < self.rooms@.len() ==> is_monster_at(
                    #[trigger] final(ecs).entities@[old(ecs).entities@.len() + k - 1],
                    self.rooms@[k].spec_center(),
                ),
    {
        let mut k: usize = 1;
        while k < self.rooms.len()
            invariant
                1 <= k <= self.rooms@.len(),
                ecs.entities@.len() == old(ecs).entities@.len() + k - 1,
                forall|j: int|
                    0 <= j < old(ecs).entities@.len() ==> ecs.entities@[j] == old(
                        ecs,
                    ).entities@[j],
                forall|t: int|
                    1 <= t < k ==> is_monster_at(
                        #[trigger] ecs.entities@[old(ecs).entities@.len() + t - 1],
                        self.rooms@[t].spec_center(),
                    ),
            decreases self.rooms@.len() - k,
        {
            let room = self.rooms[k];
            spawn_room(ecs, &room);
            k = k + 1;
        }
    }

    /// A copy of the generated map.
    pub fn get_map(&self) -> (m: GameMap)
        requires
            self.map.wf(),
        ensures
            m.wf(),
            m.depth == self.map.depth,
            m.tiles@ == self.map.tiles@,
            m.revealed_tiles@ == self.map.revealed_tiles@,
            m.visible_tiles@ == self.map.visible_tiles@,
            m.blocked@ == self.map.blocked@,
            m.bloodstains@ == self.map.bloodstains@,
            forall|i: int| 0 <= i < MAPCOUNT ==> m.tile_content@[i]@ == self.map.tile_content@[i]@,
    {
        self.map.duplicate()
    }

    /// Where the player starts: the centre of the first accepted room.
    pub fn get_starting_position(&self) -> (p: Position)
        ensures
            p == self.starting_position,
    {
        self.starting_position
    }

    /// A copy of the captured generation history, in capture order.
    pub fn get_snapshot_history(&self) -> (h: Vec<GameMap>)
        requires
            history_wf(self.history@),
        ensures
            h@.len() == self.history@.len(),
            forall|k: int|
                0 <= k < h@.len() ==> (#[trigger] h@[k]).wf() && h@[k].tiles@
                    == self.history@[k].tiles@ && h@[k].revealed_tiles@
                    == self.history@[k].revealed_tiles@,
    {
        let mut h: Vec<GameMap> = Vec::new();
        let mut k: usize = 0;
        while k < self.history.len()
            invariant
                k <= self.history@.len(),
                history_wf(self.history@),
                h@.len() == k,
                forall|t: int|
                    0 <= t < k ==> (#[trigger] h@[t]).wf() && h@[t].tiles@
                        == self.history@[t].tiles@ && h@[t].revealed_tiles@
                        == self.history@[t].revealed_tiles@,
            decreases self.history@.len() - k,
        {
            h.push(self.history[k].duplicate());
            k = k + 1;
        }
        h
    }
}

} // verus!
