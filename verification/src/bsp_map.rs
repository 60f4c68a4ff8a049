//! The recursive-subdivision builder: grow a pool of candidate rectangles
//! by quartering, carve random sub-rectangles that fit with a two-tile
//! margin, then connect the accepted rooms left to right with a greedy
//! single-step corridor walker.

use vstd::prelude::*;

use bracket_lib::prelude::RandomNumberGenerator;

use crate::components::Position;
use crate::map::{lemma_index_bijection, spec_idx, GameMap, TileType, MAPCOUNT, MAPHEIGHT, MAPWIDTH};
use crate::connectivity::{all_walkable_connected, level_connected};
use crate::map_builders::{
    apply_room_to_map, build_output, carve_fallback_level, floor_iff_rooms, history_wf,
    in_room_interior, lemma_center_in_interior, lemma_interiors_share_implies_intersect,
    lemma_stairs_placement, no_stairs, room_ok, rooms_carved, rooms_disjoint, rooms_ok,
    same_but_tiles, stairs_idx_of, stairs_room_idx, start_at_some_center,
};
use crate::rect::Rect;
use crate::rng::{rng_new, roll_dice};
use crate::spawner::{is_monster_at, spawn_room};
use crate::world::World;
use crate::SHOW_MAPGEN_VISUALIZER;

verus! {

/// The fixed iteration budget of the subdivision loop: the room count is
/// whatever the budget yields, not a target.
pub const BUILD_ATTEMPTS: i32 = 240;

/// How far apart two coordinates lie.
pub open spec fn abs_diff(a: int, b: int) -> int {
    if a <= b {
        b - a
    } else {
        a - b
    }
}

pub open spec fn between(a: int, m: int, b: int) -> bool {
    (a <= m <= b) || (b <= m <= a)
}

/// The cells the greedy corridor walker carves on its way from (x1, y1)
/// to (x2, y2): it closes the x gap first, then the y gap, and does not
/// carve its starting cell.
pub open spec fn on_corridor(x1: int, y1: int, x2: int, y2: int, cx: int, cy: int) -> bool {
    ||| (cy == y1 && cx != x1 && between(x1, cx, x2))
    ||| (cx == x2 && cy != y1 && between(y1, cy, y2))
}

/// Candidate rectangles in the subdivision pool stay non-degenerate and
/// under the coordinate bound `b`.
pub open spec fn pool_bounded(rects: Seq<Rect>, b: int) -> bool {
    forall|k: int|
        0 <= k < rects.len() ==> {
            let r = #[trigger] rects[k];
            &&& 0 <= r.x1 < r.x2 <= b
            &&& 0 <= r.y1 < r.y2 <= b
        }
}

/// A candidate that passes the padded all-wall test meets no accepted
/// room: any rectangle overlap would put one of the room's carved floor
/// tiles inside the candidate's padding, where only wall is allowed.
proof fn lemma_possible_disjoint(map: GameMap, rooms: Seq<Rect>, cand: Rect)
    requires
        crate::map_builders::rooms_ok(rooms),
        floor_iff_rooms(map, rooms),
        BspMapBuilder::spec_is_possible(map, cand),
        cand.x1 <= cand.x2,
        cand.y1 <= cand.y2,
    ensures
        forall|k: int|
            0 <= k < rooms.len() ==> !(#[trigger] rooms[k]).spec_intersect(cand)
                && !cand.spec_intersect(rooms[k]),
{
    assert forall|k: int|
        0 <= k < rooms.len() implies !(#[trigger] rooms[k]).spec_intersect(cand)
        && !cand.spec_intersect(rooms[k]) by {
        let r = rooms[k];
        if r.spec_intersect(cand) || cand.spec_intersect(r) {
            let xx = if r.x1 + 1 >= cand.x1 - 2 {
                r.x1 + 1
            } else {
                cand.x1 - 2
            };
            let yy = if r.y1 + 1 >= cand.y1 - 2 {
                r.y1 + 1
            } else {
                cand.y1 - 2
            };
            assert(in_room_interior(r, xx, yy));
            assert(cand.x1 - 2 <= xx <= cand.x2 + 2 && cand.y1 - 2 <= yy <= cand.y2 + 2);
            assert(in_build_range(xx, yy));
            assert(map.tiles@[spec_idx(xx, yy)] == TileType::Wall);
            assert(map.tiles@[spec_idx(xx, yy)] == TileType::Floor);
            assert(false);
        }
    }
}

pub struct BspMapBuilder {
    pub map: GameMap,
    pub starting_position: Position,
    pub depth: i32,
    pub rooms: Vec<Rect>,
    pub history: Vec<GameMap>,
    pub rects: Vec<Rect>,
}

impl BspMapBuilder {
    /// A fresh builder for a level of the given depth.
    pub fn new(new_depth: i32) -> (b: BspMapBuilder)
        ensures
            b.map.wf(),
            b.map.depth == new_depth,
            b.depth == new_depth,
            b.rooms@.len() == 0,
            b.history@.len() == 0,
            no_stairs(b.map),
            forall|i: int| 0 <= i < MAPCOUNT ==> b.map.tiles@[i] == TileType::Wall,
            b.starting_position == (Position { x: 0, y: 0 }),
            b.rects@.len() == 0,
            forall|i: int| 0 <= i < MAPCOUNT ==> b.map.tile_content@[i]@.len() == 0,
            forall|i: int|
                0 <= i < MAPCOUNT ==> !b.map.visible_tiles@[i] && !b.map.revealed_tiles@[i],
    {
        BspMapBuilder {
            map: GameMap::new(new_depth),
            starting_position: Position { x: 0, y: 0 },
            depth: new_depth,
            rooms: Vec::new(),
            history: Vec::new(),
            rects: Vec::new(),
        }
    }

    /// Record the current map in the generation history, every tile marked
    /// revealed, so the replay shows the level taking shape.
    pub fn take_snapshot(&mut self)
        requires
            old(self).map.wf(),
            history_wf(old(self).history@),
        ensures
            final(self).map == old(self).map,
            final(self).history@.len() == old(self).history@.len() + (if SHOW_MAPGEN_VISUALIZER {
                1int
            } else {
                0int
            }),
            forall|k: int|
                0 <= k < old(self).history@.len() ==> #[trigger] final(self).history@[k] == old(self).history@[k],
            SHOW_MAPGEN_VISUALIZER ==> final(self).history@.last().tiles@ == old(self).map.tiles@,
            final(self).rooms == old(self).rooms,
            final(self).rects == old(self).rects,
            final(self).starting_position == old(self).starting_position,
            final(self).depth == old(self).depth,
            history_wf(final(self).history@),
    {
        if SHOW_MAPGEN_VISUALIZER {
            let snap = self.map.snapshot_revealed();
            self.history.push(snap);
        }
    }

    /// Push the four quadrant subdivisions of `rect` into the candidate
    /// pool; a quadrant never grows more than one cell past its parent.
    fn add_subrects(&mut self, rect: Rect)
        requires
            0 <= rect.x1 < rect.x2 <= 100000,
            0 <= rect.y1 < rect.y2 <= 100000,
        ensures
            final(self).map == old(self).map,
            final(self).rooms == old(self).rooms,
            final(self).history == old(self).history,
            final(self).starting_position == old(self).starting_position,
            final(self).depth == old(self).depth,
            final(self).rects@.len() == old(self).rects@.len() + 4,
            forall|k: int|
                0 <= k < old(self).rects@.len() ==> final(self).rects@[k] == old(self).rects@[k],
            forall|k: int|
                old(self).rects@.len() <= k < final(self).rects@.len() ==> {
                    let r = #[trigger] final(self).rects@[k];
                    &&& 0 <= r.x1 < r.x2 <= rect.x2 + 1
                    &&& 0 <= r.y1 < r.y2 <= rect.y2 + 1
                },
    {
        let width = rect.width();
        let height = rect.height();
        let half_width = if width / 2 > 1 {
            width / 2
        } else {
            1
        };
        let half_height = if height / 2 > 1 {
            height / 2
        } else {
            1
        };

        self.rects.push(Rect::with_size(rect.x1, rect.y1, half_width, half_height));
        self.rects.push(Rect::with_size(rect.x1, rect.y1 + half_height, half_width, half_height));
        self.rects.push(Rect::with_size(rect.x1 + half_width, rect.y1, half_width, half_height));
        self.rects.push(
            Rect::with_size(rect.x1 + half_width, rect.y1 + half_height, half_width, half_height),
        );
    }

    /// Pick a random rectangle from the candidate pool.
    fn get_random_rect(&self, rng: &mut RandomNumberGenerator) -> (r: Rect)
        requires
            1 <= self.rects@.len() <= 100000,
        ensures
            self.rects@.contains(r),
    {
        if self.rects.len() == 1 {
            return self.rects[0];
        }
        let roll = roll_dice(rng, 1, self.rects.len() as i32);
        let idx = (roll - 1) as usize;

        self.rects[idx]
    }

    /// Carve a random sub-rectangle out of a candidate: 4 to 10 cells per
    /// axis, jittered up to five cells right and down.
    fn get_random_sub_rect(&self, rect: Rect, rng: &mut RandomNumberGenerator) -> (r: Rect)
        requires
            0 <= rect.x1 < rect.x2 <= 100001,
            0 <= rect.y1 < rect.y2 <= 100001,
        ensures
            rect.x1 <= r.x1 <= rect.x1 + 5,
            rect.y1 <= r.y1 <= rect.y1 + 5,
            r.x1 + 4 <= r.x2 <= r.x1 + 10,
            r.y1 + 4 <= r.y2 <= r.y1 + 10,
    {
        let mut result = rect;
        let rect_width = rect.width();
        let rect_height = rect.height();

        let w_die = if rect_width < 10 {
            rect_width
        } else {
            10
        };
        let h_die = if rect_height < 10 {
            rect_height
        } else {
            10
        };
        let w_roll = roll_dice(rng, 1, w_die) - 1;
        let h_roll = roll_dice(rng, 1, h_die) - 1;
        let w = (if w_roll > 3 {
            w_roll
        } else {
            3
        }) + 1;
        let h = (if h_roll > 3 {
            h_roll
        } else {
            3
        }) + 1;

        result.x1 += roll_dice(rng, 1, 6) - 1;
        result.y1 += roll_dice(rng, 1, 6) - 1;
        result.x2 = result.x1 + w;
        result.y2 = result.y1 + h;

        result
    }

    /// Whether a candidate room, padded by a two-tile border, lies fully in
    /// the grid's interior and overlaps no carved tile.
    pub open spec fn spec_is_possible(map: GameMap, rect: Rect) -> bool {
        &&& forall|xx: int, yy: int|
            rect.x1 - 2 <= xx <= rect.x2 + 2 && rect.y1 - 2 <= yy <= rect.y2 + 2
                ==> #[trigger] in_build_range(xx, yy)
        &&& forall|xx: int, yy: int|
            rect.x1 - 2 <= xx <= rect.x2 + 2 && rect.y1 - 2 <= yy <= rect.y2 + 2 && in_build_range(
                xx,
                yy,
            ) ==> map.tiles@[#[trigger] spec_idx(xx, yy)] == TileType::Wall
    }

    #[verifier::loop_isolation(false)]
    fn is_possible(&self, rect: Rect) -> (r: bool)
        requires
            self.map.wf(),
            -100010 <= rect.x1 < rect.x2 <= 100010,
            -100010 <= rect.y1 < rect.y2 <= 100010,
        ensures
            r == Self::spec_is_possible(self.map, rect),
    {
        let ex1 = rect.x1 - 2;
        let ex2 = rect.x2 + 2;
        let ey1 = rect.y1 - 2;
        let ey2 = rect.y2 + 2;

        let mut can_build = true;

        let mut y: i32 = ey1;
        while y <= ey2
            invariant
                self.map.wf(),
                ey1 <= y <= ey2 + 1,
                can_build == ((forall|xx: int, yy: int|
                    ex1 <= xx <= ex2 && ey1 <= yy < y ==> #[trigger] in_build_range(xx, yy))
                    && (forall|xx: int, yy: int|
                    ex1 <= xx <= ex2 && ey1 <= yy < y && in_build_range(xx, yy)
                        ==> self.map.tiles@[#[trigger] spec_idx(xx, yy)] == TileType::Wall)),
            decreases ey2 + 1 - y,
        {
            let mut x: i32 = ex1;
            while x <= ex2
                invariant
                    self.map.wf(),
                    ey1 <= y <= ey2,
                    ex1 <= x <= ex2 + 1,
                    can_build == ((forall|xx: int, yy: int|
                        (ex1 <= xx <= ex2 && ey1 <= yy < y) || (ex1 <= xx < x && yy == y)
                            ==> #[trigger] in_build_range(xx, yy)) && (forall|xx: int, yy: int|
                        ((ex1 <= xx <= ex2 && ey1 <= yy < y) || (ex1 <= xx < x && yy == y))
                            && in_build_range(xx, yy) ==> self.map.tiles@[#[trigger] spec_idx(
                            xx,
                            yy,
                        )] == TileType::Wall)),
                decreases ex2 + 1 - x,
            {
                let mut cell_ok = can_build;
                if x > self.map.width - 2 {
                    cell_ok = false;
                }
                if y > self.map.height - 2 {
                    cell_ok = false;
                }
                if x < 1 {
                    cell_ok = false;
                }
                if y < 1 {
                    cell_ok = false;
                }
                if cell_ok {
                    let idx = self.map.xy_idx(x, y);
                    if !matches!(self.map.tiles[idx], TileType::Wall) {
                        cell_ok = false;
                    }
                }
                proof {
                    if !cell_ok {
                        assert(!((forall|xx: int, yy: int|
                            (ex1 <= xx <= ex2 && ey1 <= yy < y) || (ex1 <= xx <= x && yy == y)
                                ==> #[trigger] in_build_range(xx, yy)) && (forall|xx: int, yy: int|
                            ((ex1 <= xx <= ex2 && ey1 <= yy < y) || (ex1 <= xx <= x && yy == y))
                                && in_build_range(xx, yy) ==> self.map.tiles@[#[trigger] spec_idx(
                                xx,
                                yy,
                            )] == TileType::Wall))) by {
                            if (forall|xx: int, yy: int|
                                (ex1 <= xx <= ex2 && ey1 <= yy < y) || (ex1 <= xx <= x && yy == y)
                                    ==> #[trigger] in_build_range(xx, yy)) && (forall|
                                xx: int,
                                yy: int,
                            |
                                ((ex1 <= xx <= ex2 && ey1 <= yy < y) || (ex1 <= xx <= x && yy == y))
                                    && in_build_range(xx, yy)
                                    ==> self.map.tiles@[#[trigger] spec_idx(xx, yy)]
                                    == TileType::Wall) {
                                assert(in_build_range(x as int, y as int));
                                assert(self.map.tiles@[spec_idx(x as int, y as int)]
                                    == TileType::Wall);
                                assert(forall|xx: int, yy: int|
                                    (ex1 <= xx <= ex2 && ey1 <= yy < y) || (ex1 <= xx < x && yy
                                        == y) ==> #[trigger] in_build_range(xx, yy));
                                assert(forall|xx: int, yy: int|
                                    ((ex1 <= xx <= ex2 && ey1 <= yy < y) || (ex1 <= xx < x && yy
                                        == y)) && in_build_range(xx, yy)
                                        ==> self.map.tiles@[#[trigger] spec_idx(xx, yy)]
                                        == TileType::Wall);
                            }
                        }
                    }
                    if cell_ok {
                        assert forall|xx: int, yy: int|
                            (ex1 <= xx <= ex2 && ey1 <= yy < y) || (ex1 <= xx <= x && yy
                                == y) implies #[trigger] in_build_range(xx, yy) by {}
                        assert forall|xx: int, yy: int|
                            ((ex1 <= xx <= ex2 && ey1 <= yy < y) || (ex1 <= xx <= x && yy == y))
                                && in_build_range(xx, yy) implies self.map.tiles@[#[trigger] spec_idx(
                            xx,
                            yy,
                        )] == TileType::Wall by {}
                    }
                }
                can_build = cell_ok;
                x = x + 1;
            }
            y = y + 1;
        }

        can_build
    }
    /// Generate the level: spend the fixed attempt budget carving random
    /// sub-rectangles that fit with a two-tile margin, connect the accepted
    /// rooms left to right, and place the down stairs at the centre of the
    /// right-most room.
    pub fn build_map(&mut self)
        requires
            old(self).map.wf(),
            old(self).rooms@.len() == 0,
            no_stairs(old(self).map),
            forall|i: int| 0 <= i < MAPCOUNT ==> old(self).map.tiles@[i] == TileType::Wall,
            history_wf(old(self).history@),
        ensures
            build_output(final(self).map, final(self).rooms@, final(self).starting_position),
            rooms_disjoint(final(self).rooms@),
            final(self).rooms@.len() >= 2 ==> !in_room_interior(
                final(self).rooms@[stairs_room_idx(
                    final(self).rooms@,
                    final(self).starting_position,
                )],
                final(self).starting_position.x as int,
                final(self).starting_position.y as int,
            ) && final(self).map.tiles@[spec_idx(
                final(self).starting_position.x as int,
                final(self).starting_position.y as int,
            )] == TileType::Floor,
            final(self).rooms@.len() == 1 ==> (forall|i: int|
                0 <= i < MAPCOUNT ==> final(self).map.tiles@[i] == (if i == stairs_idx_of(
                    final(self).rooms@,
                    final(self).starting_position,
                ) {
                    TileType::DownStairs
                } else if in_room_interior(
                    final(self).rooms@[0],
                    crate::map::x_of(i),
                    crate::map::y_of(i),
                ) {
                    TileType::Floor
                } else {
                    TileType::Wall
                })),
            exists|k: int|
                0 <= k < final(self).rooms@.len() && final(self).starting_position == final(self).rooms@[k].spec_center(),
            final(self).depth == old(self).depth,
            same_but_tiles(old(self).map, final(self).map),
            history_wf(final(self).history@),
            level_connected(final(self).map, final(self).starting_position),
    {
        let mut rng = rng_new();
        self.build(&mut rng);
    }

    #[verifier::loop_isolation(false)]
    #[verifier::rlimit(100)]
    #[verifier::spinoff_prover]
    fn build(&mut self, rng: &mut RandomNumberGenerator)
        requires
            old(self).map.wf(),
            old(self).rooms@.len() == 0,
            no_stairs(old(self).map),
            forall|i: int| 0 <= i < MAPCOUNT ==> old(self).map.tiles@[i] == TileType::Wall,
            history_wf(old(self).history@),
        ensures
            build_output(final(self).map, final(self).rooms@, final(self).starting_position),
            rooms_disjoint(final(self).rooms@),
            final(self).rooms@.len() >= 2 ==> !in_room_interior(
                final(self).rooms@[stairs_room_idx(
                    final(self).rooms@,
                    final(self).starting_position,
                )],
                final(self).starting_position.x as int,
                final(self).starting_position.y as int,
            ) && final(self).map.tiles@[spec_idx(
                final(self).starting_position.x as int,
                final(self).starting_position.y as int,
            )] == TileType::Floor,
            final(self).rooms@.len() == 1 ==> (forall|i: int|
                0 <= i < MAPCOUNT ==> final(self).map.tiles@[i] == (if i == stairs_idx_of(
                    final(self).rooms@,
                    final(self).starting_position,
                ) {
                    TileType::DownStairs
                } else if in_room_interior(
                    final(self).rooms@[0],
                    crate::map::x_of(i),
                    crate::map::y_of(i),
                ) {
                    TileType::Floor
                } else {
                    TileType::Wall
                })),
            exists|k: int|
                0 <= k < final(self).rooms@.len() && final(self).starting_position == final(self).rooms@[k].spec_center(),
            final(self).depth == old(self).depth,
            same_but_tiles(old(self).map, final(self).map),
            history_wf(final(self).history@),
            level_connected(final(self).map, final(self).starting_position),
    {
        self.rects.clear();
        self.rects.push(Rect::with_size(2, 2, self.map.width - 5, self.map.height - 5));
        let first_rect = self.rects[0];
        self.add_subrects(first_rect);

        let mut n_rooms: i32 = 0;
        while n_rooms < BUILD_ATTEMPTS
            invariant
                0 <= n_rooms <= BUILD_ATTEMPTS,
                self.map.wf(),
                same_but_tiles(old(self).map, self.map),
                self.depth == old(self).depth,
                rooms_ok(self.rooms@),
                rooms_carved(self.map, self.rooms@),
                rooms_disjoint(self.rooms@),
                floor_iff_rooms(self.map, self.rooms@),
                no_stairs(self.map),
                history_wf(self.history@),
                pool_bounded(self.rects@, 100 + n_rooms),
                1 <= self.rects@.len() <= 5 + 4 * n_rooms,
            decreases BUILD_ATTEMPTS - n_rooms,
        {
            let rect = self.get_random_rect(rng);
            let candidate = self.get_random_sub_rect(rect, rng);

            if self.is_possible(candidate) {
                proof {
                    assert(in_build_range(candidate.x1 - 2, candidate.y1 - 2));
                    assert(in_build_range(candidate.x2 + 2, candidate.y2 + 2));
                    assert(room_ok(candidate));
                    lemma_possible_disjoint(self.map, self.rooms@, candidate);
                }
                apply_room_to_map(&mut self.map, &candidate);
                proof {
                    assert forall|k: int, xx: int, yy: int|
                        0 <= k < self.rooms@.len() + 1 && #[trigger] in_room_interior(
                            self.rooms@.push(candidate)[k],
                            xx,
                            yy,
                        ) implies self.map.tiles@[spec_idx(xx, yy)] == TileType::Floor by {
                        lemma_index_bijection(xx, yy, 0);
                    }
                    assert forall|xx: int, yy: int|
                        0 <= xx < MAPWIDTH && 0 <= yy < MAPHEIGHT implies ((self.map.tiles@[
                        #[trigger] spec_idx(xx, yy)] == TileType::Floor) <==> exists|k: int|
                            0 <= k < self.rooms@.push(candidate).len()
                                && #[trigger] in_room_interior(
                                self.rooms@.push(candidate)[k],
                                xx,
                                yy,
                            )) by {
                        lemma_index_bijection(xx, yy, 0);
                        if self.map.tiles@[spec_idx(xx, yy)] == TileType::Floor {
                            if !in_room_interior(candidate, xx, yy) {
                                let k0 = choose|k0: int|
                                    0 <= k0 < self.rooms@.len() && #[trigger] in_room_interior(
                                        self.rooms@[k0],
                                        xx,
                                        yy,
                                    );
                                assert(in_room_interior(self.rooms@.push(candidate)[k0], xx, yy));
                            } else {
                                assert(in_room_interior(
                                    self.rooms@.push(candidate)[self.rooms@.len() as int],
                                    xx,
                                    yy,
                                ));
                            }
                        }
                    }
                }
                self.rooms.push(candidate);
                self.add_subrects(rect);
                self.take_snapshot();
            }

            n_rooms += 1;
        }

        if self.rooms.len() == 0 {
            // A pathological draw can reject the whole budget; accept one
            // central room rather than hand back a level with no floor.
            let fallback = Rect::with_size(36, 18, 8, 6);
            apply_room_to_map(&mut self.map, &fallback);
            proof {
                assert forall|k: int, xx: int, yy: int|
                    0 <= k < self.rooms@.len() + 1 && #[trigger] in_room_interior(
                        self.rooms@.push(fallback)[k],
                        xx,
                        yy,
                    ) implies self.map.tiles@[spec_idx(xx, yy)] == TileType::Floor by {
                    lemma_index_bijection(xx, yy, 0);
                }
            }
            proof {
                assert forall|xx: int, yy: int|
                    0 <= xx < MAPWIDTH && 0 <= yy < MAPHEIGHT implies ((self.map.tiles@[
                    #[trigger] spec_idx(xx, yy)] == TileType::Floor) <==> exists|k: int|
                        0 <= k < self.rooms@.push(fallback).len() && #[trigger] in_room_interior(
                            self.rooms@.push(fallback)[k],
                            xx,
                            yy,
                        )) by {
                    lemma_index_bijection(xx, yy, 0);
                    if in_room_interior(fallback, xx, yy) {
                        assert(in_room_interior(self.rooms@.push(fallback)[0], xx, yy));
                    }
                }
            }
            self.rooms.push(fallback);
            self.take_snapshot();
        }

        let first_room = self.rooms[0];
        proof {
            lemma_center_in_interior(first_room);
        }
        let start_c = first_room.center();
        self.starting_position = Position { x: start_c.x, y: start_c.y };

        let ghost pre_sort = self.rooms@;
        sort_rooms_by_left(&mut self.rooms);
        proof {
            assert forall|k: int| 0 <= k < self.rooms@.len() implies room_ok(
                #[trigger] self.rooms@[k],
            ) by {
                lemma_permutation_membership(pre_sort, self.rooms@, k);
            }
            assert forall|k: int, xx: int, yy: int|
                0 <= k < self.rooms@.len() && #[trigger] in_room_interior(
                    self.rooms@[k],
                    xx,
                    yy,
                ) implies self.map.tiles@[spec_idx(xx, yy)] == TileType::Floor by {
                lemma_permutation_membership(pre_sort, self.rooms@, k);
            }
            broadcast use vstd::seq_lib::group_to_multiset_ensures;

            assert(pre_sort.contains(first_room));
            assert(pre_sort.to_multiset().count(first_room) > 0);
            assert(self.rooms@.to_multiset().count(first_room) > 0);
            assert(self.rooms@.contains(first_room));
            if self.rooms@.len() == 1 {
                assert(self.rooms@.contains(self.rooms@[0]));
                assert(pre_sort.to_multiset().count(self.rooms@[0]) > 0);
                assert(pre_sort.contains(self.rooms@[0]));
                let j = choose|j: int| 0 <= j < pre_sort.len() && pre_sort[j] == self.rooms@[0];
                assert(pre_sort[j] == self.rooms@[0] && j == 0);
                assert forall|xx: int, yy: int|
                    0 <= xx < MAPWIDTH && 0 <= yy < MAPHEIGHT implies ((self.map.tiles@[
                    #[trigger] spec_idx(xx, yy)] == TileType::Floor) <==> exists|k: int|
                        0 <= k < self.rooms@.len() && #[trigger] in_room_interior(
                            self.rooms@[k],
                            xx,
                            yy,
                        )) by {
                    if in_room_interior(pre_sort[0], xx, yy) {
                        assert(in_room_interior(self.rooms@[0], xx, yy));
                    }
                    if self.map.tiles@[spec_idx(xx, yy)] == TileType::Floor {
                        let k0 = choose|k0: int|
                            0 <= k0 < pre_sort.len() && #[trigger] in_room_interior(
                                pre_sort[k0],
                                xx,
                                yy,
                            );
                        assert(in_room_interior(self.rooms@[0], xx, yy));
                    }
                }
            }
        }

        let mut i: usize = 0;
        while i < self.rooms.len() - 1
            invariant
                0 <= i <= self.rooms@.len(),
                self.map.wf(),
                same_but_tiles(old(self).map, self.map),
                self.depth == old(self).depth,
                rooms_ok(self.rooms@),
                rooms_carved(self.map, self.rooms@),
                no_stairs(self.map),
                history_wf(self.history@),
                self.rooms@.len() >= 1,
                self.rooms@.contains(first_room),
                self.starting_position == first_room.spec_center(),
                rooms_disjoint(self.rooms@),
                self.rooms@.len() == 1 ==> floor_iff_rooms(self.map, self.rooms@),
            decreases self.rooms@.len() - 1 - i,
        {
            let room = self.rooms[i];
            let next_room = self.rooms[i + 1];
            let start_x = room.x1 + (roll_dice(rng, 1, room.width()) - 1);
            let start_y = room.y1 + (roll_dice(rng, 1, room.height()) - 1);
            let end_x = next_room.x1 + (roll_dice(rng, 1, next_room.width()) - 1);
            let end_y = next_room.y1 + (roll_dice(rng, 1, next_room.height()) - 1);
            self.draw_corridor(start_x, start_y, end_x, end_y);
            proof {
                assert forall|k: int, xx: int, yy: int|
                    0 <= k < self.rooms@.len() && #[trigger] in_room_interior(
                        self.rooms@[k],
                        xx,
                        yy,
                    ) implies self.map.tiles@[spec_idx(xx, yy)] == TileType::Floor by {
                    lemma_index_bijection(xx, yy, 0);
                }
            }
            self.take_snapshot();
            i += 1;
        }

        let nrooms = self.rooms.len();
        let last_room = self.rooms[nrooms - 1];
        let stairs_room = if nrooms >= 2 {
            let lc = last_room.center();
            if lc.x == self.starting_position.x && lc.y == self.starting_position.y {
                self.rooms[nrooms - 2]
            } else {
                last_room
            }
        } else {
            last_room
        };
        proof {
            lemma_center_in_interior(stairs_room);
            assert(stairs_room == self.rooms@[stairs_room_idx(
                self.rooms@,
                self.starting_position,
            )]);
        }
        let stairs_pos = stairs_room.center();
        let stairs_idx = self.map.xy_idx(stairs_pos.x, stairs_pos.y);
        self.map.tiles[stairs_idx] = TileType::DownStairs;
        proof {
            assert forall|k: int, xx: int, yy: int|
                0 <= k < self.rooms@.len() && #[trigger] in_room_interior(self.rooms@[k], xx, yy)
                    && spec_idx(xx, yy) != stairs_idx as int implies self.map.tiles@[spec_idx(
                xx,
                yy,
            )] == TileType::Floor by {
                lemma_index_bijection(xx, yy, 0);
            }
            assert(stairs_idx as int == stairs_idx_of(self.rooms@, self.starting_position));
            assert(start_at_some_center(self.rooms@, self.starting_position));
            assert(build_output(self.map, self.rooms@, self.starting_position));
            lemma_stairs_placement(self.map, self.rooms@, self.starting_position);
            if self.rooms@.len() == 1 {
                assert forall|i2: int| 0 <= i2 < MAPCOUNT implies self.map.tiles@[i2] == (if i2
                    == stairs_idx as int {
                    TileType::DownStairs
                } else if in_room_interior(self.rooms@[0], crate::map::x_of(i2), crate::map::y_of(i2)) {
                    TileType::Floor
                } else {
                    TileType::Wall
                }) by {
                    lemma_index_bijection(0, 0, i2);
                }
            }
        }
        // The subdivision and the greedy corridors leave one connected
        // floor; audit that, and rebuild as a single plain room on any
        // draw that would not.
        proof {
            lemma_center_in_interior(first_room);
        }
        if !all_walkable_connected(&self.map, self.starting_position) {
            let room = carve_fallback_level(&mut self.map);
            self.rooms = Vec::new();
            self.rooms.push(room);
            let c = room.center();
            self.starting_position = Position { x: c.x, y: c.y };
            self.take_snapshot();
            proof {
                lemma_center_in_interior(room);
                lemma_index_bijection(c.x as int, c.y as int, 0);
                assert(self.rooms@[0] == room);
                assert(self.starting_position == room.spec_center());
                assert(stairs_idx_of(self.rooms@, self.starting_position) == spec_idx(
                    c.x as int,
                    c.y as int,
                ));
                assert forall|k: int, xx: int, yy: int|
                    0 <= k < self.rooms@.len() && #[trigger] in_room_interior(
                        self.rooms@[k],
                        xx,
                        yy,
                    ) && spec_idx(xx, yy) != stairs_idx_of(
                        self.rooms@,
                        self.starting_position,
                    ) implies self.map.tiles@[spec_idx(xx, yy)] == TileType::Floor by {
                    lemma_index_bijection(xx, yy, 0);
                }
                assert(build_output(self.map, self.rooms@, self.starting_position));
                assert(self.starting_position == self.rooms@[0].spec_center());
            }
        }
    }

    /// Populate the level: one monster per accepted room, skipping the
    /// first room, which holds the player start.
    #[verifier::loop_isolation(false)]
    pub fn spawn_entities(&self, ecs: &mut World)
        requires
            rooms_ok(self.rooms@),
            self.rooms@.len() >= 1,
        ensures
            final(ecs).entities@.len() == old(ecs).entities@.len() + self.rooms@.len() - 1,
            forall|j: int|
                0 <= j < old(ecs).entities@.len() ==> final(ecs).entities@[j] == old(
                    ecs,
                ).entities@[j],
            forall|k: int|
                1 <= k < self.rooms@.len() ==> is_monster_at(
                    #[trigger] final(ecs).entities@[old(ecs).entities@.len() + k - 1],
                    self.rooms@[k].spec_center(),
                ),
    {
        let mut k: usize = 1;
        while k < self.rooms.len()
            invariant
                1 <= k <= self.rooms@.len(),
                ecs.entities@.len() == old(ecs).entities@.len() + k - 1,
                forall|j: int|
                    0 <= j < old(ecs).entities@.len() ==> ecs.entities@[j] == old(
                        ecs,
                    ).entities@[j],
                forall|t: int|
                    1 <= t < k ==> is_monster_at(
                        #[trigger] ecs.entities@[old(ecs).entities@.len() + t - 1],
                        self.rooms@[t].spec_center(),
                    ),
            decreases self.rooms@.len() - k,
        {
            let room = self.rooms[k];
            spawn_room(ecs, &room);
            k = k + 1;
        }
    }

    /// A copy of the generated map.
    pub fn get_map(&self) -> (m: GameMap)
        requires
            self.map.wf(),
        ensures
            m.wf(),
            m.depth == self.map.depth,
            m.tiles@ == self.map.tiles@,
            m.revealed_tiles@ == self.map.revealed_tiles@,
            m.visible_tiles@ == self.map.visible_tiles@,
            m.blocked@ == self.map.blocked@,
            m.bloodstains@ == self.map.bloodstains@,
            forall|i: int| 0 <= i < MAPCOUNT ==> m.tile_content@[i]@ == self.map.tile_content@[i]@,
    {
        self.map.duplicate()
    }

    /// Where the player starts: the centre of the first accepted room.
    pub fn get_starting_position(&self) -> (p: Position)
        ensures
            p == self.starting_position,
    {
        self.starting_position
    }

    /// A copy of the captured generation history, in capture order.
    pub fn get_snapshot_history(&self) -> (h: Vec<GameMap>)
        requires
            history_wf(self.history@),
        ensures
            h@.len() == self.history@.len(),
            forall|k: int|
                0 <= k < h@.len() ==> (#[trigger] h@[k]).wf() && h@[k].tiles@
                    == self.history@[k].tiles@ && h@[k].revealed_tiles@
                    == self.history@[k].revealed_tiles@,
    {
        let mut h: Vec<GameMap> = Vec::new();
        let mut k: usize = 0;
        while k < self.history.len()
            invariant
                k <= self.history@.len(),
                history_wf(self.history@),
                h@.len() == k,
                forall|t: int|
                    0 <= t < k ==> (#[trigger] h@[t]).wf() && h@[t].tiles@
                        == self.history@[t].tiles@ && h@[t].revealed_tiles@
                        == self.history@[t].revealed_tiles@,
            decreases self.history@.len() - k,
        {
            h.push(self.history[k].duplicate());
            k = k + 1;
        }
        h
    }

    /// Carve the greedy corridor from (x1, y1) to (x2, y2): it walks one
    /// step at a time, closing the x gap before the y gap, and turns
    /// exactly the cells on that path to floor.
    #[verifier::loop_isolation(false)]
    fn draw_corridor(&mut self, x1: i32, y1: i32, x2: i32, y2: i32)
        requires
            old(self).map.wf(),
            0 <= x1 < MAPWIDTH,
            0 <= x2 < MAPWIDTH,
            0 <= y1 < MAPHEIGHT,
            0 <= y2 < MAPHEIGHT,
        ensures
            final(self).map.wf(),
            same_but_tiles(old(self).map, final(self).map),
            forall|i: int|
                0 <= i < MAPCOUNT ==> final(self).map.tiles@[i] == (if on_corridor(
                    x1 as int,
                    y1 as int,
                    x2 as int,
                    y2 as int,
                    crate::map::x_of(i),
                    crate::map::y_of(i),
                ) {
                    TileType::Floor
                } else {
                    old(self).map.tiles@[i]
                }),
            final(self).rooms == old(self).rooms,
            final(self).rects == old(self).rects,
            final(self).history == old(self).history,
            final(self).starting_position == old(self).starting_position,
            final(self).depth == old(self).depth,
    {
        let mut x = x1;
        let mut y = y1;

        while x != x2 || y != y2
            invariant
                (y == y1 && between(x1 as int, x as int, x2 as int)) || (x == x2 && between(
                    y1 as int,
                    y as int,
                    y2 as int,
                )),
                self.map.wf(),
                same_but_tiles(old(self).map, self.map),
                self.rooms == old(self).rooms,
                self.rects == old(self).rects,
                self.history == old(self).history,
                self.starting_position == old(self).starting_position,
                self.depth == old(self).depth,
                forall|i: int|
                    0 <= i < MAPCOUNT ==> self.map.tiles@[i] == (if on_corridor(
                        x1 as int,
                        y1 as int,
                        x2 as int,
                        y2 as int,
                        crate::map::x_of(i),
                        crate::map::y_of(i),
                    ) && between(x1 as int, crate::map::x_of(i), x as int) && between(
                        y1 as int,
                        crate::map::y_of(i),
                        y as int,
                    ) {
                        TileType::Floor
                    } else {
                        old(self).map.tiles@[i]
                    }),
            decreases abs_diff(x as int, x2 as int) + abs_diff(y as int, y2 as int),
        {
            if x < x2 {
                x += 1;
            } else if x > x2 {
                x -= 1;
            } else if y < y2 {
                y += 1;
            } else if y > y2 {
                y -= 1;
            }

            let idx = self.map.xy_idx(x, y);
            self.map.tiles[idx] = TileType::Floor;
            proof {
                lemma_index_bijection(x as int, y as int, idx as int);
                assert forall|i: int| 0 <= i < MAPCOUNT implies spec_idx(
                    crate::map::x_of(i),
                    crate::map::y_of(i),
                ) == i by {
                    lemma_index_bijection(0, 0, i);
                }
            }
        }
    }
}

/// Every element of `b` occurs in `a`: what a permutation guarantees of
/// per-element properties.
proof fn lemma_permutation_membership(a: Seq<Rect>, b: Seq<Rect>, k: int)
    requires
        a.to_multiset() == b.to_multiset(),
        0 <= k < b.len(),
    ensures
        exists|j: int| 0 <= j < a.len() && a[j] == b[k],
{
    broadcast use vstd::seq_lib::group_to_multiset_ensures;

    assert(b.contains(b[k]));
    assert(b.to_multiset().count(b[k]) > 0);
    assert(a.contains(b[k]));
}

/// Inserting an element anywhere adds exactly it to the sequence's
/// multiset.
proof fn lemma_insert_to_multiset(s: Seq<Rect>, j: int, v: Rect)
    requires
        0 <= j <= s.len(),
    ensures
        s.insert(j, v).to_multiset() == s.to_multiset().insert(v),
{
    broadcast use vstd::seq_lib::group_to_multiset_ensures;

    let pre = s.subrange(0, j);
    let post = s.subrange(j, s.len() as int);
    assert(s.insert(j, v) == pre.push(v) + post);
    vstd::seq_lib::lemma_multiset_commutative(pre.push(v), post);
    vstd::seq_lib::lemma_multiset_commutative(pre, post);
    assert(s =~= pre + post);
    assert(pre.push(v).to_multiset() =~= pre.to_multiset().insert(v));
    assert(pre.to_multiset().insert(v).add(post.to_multiset()) =~= pre.to_multiset().add(
        post.to_multiset(),
    ).insert(v));
}

/// Order the accepted rooms by their left edge; the same rooms come out
/// that went in, and a pairwise-disjoint set stays pairwise disjoint.
#[verifier::loop_isolation(false)]
fn sort_rooms_by_left(rooms: &mut Vec<Rect>)
    ensures
        final(rooms)@.len() == old(rooms)@.len(),
        final(rooms)@.to_multiset() == old(rooms)@.to_multiset(),
        forall|a: int, b: int|
            0 <= a < b < final(rooms)@.len() ==> final(rooms)@[a].x1 <= final(rooms)@[b].x1,
        crate::map_builders::rooms_disjoint(old(rooms)@) ==> crate::map_builders::rooms_disjoint(
            final(rooms)@,
        ),
{
    if rooms.len() <= 1 {
        return;
    }
    let mut i: usize = 1;
    while i < rooms.len()
        invariant
            1 <= i <= rooms@.len(),
            rooms@.len() == old(rooms)@.len(),
            rooms@.to_multiset() == old(rooms)@.to_multiset(),
            forall|a: int, b: int| 0 <= a < b < i ==> rooms@[a].x1 <= rooms@[b].x1,
            crate::map_builders::rooms_disjoint(old(rooms)@)
                ==> crate::map_builders::rooms_disjoint(rooms@),
        decreases rooms@.len() - i,
    {
        let ghost s0 = rooms@;
        let v = rooms.remove(i);
        let ghost s1 = rooms@;
        let mut j: usize = i;
        while j > 0 && rooms[j - 1].x1 > v.x1
            invariant
                0 <= j <= i,
                rooms@ == s1,
                forall|t: int| j <= t < i ==> rooms@[t].x1 > v.x1,
            decreases j,
        {
            j = j - 1;
        }
        rooms.insert(j, v);
        proof {
            broadcast use vstd::seq_lib::group_to_multiset_ensures;

            if crate::map_builders::rooms_disjoint(s0) {
                crate::map_builders::lemma_disjoint_remove(s0, i as int);
                assert forall|c: int|
                    0 <= c < s1.len() implies !(#[trigger] s1[c]).spec_intersect(v)
                    && !v.spec_intersect(s1[c]) by {
                    let c2 = if c < i as int {
                        c
                    } else {
                        c + 1
                    };
                    assert(s1[c] == s0[c2]);
                    assert(c2 != i as int);
                    if c2 < i as int {
                        assert(!s0[c2].spec_intersect(s0[i as int]));
                    } else {
                        assert(!s0[i as int].spec_intersect(s0[c2]));
                    }
                }
                crate::map_builders::lemma_disjoint_insert(s1, j as int, v);
            }
            lemma_insert_to_multiset(s1, j as int, v);
            assert(s1.to_multiset() =~= s0.to_multiset().remove(v));
            assert(s0.contains(v));
            assert(s0.to_multiset().count(v) > 0);
            assert(s0.to_multiset().remove(v).insert(v) =~= s0.to_multiset());
            s1.insert_ensures(j as int, v);
            assert forall|a: int, b: int| 0 <= a < b < i + 1 implies rooms@[a].x1
                <= rooms@[b].x1 by {
                s0.remove_ensures(i as int);
            }
        }
        i = i + 1;
    }
}

/// A coordinate the subdivision accepts: strictly inside the grid with a
/// one-tile border to spare.
pub open spec fn in_build_range(xx: int, yy: int) -> bool {
    &&& 1 <= xx <= MAPWIDTH - 2
    &&& 1 <= yy <= MAPHEIGHT - 2
}

} // verus!
