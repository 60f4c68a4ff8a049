//! Carving helpers shared by the level builders, and the random choice of
//! builder strategy for a new depth.

use vstd::prelude::*;

use crate::map::{
    lemma_index_bijection, spec_idx, x_of, y_of, GameMap, TileType, MAPCOUNT, MAPHEIGHT, MAPWIDTH,
};
use crate::bsp_map::BspMapBuilder;
use crate::connectivity::{lemma_rect_interior_connected, level_connected, reachable, walkable};
use crate::components::Position;
use crate::rect::Rect;
use crate::rng::{rng_new, roll_dice};
use crate::simple_map::SimpleMapBuilder;
use crate::spawner::is_monster_at;
use crate::world::World;

verus! {

/// The cells a room occupies once carved: its interior, excluding the x1
/// column and y1 row, which stay wall and keep touching rooms apart.
pub open spec fn in_room_interior(room: Rect, x: int, y: int) -> bool {
    room.x1 + 1 <= x <= room.x2 && room.y1 + 1 <= y <= room.y2
}

/// A room fits the grid iff its whole span lies inside it.
pub open spec fn room_in_bounds(room: Rect) -> bool {
    &&& 0 <= room.x1 <= room.x2
    &&& room.x2 < MAPWIDTH
    &&& 0 <= room.y1 <= room.y2
    &&& room.y2 < MAPHEIGHT
}

/// Everything of the map but the tile grid is the same in `b` as in `a`.
pub open spec fn same_but_tiles(a: GameMap, b: GameMap) -> bool {
    &&& b.width == a.width
    &&& b.height == a.height
    &&& b.revealed_tiles@ == a.revealed_tiles@
    &&& b.visible_tiles@ == a.visible_tiles@
    &&& b.blocked@ == a.blocked@
    &&& b.depth == a.depth
    &&& b.bloodstains@ == a.bloodstains@
    &&& b.tile_content@ == a.tile_content@
    &&& b.tiles@.len() == a.tiles@.len()
}

/// A room a builder accepts: it fits the grid and spans at least three
/// cells per axis, so its centre lies in the carved interior.
pub open spec fn room_ok(r: Rect) -> bool {
    &&& room_in_bounds(r)
    &&& r.x1 + 2 <= r.x2
    &&& r.y1 + 2 <= r.y2
}

pub open spec fn rooms_ok(rooms: Seq<Rect>) -> bool {
    forall|k: int| 0 <= k < rooms.len() ==> room_ok(#[trigger] rooms[k])
}

/// No two accepted rooms overlap or touch.
pub open spec fn rooms_disjoint(rooms: Seq<Rect>) -> bool {
    forall|j: int, k: int|
        0 <= j < k < rooms.len() ==> !(#[trigger] rooms[j].spec_intersect(#[trigger] rooms[k]))
}

/// The grid's floor is exactly the accepted rooms' interiors: what the
/// subdivision loop maintains before any corridor is carved.
pub open spec fn floor_iff_rooms(map: GameMap, rooms: Seq<Rect>) -> bool {
    forall|xx: int, yy: int|
        0 <= xx < MAPWIDTH && 0 <= yy < MAPHEIGHT ==> ((map.tiles@[#[trigger] spec_idx(xx, yy)]
            == TileType::Floor) <==> exists|k: int|
            0 <= k < rooms.len() && #[trigger] in_room_interior(rooms[k], xx, yy))
}

/// Removing a room keeps the accepted set pairwise disjoint.
pub proof fn lemma_disjoint_remove(s: Seq<Rect>, i: int)
    requires
        0 <= i < s.len(),
        rooms_disjoint(s),
    ensures
        rooms_disjoint(s.remove(i)),
{
    assert forall|a: int, b: int|
        0 <= a < b < s.remove(i).len() implies !(#[trigger] s.remove(i)[a].spec_intersect(
        #[trigger] s.remove(i)[b],
    )) by {
        let a2 = if a < i {
            a
        } else {
            a + 1
        };
        let b2 = if b < i {
            b
        } else {
            b + 1
        };
        assert(s.remove(i)[a] == s[a2] && s.remove(i)[b] == s[b2]);
        assert(!s[a2].spec_intersect(s[b2]));
    }
}

/// Inserting a room that meets none of the accepted set keeps it pairwise
/// disjoint.
pub proof fn lemma_disjoint_insert(s: Seq<Rect>, j: int, v: Rect)
    requires
        0 <= j <= s.len(),
        rooms_disjoint(s),
        forall|c: int|
            0 <= c < s.len() ==> !(#[trigger] s[c]).spec_intersect(v) && !v.spec_intersect(s[c]),
    ensures
        rooms_disjoint(s.insert(j, v)),
{
    s.insert_ensures(j, v);
    assert forall|a: int, b: int|
        0 <= a < b < s.insert(j, v).len() implies !(#[trigger] s.insert(j, v)[a].spec_intersect(
        #[trigger] s.insert(j, v)[b],
    )) by {
        if a == j {
            assert(s.insert(j, v)[a] == v && s.insert(j, v)[b] == s[b - 1]);
        } else if b == j {
            assert(s.insert(j, v)[b] == v && s.insert(j, v)[a] == s[a]);
        } else {
            let a2 = if a < j {
                a
            } else {
                a - 1
            };
            let b2 = if b < j {
                b
            } else {
                b - 1
            };
            assert(s.insert(j, v)[a] == s[a2] && s.insert(j, v)[b] == s[b2]);
            assert(!s[a2].spec_intersect(s[b2]));
        }
    }
}

/// Every accepted room's interior is carved to floor.
pub open spec fn rooms_carved(map: GameMap, rooms: Seq<Rect>) -> bool {
    forall|k: int, xx: int, yy: int|
        0 <= k < rooms.len() && #[trigger] in_room_interior(rooms[k], xx, yy)
            ==> map.tiles@[spec_idx(xx, yy)] == TileType::Floor
}

/// Every captured snapshot is a well-formed map with every tile revealed,
/// ready for the replay to draw whole.
pub open spec fn history_wf(h: Seq<GameMap>) -> bool {
    forall|k: int|
        0 <= k < h.len() ==> (#[trigger] h[k]).wf() && (forall|i: int|
            0 <= i < MAPCOUNT ==> h[k].revealed_tiles@[i])
}

/// The grid holds no down-stairs tile yet.
pub open spec fn no_stairs(map: GameMap) -> bool {
    forall|i: int| 0 <= i < MAPCOUNT ==> map.tiles@[i] != TileType::DownStairs
}

/// The start lies at the centre of one of the accepted rooms.
pub open spec fn start_at_some_center(rooms: Seq<Rect>, start: Position) -> bool {
    exists|k: int| 0 <= k < rooms.len() && start == (#[trigger] rooms[k]).spec_center()
}

/// Which accepted room holds the stairs: the last (right-most after the
/// builder's ordering), unless that is the start room and another room
/// exists — then the one before it, so descending never begins on the
/// stairs room when the level offers a choice.
pub open spec fn stairs_room_idx(rooms: Seq<Rect>, start: Position) -> int {
    if rooms.len() >= 2 && rooms[rooms.len() - 1].spec_center() == start {
        rooms.len() - 2
    } else {
        rooms.len() - 1
    }
}

/// Where a builder puts the stairs: the centre of the stairs room.
pub open spec fn stairs_idx_of(rooms: Seq<Rect>, start: Position) -> int {
    let c = rooms[stairs_room_idx(rooms, start)].spec_center();
    spec_idx(c.x as int, c.y as int)
}

/// What both builders guarantee of a finished level: at least one accepted
/// room, all of them well-placed; exactly one down-stairs tile, at the
/// centre of the stairs room; and every room interior carved to floor (but
/// for the stairs cell).
pub open spec fn build_output(map: GameMap, rooms: Seq<Rect>, start: Position) -> bool {
    &&& map.wf()
    &&& rooms.len() >= 1
    &&& rooms_ok(rooms)
    &&& 0 <= stairs_idx_of(rooms, start) < MAPCOUNT
    &&& map.tiles@[stairs_idx_of(rooms, start)] == TileType::DownStairs
    &&& forall|i: int|
        0 <= i < MAPCOUNT && i != stairs_idx_of(rooms, start) ==> map.tiles@[i]
            != TileType::DownStairs
    &&& forall|k: int, xx: int, yy: int|
        0 <= k < rooms.len() && #[trigger] in_room_interior(rooms[k], xx, yy) && spec_idx(xx, yy)
            != stairs_idx_of(rooms, start) ==> map.tiles@[spec_idx(xx, yy)] == TileType::Floor
}

/// The centre of an accepted room lies in its carved interior, hence in
/// the grid.
pub proof fn lemma_center_in_interior(r: Rect)
    requires
        room_ok(r),
    ensures
        in_room_interior(r, r.spec_center().x as int, r.spec_center().y as int),
        0 <= r.spec_center().x < MAPWIDTH,
        0 <= r.spec_center().y < MAPHEIGHT,
{
}

/// Two rooms whose interiors share a cell intersect.
pub proof fn lemma_interiors_share_implies_intersect(a: Rect, b: Rect, x: int, y: int)
    requires
        in_room_interior(a, x, y),
        in_room_interior(b, x, y),
    ensures
        a.spec_intersect(b),
{
}

/// Exactly one down-stairs tile exists on a finished level, inside the
/// stairs room; when at least two pairwise-disjoint rooms were accepted,
/// the start lies outside the stairs room, on a Floor tile.
pub proof fn lemma_stairs_placement(map: GameMap, rooms: Seq<Rect>, start: Position)
    requires
        build_output(map, rooms, start),
        rooms_disjoint(rooms),
        start_at_some_center(rooms, start),
    ensures
        ({
            let sr = rooms[stairs_room_idx(rooms, start)];
            let c = sr.spec_center();
            let si = spec_idx(c.x as int, c.y as int);
            &&& map.tiles@[si] == TileType::DownStairs
            &&& forall|i: int| 0 <= i < MAPCOUNT && i != si ==> map.tiles@[i] != TileType::DownStairs
            &&& in_room_interior(sr, c.x as int, c.y as int)
            &&& rooms.len() >= 2 ==> !in_room_interior(sr, start.x as int, start.y as int)
            &&& rooms.len() >= 2 ==> map.tiles@[spec_idx(start.x as int, start.y as int)]
                == TileType::Floor
        }),
{
    let sri = stairs_room_idx(rooms, start);
    let sr = rooms[sri];
    let c = sr.spec_center();
    assert(room_ok(sr));
    lemma_center_in_interior(sr);
    if rooms.len() >= 2 {
        let k = choose|k: int| 0 <= k < rooms.len() && start == (#[trigger] rooms[k]).spec_center();
        lemma_center_in_interior(rooms[k]);
        if rooms[rooms.len() - 1].spec_center() == start {
            // the start room is the right-most one, so the stairs moved
            // one room back
            if k != rooms.len() - 1 {
                lemma_center_in_interior(rooms[rooms.len() - 1]);
                lemma_interiors_share_implies_intersect(
                    rooms[k],
                    rooms[rooms.len() - 1],
                    start.x as int,
                    start.y as int,
                );
                lemma_interiors_share_implies_intersect(
                    rooms[rooms.len() - 1],
                    rooms[k],
                    start.x as int,
                    start.y as int,
                );
            }
            assert(k == rooms.len() - 1 && sri == rooms.len() - 2);
        } else {
            assert(k != rooms.len() - 1 && sri == rooms.len() - 1);
        }
        assert(k != sri);
        assert(!in_room_interior(sr, start.x as int, start.y as int)) by {
            if in_room_interior(sr, start.x as int, start.y as int) {
                lemma_interiors_share_implies_intersect(
                    rooms[k],
                    sr,
                    start.x as int,
                    start.y as int,
                );
                lemma_interiors_share_implies_intersect(
                    sr,
                    rooms[k],
                    start.x as int,
                    start.y as int,
                );
            }
        }
        lemma_index_bijection(start.x as int, start.y as int, 0);
        lemma_index_bijection(c.x as int, c.y as int, 0);
        assert(spec_idx(start.x as int, start.y as int) != stairs_idx_of(rooms, start)) by {
            if spec_idx(start.x as int, start.y as int) == spec_idx(c.x as int, c.y as int) {
                assert(start.x as int == c.x as int && start.y as int == c.y as int);
                assert(in_room_interior(sr, start.x as int, start.y as int));
            }
        }
        assert(map.tiles@[spec_idx(start.x as int, start.y as int)] == TileType::Floor) by {
            assert(in_room_interior(rooms[k], start.x as int, start.y as int));
        }
    }
}

/// Carve the interior of `room` into the grid: exactly those cells become
/// floor, every other tile keeps its value.
#[verifier::loop_isolation(false)]
pub fn apply_room_to_map(map: &mut GameMap, room: &Rect)
    requires
        old(map).wf(),
        room_in_bounds(*room),
    ensures
        final(map).wf(),
        same_but_tiles(*old(map), *final(map)),
        forall|i: int|
            0 <= i < MAPCOUNT ==> final(map).tiles@[i] == (if in_room_interior(
                *room,
                x_of(i),
                y_of(i),
            ) {
                TileType::Floor
            } else {
                old(map).tiles@[i]
            }),
{
    let mut y: i32 = room.y1 + 1;
    while y <= room.y2
        invariant
            room.y1 + 1 <= y <= room.y2 + 1,
            map.wf(),
            same_but_tiles(*old(map), *map),
            forall|i: int|
                0 <= i < MAPCOUNT ==> map.tiles@[i] == (if in_room_interior(
                    *room,
                    x_of(i),
                    y_of(i),
                ) && y_of(i) < y {
                    TileType::Floor
                } else {
                    old(map).tiles@[i]
                }),
        decreases room.y2 + 1 - y,
    {
        let mut x: i32 = room.x1 + 1;
        while x <= room.x2
            invariant
                room.y1 + 1 <= y <= room.y2,
                room.x1 + 1 <= x <= room.x2 + 1,
                map.wf(),
                same_but_tiles(*old(map), *map),
                forall|i: int|
                    0 <= i < MAPCOUNT ==> map.tiles@[i] == (if in_room_interior(
                        *room,
                        x_of(i),
                        y_of(i),
                    ) && (y_of(i) < y || (y_of(i) == y && x_of(i) < x)) {
                        TileType::Floor
                    } else {
                        old(map).tiles@[i]
                    }),
            decreases room.x2 + 1 - x,
        {
            let idx = map.xy_idx(x, y);
            map.tiles[idx] = TileType::Floor;
            proof {
                lemma_index_bijection(x as int, y as int, idx as int);
                assert forall|i: int| 0 <= i < MAPCOUNT implies spec_idx(x_of(i), y_of(i)) == i by {
                    lemma_index_bijection(0, 0, i);
                }
            }
            x = x + 1;
        }
        y = y + 1;
    }
}

/// Reset the grid to one plain central room with the down stairs at its
/// centre: the unconditional fallback behind the connectivity audit that
/// ends generation, so a finished level is always fully traversable.
#[verifier::loop_isolation(false)]
#[verifier::rlimit(60)]
#[verifier::spinoff_prover]
pub fn carve_fallback_level(map: &mut GameMap) -> (room: Rect)
    requires
        old(map).wf(),
    ensures
        final(map).wf(),
        same_but_tiles(*old(map), *final(map)),
        room_ok(room),
        ({
            let c = room.spec_center();
            let si = spec_idx(c.x as int, c.y as int);
            &&& forall|i: int|
                0 <= i < MAPCOUNT ==> final(map).tiles@[i] == (if i == si {
                    TileType::DownStairs
                } else if in_room_interior(room, x_of(i), y_of(i)) {
                    TileType::Floor
                } else {
                    TileType::Wall
                })
            &&& level_connected(*final(map), c)
        }),
{
    let mut i: usize = 0;
    while i < MAPCOUNT
        invariant
            i <= MAPCOUNT,
            map.wf(),
            same_but_tiles(*old(map), *map),
            forall|t: int| 0 <= t < i ==> map.tiles@[t] == TileType::Wall,
        decreases MAPCOUNT - i,
    {
        map.tiles[i] = TileType::Wall;
        i += 1;
    }
    let room = Rect::with_size(36, 18, 8, 6);
    apply_room_to_map(map, &room);
    let c = room.center();
    let si = map.xy_idx(c.x, c.y);
    map.tiles[si] = TileType::DownStairs;
    proof {
        lemma_center_in_interior(room);
        lemma_index_bijection(c.x as int, c.y as int, si as int);
        assert forall|i2: int| 0 <= i2 < MAPCOUNT implies map.tiles@[i2] == (if i2 == si as int {
            TileType::DownStairs
        } else if in_room_interior(room, x_of(i2), y_of(i2)) {
            TileType::Floor
        } else {
            TileType::Wall
        }) by {
            lemma_index_bijection(0, 0, i2);
        }
        assert forall|xx: int, yy: int| #[trigger] in_room_interior(room, xx, yy) implies walkable(
            *map,
            spec_idx(xx, yy),
        ) by {
            lemma_index_bijection(xx, yy, 0);
        }
        assert forall|i2: int| #[trigger] walkable(*map, i2) implies reachable(
            *map,
            si as int,
            i2,
        ) by {
            lemma_index_bijection(0, 0, i2);
            assert(in_room_interior(room, x_of(i2), y_of(i2)));
            lemma_rect_interior_connected(*map, room, c.x as int, c.y as int, x_of(i2), y_of(i2));
        }
        assert(level_connected(*map, c));
    }
    room
}

/// The cells of a horizontal corridor at row `y` between columns `x1` and
/// `x2`, both ends included.
pub open spec fn on_h_tunnel(x1: int, x2: int, y: int, cx: int, cy: int) -> bool {
    cy == y && (if x1 <= x2 {
        x1 <= cx <= x2
    } else {
        x2 <= cx <= x1
    })
}

/// The cells of a vertical corridor at column `x` between rows `y1` and
/// `y2`, both ends included.
pub open spec fn on_v_tunnel(y1: int, y2: int, x: int, cx: int, cy: int) -> bool {
    cx == x && (if y1 <= y2 {
        y1 <= cy <= y2
    } else {
        y2 <= cy <= y1
    })
}

/// Carve a straight horizontal corridor: every cell between the two columns
/// at row `y` becomes floor, everything else keeps its value.
#[verifier::loop_isolation(false)]
pub fn apply_horizontal_tunnel(map: &mut GameMap, x1: i32, x2: i32, y: i32)
    requires
        old(map).wf(),
        0 <= x1 < MAPWIDTH,
        0 <= x2 < MAPWIDTH,
        0 <= y < MAPHEIGHT,
    ensures
        final(map).wf(),
        same_but_tiles(*old(map), *final(map)),
        forall|i: int|
            0 <= i < MAPCOUNT ==> final(map).tiles@[i] == (if on_h_tunnel(
                x1 as int,
                x2 as int,
                y as int,
                x_of(i),
                y_of(i),
            ) {
                TileType::Floor
            } else {
                old(map).tiles@[i]
            }),
{
    let lo: i32 = if x1 < x2 {
        x1
    } else {
        x2
    };
    let hi: i32 = if x1 < x2 {
        x2
    } else {
        x1
    };
    let mut x: i32 = lo;
    while x <= hi
        invariant
            lo <= x <= hi + 1,
            map.wf(),
            same_but_tiles(*old(map), *map),
            forall|i: int|
                0 <= i < MAPCOUNT ==> map.tiles@[i] == (if on_h_tunnel(
                    x1 as int,
                    x2 as int,
                    y as int,
                    x_of(i),
                    y_of(i),
                ) && x_of(i) < x {
                    TileType::Floor
                } else {
                    old(map).tiles@[i]
                }),
        decreases hi + 1 - x,
    {
        let idx = map.xy_idx(x, y);
        map.tiles[idx] = TileType::Floor;
        proof {
            lemma_index_bijection(x as int, y as int, idx as int);
            assert forall|i: int| 0 <= i < MAPCOUNT implies spec_idx(x_of(i), y_of(i)) == i by {
                lemma_index_bijection(0, 0, i);
            }
        }
        x = x + 1;
    }
}

/// Carve a straight vertical corridor: every cell between the two rows at
/// column `x` becomes floor, everything else keeps its value.
#[verifier::loop_isolation(false)]
pub fn apply_vertical_tunnel(map: &mut GameMap, y1: i32, y2: i32, x: i32)
    requires
        old(map).wf(),
        0 <= y1 < MAPHEIGHT,
        0 <= y2 < MAPHEIGHT,
        0 <= x < MAPWIDTH,
    ensures
        final(map).wf(),
        same_but_tiles(*old(map), *final(map)),
        forall|i: int|
            0 <= i < MAPCOUNT ==> final(map).tiles@[i] == (if on_v_tunnel(
                y1 as int,
                y2 as int,
                x as int,
                x_of(i),
                y_of(i),
            ) {
                TileType::Floor
            } else {
                old(map).tiles@[i]
            }),
{
    let lo: i32 = if y1 < y2 {
        y1
    } else {
        y2
    };
    let hi: i32 = if y1 < y2 {
        y2
    } else {
        y1
    };
    let mut y: i32 = lo;
    while y <= hi
        invariant
            lo <= y <= hi + 1,
            map.wf(),
            same_but_tiles(*old(map), *map),
            forall|i: int|
                0 <= i < MAPCOUNT ==> map.tiles@[i] == (if on_v_tunnel(
                    y1 as int,
                    y2 as int,
                    x as int,
                    x_of(i),
                    y_of(i),
                ) && y_of(i) < y {
                    TileType::Floor
                } else {
                    old(map).tiles@[i]
                }),
        decreases hi + 1 - y,
    {
        let idx = map.xy_idx(x, y);
        map.tiles[idx] = TileType::Floor;
        proof {
            lemma_index_bijection(x as int, y as int, idx as int);
            assert forall|i: int| 0 <= i < MAPCOUNT implies spec_idx(x_of(i), y_of(i)) == i by {
                lemma_index_bijection(0, 0, i);
            }
        }
        y = y + 1;
    }
}


/// The level-generation strategy for one depth: either algorithm can stand
/// behind the same interface, picked at random per level.
pub enum MapBuilder {
    Simple(SimpleMapBuilder),
    Bsp(BspMapBuilder),
}

impl MapBuilder {
    pub open spec fn spec_map(self) -> GameMap {
        match self {
            MapBuilder::Simple(b) => b.map,
            MapBuilder::Bsp(b) => b.map,
        }
    }

    pub open spec fn spec_rooms(self) -> Seq<Rect> {
        match self {
            MapBuilder::Simple(b) => b.rooms@,
            MapBuilder::Bsp(b) => b.rooms@,
        }
    }

    pub open spec fn spec_start(self) -> Position {
        match self {
            MapBuilder::Simple(b) => b.starting_position,
            MapBuilder::Bsp(b) => b.starting_position,
        }
    }

    pub open spec fn spec_history(self) -> Seq<GameMap> {
        match self {
            MapBuilder::Simple(b) => b.history@,
            MapBuilder::Bsp(b) => b.history@,
        }
    }

    pub open spec fn spec_depth(self) -> i32 {
        match self {
            MapBuilder::Simple(b) => b.depth,
            MapBuilder::Bsp(b) => b.depth,
        }
    }

    /// A builder that has not generated anything yet.
    pub open spec fn fresh(self) -> bool {
        &&& self.spec_map().wf()
        &&& self.spec_rooms().len() == 0
        &&& no_stairs(self.spec_map())
        &&& forall|i: int|
            0 <= i < MAPCOUNT ==> (#[trigger] self.spec_map().tiles@[i]) == TileType::Wall
        &&& history_wf(self.spec_history())
        &&& forall|i: int| 0 <= i < MAPCOUNT ==> (#[trigger] self.spec_map().tile_content@[i])@.len() == 0
        &&& forall|i: int|
            0 <= i < MAPCOUNT ==> !(#[trigger] self.spec_map().visible_tiles@[i])
                && !self.spec_map().revealed_tiles@[i]
    }

    /// Run the selected strategy's generation to completion.
    pub fn build_map(&mut self)
        requires
            old(self).fresh(),
        ensures
            build_output(final(self).spec_map(), final(self).spec_rooms(), final(self).spec_start()),
            0 <= final(self).spec_start().x < MAPWIDTH,
            0 <= final(self).spec_start().y < MAPHEIGHT,
            start_at_some_center(final(self).spec_rooms(), final(self).spec_start()),
            rooms_disjoint(final(self).spec_rooms()),
            final(self).spec_rooms().len() >= 2 ==> !in_room_interior(
                final(self).spec_rooms()[stairs_room_idx(
                    final(self).spec_rooms(),
                    final(self).spec_start(),
                )],
                final(self).spec_start().x as int,
                final(self).spec_start().y as int,
            ) && final(self).spec_map().tiles@[spec_idx(
                final(self).spec_start().x as int,
                final(self).spec_start().y as int,
            )] == TileType::Floor,
            final(self).spec_map().tile_content@ == old(self).spec_map().tile_content@,
            final(self).spec_map().visible_tiles@ == old(self).spec_map().visible_tiles@,
            final(self).spec_map().revealed_tiles@ == old(self).spec_map().revealed_tiles@,
            (*final(self)) is Simple ==> final(self).spec_start() == final(self).spec_rooms()[0].spec_center(),
            final(self).spec_depth() == old(self).spec_depth(),
            final(self).spec_map().depth == old(self).spec_map().depth,
            history_wf(final(self).spec_history()),
            (*final(self)) is Simple <==> (*old(self)) is Simple,
            level_connected(final(self).spec_map(), final(self).spec_start()),
    {
        match self {
            MapBuilder::Simple(b) => {
                b.build_map();
                proof {
                    assert(b.starting_position == b.rooms@[0].spec_center());
                    lemma_center_in_interior(b.rooms@[0]);
                    assert(start_at_some_center(b.rooms@, b.starting_position));
                    lemma_stairs_placement(b.map, b.rooms@, b.starting_position);
                }
            },
            MapBuilder::Bsp(b) => {
                b.build_map();
                proof {
                    let k = choose|k: int|
                        0 <= k < b.rooms@.len() && b.starting_position
                            == b.rooms@[k].spec_center();
                    lemma_center_in_interior(b.rooms@[k]);
                    assert(b.starting_position == b.rooms@[k].spec_center());
                    assert(start_at_some_center(b.rooms@, b.starting_position));
                    lemma_stairs_placement(b.map, b.rooms@, b.starting_position);
                }
            },
        }
    }

    /// Populate the generated rooms, skipping the start room.
    pub fn spawn_entities(&self, ecs: &mut World)
        requires
            rooms_ok(self.spec_rooms()),
            self.spec_rooms().len() >= 1,
        ensures
            final(ecs).entities@.len() == old(ecs).entities@.len() + self.spec_rooms().len() - 1,
            forall|j: int|
                0 <= j < old(ecs).entities@.len() ==> final(ecs).entities@[j] == old(
                    ecs,
                ).entities@[j],
            forall|k: int|
                1 <= k < self.spec_rooms().len() ==> is_monster_at(
                    #[trigger] final(ecs).entities@[old(ecs).entities@.len() + k - 1],
                    self.spec_rooms()[k].spec_center(),
                ),
    {
        match self {
            MapBuilder::Simple(b) => b.spawn_entities(ecs),
            MapBuilder::Bsp(b) => b.spawn_entities(ecs),
        }
    }

    /// A copy of the generated map.
    pub fn get_map(&self) -> (m: GameMap)
        requires
            self.spec_map().wf(),
        ensures
            m.wf(),
            m.depth == self.spec_map().depth,
            m.tiles@ == self.spec_map().tiles@,
            m.revealed_tiles@ == self.spec_map().revealed_tiles@,
            m.visible_tiles@ == self.spec_map().visible_tiles@,
            m.blocked@ == self.spec_map().blocked@,
            m.bloodstains@ == self.spec_map().bloodstains@,
            forall|i: int|
                0 <= i < MAPCOUNT ==> m.tile_content@[i]@ == self.spec_map().tile_content@[i]@,
    {
        match self {
            MapBuilder::Simple(b) => b.get_map(),
            MapBuilder::Bsp(b) => b.get_map(),
        }
    }

    /// Where the player starts on the generated level.
    pub fn get_starting_position(&self) -> (p: Position)
        ensures
            p == self.spec_start(),
    {
        match self {
            MapBuilder::Simple(b) => b.get_starting_position(),
            MapBuilder::Bsp(b) => b.get_starting_position(),
        }
    }

    /// A copy of the captured generation history, in capture order.
    pub fn get_snapshot_history(&self) -> (h: Vec<GameMap>)
        requires
            history_wf(self.spec_history()),
        ensures
            h@.len() == self.spec_history().len(),
            forall|k: int|
                0 <= k < h@.len() ==> (#[trigger] h@[k]).wf() && h@[k].tiles@
                    == self.spec_history()[k].tiles@ && h@[k].revealed_tiles@
                    == self.spec_history()[k].revealed_tiles@,
    {
        match self {
            MapBuilder::Simple(b) => b.get_snapshot_history(),
            MapBuilder::Bsp(b) => b.get_snapshot_history(),
        }
    }

    /// Record the current map in the generation history.
    pub fn take_snapshot(&mut self)
        requires
            old(self).spec_map().wf(),
            history_wf(old(self).spec_history()),
        ensures
            final(self).spec_map() == old(self).spec_map(),
            final(self).spec_rooms() == old(self).spec_rooms(),
            final(self).spec_start() == old(self).spec_start(),
            final(self).spec_depth() == old(self).spec_depth(),
            history_wf(final(self).spec_history()),
    {
        match self {
            MapBuilder::Simple(b) => b.take_snapshot(),
            MapBuilder::Bsp(b) => b.take_snapshot(),
        }
    }
}

/// Pick a builder strategy for the new depth uniformly at random.
pub fn random_builder(new_depth: i32) -> (b: MapBuilder)
    ensures
        b.fresh(),
        b.spec_depth() == new_depth,
        b.spec_map().depth == new_depth,
{
    let mut rng = rng_new();
    let builder = roll_dice(&mut rng, 1, 2);
    match builder {
        1 => MapBuilder::Bsp(BspMapBuilder::new(new_depth)),
        _ => MapBuilder::Simple(SimpleMapBuilder::new(new_depth)),
    }
}

} // verus!
