//! A sound connectivity check over the tile grid: when it accepts a level,
//! every walkable tile is reachable from the starting position across
//! eight-way adjacent walkable tiles.

use vstd::prelude::*;

use crate::components::Position;
use crate::map::{lemma_index_bijection, spec_idx, x_of, y_of, GameMap, TileType, MAPCOUNT, MAPHEIGHT, MAPWIDTH};
use crate::map_builders::{in_room_interior, room_ok};
use crate::rect::Rect;

verus! {

/// A tile the walker may stand on: anything but a wall.
pub open spec fn walkable(map: GameMap, i: int) -> bool {
    0 <= i < MAPCOUNT && map.tiles@[i] != TileType::Wall
}

/// Eight-way adjacency of two linear indices.
pub open spec fn adjacent8(a: int, b: int) -> bool {
    &&& 0 <= a < MAPCOUNT
    &&& 0 <= b < MAPCOUNT
    &&& a != b
    &&& -1 <= x_of(a) - x_of(b) <= 1
    &&& -1 <= y_of(a) - y_of(b) <= 1
}

/// A walk across walkable tiles, one neighbour step at a time.
pub open spec fn is_path(map: GameMap, p: Seq<int>) -> bool {
    &&& p.len() >= 1
    &&& (forall|k: int| 0 <= k < p.len() ==> walkable(map, #[trigger] p[k]))
    &&& (forall|k: int| 0 <= k < p.len() - 1 ==> adjacent8(#[trigger] p[k], p[k + 1]))
}

/// Tile `b` can be walked to from tile `a`.
pub open spec fn reachable(map: GameMap, a: int, b: int) -> bool {
    exists|p: Seq<int>| is_path(map, p) && p.first() == a && p.last() == b
}

pub proof fn lemma_reachable_refl(map: GameMap, a: int)
    requires
        walkable(map, a),
    ensures
        reachable(map, a, a),
{
    let p = seq![a];
    assert(is_path(map, p));
    assert(p.first() == a && p.last() == a);
}

/// Every walkable tile of the level can be walked to from the start.
pub open spec fn level_connected(map: GameMap, start: Position) -> bool {
    forall|i: int|
        #[trigger] walkable(map, i) ==> reachable(
            map,
            spec_idx(start.x as int, start.y as int),
            i,
        )
}

/// Reachability reads only the tile grid: equal grids reach equally.
pub proof fn lemma_reachable_same_tiles(m1: GameMap, m2: GameMap, a: int, b: int)
    requires
        m1.tiles@ == m2.tiles@,
        reachable(m1, a, b),
    ensures
        reachable(m2, a, b),
{
    let p = choose|p: Seq<int>| is_path(m1, p) && p.first() == a && p.last() == b;
    assert forall|k: int| 0 <= k < p.len() implies walkable(m2, #[trigger] p[k]) by {}
    assert(is_path(m2, p) && p.first() == a && p.last() == b);
}

/// A step can be prepended to a walk as well as appended.
pub proof fn lemma_reachable_prepend(map: GameMap, a: int, b: int, c: int)
    requires
        walkable(map, a),
        adjacent8(a, b),
        reachable(map, b, c),
    ensures
        reachable(map, a, c),
{
    let p = choose|p: Seq<int>| is_path(map, p) && p.first() == b && p.last() == c;
    let q = seq![a] + p;
    assert forall|k: int| 0 <= k < q.len() implies walkable(map, #[trigger] q[k]) by {
        if k > 0 {
            assert(q[k] == p[k - 1]);
        }
    }
    assert forall|k: int| 0 <= k < q.len() - 1 implies adjacent8(#[trigger] q[k], q[k + 1]) by {
        if k == 0 {
            assert(q[0] == a && q[1] == p[0]);
        } else {
            assert(q[k] == p[k - 1] && q[k + 1] == p[k]);
        }
    }
    assert(is_path(map, q) && q.first() == a && q.last() == c);
}

/// Inside a room whose interior is fully walkable, every interior cell can
/// be walked to from every other: step along x, then along y, staying in
/// the rectangle.
pub proof fn lemma_rect_interior_connected(
    map: GameMap,
    room: Rect,
    cx: int,
    cy: int,
    tx: int,
    ty: int,
)
    requires
        room_ok(room),
        in_room_interior(room, cx, cy),
        in_room_interior(room, tx, ty),
        forall|xx: int, yy: int|
            #[trigger] in_room_interior(room, xx, yy) ==> walkable(map, spec_idx(xx, yy)),
    ensures
        reachable(map, spec_idx(cx, cy), spec_idx(tx, ty)),
    decreases (if cx <= tx {
        tx - cx
    } else {
        cx - tx
    }) + (if cy <= ty {
        ty - cy
    } else {
        cy - ty
    }),
{
    lemma_index_bijection(cx, cy, 0);
    lemma_index_bijection(tx, ty, 0);
    if cx == tx && cy == ty {
        lemma_reachable_refl(map, spec_idx(cx, cy));
    } else {
        let nx: int = if cx < tx {
            cx + 1
        } else if cx > tx {
            cx - 1
        } else {
            cx
        };
        let ny: int = if cx != tx {
            cy
        } else if cy < ty {
            cy + 1
        } else {
            cy - 1
        };
        assert(in_room_interior(room, nx, ny));
        lemma_index_bijection(nx, ny, 0);
        assert(adjacent8(spec_idx(cx, cy), spec_idx(nx, ny)));
        lemma_rect_interior_connected(map, room, nx, ny, tx, ty);
        lemma_reachable_prepend(
            map,
            spec_idx(cx, cy),
            spec_idx(nx, ny),
            spec_idx(tx, ty),
        );
    }
}

pub proof fn lemma_reachable_step(map: GameMap, a: int, b: int, c: int)
    requires
        reachable(map, a, b),
        adjacent8(b, c),
        walkable(map, c),
    ensures
        reachable(map, a, c),
{
    let p = choose|p: Seq<int>| is_path(map, p) && p.first() == a && p.last() == b;
    let q = p.push(c);
    assert forall|k: int| 0 <= k < q.len() implies walkable(map, #[trigger] q[k]) by {
        if k < p.len() {
            assert(q[k] == p[k]);
        }
    }
    assert forall|k: int| 0 <= k < q.len() - 1 implies adjacent8(#[trigger] q[k], q[k + 1]) by {
        if k < p.len() - 1 {
            assert(q[k] == p[k] && q[k + 1] == p[k + 1]);
        } else {
            assert(q[k] == p.last() && q[k + 1] == c);
        }
    }
    assert(is_path(map, q) && q.first() == a && q.last() == c);
}

/// How many entries of the bitmask are still unset.
pub open spec fn count_false(s: Seq<bool>) -> int
    decreases s.len(),
{
    if s.len() == 0 {
        0
    } else {
        count_false(s.drop_last()) + (if s.last() {
            0int
        } else {
            1int
        })
    }
}

proof fn lemma_count_false_bounds(s: Seq<bool>)
    ensures
        0 <= count_false(s) <= s.len(),
    decreases s.len(),
{
    if s.len() > 0 {
        lemma_count_false_bounds(s.drop_last());
    }
}

/// Setting one unset entry lowers the count by exactly one.
proof fn lemma_count_false_update(s: Seq<bool>, i: int)
    requires
        0 <= i < s.len(),
        !s[i],
    ensures
        count_false(s.update(i, true)) == count_false(s) - 1,
    decreases s.len(),
{
    if i == s.len() - 1 {
        assert(s.update(i, true).drop_last() =~= s.drop_last());
    } else {
        assert(s.update(i, true).drop_last() =~= s.drop_last().update(i, true));
        lemma_count_false_update(s.drop_last(), i);
    }
}

/// The breadth-first bookkeeping: the bitmask covers the grid, marks only
/// walkable tiles reachable from the start, and the frontier holds marked
/// tiles.
pub open spec fn bfs_inv(map: GameMap, start: int, seen: Seq<bool>, queue: Seq<usize>) -> bool {
    &&& seen.len() == MAPCOUNT
    &&& (forall|i: int|
        0 <= i < MAPCOUNT && seen[i] ==> walkable(map, i) && reachable(map, start, i))
    &&& (forall|k: int|
        0 <= k < queue.len() ==> (#[trigger] queue[k]) < MAPCOUNT && seen[queue[k] as int])
}

/// Mark one neighbour candidate: when it lies on the grid, is walkable and
/// unseen, it joins the frontier; the frontier bookkeeping and the sound
/// "seen means reachable" mark stay intact either way.
#[verifier::loop_isolation(false)]
#[verifier::rlimit(60)]
#[verifier::spinoff_prover]
fn visit_neighbor(
    map: &GameMap,
    seen: &mut Vec<bool>,
    queue: &mut Vec<usize>,
    x: i32,
    y: i32,
    start: Ghost<int>,
    from: Ghost<int>,
)
    requires
        map.wf(),
        old(seen)@.len() == MAPCOUNT,
        walkable(*map, from@),
        reachable(*map, start@, from@),
        -1000 <= x <= 1000,
        -1000 <= y <= 1000,
        0 <= x - x_of(from@) <= 2,
        0 <= y - y_of(from@) <= 2,
        bfs_inv(*map, start@, old(seen)@, old(queue)@),
    ensures
        bfs_inv(*map, start@, final(seen)@, final(queue)@),
        forall|i: int| 0 <= i < MAPCOUNT && old(seen)@[i] ==> final(seen)@[i],
        count_false(final(seen)@) * (MAPCOUNT + 2) + final(queue)@.len() <= count_false(
            old(seen)@,
        ) * (MAPCOUNT + 2) + old(queue)@.len(),
{
    let nx = x - 1;
    let ny = y - 1;
    if nx < 0 || nx >= MAPWIDTH as i32 || ny < 0 || ny >= MAPHEIGHT as i32 {
        return ;
    }
    let ni = map.xy_idx(nx, ny);
    proof {
        lemma_index_bijection(nx as int, ny as int, ni as int);
    }
    if matches!(map.tiles[ni], TileType::Wall) {
        return ;
    }
    if seen[ni] {
        return ;
    }
    proof {
        if ni as int != from@ {
            assert(adjacent8(from@, ni as int));
            lemma_reachable_step(*map, start@, from@, ni as int);
        }
        lemma_count_false_update(seen@, ni as int);
        lemma_count_false_bounds(seen@);
    }
    seen[ni] = true;
    queue.push(ni);
}

/// Breadth-first soundness check of the connectivity invariant: a `true`
/// answer proves that every walkable tile of the level can be reached from
/// the start across walkable tiles.
#[verifier::loop_isolation(false)]
#[verifier::rlimit(60)]
#[verifier::spinoff_prover]
pub fn all_walkable_connected(map: &GameMap, start: Position) -> (ok: bool)
    requires
        map.wf(),
        0 <= start.x < MAPWIDTH,
        0 <= start.y < MAPHEIGHT,
    ensures
        ok ==> forall|i: int|
            #[trigger] walkable(*map, i) ==> reachable(
                *map,
                spec_idx(start.x as int, start.y as int),
                i,
            ),
{
    let start_idx = map.xy_idx(start.x, start.y);
    if matches!(map.tiles[start_idx], TileType::Wall) {
        return false;
    }
    let ghost s = start_idx as int;
    proof {
        lemma_reachable_refl(*map, s);
    }

    let mut seen: Vec<bool> = vec![false; MAPCOUNT];
    let mut queue: Vec<usize> = Vec::new();
    seen[start_idx] = true;
    queue.push(start_idx);
    proof {
        lemma_count_false_bounds(seen@);
        assert(bfs_inv(*map, s, seen@, queue@));
    }

    while queue.len() > 0
        invariant
            bfs_inv(*map, s, seen@, queue@),
        decreases count_false(seen@) * (MAPCOUNT + 2) + queue@.len(),
    {
        proof {
            lemma_count_false_bounds(seen@);
        }
        let ghost pre_q = queue@;
        let i = match queue.pop() {
            Some(v) => v,
            None => {
                return false;
            },
        };
        let ghost from = i as int;
        let ghost m0 = count_false(seen@) * (MAPCOUNT + 2) + queue@.len();
        proof {
            assert(pre_q[pre_q.len() - 1] < MAPCOUNT && seen@[pre_q[pre_q.len() - 1] as int]);
            assert(walkable(*map, from) && reachable(*map, s, from));
            assert(bfs_inv(*map, s, seen@, queue@)) by {
                assert forall|k: int|
                    0 <= k < queue@.len() implies (#[trigger] queue@[k]) < MAPCOUNT
                    && seen@[queue@[k] as int] by {
                    assert(queue@[k] == pre_q[k]);
                }
            }
        }
        let x = (i as i32) % MAPWIDTH as i32;
        let y = (i as i32) / MAPWIDTH as i32;
        proof {
            lemma_index_bijection(0, 0, i as int);
        }

        let mut dy: i32 = 0;
        while dy < 3
            invariant
                0 <= dy <= 3,
                i < MAPCOUNT,
                x == x_of(from),
                y == y_of(from),
                walkable(*map, from),
                reachable(*map, s, from),
                bfs_inv(*map, s, seen@, queue@),
                count_false(seen@) * (MAPCOUNT + 2) + queue@.len() <= m0,
            decreases 3 - dy,
        {
            let mut dx: i32 = 0;
            while dx < 3
                invariant
                    0 <= dx <= 3,
                    0 <= dy < 3,
                    i < MAPCOUNT,
                    x == x_of(from),
                    y == y_of(from),
                    walkable(*map, from),
                    reachable(*map, s, from),
                    bfs_inv(*map, s, seen@, queue@),
                    count_false(seen@) * (MAPCOUNT + 2) + queue@.len() <= m0,
                decreases 3 - dx,
            {
                visit_neighbor(
                    map,
                    &mut seen,
                    &mut queue,
                    x + dx,
                    y + dy,
                    Ghost(s),
                    Ghost(from),
                );
                dx = dx + 1;
            }
            dy = dy + 1;
        }
        proof {
            lemma_count_false_bounds(seen@);
        }
    }

    let mut i: usize = 0;
    let mut all_connected = true;
    while i < MAPCOUNT
        invariant
            i <= MAPCOUNT,
            bfs_inv(*map, s, seen@, queue@),
            all_connected ==> forall|t: int| 0 <= t < i && #[trigger] walkable(*map, t) ==> seen@[t],
        decreases MAPCOUNT - i,
    {
        if !matches!(map.tiles[i], TileType::Wall) && !seen[i] {
            all_connected = false;
        }
        i = i + 1;
    }
    all_connected
}

} // verus!
