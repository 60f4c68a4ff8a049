//! The map indexing pass: rebuilds the blocked bitset and the per-tile
//! occupancy index from the live entity positions, once per turn, before
//! any pass that asks who stands where.

use vstd::prelude::*;

use crate::map::{lemma_index_bijection, spec_idx, GameMap, TileType, MAPCOUNT};
use crate::world::{positions_in_bounds, EntityRecord, World};

verus! {

/// Whether the entity record stands on tile `i` of the grid.
pub open spec fn occupies(rec: EntityRecord, i: int) -> bool {
    &&& rec.alive
    &&& rec.position matches Some(p) && spec_idx(p.x as int, p.y as int) == i
}

/// The occupant list the indexing pass builds for tile `i` from the first
/// `k` entity slots: the entities standing on it, in ascending handle
/// order.
pub open spec fn content_upto(w: Seq<EntityRecord>, i: int, k: int) -> Seq<usize>
    decreases k,
{
    if k <= 0 {
        Seq::empty()
    } else {
        let rest = content_upto(w, i, k - 1);
        if occupies(w[k - 1], i) {
            rest.push((k - 1) as usize)
        } else {
            rest
        }
    }
}

/// Whether tile `i` is blocked once the index is current: it is a wall, or
/// some blocking entity stands on it.
pub open spec fn blocked_after(w: Seq<EntityRecord>, tiles: Seq<TileType>, i: int) -> bool {
    ||| tiles[i] == TileType::Wall
    ||| exists|e: int| 0 <= e < w.len() && occupies(#[trigger] w[e], i) && w[e].blocks_tile
}

/// What the indexing pass guarantees of the map it leaves behind, given
/// the world it read.
pub open spec fn indexed(map: GameMap, w: Seq<EntityRecord>) -> bool {
    &&& forall|i: int| 0 <= i < MAPCOUNT ==> map.blocked@[i] == blocked_after(w, map.tiles@, i)
    &&& forall|i: int|
        0 <= i < MAPCOUNT ==> map.tile_content@[i]@ == content_upto(w, i, w.len() as int)
}

pub struct MapIndexingSystem {}

impl MapIndexingSystem {
    /// Rebuild `blocked` from the tile grid, empty the occupancy index, and
    /// refill it from every living entity with a position, marking the tile
    /// of each blocking entity blocked.
    #[verifier::loop_isolation(false)]
    pub fn run(map: &mut GameMap, ecs: &World)
        requires
            old(map).wf(),
            positions_in_bounds(ecs.entities@),
        ensures
            final(map).wf(),
            indexed(*final(map), ecs.entities@),
            final(map).tiles@ == old(map).tiles@,
            final(map).revealed_tiles@ == old(map).revealed_tiles@,
            final(map).visible_tiles@ == old(map).visible_tiles@,
            final(map).bloodstains@ == old(map).bloodstains@,
            final(map).depth == old(map).depth,
    {
        map.populate_blocked();
        map.clear_content_index();

        let ghost w = ecs.entities@;
        let n = ecs.len();
        let mut e: usize = 0;
        while e < n
            invariant
                e <= n,
                n == w.len(),
                map.wf(),
                map.tiles@ == old(map).tiles@,
                map.revealed_tiles@ == old(map).revealed_tiles@,
                map.visible_tiles@ == old(map).visible_tiles@,
                map.bloodstains@ == old(map).bloodstains@,
                map.depth == old(map).depth,
                forall|i: int|
                    0 <= i < MAPCOUNT ==> map.blocked@[i] == (map.tiles@[i] == TileType::Wall
                        || exists|t: int|
                        0 <= t < e && occupies(#[trigger] w[t], i) && w[t].blocks_tile),
                forall|i: int| 0 <= i < MAPCOUNT ==> map.tile_content@[i]@ == content_upto(w, i, e as int),
            decreases n - e,
        {
            let rec = &ecs.entities[e];
            if rec.alive {
                if let Some(pos) = rec.position {
                    let idx = map.xy_idx(pos.x, pos.y);

                    if rec.blocks_tile {
                        map.blocked[idx] = true;
                    }

                    let content = &mut map.tile_content[idx];
                    content.push(e);

                    proof {
                        lemma_index_bijection(pos.x as int, pos.y as int, idx as int);
                        assert(occupies(w[e as int], idx as int));
                        assert forall|i: int| 0 <= i < MAPCOUNT implies map.tile_content@[i]@
                            == content_upto(w, i, e + 1) by {
                            if i != idx as int {
                                assert(!occupies(w[e as int], i));
                                assert(content_upto(w, i, e + 1) == content_upto(w, i, e as int));
                            } else {
                                assert(content_upto(w, i, e + 1) == content_upto(
                                    w,
                                    i,
                                    e as int,
                                ).push(e));
                            }
                        }
                        assert forall|i: int| 0 <= i < MAPCOUNT implies map.blocked@[i]
                            == (map.tiles@[i] == TileType::Wall || exists|t: int|
                            0 <= t < e + 1 && occupies(#[trigger] w[t], i)
                                && w[t].blocks_tile) by {
                            if i == idx as int && rec.blocks_tile {
                                assert(occupies(w[e as int], i) && w[e as int].blocks_tile);
                            } else {
                                assert(!(occupies(w[e as int], i) && w[e as int].blocks_tile));
                            }
                        }
                    }
                } else {
                    proof {
                        assert forall|i: int| 0 <= i < MAPCOUNT implies map.tile_content@[i]@
                            == content_upto(w, i, e + 1) by {
                            assert(!occupies(w[e as int], i));
                            assert(content_upto(w, i, e + 1) == content_upto(w, i, e as int));
                        }
                    }
                }
            } else {
                proof {
                    assert forall|i: int| 0 <= i < MAPCOUNT implies map.tile_content@[i]@
                        == content_upto(w, i, e + 1) by {
                        assert(!occupies(w[e as int], i));
                        assert(content_upto(w, i, e + 1) == content_upto(w, i, e as int));
                    }
                }
            }
            e = e + 1;
        }
    }
}

/// Every handle the occupancy index accumulates points into the registry.
pub proof fn lemma_content_upto_bounds(w: Seq<EntityRecord>, i: int, k: int)
    requires
        0 <= k <= w.len(),
    ensures
        forall|j: int|
            0 <= j < content_upto(w, i, k).len() ==> (#[trigger] content_upto(w, i, k)[j]) < k,
    decreases k,
{
    if k > 0 {
        lemma_content_upto_bounds(w, i, k - 1);
        assert forall|j: int| 0 <= j < content_upto(w, i, k).len() implies (
        #[trigger] content_upto(w, i, k)[j]) < k by {
            if occupies(w[k - 1], i) {
                if j < content_upto(w, i, k - 1).len() {
                    assert(content_upto(w, i, k)[j] == content_upto(w, i, k - 1)[j]);
                } else {
                    assert(content_upto(w, i, k)[j] == (k - 1) as usize);
                }
            }
        }
    }
}

/// Running the indexing pass twice in a row, with no entity movement in
/// between, produces identical blocked and occupancy contents: the pass is
/// idempotent.
pub proof fn lemma_indexing_idempotent(w: Seq<EntityRecord>, a: GameMap, b: GameMap)
    requires
        a.wf(),
        b.wf(),
        a.tiles@ == b.tiles@,
        indexed(a, w),
        indexed(b, w),
    ensures
        forall|i: int| 0 <= i < MAPCOUNT ==> a.blocked@[i] == b.blocked@[i],
        forall|i: int| 0 <= i < MAPCOUNT ==> a.tile_content@[i]@ == b.tile_content@[i]@,
{
    assert forall|i: int| 0 <= i < MAPCOUNT implies a.tile_content@[i]@
        == b.tile_content@[i]@ by {
        assert(a.tile_content@[i]@ == content_upto(w, i, w.len() as int));
        assert(b.tile_content@[i]@ == content_upto(w, i, w.len() as int));
    }
}

} // verus!
