//! The visibility pass: store each freshly computed field of view on its
//! entity, clearing the dirty flag and discarding tiles off the grid. For
//! the player-controlled entity the global visible bitset is rebuilt from
//! scratch and every seen tile is also revealed — revealed tiles never
//! revert. Hidden occupants of a seen tile have a one-in-thirty chance per
//! turn of being spotted.

use vstd::prelude::*;

use bracket_lib::prelude::RandomNumberGenerator;

use crate::components::{Position, Viewshed};
use crate::gamelog::{log_extended, logs_spotted, GameLog, LogEntry};
use crate::map::{copy_vec, lemma_index_bijection, spec_idx, GameMap, MAPCOUNT, MAPHEIGHT, MAPWIDTH};
use crate::rng::roll_dice;
use crate::world::{content_valid, EntityRecord, World};

verus! {

/// One recomputed field of view, handed in by the scheduler's shell: the
/// tiles an occlusion-aware scan found visible from the entity's position,
/// out to its sight range.
pub struct FovUpdate {
    pub entity: usize,
    pub tiles: Vec<Position>,
}

pub open spec fn pos_in_bounds(p: Position) -> bool {
    0 <= p.x < MAPWIDTH && 0 <= p.y < MAPHEIGHT
}

/// The tiles of `s` that lie on the grid, in order.
pub open spec fn in_bounds_filter(s: Seq<Position>) -> Seq<Position>
    decreases s.len(),
{
    if s.len() == 0 {
        Seq::empty()
    } else {
        let rest = in_bounds_filter(s.drop_last());
        if pos_in_bounds(s.last()) {
            rest.push(s.last())
        } else {
            rest
        }
    }
}

/// Whether cell `i` is named by an in-bounds tile of the list `s`.
pub open spec fn sees(s: Seq<Position>, i: int) -> bool {
    exists|t: int|
        0 <= t < s.len() && pos_in_bounds(#[trigger] s[t]) && spec_idx(s[t].x as int, s[t].y as int)
            == i
}

/// Filtering to the grid keeps exactly the cells a tile list names.
proof fn lemma_sees_filter(s: Seq<Position>, i: int)
    ensures
        sees(s, i) == sees(in_bounds_filter(s), i),
    decreases s.len(),
{
    if s.len() > 0 {
        lemma_sees_filter(s.drop_last(), i);
        let f = in_bounds_filter(s);
        let fr = in_bounds_filter(s.drop_last());
        if sees(s, i) {
            let t = choose|t: int|
                0 <= t < s.len() && pos_in_bounds(#[trigger] s[t]) && spec_idx(
                    s[t].x as int,
                    s[t].y as int,
                ) == i;
            if t < s.len() - 1 {
                assert(s.drop_last()[t] == s[t]);
                assert(sees(s.drop_last(), i));
                let u = choose|u: int|
                    0 <= u < fr.len() && pos_in_bounds(#[trigger] fr[u]) && spec_idx(
                        fr[u].x as int,
                        fr[u].y as int,
                    ) == i;
                assert(f[u] == fr[u]);
                assert(sees(f, i));
            } else {
                assert(pos_in_bounds(s.last()));
                assert(f.last() == s.last());
                assert(sees(f, i));
            }
        }
        if sees(f, i) {
            let t = choose|t: int|
                0 <= t < f.len() && pos_in_bounds(#[trigger] f[t]) && spec_idx(
                    f[t].x as int,
                    f[t].y as int,
                ) == i;
            if pos_in_bounds(s.last()) && t == f.len() - 1 {
                assert(f[t] == s.last());
                assert(s[s.len() - 1] == s.last());
                assert(sees(s, i));
            } else {
                assert(f[t] == fr[t]);
                assert(sees(s.drop_last(), i));
                let u = choose|u: int|
                    0 <= u < s.drop_last().len() && pos_in_bounds(#[trigger] s.drop_last()[u])
                        && spec_idx(s.drop_last()[u].x as int, s.drop_last()[u].y as int) == i;
                assert(s[u] == s.drop_last()[u]);
                assert(sees(s, i));
            }
        }
    }
}

proof fn lemma_ibf_take_succ(s: Seq<Position>, k: int)
    requires
        0 <= k < s.len(),
    ensures
        in_bounds_filter(s.take(k + 1)) == (if pos_in_bounds(s[k]) {
            in_bounds_filter(s.take(k)).push(s[k])
        } else {
            in_bounds_filter(s.take(k))
        }),
{
    assert(s.take(k + 1).drop_last() =~= s.take(k));
    assert(s.take(k + 1).last() == s[k]);
}

/// Extending a tile-list prefix by one tile extends the cells it names by
/// exactly that tile's cell.
proof fn lemma_sees_take_succ(s: Seq<Position>, v: int, q: int)
    requires
        0 <= v < s.len(),
    ensures
        sees(s.take(v + 1), q) == (sees(s.take(v), q) || (pos_in_bounds(s[v]) && spec_idx(
            s[v].x as int,
            s[v].y as int,
        ) == q)),
{
    if sees(s.take(v + 1), q) {
        let u = choose|u: int|
            0 <= u < s.take(v + 1).len() && pos_in_bounds(#[trigger] s.take(v + 1)[u]) && spec_idx(
                s.take(v + 1)[u].x as int,
                s.take(v + 1)[u].y as int,
            ) == q;
        if u < v {
            assert(s.take(v)[u] == s.take(v + 1)[u]);
            assert(sees(s.take(v), q));
        } else {
            assert(s.take(v + 1)[u] == s[v]);
        }
    }
    if sees(s.take(v), q) {
        let u = choose|u: int|
            0 <= u < s.take(v).len() && pos_in_bounds(#[trigger] s.take(v)[u]) && spec_idx(
                s.take(v)[u].x as int,
                s.take(v)[u].y as int,
            ) == q;
        assert(s.take(v + 1)[u] == s.take(v)[u]);
        assert(sees(s.take(v + 1), q));
    }
    if pos_in_bounds(s[v]) && spec_idx(s[v].x as int, s[v].y as int) == q {
        assert(s.take(v + 1)[v] == s[v]);
        assert(sees(s.take(v + 1), q));
    }
}

/// Whether a field-of-view update applies to the world: its entity exists,
/// watches through a dirty viewshed, and stands somewhere.
pub open spec fn update_applies(w: Seq<EntityRecord>, u: FovUpdate) -> bool {
    &&& u.entity < w.len()
    &&& w[u.entity as int].viewshed matches Some(v) && v.dirty
    &&& w[u.entity as int].position is Some
}

/// How the pass may change one record: a dirty viewshed recomputed (same
/// range, dirty flag cleared, all stored tiles on the grid) and a dropped
/// hidden flag; everything else untouched.
pub open spec fn vis_touched(a: EntityRecord, b: EntityRecord) -> bool {
    &&& (b.hidden ==> a.hidden)
    &&& (match (a.viewshed, b.viewshed) {
        (Some(va), Some(vb)) => vb.range == va.range && (vb == va || (va.dirty && !vb.dirty
            && (forall|t: int|
            0 <= t < vb.visible_tiles@.len() ==> pos_in_bounds(
                #[trigger] vb.visible_tiles@[t],
            )))),
        (None, None) => true,
        _ => false,
    })
    &&& b.alive == a.alive
    &&& b.player == a.player
    &&& b.monster == a.monster
    &&& b.item == a.item
    &&& b.blocks_tile == a.blocks_tile
    &&& b.entry_trigger == a.entry_trigger
    &&& b.single_activation == a.single_activation
    &&& b.entity_moved == a.entity_moved
    &&& b.position == a.position
    &&& b.combat_stats == a.combat_stats
    &&& b.suffer_damage@ == a.suffer_damage@
    &&& b.wants_to_melee == a.wants_to_melee
    &&& b.wants_to_pickup == a.wants_to_pickup
    &&& b.wants_to_use == a.wants_to_use
    &&& b.wants_to_drop == a.wants_to_drop
    &&& b.wants_to_remove == a.wants_to_remove
    &&& b.ranged == a.ranged
    &&& b.in_backpack == a.in_backpack
    &&& b.equipped == a.equipped
    &&& b.inflicts_damage == a.inflicts_damage
    &&& b.hunger_clock == a.hunger_clock
    &&& b.renderable == a.renderable
    &&& b.name == a.name
}

/// Only hidden flags may have dropped between `a` and `b`.
pub open spec fn hidden_only(a: EntityRecord, b: EntityRecord) -> bool {
    &&& (b.hidden ==> a.hidden)
    &&& b.viewshed == a.viewshed
    &&& b.alive == a.alive
    &&& b.player == a.player
    &&& b.monster == a.monster
    &&& b.item == a.item
    &&& b.blocks_tile == a.blocks_tile
    &&& b.entry_trigger == a.entry_trigger
    &&& b.single_activation == a.single_activation
    &&& b.entity_moved == a.entity_moved
    &&& b.position == a.position
    &&& b.combat_stats == a.combat_stats
    &&& b.suffer_damage@ == a.suffer_damage@
    &&& b.wants_to_melee == a.wants_to_melee
    &&& b.wants_to_pickup == a.wants_to_pickup
    &&& b.wants_to_use == a.wants_to_use
    &&& b.wants_to_drop == a.wants_to_drop
    &&& b.wants_to_remove == a.wants_to_remove
    &&& b.ranged == a.ranged
    &&& b.in_backpack == a.in_backpack
    &&& b.equipped == a.equipped
    &&& b.inflicts_damage == a.inflicts_damage
    &&& b.hunger_clock == a.hunger_clock
    &&& b.renderable == a.renderable
    &&& b.name == a.name
}

/// Entity `e` stands on a cell that the tile list names: the only
/// entities whose hidden flag the pass may drop.
pub open spec fn occupies_seen_cell(map: GameMap, vt: Seq<Position>, e: int) -> bool {
    exists|q: int, j: int|
        #![trigger sees(vt, q), map.tile_content@[q]@[j]]
        0 <= q < MAPCOUNT && sees(vt, q) && 0 <= j < map.tile_content@[q]@.len()
            && map.tile_content@[q]@[j] == e
}

/// Whether some update among the first `k` names entity `e`.
pub open spec fn named_upto(fov: Seq<FovUpdate>, k: int, e: int) -> bool {
    exists|j: int| 0 <= j < k && (#[trigger] fov[j]).entity == e
}

/// What a processed update leaves on its entity: the filtered tile list
/// stored, the dirty flag cleared, the range kept.
pub open spec fn viewshed_stored(a: EntityRecord, b: EntityRecord, tiles: Seq<Position>) -> bool {
    &&& a.viewshed matches Some(va) && (b.viewshed matches Some(vb) && !vb.dirty && vb.range
        == va.range && vb.visible_tiles@ == in_bounds_filter(tiles))
}

pub struct VisibilitySystem {}

impl VisibilitySystem {
    /// Apply the handed-in field-of-view recomputations: each applying
    /// update stores its tile list (discarding tiles off the grid) and
    /// clears the dirty flag; the player's update additionally rebuilds the
    /// visible bitset, reveals every seen tile, and may spot hidden
    /// occupants of seen tiles.
    #[verifier::loop_isolation(false)]
    #[verifier::rlimit(100)]
    #[verifier::spinoff_prover]
    pub fn run(
        map: &mut GameMap,
        ecs: &mut World,
        rng: &mut RandomNumberGenerator,
        log: &mut GameLog,
        fov: &Vec<FovUpdate>,
    )
        requires
            old(map).wf(),
            content_valid(*old(map), old(ecs).entities@),
            forall|j1: int, j2: int|
                0 <= j1 < j2 < fov@.len() ==> (#[trigger] fov@[j1]).entity != (
                #[trigger] fov@[j2]).entity,
            forall|j1: int, j2: int|
                #![trigger fov@[j1], fov@[j2]]
                0 <= j1 < j2 < fov@.len() && fov@[j1].entity < old(ecs).entities@.len()
                    && fov@[j2].entity < old(ecs).entities@.len() ==> !(old(ecs).entities@[fov@[j1].entity as int].player && old(ecs).entities@[fov@[j2].entity as int].player),
        ensures
            final(map).wf(),
            final(map).tiles@ == old(map).tiles@,
            final(map).blocked@ == old(map).blocked@,
            final(map).tile_content@ == old(map).tile_content@,
            final(map).bloodstains@ == old(map).bloodstains@,
            final(map).depth == old(map).depth,
            forall|i: int|
                0 <= i < MAPCOUNT && old(map).revealed_tiles@[i] ==> final(map).revealed_tiles@[i],
            (forall|i: int|
                0 <= i < MAPCOUNT && old(map).visible_tiles@[i] ==> old(map).revealed_tiles@[i])
                ==> (forall|i: int|
                0 <= i < MAPCOUNT && final(map).visible_tiles@[i] ==> final(map).revealed_tiles@[i]),
            final(ecs).entities@.len() == old(ecs).entities@.len(),
            forall|e: int|
                0 <= e < old(ecs).entities@.len() ==> vis_touched(
                    old(ecs).entities@[e],
                    #[trigger] final(ecs).entities@[e],
                ),
            forall|j: int|
                0 <= j < fov@.len() && update_applies(old(ecs).entities@, #[trigger] fov@[j])
                    ==> viewshed_stored(
                    old(ecs).entities@[fov@[j].entity as int],
                    final(ecs).entities@[fov@[j].entity as int],
                    fov@[j].tiles@,
                ),
            forall|j: int|
                0 <= j < fov@.len() && update_applies(old(ecs).entities@, #[trigger] fov@[j]) && old(ecs).entities@[fov@[j].entity as int].player ==> (forall|i: int|
                    #![trigger final(map).visible_tiles@[i]]
                    0 <= i < MAPCOUNT ==> final(map).visible_tiles@[i] == sees(fov@[j].tiles@, i)
                        && final(map).revealed_tiles@[i] == (old(map).revealed_tiles@[i] || sees(
                        fov@[j].tiles@,
                        i,
                    ))),
            (forall|j: int|
                0 <= j < fov@.len() ==> !(update_applies(old(ecs).entities@, #[trigger] fov@[j])
                    && old(ecs).entities@[fov@[j].entity as int].player)) ==> final(map).visible_tiles@ == old(map).visible_tiles@ && final(map).revealed_tiles@ == old(map).revealed_tiles@,
            forall|e: int|
                0 <= e < old(ecs).entities@.len() && old(ecs).entities@[e].hidden && !(
                #[trigger] final(ecs).entities@[e]).hidden ==> exists|q: int, j: int|
                    #![trigger final(map).visible_tiles@[q], old(map).tile_content@[q]@[j]]
                    0 <= q < MAPCOUNT && final(map).visible_tiles@[q] && 0 <= j < old(
                        map,
                    ).tile_content@[q]@.len() && old(map).tile_content@[q]@[j] == e,
            forall|e: int|
                0 <= e < old(ecs).entities@.len() && old(ecs).entities@[e].hidden && !(
                #[trigger] final(ecs).entities@[e]).hidden ==> (old(
                    ecs,
                ).entities@[e].name matches Some(nm) ==> exists|t: int|
                    old(log).entries@.len() <= t < final(log).entries@.len() && logs_spotted(
                        #[trigger] final(log).entries@[t],
                        nm@,
                    )),
            log_extended(old(log).entries@, final(log).entries@),
    {
        let ghost w0 = old(ecs).entities@;
        let ghost m0 = *old(map);
        let n = ecs.entities.len();
        let mut k: usize = 0;
        let ghost mut pdone: bool = false;
        let ghost mut pj: int = 0;

        while k < fov.len()
            invariant
                k <= fov@.len(),
                n == ecs.entities@.len(),
                ecs.entities@.len() == w0.len(),
                map.wf(),
                map.tiles@ == m0.tiles@,
                map.blocked@ == m0.blocked@,
                map.tile_content@ == m0.tile_content@,
                map.bloodstains@ == m0.bloodstains@,
                map.depth == m0.depth,
                forall|i: int|
                    0 <= i < MAPCOUNT && m0.revealed_tiles@[i] ==> map.revealed_tiles@[i],
                forall|e: int|
                    0 <= e < n ==> vis_touched(w0[e], #[trigger] ecs.entities@[e]),
                forall|e: int|
                    0 <= e < n && !named_upto(fov@, k as int, e) ==> (
                    #[trigger] ecs.entities@[e]).viewshed == w0[e].viewshed,
                forall|j: int|
                    0 <= j < k && update_applies(w0, #[trigger] fov@[j]) ==> viewshed_stored(
                        w0[fov@[j].entity as int],
                        ecs.entities@[fov@[j].entity as int],
                        fov@[j].tiles@,
                    ),
                pdone ==> 0 <= pj < k && update_applies(w0, fov@[pj])
                    && w0[fov@[pj].entity as int].player && (forall|i: int|
                    #![trigger map.visible_tiles@[i]]
                    0 <= i < MAPCOUNT ==> map.visible_tiles@[i] == sees(fov@[pj].tiles@, i)
                        && map.revealed_tiles@[i] == (m0.revealed_tiles@[i] || sees(
                        fov@[pj].tiles@,
                        i,
                    ))),
                !pdone ==> map.visible_tiles@ == m0.visible_tiles@ && map.revealed_tiles@
                    == m0.revealed_tiles@ && (forall|j: int|
                    0 <= j < k ==> !(update_applies(w0, #[trigger] fov@[j])
                        && w0[fov@[j].entity as int].player)),
                !pdone ==> forall|e: int|
                    0 <= e < n ==> (#[trigger] ecs.entities@[e]).hidden == w0[e].hidden,
                forall|e: int|
                    0 <= e < n && w0[e].hidden && !(#[trigger] ecs.entities@[e]).hidden
                        ==> exists|q: int, j: int|
                        #![trigger map.visible_tiles@[q], m0.tile_content@[q]@[j]]
                        0 <= q < MAPCOUNT && map.visible_tiles@[q] && 0 <= j
                            < m0.tile_content@[q]@.len() && m0.tile_content@[q]@[j] == e,
                forall|e: int|
                    0 <= e < n && w0[e].hidden && !(#[trigger] ecs.entities@[e]).hidden ==> (
                    w0[e].name matches Some(nm) ==> exists|t: int|
                        old(log).entries@.len() <= t < log.entries@.len() && logs_spotted(
                            #[trigger] log.entries@[t],
                            nm@,
                        )),
                log_extended(old(log).entries@, log.entries@),
            decreases fov@.len() - k,
        {
            let ent = fov[k].entity;
            let mut applies = false;
            if ent < n {
                let rec = &ecs.entities[ent];
                if rec.position.is_some() {
                    if let Some(vs) = &rec.viewshed {
                        if vs.dirty {
                            applies = true;
                        }
                    }
                }
            }
            proof {
                assert(!named_upto(fov@, k as int, ent as int));
                if ent < n {
                    assert(ecs.entities@[ent as int].viewshed == w0[ent as int].viewshed);
                }
                assert(applies == update_applies(w0, fov@[k as int]));
            }
            if applies {
                let tiles_len = fov[k].tiles.len();
                let ghost tile_seq = fov@[k as int].tiles@;
                let mut vt: Vec<Position> = Vec::new();
                let mut t: usize = 0;
                while t < tiles_len
                    invariant
                        t <= tiles_len,
                        tiles_len == tile_seq.len(),
                        tile_seq == fov@[k as int].tiles@,
                        k < fov@.len(),
                        vt@ == in_bounds_filter(tile_seq.take(t as int)),
                        forall|u: int| 0 <= u < vt@.len() ==> pos_in_bounds(#[trigger] vt@[u]),
                    decreases tiles_len - t,
                {
                    let p = fov[k].tiles[t];
                    proof {
                        lemma_ibf_take_succ(tile_seq, t as int);
                    }
                    if p.x >= 0 && p.x < MAPWIDTH as i32 && p.y >= 0 && p.y < MAPHEIGHT as i32 {
                        vt.push(p);
                    }
                    t = t + 1;
                }
                proof {
                    assert(tile_seq.take(tiles_len as int) =~= tile_seq);
                }
                let vt_iter = copy_vec(&vt);
                let range = match &ecs.entities[ent].viewshed {
                    Some(vs) => vs.range,
                    None => 0,
                };
                let is_player = ecs.entities[ent].player;
                let ent_rec = &mut ecs.entities[ent];
                ent_rec.viewshed = Some(
                    Viewshed { visible_tiles: vt, range, dirty: false },
                );

                if is_player {
                    proof {
                        assert(w0[ent as int].player);
                        if pdone {
                            assert(w0[fov@[pj].entity as int].player);
                            assert(w0[fov@[k as int].entity as int].player);
                            assert(false);
                        }
                        assert(map.revealed_tiles@ == m0.revealed_tiles@);
                    }
                    let ghost w_mid = ecs.entities@;
                    let ghost m_mid = *map;
                    let ghost log_mid = log.entries@;
                    Self::reveal_seen(map, ecs, rng, log, &vt_iter);
                    proof {
                        pdone = true;
                        pj = k as int;
                        assert(vt_iter@ == in_bounds_filter(tile_seq));
                        assert forall|e: int| 0 <= e < n implies vis_touched(
                            w0[e],
                            #[trigger] ecs.entities@[e],
                        ) by {
                            assert(hidden_only(w_mid[e], ecs.entities@[e]));
                            assert(vis_touched(w0[e], w_mid[e]));
                        }
                        assert forall|e: int|
                            0 <= e < n && !named_upto(
                                fov@,
                                k + 1,
                                e,
                            ) implies #[trigger] ecs.entities@[e].viewshed == w0[e].viewshed by {
                            assert(!named_upto(fov@, k as int, e)) by {
                                if named_upto(fov@, k as int, e) {
                                    let j = choose|j: int|
                                        0 <= j < k && (#[trigger] fov@[j]).entity == e;
                                    assert((#[trigger] fov@[j]).entity == e && j < k + 1);
                                }
                            }
                            assert(hidden_only(w_mid[e], ecs.entities@[e]));
                        }
                        assert forall|q: int| #![trigger map.visible_tiles@[q]]
                            0 <= q < MAPCOUNT implies map.visible_tiles@[q] == sees(
                            tile_seq,
                            q,
                        ) by {
                            lemma_sees_filter(tile_seq, q);
                        }
                        assert forall|q: int| #![trigger map.revealed_tiles@[q]]
                            0 <= q < MAPCOUNT implies map.revealed_tiles@[q] == (
                        m0.revealed_tiles@[q] || sees(tile_seq, q)) by {
                            lemma_sees_filter(tile_seq, q);
                        }
                        assert forall|e: int|
                            0 <= e < n && w0[e].hidden && !(
                            #[trigger] ecs.entities@[e]).hidden implies exists|q: int, j: int|
                            #![trigger map.visible_tiles@[q], m0.tile_content@[q]@[j]]
                            0 <= q < MAPCOUNT && map.visible_tiles@[q] && 0 <= j
                                < m0.tile_content@[q]@.len() && m0.tile_content@[q]@[j]
                                == e by {
                            assert(w_mid[e].hidden == w0[e].hidden);
                            assert(occupies_seen_cell(m_mid, vt_iter@, e));
                            let (q, j) = choose|q: int, j: int|
                                #![trigger sees(vt_iter@, q), m_mid.tile_content@[q]@[j]]
                                0 <= q < MAPCOUNT && sees(vt_iter@, q) && 0 <= j
                                    < m_mid.tile_content@[q]@.len() && m_mid.tile_content@[q]@[j]
                                    == e;
                            assert(map.visible_tiles@[q] == sees(vt_iter@, q));
                            assert(m0.tile_content@[q]@[j] == e);
                        }
                        assert forall|e: int|
                            0 <= e < n && w0[e].hidden && !(
                            #[trigger] ecs.entities@[e]).hidden implies (w0[e].name matches Some(
                            nm,
                        ) ==> exists|t: int|
                            old(log).entries@.len() <= t < log.entries@.len() && logs_spotted(
                                #[trigger] log.entries@[t],
                                nm@,
                            )) by {
                            if w0[e].name is Some {
                                let nm = w0[e].name->Some_0;
                                assert(w_mid[e].hidden == w0[e].hidden);
                                assert(vis_touched(w0[e], w_mid[e]));
                                assert(w_mid[e].name == w0[e].name);
                                let t0 = choose|t: int|
                                    log_mid.len() <= t < log.entries@.len() && logs_spotted(
                                        #[trigger] log.entries@[t],
                                        nm@,
                                    );
                                assert(old(log).entries@.len() <= t0);
                            }
                        }
                    }
                }
            }
            k = k + 1;
        }
        proof {
            if pdone {
                assert forall|j: int|
                    0 <= j < fov@.len() && update_applies(w0, #[trigger] fov@[j])
                        && w0[fov@[j].entity as int].player implies j == pj by {}
            }
            assert forall|i: int|
                0 <= i < MAPCOUNT && (forall|q: int|
                    0 <= q < MAPCOUNT && m0.visible_tiles@[q] ==> m0.revealed_tiles@[q])
                    && map.visible_tiles@[i] implies map.revealed_tiles@[i] by {
                if pdone {
                    assert(map.visible_tiles@[i] == sees(fov@[pj].tiles@, i));
                    assert(map.revealed_tiles@[i] == (m0.revealed_tiles@[i] || sees(
                        fov@[pj].tiles@,
                        i,
                    )));
                } else {
                    assert(m0.visible_tiles@[i]);
                    assert(m0.revealed_tiles@[i]);
                }
            }
        }
    }

    /// Rebuild the visible bitset from the given in-bounds tile list,
    /// revealing every seen tile, and give each hidden occupant of a seen
    /// tile its one-in-thirty chance of being spotted.
    #[verifier::loop_isolation(false)]
    #[verifier::rlimit(100)]
    #[verifier::spinoff_prover]
    fn reveal_seen(
        map: &mut GameMap,
        ecs: &mut World,
        rng: &mut RandomNumberGenerator,
        log: &mut GameLog,
        vt: &Vec<Position>,
    )
        requires
            old(map).wf(),
            content_valid(*old(map), old(ecs).entities@),
            forall|u: int| 0 <= u < vt@.len() ==> pos_in_bounds(#[trigger] vt@[u]),
        ensures
            final(map).wf(),
            final(map).tiles@ == old(map).tiles@,
            final(map).blocked@ == old(map).blocked@,
            final(map).tile_content@ == old(map).tile_content@,
            final(map).bloodstains@ == old(map).bloodstains@,
            final(map).depth == old(map).depth,
            forall|q: int|
                0 <= q < MAPCOUNT ==> final(map).visible_tiles@[q] == sees(vt@, q),
            forall|q: int|
                0 <= q < MAPCOUNT ==> final(map).revealed_tiles@[q] == (old(
                    map,
                ).revealed_tiles@[q] || sees(vt@, q)),
            final(ecs).entities@.len() == old(ecs).entities@.len(),
            forall|e: int|
                0 <= e < old(ecs).entities@.len() ==> hidden_only(
                    old(ecs).entities@[e],
                    #[trigger] final(ecs).entities@[e],
                ),
            forall|e: int|
                0 <= e < old(ecs).entities@.len() && old(ecs).entities@[e].hidden && !(
                #[trigger] final(ecs).entities@[e]).hidden ==> occupies_seen_cell(
                    *old(map),
                    vt@,
                    e,
                ),
            forall|e: int|
                0 <= e < old(ecs).entities@.len() && old(ecs).entities@[e].hidden && !(
                #[trigger] final(ecs).entities@[e]).hidden ==> (old(
                    ecs,
                ).entities@[e].name matches Some(nm) ==> exists|t: int|
                    old(log).entries@.len() <= t < final(log).entries@.len() && logs_spotted(
                        #[trigger] final(log).entries@[t],
                        nm@,
                    )),
            log_extended(old(log).entries@, final(log).entries@),
    {
        let ghost m0 = *old(map);
        let ghost rev_mid = map.revealed_tiles@;
        let n = ecs.entities.len();
        let mut i: usize = 0;
        while i < MAPCOUNT
            invariant
                i <= MAPCOUNT,
                map.wf(),
                map.tiles@ == m0.tiles@,
                map.blocked@ == m0.blocked@,
                map.tile_content@ == m0.tile_content@,
                map.bloodstains@ == m0.bloodstains@,
                map.depth == m0.depth,
                map.revealed_tiles@ == rev_mid,
                forall|q: int| 0 <= q < i ==> !map.visible_tiles@[q],
            decreases MAPCOUNT - i,
        {
            map.visible_tiles[i] = false;
            i = i + 1;
        }

        let vt_len = vt.len();
        let mut v: usize = 0;
        while v < vt_len
            invariant
                v <= vt_len,
                vt_len == vt@.len(),
                n == ecs.entities@.len(),
                map.wf(),
                map.tiles@ == m0.tiles@,
                map.blocked@ == m0.blocked@,
                map.tile_content@ == m0.tile_content@,
                map.bloodstains@ == m0.bloodstains@,
                map.depth == m0.depth,
                forall|q: int|
                    0 <= q < MAPCOUNT ==> map.visible_tiles@[q] == sees(vt@.take(v as int), q),
                forall|q: int|
                    0 <= q < MAPCOUNT ==> map.revealed_tiles@[q] == (rev_mid[q]
                        || map.visible_tiles@[q]),
                forall|e: int|
                    0 <= e < n ==> hidden_only(old(ecs).entities@[e], #[trigger] ecs.entities@[e]),
                forall|e: int|
                    0 <= e < n && old(ecs).entities@[e].hidden && !(
                    #[trigger] ecs.entities@[e]).hidden ==> occupies_seen_cell(m0, vt@, e),
                forall|e: int|
                    0 <= e < n && old(ecs).entities@[e].hidden && !(
                    #[trigger] ecs.entities@[e]).hidden ==> (old(
                        ecs,
                    ).entities@[e].name matches Some(nm) ==> exists|t: int|
                        old(log).entries@.len() <= t < log.entries@.len() && logs_spotted(
                            #[trigger] log.entries@[t],
                            nm@,
                        )),
                log_extended(old(log).entries@, log.entries@),
            decreases vt_len - v,
        {
            let p = vt[v];
            let idx = map.xy_idx(p.x, p.y);
            map.revealed_tiles[idx] = true;
            map.visible_tiles[idx] = true;
            proof {
                lemma_index_bijection(p.x as int, p.y as int, idx as int);
                assert forall|q: int| 0 <= q < MAPCOUNT implies map.visible_tiles@[q] == sees(
                    vt@.take(v + 1),
                    q,
                ) by {
                    lemma_sees_take_succ(vt@, v as int, q);
                }
            }
            let ghost rv1 = map.revealed_tiles@;
            let ghost vb1 = map.visible_tiles@;
            let occupants = map.tile_content[idx].len();
            let mut o: usize = 0;
            while o < occupants
                invariant
                    o <= occupants,
                    idx < MAPCOUNT,
                    n == ecs.entities@.len(),
                    occupants == map.tile_content@[idx as int]@.len(),
                    map.tile_content@ == m0.tile_content@,
                    map.revealed_tiles@ == rv1,
                    map.visible_tiles@ == vb1,
                    forall|e: int|
                        0 <= e < n ==> hidden_only(
                            old(ecs).entities@[e],
                            #[trigger] ecs.entities@[e],
                        ),
                    forall|e: int|
                        0 <= e < n && old(ecs).entities@[e].hidden && !(
                        #[trigger] ecs.entities@[e]).hidden ==> occupies_seen_cell(m0, vt@, e),
                    forall|e: int|
                        0 <= e < n && old(ecs).entities@[e].hidden && !(
                        #[trigger] ecs.entities@[e]).hidden ==> (old(
                            ecs,
                        ).entities@[e].name matches Some(nm) ==> exists|t: int|
                            old(log).entries@.len() <= t < log.entries@.len() && logs_spotted(
                                #[trigger] log.entries@[t],
                                nm@,
                            )),
                    log_extended(old(log).entries@, log.entries@),
                decreases occupants - o,
            {
                let occupant = map.tile_content[idx][o];
                if ecs.entities[occupant].hidden {
                    if roll_dice(rng, 1, 30) == 1 {
                        let ghost w_pre = ecs.entities@;
                        let ghost log_pre = log.entries@;
                        let has_name = ecs.entities[occupant].name.is_some();
                        if let Some(nm) = &ecs.entities[occupant].name {
                            let name = nm.clone();
                            log.push(LogEntry::Spotted { name });
                        }
                        proof {
                            if has_name {
                                assert(logs_spotted(
                                    log.entries@[log_pre.len() as int],
                                    w_pre[occupant as int].name->Some_0@,
                                ));
                            }
                        }
                        let orec = &mut ecs.entities[occupant];
                        orec.hidden = false;
                        proof {
                            assert(vt@[v as int] == p);
                            assert(sees(vt@, idx as int));
                            assert(m0.tile_content@[idx as int]@[o as int] == occupant as int);
                            assert(occupies_seen_cell(m0, vt@, occupant as int));
                            assert forall|e: int|
                                0 <= e < n && old(ecs).entities@[e].hidden && !(
                                #[trigger] ecs.entities@[e]).hidden implies occupies_seen_cell(
                                m0,
                                vt@,
                                e,
                            ) by {
                                if e != occupant as int {
                                    assert(ecs.entities@[e] == w_pre[e]);
                                }
                            }
                            assert forall|e: int|
                                0 <= e < n && old(ecs).entities@[e].hidden && !(
                                #[trigger] ecs.entities@[e]).hidden implies (old(
                                ecs,
                            ).entities@[e].name matches Some(nm2) ==> exists|t: int|
                                old(log).entries@.len() <= t < log.entries@.len() && logs_spotted(
                                    #[trigger] log.entries@[t],
                                    nm2@,
                                )) by {
                                if old(ecs).entities@[e].name is Some {
                                    let nm2 = old(ecs).entities@[e].name->Some_0;
                                    if e == occupant as int {
                                        assert(w_pre[e].name == old(ecs).entities@[e].name);
                                        assert(has_name);
                                        assert(logs_spotted(
                                            log.entries@[log_pre.len() as int],
                                            nm2@,
                                        ));
                                    } else if !w_pre[e].hidden {
                                        let t0 = choose|t: int|
                                            old(log).entries@.len() <= t < log_pre.len()
                                                && logs_spotted(#[trigger] log_pre[t], nm2@);
                                        assert(log.entries@[t0] == log_pre[t0]);
                                        assert(logs_spotted(log.entries@[t0], nm2@));
                                    } else {
                                        assert(ecs.entities@[e] == w_pre[e]);
                                        assert(false);
                                    }
                                }
                            }
                        }
                    }
                }
                o = o + 1;
            }
            v = v + 1;
        }
        proof {
            assert(vt@.take(vt_len as int) =~= vt@);
            assert forall|q: int| 0 <= q < MAPCOUNT implies map.revealed_tiles@[q] == (old(
                map,
            ).revealed_tiles@[q] || sees(vt@, q)) by {
                assert(map.revealed_tiles@[q] == (rev_mid[q] || map.visible_tiles@[q]));
                assert(map.visible_tiles@[q] == sees(vt@.take(vt_len as int), q));
            }
        }
    }
}

} // verus!
