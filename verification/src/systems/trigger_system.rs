//! The trigger pass: every entity that moved this turn springs the entry
//! triggers on its destination tile. A sprung trigger is unhidden and
//! logged by name; one that inflicts damage queues it on the mover and
//! requests a particle flash; a sprung single-activation trigger is
//! deleted after the pass, and no other entity is. All moved markers are
//! cleared at the end.

use vstd::prelude::*;

use crate::components::{ParticleBuilder, ParticleRequest, Rgb};
use crate::gamelog::{log_extended, logs_triggers, GameLog, LogEntry};
use crate::map::{spec_idx, GameMap, MAPCOUNT};
use crate::world::{content_valid, is_cleared, positions_in_bounds, EntityRecord, World};

verus! {

/// The fields the pass never touches on a surviving record.
pub open spec fn trigger_frame(a: EntityRecord, b: EntityRecord) -> bool {
    &&& b.alive == a.alive
    &&& b.player == a.player
    &&& b.monster == a.monster
    &&& b.item == a.item
    &&& b.blocks_tile == a.blocks_tile
    &&& b.entry_trigger == a.entry_trigger
    &&& b.single_activation == a.single_activation
    &&& b.position == a.position
    &&& b.viewshed == a.viewshed
    &&& b.combat_stats == a.combat_stats
    &&& b.wants_to_melee == a.wants_to_melee
    &&& b.wants_to_pickup == a.wants_to_pickup
    &&& b.wants_to_use == a.wants_to_use
    &&& b.wants_to_drop == a.wants_to_drop
    &&& b.wants_to_remove == a.wants_to_remove
    &&& b.ranged == a.ranged
    &&& b.in_backpack == a.in_backpack
    &&& b.equipped == a.equipped
    &&& b.inflicts_damage == a.inflicts_damage
    &&& b.hunger_clock == a.hunger_clock
    &&& b.renderable == a.renderable
    &&& b.name == a.name
}

/// How the pass may change one record while it runs: hidden flags only
/// drop, damage queues only grow, nothing else moves.
pub open spec fn trigger_touched(a: EntityRecord, b: EntityRecord) -> bool {
    &&& (b.hidden ==> a.hidden)
    &&& b.suffer_damage@.len() >= a.suffer_damage@.len()
    &&& b.suffer_damage@.take(a.suffer_damage@.len() as int) == a.suffer_damage@
    &&& b.entity_moved == a.entity_moved
    &&& trigger_frame(a, b)
}

/// What the pass leaves of one surviving record: as it was found, up to a
/// dropped hidden flag, queued damage, and the cleared moved marker.
pub open spec fn trigger_survived(a: EntityRecord, b: EntityRecord) -> bool {
    &&& !b.entity_moved
    &&& (b.hidden ==> a.hidden)
    &&& b.suffer_damage@.len() >= a.suffer_damage@.len()
    &&& b.suffer_damage@.take(a.suffer_damage@.len() as int) == a.suffer_damage@
    &&& trigger_frame(a, b)
}

/// Whether entity `m` moved this turn and stands somewhere, ready to
/// spring what shares its tile.
pub open spec fn is_mover(w: Seq<EntityRecord>, m: int) -> bool {
    &&& 0 <= m < w.len()
    &&& w[m].entity_moved
    &&& w[m].alive
    &&& w[m].position is Some
}

/// The occupant list of the tile mover `m` stands on.
pub open spec fn mover_tile_content(map: GameMap, w: Seq<EntityRecord>, m: int) -> Seq<usize> {
    map.tile_content@[spec_idx(
        w[m].position->Some_0.x as int,
        w[m].position->Some_0.y as int,
    )]@
}

/// Whether entry trigger `t` was sprung by one of the first `e` entity
/// slots: a mover among them, other than `t`, stands on its tile.
pub open spec fn sprung_upto(map: GameMap, w: Seq<EntityRecord>, t: int, e: int) -> bool {
    exists|m: int|
        m < e && is_mover(w, m) && m != t && (#[trigger] mover_tile_content(map, w, m)).contains(
            t as usize,
        ) && w[t].entry_trigger
}

/// Whether entry trigger `t` was sprung this pass: some other mover stands
/// on its tile. A mover never triggers itself.
pub open spec fn sprung(map: GameMap, w: Seq<EntityRecord>, t: int) -> bool {
    sprung_upto(map, w, t, w.len() as int)
}

/// The damage mover `m` takes from the first `k` occupants of its tile:
/// each other entry-trigger occupant that inflicts damage contributes its
/// amount, in occupant order.
pub open spec fn sprung_damages(w: Seq<EntityRecord>, occ: Seq<usize>, m: int, k: int) -> Seq<i32>
    decreases k,
{
    if k <= 0 {
        Seq::empty()
    } else {
        let rest = sprung_damages(w, occ, m, k - 1);
        let t = occ[k - 1] as int;
        if t != m && w[t].entry_trigger && w[t].inflicts_damage is Some {
            rest.push(w[t].inflicts_damage->Some_0)
        } else {
            rest
        }
    }
}

/// All the damage mover `m` takes from its tile this pass.
pub open spec fn full_damages(map: GameMap, w: Seq<EntityRecord>, m: int) -> Seq<i32> {
    sprung_damages(w, mover_tile_content(map, w, m), m, mover_tile_content(map, w, m).len() as int)
}

/// Whether trigger `t` was sprung by a mover before slot `e`, or by mover
/// `e` itself through the first `k` occupants of its tile.
pub open spec fn sprung_partial(
    map: GameMap,
    w0: Seq<EntityRecord>,
    t: int,
    e: int,
    k: int,
) -> bool {
    ||| sprung_upto(map, w0, t, e)
    ||| (mover_tile_content(map, w0, e).take(k).contains(t as usize) && t != e && 0 <= t
        < w0.len() && w0[t].entry_trigger)
}

/// Once mover `e`'s whole tile was walked, the partial notion is exactly
/// "sprung by the first e+1 slots".
proof fn lemma_sprung_partial_full(map: GameMap, w0: Seq<EntityRecord>, t: int, e: int)
    requires
        is_mover(w0, e),
        0 <= t < w0.len(),
    ensures
        sprung_partial(map, w0, t, e, mover_tile_content(map, w0, e).len() as int) == sprung_upto(
            map,
            w0,
            t,
            e + 1,
        ),
{
    let occ = mover_tile_content(map, w0, e);
    assert(occ.take(occ.len() as int) =~= occ);
    if sprung_partial(map, w0, t, e, occ.len() as int) {
        if !sprung_upto(map, w0, t, e) {
            assert(occ.contains(t as usize));
            assert(is_mover(w0, e) && e != t && mover_tile_content(map, w0, e).contains(t as usize)
                && w0[t].entry_trigger);
        }
    }
    if sprung_upto(map, w0, t, e + 1) && !sprung_upto(map, w0, t, e) {
        let m = choose|m: int|
            m < e + 1 && is_mover(w0, m) && m != t && (#[trigger] mover_tile_content(
                map,
                w0,
                m,
            )).contains(t as usize) && w0[t].entry_trigger;
        assert(m == e);
    }
}

/// The particle a damaging trigger flashes at the mover's tile.
pub open spec fn trigger_particle(px: i32, py: i32) -> ParticleRequest {
    ParticleRequest {
        x: px,
        y: py,
        fg: Rgb { r: 255, g: 165, b: 0 },
        bg: Rgb { r: 0, g: 0, b: 0 },
        glyph: 19,
        lifetime_ms: 200,
    }
}

/// The pass's bookkeeping after the first `e` entity slots were offered
/// their turn as movers: records changed only as the pass may change them;
/// processed movers carry exactly their tile's sprung damage; triggers
/// sprung so far are unhidden, logged by name, and queued for removal when
/// single-activation; a particle was requested for every processed mover
/// that took damage.
pub open spec fn spring_inv(
    map: GameMap,
    w0: Seq<EntityRecord>,
    w: Seq<EntityRecord>,
    logs_base: Seq<LogEntry>,
    logs: Seq<LogEntry>,
    parts_base: Seq<ParticleRequest>,
    parts: Seq<ParticleRequest>,
    remove: Seq<usize>,
    e: int,
) -> bool {
    &&& w.len() == w0.len()
    &&& (forall|t: int| 0 <= t < w.len() ==> trigger_touched(w0[t], #[trigger] w[t]))
    &&& (forall|m: int|
        0 <= m < w.len() && is_mover(w0, m) && m >= e ==> (#[trigger] w[m]).suffer_damage@ == w0[
            m].suffer_damage@)
    &&& (forall|m: int|
        0 <= m < w.len() && is_mover(w0, m) && m < e ==> (#[trigger] w[m]).suffer_damage@ == w0[
            m].suffer_damage@ + full_damages(map, w0, m))
    &&& (forall|t: int| 0 <= t < w.len() && #[trigger] sprung_upto(map, w0, t, e) ==> !w[t].hidden)
    &&& (forall|t: int|
        0 <= t < w.len() && #[trigger] sprung_upto(map, w0, t, e) && w0[t].name is Some
            ==> exists|j: int|
            logs_base.len() <= j < logs.len() && logs_triggers(logs[j], w0[t].name->Some_0@))
    &&& (forall|m: int|
        0 <= m < e && is_mover(w0, m) && (#[trigger] full_damages(map, w0, m)).len() > 0
            ==> exists|j: int|
            parts_base.len() <= j < parts.len() && parts[j] == trigger_particle(
                w0[m].position->Some_0.x,
                w0[m].position->Some_0.y,
            ))
    &&& (forall|r: int|
        0 <= r < remove.len() ==> {
            let t = #[trigger] remove[r];
            &&& t < w.len()
            &&& sprung_upto(map, w0, t as int, e)
            &&& w0[t as int].entry_trigger
            &&& w0[t as int].single_activation
        })
    &&& (forall|t: int|
        0 <= t < w.len() && #[trigger] sprung_upto(map, w0, t, e) && w0[t].single_activation
            ==> remove.contains(t as usize))
    &&& (forall|t: int|
        0 <= t < w.len() && !sprung_upto(map, w0, t, e) ==> (#[trigger] w[t]).hidden == w0[
            t].hidden)
    &&& (forall|t: int|
        0 <= t < w.len() && !is_mover(w0, t) ==> (#[trigger] w[t]).suffer_damage@ == w0[
            t].suffer_damage@)
    &&& log_extended(logs_base, logs)
    &&& parts.len() >= parts_base.len()
}

/// The bookkeeping while mover `e` walks its tile: like [`spring_inv`],
/// but with the first `k` occupants of the tile already sprung.
pub open spec fn tile_inv(
    map: GameMap,
    w0: Seq<EntityRecord>,
    w: Seq<EntityRecord>,
    logs_base: Seq<LogEntry>,
    logs: Seq<LogEntry>,
    parts_base: Seq<ParticleRequest>,
    parts: Seq<ParticleRequest>,
    remove: Seq<usize>,
    e: int,
    k: int,
) -> bool {
    let occ = mover_tile_content(map, w0, e);
    &&& w.len() == w0.len()
    &&& (forall|t: int| 0 <= t < w.len() ==> trigger_touched(w0[t], #[trigger] w[t]))
    &&& (forall|m: int|
        0 <= m < w.len() && is_mover(w0, m) && m > e ==> (#[trigger] w[m]).suffer_damage@ == w0[
            m].suffer_damage@)
    &&& (forall|m: int|
        0 <= m < w.len() && is_mover(w0, m) && m < e ==> (#[trigger] w[m]).suffer_damage@ == w0[
            m].suffer_damage@ + full_damages(map, w0, m))
    &&& w[e].suffer_damage@ == w0[e].suffer_damage@ + sprung_damages(w0, occ, e, k)
    &&& (forall|t: int|
        0 <= t < w.len() && #[trigger] sprung_partial(map, w0, t, e, k) ==> !w[t].hidden)
    &&& (forall|t: int|
        0 <= t < w.len() && #[trigger] sprung_partial(map, w0, t, e, k) && w0[t].name is Some
            ==> exists|j: int|
            logs_base.len() <= j < logs.len() && logs_triggers(logs[j], w0[t].name->Some_0@))
    &&& (forall|t: int|
        0 <= t < w.len() && #[trigger] sprung_partial(map, w0, t, e, k) && w0[t].single_activation
            ==> remove.contains(t as usize))
    &&& (forall|r: int|
        0 <= r < remove.len() ==> {
            let t = #[trigger] remove[r];
            &&& t < w.len()
            &&& sprung_partial(map, w0, t as int, e, k)
            &&& w0[t as int].entry_trigger
            &&& w0[t as int].single_activation
        })
    &&& (forall|m: int|
        0 <= m < e && is_mover(w0, m) && (#[trigger] full_damages(map, w0, m)).len() > 0
            ==> exists|j: int|
            parts_base.len() <= j < parts.len() && parts[j] == trigger_particle(
                w0[m].position->Some_0.x,
                w0[m].position->Some_0.y,
            ))
    &&& (sprung_damages(w0, occ, e, k).len() > 0 ==> exists|j: int|
        parts_base.len() <= j < parts.len() && parts[j] == trigger_particle(
            w0[e].position->Some_0.x,
            w0[e].position->Some_0.y,
        ))
    &&& (forall|t: int|
        0 <= t < w.len() && !sprung_partial(map, w0, t, e, k) ==> (#[trigger] w[t]).hidden == w0[
            t].hidden)
    &&& (forall|t: int|
        0 <= t < w.len() && !is_mover(w0, t) ==> (#[trigger] w[t]).suffer_damage@ == w0[
            t].suffer_damage@)
    &&& log_extended(logs_base, logs)
    &&& parts.len() >= parts_base.len()
}

/// An entity slot that is no mover springs nothing.
proof fn lemma_sprung_upto_skip(map: GameMap, w0: Seq<EntityRecord>, t: int, e: int)
    requires
        !is_mover(w0, e),
    ensures
        sprung_upto(map, w0, t, e + 1) == sprung_upto(map, w0, t, e),
{
    if sprung_upto(map, w0, t, e + 1) {
        let m = choose|m: int|
            m < e + 1 && is_mover(w0, m) && m != t && (#[trigger] mover_tile_content(
                map,
                w0,
                m,
            )).contains(t as usize) && w0[t].entry_trigger;
        assert(m != e);
        assert(m < e && is_mover(w0, m) && m != t && mover_tile_content(map, w0, m).contains(
            t as usize,
        ) && w0[t].entry_trigger);
    }
}

pub struct TriggerSystem {}

impl TriggerSystem {
    /// Offer mover `e` its turn: walk the occupants of its tile and spring
    /// every other entry trigger there.
    #[verifier::loop_isolation(false)]
    #[verifier::rlimit(60)]
    #[verifier::spinoff_prover]
    fn spring_tile(
        map: &GameMap,
        ecs: &mut World,
        log: &mut GameLog,
        particles: &mut ParticleBuilder,
        e: usize,
        remove_entities: &mut Vec<usize>,
        w0: Ghost<Seq<EntityRecord>>,
        logs_base: Ghost<Seq<LogEntry>>,
        parts_base: Ghost<Seq<ParticleRequest>>,
    )
        requires
            map.wf(),
            content_valid(*map, w0@),
            positions_in_bounds(w0@),
            w0@.len() <= usize::MAX,
            is_mover(w0@, e as int),
            e < w0@.len(),
            spring_inv(
                *map,
                w0@,
                old(ecs).entities@,
                logs_base@,
                old(log).entries@,
                parts_base@,
                old(particles).requests@,
                old(remove_entities)@,
                e as int,
            ),
        ensures
            spring_inv(
                *map,
                w0@,
                final(ecs).entities@,
                logs_base@,
                final(log).entries@,
                parts_base@,
                final(particles).requests@,
                final(remove_entities)@,
                e + 1,
            ),
    {
        let pos = match ecs.entities[e].position {
            Some(p) => p,
            None => {
                proof {
                    assert(trigger_touched(w0@[e as int], ecs.entities@[e as int]));
                    assert(false);
                }
                return ;
            },
        };
        proof {
            assert(trigger_touched(w0@[e as int], ecs.entities@[e as int]));
            assert(w0@[e as int].position == Some(pos));
        }
        let idx = map.xy_idx(pos.x, pos.y);
        let ghost occ = map.tile_content@[idx as int]@;
        proof {
            assert(mover_tile_content(*map, w0@, e as int) == occ);
            assert(occ.take(0) =~= Seq::<usize>::empty());
            assert forall|t: int|
                0 <= t < w0@.len() implies (#[trigger] sprung_partial(*map, w0@, t, e as int, 0))
                == sprung_upto(*map, w0@, t, e as int) by {}
            assert(tile_inv(
                *map,
                w0@,
                ecs.entities@,
                logs_base@,
                log.entries@,
                parts_base@,
                particles.requests@,
                remove_entities@,
                e as int,
                0,
            ));
        }
        let occupants = map.tile_content[idx].len();
        let mut k: usize = 0;
        while k < occupants
            invariant
                k <= occupants,
                e < w0@.len(),
                occupants == occ.len(),
                occ == map.tile_content@[idx as int]@,
                occ == mover_tile_content(*map, w0@, e as int),
                idx < map.tile_content@.len(),
                w0@[e as int].position == Some(pos),
                tile_inv(
                    *map,
                    w0@,
                    ecs.entities@,
                    logs_base@,
                    log.entries@,
                    parts_base@,
                    particles.requests@,
                    remove_entities@,
                    e as int,
                    k as int,
                ),
            decreases occupants - k,
        {
            let other = map.tile_content[idx][k];
            Self::spring_one(
                map,
                ecs,
                log,
                particles,
                e,
                remove_entities,
                other,
                pos,
                Ghost(w0@),
                Ghost(logs_base@),
                Ghost(parts_base@),
                Ghost(k as int),
            );
            k = k + 1;
        }
        proof {
            assert forall|t: int| 0 <= t < w0@.len() implies (#[trigger] sprung_upto(
                *map,
                w0@,
                t,
                e + 1,
            )) == sprung_partial(*map, w0@, t, e as int, occ.len() as int) by {
                lemma_sprung_partial_full(*map, w0@, t, e as int);
            }
            assert forall|t: int| 0 <= t < w0@.len() implies (#[trigger] sprung_partial(
                *map,
                w0@,
                t,
                e as int,
                occ.len() as int,
            )) == sprung_upto(*map, w0@, t, e + 1) by {
                lemma_sprung_partial_full(*map, w0@, t, e as int);
            }
            assert(ecs.entities@[e as int].suffer_damage@ == w0@[e as int].suffer_damage@
                + full_damages(*map, w0@, e as int));
            assert forall|m: int|
                0 <= m < w0@.len() && is_mover(w0@, m) && m < e + 1 implies (
            #[trigger] ecs.entities@[m]).suffer_damage@ == w0@[m].suffer_damage@ + full_damages(
                *map,
                w0@,
                m,
            ) by {}
        }
    }

    /// Spring (or pass over) one occupant of the mover's tile.
    #[verifier::loop_isolation(false)]
    #[verifier::rlimit(100)]
    #[verifier::spinoff_prover]
    fn spring_one(
        map: &GameMap,
        ecs: &mut World,
        log: &mut GameLog,
        particles: &mut ParticleBuilder,
        e: usize,
        remove_entities: &mut Vec<usize>,
        other: usize,
        pos: crate::components::Position,
        w0: Ghost<Seq<EntityRecord>>,
        logs_base: Ghost<Seq<LogEntry>>,
        parts_base: Ghost<Seq<ParticleRequest>>,
        k: Ghost<int>,
    )
        requires
            map.wf(),
            content_valid(*map, w0@),
            positions_in_bounds(w0@),
            w0@.len() <= usize::MAX,
            is_mover(w0@, e as int),
            e < w0@.len(),
            w0@[e as int].position == Some(pos),
            0 <= k@ < mover_tile_content(*map, w0@, e as int).len(),
            mover_tile_content(*map, w0@, e as int)[k@] == other,
            tile_inv(
                *map,
                w0@,
                old(ecs).entities@,
                logs_base@,
                old(log).entries@,
                parts_base@,
                old(particles).requests@,
                old(remove_entities)@,
                e as int,
                k@,
            ),
        ensures
            tile_inv(
                *map,
                w0@,
                final(ecs).entities@,
                logs_base@,
                final(log).entries@,
                parts_base@,
                final(particles).requests@,
                final(remove_entities)@,
                e as int,
                k@ + 1,
            ),
    {
        let ghost occ = mover_tile_content(*map, w0@, e as int);
        let ghost eidx = spec_idx(pos.x as int, pos.y as int);
        let ghost logs_in = log.entries@;
        let ghost parts_in = particles.requests@;
        proof {
            crate::map::lemma_index_bijection(pos.x as int, pos.y as int, 0);
            assert(occ == map.tile_content@[eidx]@);
            assert(other < w0@.len()) by {
                assert(map.tile_content@[eidx]@[k@] == other);
            }
            assert(occ.take(k@ + 1) =~= occ.take(k@).push(other));
            assert(occ[k@ + 1 - 1] == other);
            if other as int != e as int && w0@[other as int].entry_trigger && w0@[
                other as int].inflicts_damage is Some {
                assert(sprung_damages(w0@, occ, e as int, k@ + 1) == sprung_damages(
                    w0@,
                    occ,
                    e as int,
                    k@,
                ).push(w0@[other as int].inflicts_damage->Some_0));
            } else {
                assert(sprung_damages(w0@, occ, e as int, k@ + 1) == sprung_damages(
                    w0@,
                    occ,
                    e as int,
                    k@,
                ));
            }
            assert forall|t: int|
                0 <= t < w0@.len() && #[trigger] sprung_partial(*map, w0@, t, e as int, k@ + 1)
                    && !sprung_partial(*map, w0@, t, e as int, k@) implies t == other as int && t
                != e as int && w0@[t].entry_trigger by {
                let u = choose|u: int|
                    0 <= u < occ.take(k@ + 1).len() && (#[trigger] occ.take(k@ + 1)[u])
                        == t as usize;
                if u < k@ {
                    assert(occ.take(k@)[u] == t as usize);
                } else {
                    assert(occ.take(k@ + 1)[u] == other);
                }
            }
        }
        if other != e {
            proof {
                assert(trigger_touched(w0@[other as int], ecs.entities@[other as int]));
            }
            if ecs.entities[other].entry_trigger {
                if let Some(nm) = &ecs.entities[other].name {
                    let name = nm.clone();
                    log.push(LogEntry::Triggers { name });
                    proof {
                        assert(logs_triggers(
                            log.entries@[logs_in.len() as int],
                            w0@[other as int].name->Some_0@,
                        ));
                    }
                }

                let other_rec = &mut ecs.entities[other];
                other_rec.hidden = false;

                if let Some(damage) = ecs.entities[other].inflicts_damage {
                    particles.request(
                        pos.x,
                        pos.y,
                        Rgb { r: 255, g: 165, b: 0 },
                        Rgb { r: 0, g: 0, b: 0 },
                        19,
                        200,
                    );
                    proof {
                        assert(particles.requests@[parts_in.len() as int] == trigger_particle(
                            pos.x,
                            pos.y,
                        ));
                    }
                    let mover = &mut ecs.entities[e];
                    mover.suffer_damage.push(damage);
                    proof {
                        assert(ecs.entities@[e as int].suffer_damage@.take(
                            w0@[e as int].suffer_damage@.len() as int,
                        ) =~= w0@[e as int].suffer_damage@);
                        assert(ecs.entities@[e as int].suffer_damage@ =~= w0@[
                        e as int].suffer_damage@ + sprung_damages(w0@, occ, e as int, k@ + 1));
                    }
                }

                if ecs.entities[other].single_activation {
                    let ghost pre_r = remove_entities@;
                    remove_entities.push(other);
                    proof {
                        assert forall|t: int|
                            0 <= t < w0@.len() && #[trigger] sprung_partial(
                                *map,
                                w0@,
                                t,
                                e as int,
                                k@ + 1,
                            ) && w0@[t].single_activation implies remove_entities@.contains(
                            t as usize,
                        ) by {
                            if sprung_partial(*map, w0@, t, e as int, k@) {
                                let j = choose|j: int|
                                    0 <= j < pre_r.len() && pre_r[j] == t as usize;
                                if 0 <= j < pre_r.len() && pre_r[j] == t as usize {
                                    assert(remove_entities@[j] == t as usize);
                                }
                            } else {
                                assert(remove_entities@[remove_entities@.len() - 1] == other);
                            }
                        }
                        assert(sprung_partial(*map, w0@, other as int, e as int, k@ + 1)) by {
                            assert(occ.take(k@ + 1)[k@] == other);
                            assert(occ.take(k@ + 1).contains(other));
                        }
                    }
                } else {
                    proof {
                        assert forall|t: int|
                            0 <= t < w0@.len() && #[trigger] sprung_partial(
                                *map,
                                w0@,
                                t,
                                e as int,
                                k@ + 1,
                            ) && w0@[t].single_activation implies remove_entities@.contains(
                            t as usize,
                        ) by {
                            assert(sprung_partial(*map, w0@, t, e as int, k@));
                        }
                    }
                }
            } else {
                proof {
                    assert forall|t: int|
                        0 <= t < w0@.len() && #[trigger] sprung_partial(
                            *map,
                            w0@,
                            t,
                            e as int,
                            k@ + 1,
                        ) implies sprung_partial(*map, w0@, t, e as int, k@) by {}
                }
            }
        } else {
            proof {
                assert forall|t: int|
                    0 <= t < w0@.len() && #[trigger] sprung_partial(
                        *map,
                        w0@,
                        t,
                        e as int,
                        k@ + 1,
                    ) implies sprung_partial(*map, w0@, t, e as int, k@) by {}
            }
        }
        proof {
            assert(log_extended(logs_in, log.entries@));
            assert(parts_in.len() <= particles.requests@.len() && (forall|j: int|
                0 <= j < parts_in.len() ==> particles.requests@[j] == parts_in[j]));
            assert forall|t: int|
                0 <= t < w0@.len() && #[trigger] sprung_partial(*map, w0@, t, e as int, k@ + 1)
                    && w0@[t].name is Some implies exists|j: int|
                logs_base@.len() <= j < log.entries@.len() && logs_triggers(
                    log.entries@[j],
                    w0@[t].name->Some_0@,
                ) by {
                if sprung_partial(*map, w0@, t, e as int, k@) {
                    let j0 = choose|j: int|
                        logs_base@.len() <= j < logs_in.len() && logs_triggers(
                            logs_in[j],
                            w0@[t].name->Some_0@,
                        );
                    assert(log.entries@[j0] == logs_in[j0]);
                }
            }
            assert forall|m: int|
                0 <= m < e && is_mover(w0@, m) && (#[trigger] full_damages(*map, w0@, m)).len()
                    > 0 implies exists|j: int|
                parts_base@.len() <= j < particles.requests@.len() && particles.requests@[j]
                    == trigger_particle(
                    w0@[m].position->Some_0.x,
                    w0@[m].position->Some_0.y,
                ) by {
                let j0 = choose|j: int|
                    parts_base@.len() <= j < parts_in.len() && parts_in[j] == trigger_particle(
                        w0@[m].position->Some_0.x,
                        w0@[m].position->Some_0.y,
                    );
                assert(particles.requests@[j0] == parts_in[j0]);
            }
            assert(sprung_damages(w0@, occ, e as int, k@ + 1).len() > 0 ==> exists|j: int|
                parts_base@.len() <= j < particles.requests@.len() && particles.requests@[j]
                    == trigger_particle(pos.x, pos.y)) by {
                if sprung_damages(w0@, occ, e as int, k@).len() > 0 {
                    let j0 = choose|j: int|
                        parts_base@.len() <= j < parts_in.len() && parts_in[j] == trigger_particle(
                            pos.x,
                            pos.y,
                        );
                    assert(particles.requests@[j0] == parts_in[j0]);
                }
            }
            assert forall|t: int|
                0 <= t < w0@.len() && !sprung_partial(
                    *map,
                    w0@,
                    t,
                    e as int,
                    k@ + 1,
                ) implies (#[trigger] ecs.entities@[t]).hidden == w0@[t].hidden by {
                assert(!sprung_partial(*map, w0@, t, e as int, k@)) by {
                    if sprung_partial(*map, w0@, t, e as int, k@) {
                        if !sprung_upto(*map, w0@, t, e as int) {
                            let u = choose|u: int|
                                0 <= u < occ.take(k@).len() && (#[trigger] occ.take(k@)[u])
                                    == t as usize;
                            assert(occ.take(k@ + 1)[u] == t as usize);
                            assert(occ.take(k@ + 1).contains(t as usize));
                        }
                        assert(sprung_partial(*map, w0@, t, e as int, k@ + 1));
                    }
                }
                assert(old(ecs).entities@[t].hidden == w0@[t].hidden);
                if t == other as int && ecs.entities@[t].hidden != old(ecs).entities@[t].hidden {
                    assert(occ.take(k@ + 1)[k@] == other);
                    assert(occ.take(k@ + 1).contains(other));
                    assert(sprung_partial(*map, w0@, t, e as int, k@ + 1));
                }
            }
            assert forall|t: int|
                0 <= t < w0@.len() && !is_mover(w0@, t) implies (
            #[trigger] ecs.entities@[t]).suffer_damage@ == w0@[t].suffer_damage@ by {
                assert(t != e as int);
                assert(old(ecs).entities@[t].suffer_damage@ == w0@[t].suffer_damage@);
            }
        }
    }

    /// Spring the entry triggers under every entity that moved this turn:
    /// each sprung trigger is unhidden and logged by name; its damage, if
    /// any, is queued on the mover in occupant order with a particle
    /// requested at the mover's tile; a sprung single-activation trigger —
    /// and nothing else — is deleted. All moved markers are cleared at the
    /// end; when nothing moved, the world comes out exactly as it went in.
    #[verifier::loop_isolation(false)]
    #[verifier::rlimit(100)]
    #[verifier::spinoff_prover]
    pub fn run(map: &GameMap, ecs: &mut World, log: &mut GameLog, particles: &mut ParticleBuilder)
        requires
            map.wf(),
            content_valid(*map, old(ecs).entities@),
            positions_in_bounds(old(ecs).entities@),
            forall|e: int|
                0 <= e < old(ecs).entities@.len() ==> !((#[trigger] old(ecs).entities@[e]).entity_moved && old(ecs).entities@[e].entry_trigger),
        ensures
            final(ecs).entities@.len() == old(ecs).entities@.len(),
            forall|e: int|
                0 <= e < old(ecs).entities@.len() ==> trigger_survived(
                    old(ecs).entities@[e],
                    #[trigger] final(ecs).entities@[e],
                ) || (is_cleared(final(ecs).entities@[e]) && sprung(*map, old(ecs).entities@, e)
                    && old(ecs).entities@[e].single_activation),
            forall|e: int|
                0 <= e < old(ecs).entities@.len() ==> !(#[trigger] final(ecs).entities@[e]).entity_moved,
            forall|m: int|
                0 <= m < old(ecs).entities@.len() && is_mover(old(ecs).entities@, m)
                    ==> (#[trigger] final(ecs).entities@[m]).suffer_damage@ == old(ecs).entities@[m].suffer_damage@ + full_damages(*map, old(ecs).entities@, m),
            forall|t: int|
                0 <= t < old(ecs).entities@.len() && #[trigger] sprung(*map, old(ecs).entities@, t)
                    ==> !final(ecs).entities@[t].hidden && (old(ecs).entities@[t].single_activation
                    ==> is_cleared(final(ecs).entities@[t])),
            forall|t: int|
                0 <= t < old(ecs).entities@.len() && #[trigger] sprung(*map, old(ecs).entities@, t)
                    && old(ecs).entities@[t].name is Some ==> exists|j: int|
                    old(log).entries@.len() <= j < final(log).entries@.len() && logs_triggers(
                        final(log).entries@[j],
                        old(ecs).entities@[t].name->Some_0@,
                    ),
            forall|m: int|
                0 <= m < old(ecs).entities@.len() && is_mover(old(ecs).entities@, m)
                    && (#[trigger] full_damages(*map, old(ecs).entities@, m)).len() > 0
                    ==> exists|j: int|
                    old(particles).requests@.len() <= j < final(particles).requests@.len() && final(particles).requests@[j] == trigger_particle(
                        old(ecs).entities@[m].position->Some_0.x,
                        old(ecs).entities@[m].position->Some_0.y,
                    ),
            forall|t: int|
                0 <= t < old(ecs).entities@.len() && !sprung(*map, old(ecs).entities@, t) ==> (
                #[trigger] final(ecs).entities@[t]).hidden == old(ecs).entities@[t].hidden,
            forall|t: int|
                0 <= t < old(ecs).entities@.len() && !is_mover(old(ecs).entities@, t) ==> (
                #[trigger] final(ecs).entities@[t]).suffer_damage@ == old(
                    ecs,
                ).entities@[t].suffer_damage@ || is_cleared(final(ecs).entities@[t]),
            log_extended(old(log).entries@, final(log).entries@),
            final(particles).requests@.len() >= old(particles).requests@.len(),
            (forall|e: int|
                0 <= e < old(ecs).entities@.len() ==> !(#[trigger] old(ecs).entities@[e]).entity_moved) ==> final(ecs).entities@ == old(ecs).entities@
                && final(log).entries@ == old(log).entries@ && final(particles).requests@ == old(particles).requests@,
    {
        let ghost w0 = old(ecs).entities@;
        let ghost no_movers = forall|e: int|
            0 <= e < w0.len() ==> !(#[trigger] w0[e]).entity_moved;
        let ghost logs_base = log.entries@;
        let ghost parts_base = particles.requests@;
        let n = ecs.entities.len();
        proof {
            assert forall|t: int| 0 <= t < n implies trigger_touched(
                w0[t],
                #[trigger] ecs.entities@[t],
            ) by {
                assert(w0[t].suffer_damage@.take(w0[t].suffer_damage@.len() as int) =~= w0[
                    t].suffer_damage@);
            }
        }
        let mut remove_entities: Vec<usize> = Vec::new();
        let mut e: usize = 0;
        while e < n
            invariant
                e <= n,
                n == w0.len(),
                spring_inv(
                    *map,
                    w0,
                    ecs.entities@,
                    logs_base,
                    log.entries@,
                    parts_base,
                    particles.requests@,
                    remove_entities@,
                    e as int,
                ),
                no_movers ==> ecs.entities@ == w0 && log.entries@ == logs_base
                    && particles.requests@ == parts_base && remove_entities@.len() == 0,
            decreases n - e,
        {
            let moved = ecs.entities[e].entity_moved;
            let rec_alive = ecs.entities[e].alive;
            let has_pos = ecs.entities[e].position.is_some();
            proof {
                assert(trigger_touched(w0[e as int], ecs.entities@[e as int]));
            }
            if moved && rec_alive && has_pos {
                proof {
                    assert(is_mover(w0, e as int));
                    assert(!no_movers);
                }
                Self::spring_tile(
                    map,
                    ecs,
                    log,
                    particles,
                    e,
                    &mut remove_entities,
                    Ghost(w0),
                    Ghost(logs_base),
                    Ghost(parts_base),
                );
            } else {
                proof {
                    assert(!is_mover(w0, e as int));
                    assert forall|t: int| 0 <= t < n implies (#[trigger] sprung_upto(
                        *map,
                        w0,
                        t,
                        e + 1,
                    )) == sprung_upto(*map, w0, t, e as int) by {
                        lemma_sprung_upto_skip(*map, w0, t, e as int);
                    }
                }
            }
            e = e + 1;
        }

        let mut r: usize = 0;
        while r < remove_entities.len()
            invariant
                r <= remove_entities@.len(),
                n == ecs.entities@.len(),
                n == w0.len(),
                forall|t: int|
                    0 <= t < n ==> trigger_touched(w0[t], #[trigger] ecs.entities@[t]) || (
                    is_cleared(ecs.entities@[t]) && sprung(*map, w0, t) && w0[t].entry_trigger
                        && w0[t].single_activation),
                forall|k: int|
                    0 <= k < r ==> is_cleared(
                        #[trigger] ecs.entities@[remove_entities@[k] as int],
                    ),
                forall|m: int|
                    0 <= m < n && is_mover(w0, m) ==> (
                    #[trigger] ecs.entities@[m]).suffer_damage@ == w0[m].suffer_damage@
                        + full_damages(*map, w0, m),
                forall|t: int|
                    0 <= t < n && #[trigger] sprung(*map, w0, t) ==> !ecs.entities@[t].hidden,
                forall|t: int|
                    0 <= t < remove_entities@.len() ==> {
                        let u = #[trigger] remove_entities@[t];
                        &&& u < n
                        &&& sprung(*map, w0, u as int)
                        &&& w0[u as int].entry_trigger
                        &&& w0[u as int].single_activation
                    },
                forall|t: int|
                    0 <= t < n && #[trigger] sprung(*map, w0, t) && w0[t].single_activation
                        ==> remove_entities@.contains(t as usize),
                forall|t: int|
                    0 <= t < n && !sprung(*map, w0, t) ==> (
                    #[trigger] ecs.entities@[t]).hidden == w0[t].hidden,
                forall|t: int|
                    0 <= t < n && !is_mover(w0, t) ==> (
                    #[trigger] ecs.entities@[t]).suffer_damage@ == w0[t].suffer_damage@
                        || is_cleared(ecs.entities@[t]),
                no_movers ==> ecs.entities@ == w0 && remove_entities@.len() == 0,
            decreases remove_entities@.len() - r,
        {
            let trap = remove_entities[r];
            proof {
                assert(!is_mover(w0, trap as int)) by {
                    assert(!(w0[trap as int].entity_moved && w0[trap as int].entry_trigger));
                }
            }
            ecs.delete_entity(trap);
            proof {
                assert forall|t: int| 0 <= t < n implies trigger_touched(
                    w0[t],
                    #[trigger] ecs.entities@[t],
                ) || (is_cleared(ecs.entities@[t]) && sprung(*map, w0, t) && w0[t].entry_trigger
                    && w0[t].single_activation) by {
                    if t == trap as int {
                        assert(sprung(*map, w0, t) && w0[t].entry_trigger
                            && w0[t].single_activation);
                    }
                }
                assert forall|m: int|
                    0 <= m < n && is_mover(w0, m) implies (
                #[trigger] ecs.entities@[m]).suffer_damage@ == w0[m].suffer_damage@ + full_damages(
                    *map,
                    w0,
                    m,
                ) by {
                    assert(m != trap as int);
                }
            }
            r = r + 1;
        }
        proof {
            assert forall|t: int|
                0 <= t < n && #[trigger] sprung(*map, w0, t) && w0[
                    t].single_activation implies is_cleared(ecs.entities@[t]) by {
                assert(remove_entities@.contains(t as usize));
                let k = choose|k: int|
                    0 <= k < remove_entities@.len() && remove_entities@[k] == t as usize;
                assert(is_cleared(ecs.entities@[remove_entities@[k] as int]));
            }
        }

        let mut e2: usize = 0;
        while e2 < n
            invariant
                e2 <= n,
                n == ecs.entities@.len(),
                n == w0.len(),
                forall|t: int|
                    e2 <= t < n ==> trigger_touched(w0[t], #[trigger] ecs.entities@[t]) || (
                    is_cleared(ecs.entities@[t]) && sprung(*map, w0, t) && w0[t].entry_trigger
                        && w0[t].single_activation),
                forall|t: int|
                    0 <= t < e2 ==> trigger_survived(w0[t], #[trigger] ecs.entities@[t]) || (
                    is_cleared(ecs.entities@[t]) && sprung(*map, w0, t) && w0[t].entry_trigger
                        && w0[t].single_activation),
                forall|t: int| 0 <= t < e2 ==> !(#[trigger] ecs.entities@[t]).entity_moved,
                forall|m: int|
                    0 <= m < n && is_mover(w0, m) ==> (
                    #[trigger] ecs.entities@[m]).suffer_damage@ == w0[m].suffer_damage@
                        + full_damages(*map, w0, m),
                forall|t: int|
                    0 <= t < n && #[trigger] sprung(*map, w0, t) ==> !ecs.entities@[t].hidden && (
                    w0[t].single_activation ==> is_cleared(ecs.entities@[t])),
                forall|t: int|
                    0 <= t < n && !sprung(*map, w0, t) ==> (
                    #[trigger] ecs.entities@[t]).hidden == w0[t].hidden,
                forall|t: int|
                    0 <= t < n && !is_mover(w0, t) ==> (
                    #[trigger] ecs.entities@[t]).suffer_damage@ == w0[t].suffer_damage@
                        || is_cleared(ecs.entities@[t]),
                no_movers ==> ecs.entities@ == w0,
            decreases n - e2,
        {
            let rec = &mut ecs.entities[e2];
            rec.entity_moved = false;
            proof {
                if no_movers {
                    assert(ecs.entities@ =~= w0);
                }
            }
            e2 = e2 + 1;
        }
    }
}

} // verus!
