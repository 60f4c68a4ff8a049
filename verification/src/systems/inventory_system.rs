//! The item-collection pass: resolve every pending pickup intent by moving
//! the item off the map into the collector's backpack, then clear the
//! intents; a pickup by the player is logged with the item's name.

use vstd::prelude::*;

use crate::components::InBackpack;
use crate::gamelog::{log_extended, logs_picked_up, GameLog, LogEntry};
use crate::world::{EntityRecord, World};

verus! {

/// Whether entity slot `e` carries a pickup intent.
pub open spec fn has_pickup(w: Seq<EntityRecord>, e: int) -> bool {
    0 <= e < w.len() && w[e].wants_to_pickup is Some
}

/// Whether some intent among the first `k` slots names item `j`.
pub open spec fn targeted_upto(w: Seq<EntityRecord>, j: int, k: int) -> bool {
    exists|e: int|
        0 <= e < k && ((#[trigger] w[e]).wants_to_pickup matches Some(p) && p.item == j)
}

/// The intents the pass accepts: each names an entity on the registry that
/// is not itself an intent holder, and no two intents name the same item.
pub open spec fn pickups_wf(w: Seq<EntityRecord>, player: int) -> bool {
    &&& forall|e: int|
        0 <= e < w.len() ==> ((#[trigger] w[e]).wants_to_pickup matches Some(p) ==> {
            &&& 0 <= p.item < w.len()
            &&& p.item != e
            &&& w[p.item as int].wants_to_pickup is None
        })
    &&& forall|e1: int, e2: int|
        #![trigger w[e1].wants_to_pickup, w[e2].wants_to_pickup]
        0 <= e1 < e2 < w.len() ==> (w[e1].wants_to_pickup matches Some(p1) ==> (
        w[e2].wants_to_pickup matches Some(p2) ==> p1.item != p2.item))
}

/// What the pass leaves of a collected item: off the map, in the
/// collector's backpack, everything else untouched.
pub open spec fn picked_up(a: EntityRecord, b: EntityRecord, owner: int) -> bool {
    &&& b.position is None
    &&& b.in_backpack == Some(InBackpack { owner: owner as usize })
    &&& b.alive == a.alive
    &&& b.player == a.player
    &&& b.monster == a.monster
    &&& b.item == a.item
    &&& b.blocks_tile == a.blocks_tile
    &&& b.hidden == a.hidden
    &&& b.entry_trigger == a.entry_trigger
    &&& b.single_activation == a.single_activation
    &&& b.entity_moved == a.entity_moved
    &&& b.viewshed == a.viewshed
    &&& b.combat_stats == a.combat_stats
    &&& b.suffer_damage@ == a.suffer_damage@
    &&& b.wants_to_melee == a.wants_to_melee
    &&& b.wants_to_pickup == a.wants_to_pickup
    &&& b.wants_to_use == a.wants_to_use
    &&& b.wants_to_drop == a.wants_to_drop
    &&& b.wants_to_remove == a.wants_to_remove
    &&& b.ranged == a.ranged
    &&& b.equipped == a.equipped
    &&& b.inflicts_damage == a.inflicts_damage
    &&& b.hunger_clock == a.hunger_clock
    &&& b.renderable == a.renderable
    &&& b.name == a.name
}

/// `b` is `a` with its pickup intent consumed.
pub open spec fn intent_consumed(a: EntityRecord, b: EntityRecord) -> bool {
    &&& b.wants_to_pickup is None
    &&& b.alive == a.alive
    &&& b.player == a.player
    &&& b.monster == a.monster
    &&& b.item == a.item
    &&& b.blocks_tile == a.blocks_tile
    &&& b.hidden == a.hidden
    &&& b.entry_trigger == a.entry_trigger
    &&& b.single_activation == a.single_activation
    &&& b.entity_moved == a.entity_moved
    &&& b.position == a.position
    &&& b.viewshed == a.viewshed
    &&& b.combat_stats == a.combat_stats
    &&& b.suffer_damage@ == a.suffer_damage@
    &&& b.wants_to_melee == a.wants_to_melee
    &&& b.wants_to_use == a.wants_to_use
    &&& b.wants_to_drop == a.wants_to_drop
    &&& b.wants_to_remove == a.wants_to_remove
    &&& b.ranged == a.ranged
    &&& b.in_backpack == a.in_backpack
    &&& b.equipped == a.equipped
    &&& b.inflicts_damage == a.inflicts_damage
    &&& b.hunger_clock == a.hunger_clock
    &&& b.renderable == a.renderable
    &&& b.name == a.name
}

pub struct ItemCollectionSystem {}

impl ItemCollectionSystem {
    /// Resolve every pickup intent: the item loses its position and gains a
    /// backpack edge to its collector; every intent is cleared within the
    /// same turn; a pickup by the player appends a log line.
    #[verifier::loop_isolation(false)]
    #[verifier::rlimit(60)]
    pub fn run(ecs: &mut World, log: &mut GameLog, player_entity: usize)
        requires
            pickups_wf(old(ecs).entities@, player_entity as int),
        ensures
            final(ecs).entities@.len() == old(ecs).entities@.len(),
            forall|e: int|
                0 <= e < old(ecs).entities@.len() ==> !((#[trigger] final(ecs).entities@[e]).wants_to_pickup is Some),
            forall|e: int|
                0 <= e < old(ecs).entities@.len() ==> ((#[trigger] old(ecs).entities@[e]).wants_to_pickup matches Some(p) ==> picked_up(
                    old(ecs).entities@[p.item as int],
                    final(ecs).entities@[p.item as int],
                    p.collected_by as int,
                ) && intent_consumed(old(ecs).entities@[e], final(ecs).entities@[e])),
            forall|j: int|
                0 <= j < old(ecs).entities@.len() && !has_pickup(old(ecs).entities@, j)
                    && !targeted_upto(old(ecs).entities@, j, old(ecs).entities@.len() as int)
                    ==> #[trigger] final(ecs).entities@[j] == old(ecs).entities@[j],
            forall|e: int|
                0 <= e < old(ecs).entities@.len() ==> ((#[trigger] old(ecs).entities@[e]).wants_to_pickup matches Some(p) ==> (p.collected_by == player_entity
                    && old(ecs).entities@[p.item as int].name is Some ==> exists|j: int|
                    old(log).entries@.len() <= j < final(log).entries@.len() && logs_picked_up(
                        final(log).entries@[j],
                        old(ecs).entities@[p.item as int].name->Some_0@,
                    ))),
            log_extended(old(log).entries@, final(log).entries@),
            (forall|e: int| !has_pickup(old(ecs).entities@, e)) ==> final(log).entries@ == old(log).entries@,
    {
        let ghost w0 = old(ecs).entities@;
        let n = ecs.entities.len();
        let mut e: usize = 0;
        while e < n
            invariant
                e <= n,
                n == ecs.entities@.len(),
                ecs.entities@.len() == w0.len(),
                forall|t: int|
                    0 <= t < n ==> ((#[trigger] w0[t]).wants_to_pickup matches Some(p) ==> (t < e
                        ==> picked_up(
                        w0[p.item as int],
                        ecs.entities@[p.item as int],
                        p.collected_by as int,
                    ) && intent_consumed(w0[t], ecs.entities@[t]))),
                forall|j: int|
                    0 <= j < n && !(has_pickup(w0, j) && j < e) && !targeted_upto(w0, j, e as int)
                        ==> #[trigger] ecs.entities@[j] == w0[j],
                forall|t: int|
                    0 <= t < e ==> ((#[trigger] w0[t]).wants_to_pickup matches Some(p) ==> (
                    p.collected_by == player_entity && w0[p.item as int].name is Some
                        ==> exists|j: int|
                        old(log).entries@.len() <= j < log.entries@.len() && logs_picked_up(
                            log.entries@[j],
                            w0[p.item as int].name->Some_0@,
                        ))),
                log_extended(old(log).entries@, log.entries@),
                (forall|t: int| !has_pickup(w0, t)) ==> log.entries@ == old(log).entries@,
            decreases n - e,
        {
            let intent = ecs.entities[e].wants_to_pickup;
            if let Some(p) = intent {
                proof {
                    assert(w0[e as int].wants_to_pickup == Some(p)) by {
                        if targeted_upto(w0, e as int, e as int) {
                            let t = choose|t: int|
                                0 <= t < e && ((#[trigger] w0[t]).wants_to_pickup matches Some(q)
                                    && q.item == e as int);
                            assert((#[trigger] w0[t]).wants_to_pickup matches Some(q) && q.item
                                == e as int);
                        } else {
                            assert(ecs.entities@[e as int] == w0[e as int]);
                        }
                    }
                }
                let item_rec = &mut ecs.entities[p.item];
                item_rec.position = None;
                item_rec.in_backpack = Some(InBackpack { owner: p.collected_by });

                let ghost logs_pre = log.entries@;
                if p.collected_by == player_entity {
                    if let Some(nm) = &ecs.entities[p.item].name {
                        let name = nm.clone();
                        log.push(LogEntry::PickedUp { name });
                        proof {
                            assert(ecs.entities@[p.item as int].name == w0[p.item as int].name);
                            assert(logs_picked_up(
                                log.entries@[logs_pre.len() as int],
                                w0[p.item as int].name->Some_0@,
                            ));
                        }
                    }
                }

                let holder = &mut ecs.entities[e];
                holder.wants_to_pickup = None;

                proof {
                    assert forall|j: int|
                        0 <= j < n && !(has_pickup(w0, j) && j < e + 1) && !targeted_upto(
                            w0,
                            j,
                            e + 1,
                        ) implies #[trigger] ecs.entities@[j] == w0[j] by {
                        assert(j != e as int);
                        assert(j != p.item as int) by {
                            if j == p.item as int {
                                assert((#[trigger] w0[e as int]).wants_to_pickup matches Some(q)
                                    && q.item == j);
                            }
                        }
                        assert(!targeted_upto(w0, j, e as int)) by {
                            if targeted_upto(w0, j, e as int) {
                                let t = choose|t: int|
                                    0 <= t < e && ((#[trigger] w0[t]).wants_to_pickup matches Some(
                                        q,
                                    ) && q.item == j);
                                assert((#[trigger] w0[t]).wants_to_pickup matches Some(q) && q.item
                                    == j);
                            }
                        }
                    }
                    assert forall|t: int|
                        0 <= t < e + 1 implies ((#[trigger] w0[t]).wants_to_pickup matches Some(q)
                            ==> (q.collected_by == player_entity && w0[q.item as int].name is Some
                            ==> exists|j: int|
                            old(log).entries@.len() <= j < log.entries@.len() && logs_picked_up(
                                log.entries@[j],
                                w0[q.item as int].name->Some_0@,
                            ))) by {
                        if t < e as int && w0[t].wants_to_pickup is Some {
                            let q = choose|q: crate::components::WantsToPickupItem|
                                w0[t].wants_to_pickup == Some(q);
                            if q.collected_by == player_entity && w0[q.item as int].name is Some {
                                let j0 = choose|j: int|
                                    old(log).entries@.len() <= j < logs_pre.len() && logs_picked_up(
                                        logs_pre[j],
                                        w0[q.item as int].name->Some_0@,
                                    );
                                assert(log.entries@[j0] == logs_pre[j0]);
                            }
                        }
                    }
                    assert forall|t: int| 0 <= t < n && t < e + 1 implies ((
                    #[trigger] w0[t]).wants_to_pickup matches Some(q) ==> picked_up(
                        w0[q.item as int],
                        ecs.entities@[q.item as int],
                        q.collected_by as int,
                    ) && intent_consumed(w0[t], ecs.entities@[t])) by {
                        if w0[t].wants_to_pickup is Some {
                            let q = choose|q: crate::components::WantsToPickupItem|
                                w0[t].wants_to_pickup == Some(q);
                            if t < e as int {
                                assert(q.item != p.item) by {
                                    assert(t != e as int);
                                }
                                assert(q.item != e as int);
                                assert(t != p.item as int);
                            }
                        }
                    }
                }
            } else {
                proof {
                    assert(!(w0[e as int].wants_to_pickup is Some)) by {
                        if w0[e as int].wants_to_pickup is Some {
                            if targeted_upto(w0, e as int, e as int) {
                                let t = choose|t: int|
                                    0 <= t < e && ((#[trigger] w0[t]).wants_to_pickup matches Some(
                                        q,
                                    ) && q.item == e as int);
                                assert((#[trigger] w0[t]).wants_to_pickup matches Some(q) && q.item
                                    == e as int);
                            } else {
                                assert(ecs.entities@[e as int] == w0[e as int]);
                            }
                        }
                    }
                    assert forall|j: int|
                        0 <= j < n && !(has_pickup(w0, j) && j < e + 1) && !targeted_upto(
                            w0,
                            j,
                            e + 1,
                        ) implies #[trigger] ecs.entities@[j] == w0[j] by {
                        assert(!targeted_upto(w0, j, e as int)) by {
                            if targeted_upto(w0, j, e as int) {
                                let t = choose|t: int|
                                    0 <= t < e && ((#[trigger] w0[t]).wants_to_pickup matches Some(
                                        q,
                                    ) && q.item == j);
                                assert((#[trigger] w0[t]).wants_to_pickup matches Some(q) && q.item
                                    == j);
                            }
                        }
                    }
                }
            }
            e = e + 1;
        }
        proof {
            assert forall|e2: int|
                0 <= e2 < w0.len() implies !((#[trigger] ecs.entities@[e2]).wants_to_pickup
                is Some) by {
                if w0[e2].wants_to_pickup is Some {
                    assert(intent_consumed(w0[e2], ecs.entities@[e2]));
                } else {
                    if targeted_upto(w0, e2, n as int) {
                        let t = choose|t: int|
                            0 <= t < n && ((#[trigger] w0[t]).wants_to_pickup matches Some(q)
                                && q.item == e2);
                        let q = choose|q: crate::components::WantsToPickupItem|
                            w0[t].wants_to_pickup == Some(q);
                        assert(picked_up(w0[e2], ecs.entities@[e2], q.collected_by as int));
                    } else {
                        assert(ecs.entities@[e2] == w0[e2]);
                    }
                }
            }
        }
    }
}

} // verus!
