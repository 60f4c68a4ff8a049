//! The damage-resolution pass: drain every entity's accumulated pending
//! damage into its hit points, and the end-of-tick cleanup that removes
//! entities whose hit points fell below one.

use vstd::prelude::*;

use crate::components::CombatStats;
use crate::world::{is_cleared, EntityRecord, World};

verus! {

/// The total of a damage queue.
pub open spec fn sum_of(s: Seq<i32>) -> int
    decreases s.len(),
{
    if s.len() == 0 {
        0
    } else {
        sum_of(s.drop_last()) + s.last()
    }
}

proof fn lemma_sum_take_succ(s: Seq<i32>, k: int)
    requires
        0 <= k < s.len(),
    ensures
        sum_of(s.take(k + 1)) == sum_of(s.take(k)) + s[k],
{
    assert(s.take(k + 1).drop_last() =~= s.take(k));
    assert(s.take(k + 1).last() == s[k]);
}

/// With nonnegative amounts, every partial total lies between zero and the
/// full total.
proof fn lemma_sum_take_bounds(s: Seq<i32>, k: int)
    requires
        0 <= k <= s.len(),
        forall|j: int| 0 <= j < s.len() ==> 0 <= #[trigger] s[j],
    ensures
        0 <= sum_of(s.take(k)) <= sum_of(s),
    decreases s.len() - k,
{
    if k == s.len() {
        assert(s.take(k) =~= s);
        lemma_sum_nonneg(s);
    } else {
        lemma_sum_take_succ(s, k);
        lemma_sum_take_bounds(s, k + 1);
        assert(forall|j: int| 0 <= j < s.take(k).len() ==> 0 <= #[trigger] s.take(k)[j]);
        lemma_sum_nonneg(s.take(k));
    }
}

proof fn lemma_sum_nonneg(s: Seq<i32>)
    requires
        forall|j: int| 0 <= j < s.len() ==> 0 <= #[trigger] s[j],
    ensures
        0 <= sum_of(s),
    decreases s.len(),
{
    if s.len() > 0 {
        lemma_sum_nonneg(s.drop_last());
    }
}

/// A damage queue the pass resolves exactly: nonnegative amounts whose
/// total cannot push the hit-point subtraction outside the machine range.
/// On other queues the pass still runs, saturating at the range's edges.
pub open spec fn damage_safe(rec: EntityRecord) -> bool {
    &&& (forall|k: int|
        0 <= k < rec.suffer_damage@.len() ==> 0 <= #[trigger] rec.suffer_damage@[k])
    &&& sum_of(rec.suffer_damage@) <= i32::MAX
    &&& (rec.combat_stats matches Some(s) ==> i32::MIN <= s.hp - sum_of(rec.suffer_damage@))
}

/// What the pass leaves of one record whatever the queue held: the queue
/// drained, the stats still there with only the hit points changed,
/// everything else untouched.
pub open spec fn damage_drained(a: EntityRecord, b: EntityRecord) -> bool {
    &&& b.suffer_damage@.len() == 0
    &&& (a.combat_stats matches Some(s) ==> (b.combat_stats matches Some(t) && t.max_hp == s.max_hp
        && t.defense == s.defense && t.power == s.power))
    &&& (a.combat_stats is None ==> b.combat_stats is None)
    &&& b.alive == a.alive
    &&& b.player == a.player
    &&& b.monster == a.monster
    &&& b.item == a.item
    &&& b.blocks_tile == a.blocks_tile
    &&& b.hidden == a.hidden
    &&& b.entry_trigger == a.entry_trigger
    &&& b.single_activation == a.single_activation
    &&& b.entity_moved == a.entity_moved
    &&& b.position == a.position
    &&& b.viewshed == a.viewshed
    &&& b.wants_to_melee == a.wants_to_melee
    &&& b.wants_to_pickup == a.wants_to_pickup
    &&& b.wants_to_use == a.wants_to_use
    &&& b.wants_to_drop == a.wants_to_drop
    &&& b.wants_to_remove == a.wants_to_remove
    &&& b.ranged == a.ranged
    &&& b.in_backpack == a.in_backpack
    &&& b.equipped == a.equipped
    &&& b.inflicts_damage == a.inflicts_damage
    &&& b.hunger_clock == a.hunger_clock
    &&& b.renderable == a.renderable
    &&& b.name == a.name
}

/// The exact outcome on a safe queue: the pending damage subtracted from
/// the hit points.
pub open spec fn damage_applied(a: EntityRecord, b: EntityRecord) -> bool {
    &&& damage_drained(a, b)
    &&& (a.combat_stats matches Some(s) ==> b.combat_stats == Some(
        CombatStats {
            max_hp: s.max_hp,
            hp: (s.hp - sum_of(a.suffer_damage@)) as i32,
            defense: s.defense,
            power: s.power,
        },
    ))
}

pub struct DamageSystem {}

impl DamageSystem {
    /// Subtract each entity's accumulated pending damage from its hit
    /// points, then clear every damage queue.
    #[verifier::loop_isolation(false)]
    pub fn run(ecs: &mut World)
        ensures
            final(ecs).entities@.len() == old(ecs).entities@.len(),
            forall|e: int|
                0 <= e < old(ecs).entities@.len() ==> damage_drained(
                    old(ecs).entities@[e],
                    #[trigger] final(ecs).entities@[e],
                ),
            forall|e: int|
                0 <= e < old(ecs).entities@.len() && damage_safe(old(ecs).entities@[e])
                    ==> damage_applied(old(ecs).entities@[e], #[trigger] final(ecs).entities@[e]),
    {
        let n = ecs.entities.len();
        let mut e: usize = 0;
        while e < n
            invariant
                e <= n,
                n == ecs.entities@.len(),
                ecs.entities@.len() == old(ecs).entities@.len(),
                forall|t: int|
                    0 <= t < e ==> damage_drained(
                        old(ecs).entities@[t],
                        #[trigger] ecs.entities@[t],
                    ),
                forall|t: int|
                    0 <= t < e && damage_safe(old(ecs).entities@[t]) ==> damage_applied(
                        old(ecs).entities@[t],
                        #[trigger] ecs.entities@[t],
                    ),
                forall|t: int| e <= t < n ==> ecs.entities@[t] == old(ecs).entities@[t],
            decreases n - e,
        {
            let has_stats = ecs.entities[e].combat_stats.is_some();
            if has_stats {
                let dmg_len = ecs.entities[e].suffer_damage.len();
                let ghost dmg = ecs.entities@[e as int].suffer_damage@;
                let mut total: i32 = 0;
                let mut k: usize = 0;
                while k < dmg_len
                    invariant
                        k <= dmg_len,
                        e < n,
                        ecs.entities@.len() == old(ecs).entities@.len(),
                        ecs.entities@[e as int] == old(ecs).entities@[e as int],
                        dmg == ecs.entities@[e as int].suffer_damage@,
                        dmg_len == dmg.len(),
                        damage_safe(old(ecs).entities@[e as int]) ==> total == sum_of(
                            dmg.take(k as int),
                        ) && 0 <= total,
                    decreases dmg_len - k,
                {
                    proof {
                        if damage_safe(old(ecs).entities@[e as int]) {
                            lemma_sum_take_succ(dmg, k as int);
                            lemma_sum_take_bounds(dmg, k + 1 as int);
                        }
                    }
                    let amount = ecs.entities[e].suffer_damage[k];
                    total = match total.checked_add(amount) {
                        Some(v) => v,
                        None => if amount >= 0 {
                            i32::MAX
                        } else {
                            i32::MIN
                        },
                    };
                    k = k + 1;
                }
                proof {
                    assert(dmg.take(dmg_len as int) =~= dmg);
                }
                let rec = &mut ecs.entities[e];
                if let Some(stats) = rec.combat_stats {
                    let new_hp = match stats.hp.checked_sub(total) {
                        Some(v) => v,
                        None => if total >= 0 {
                            i32::MIN
                        } else {
                            i32::MAX
                        },
                    };
                    rec.combat_stats = Some(
                        CombatStats {
                            max_hp: stats.max_hp,
                            hp: new_hp,
                            defense: stats.defense,
                            power: stats.power,
                        },
                    );
                }
            }
            let rec = &mut ecs.entities[e];
            rec.suffer_damage = Vec::new();
            e = e + 1;
        }
    }
}

/// What the end-of-tick cleanup leaves: every live non-player fighter at
/// zero or fewer hit points is cleared, and every other record is exactly
/// as it was — the player included, dead or not.
pub open spec fn dead_removed(a: Seq<EntityRecord>, b: Seq<EntityRecord>) -> bool {
    &&& b.len() == a.len()
    &&& forall|e: int|
        0 <= e < a.len() ==> {
            let r = a[e];
            if r.alive && !r.player && (r.combat_stats matches Some(s) && s.hp < 1) {
                is_cleared(#[trigger] b[e])
            } else {
                b[e] == r
            }
        }
}

/// Remove every entity whose hit points fell below one, except the
/// player-controlled one; report whether the player is among the dead so
/// the scheduler can steer the run toward its game-over state.
#[verifier::loop_isolation(false)]
pub fn delete_the_dead(ecs: &mut World) -> (player_died: bool)
    ensures
        final(ecs).entities@.len() == old(ecs).entities@.len(),
        dead_removed(old(ecs).entities@, final(ecs).entities@),
        player_died == exists|e: int|
            0 <= e < old(ecs).entities@.len() && (#[trigger] old(ecs).entities@[e]).alive && old(
                ecs,
            ).entities@[e].player && (old(ecs).entities@[e].combat_stats matches Some(s) && s.hp
                < 1),
{
    let n = ecs.entities.len();
    let mut player_died = false;
    let mut e: usize = 0;
    while e < n
        invariant
            e <= n,
            n == ecs.entities@.len(),
            ecs.entities@.len() == old(ecs).entities@.len(),
            forall|t: int|
                0 <= t < e ==> {
                    let a = old(ecs).entities@[t];
                    if a.alive && !a.player && (a.combat_stats matches Some(s) && s.hp < 1) {
                        is_cleared(#[trigger] ecs.entities@[t])
                    } else {
                        ecs.entities@[t] == a
                    }
                },
            forall|t: int| e <= t < n ==> ecs.entities@[t] == old(ecs).entities@[t],
            player_died == exists|t: int|
                0 <= t < e && (#[trigger] old(ecs).entities@[t]).alive
                    && old(ecs).entities@[t].player && (old(ecs).entities@[t].combat_stats
                    matches Some(s) && s.hp < 1),
        decreases n - e,
    {
        let rec = &ecs.entities[e];
        let mut dead = false;
        if rec.alive {
            if let Some(stats) = rec.combat_stats {
                if stats.hp < 1 {
                    dead = true;
                }
            }
        }
        if dead {
            if ecs.entities[e].player {
                player_died = true;
            } else {
                ecs.delete_entity(e);
            }
        }
        e = e + 1;
    }
    player_died
}

} // verus!
