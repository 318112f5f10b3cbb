use vstd::prelude::*;

use crate::components::{CombatStats, Damage, Entity};
use crate::log::{events_upto, LogEntry};
use crate::world::{EntityRecord, World};

verus! {

pub open spec fn clamp_i32(v: int) -> int {
    if v < i32::MIN {
        i32::MIN as int
    } else if v > i32::MAX {
        i32::MAX as int
    } else {
        v
    }
}

/// Hit points after taking each amount in turn, each result held to the
/// range of `i32`.
pub open spec fn hp_after(hp: int, amounts: Seq<i32>) -> int
    decreases amounts.len(),
{
    if amounts.len() == 0 {
        hp
    } else {
        clamp_i32(hp_after(hp, amounts.drop_last()) - amounts.last())
    }
}

pub open spec fn seq_sum(s: Seq<i32>) -> int
    decreases s.len(),
{
    if s.len() == 0 {
        0
    } else {
        seq_sum(s.drop_last()) + s.last()
    }
}

/// The record after the damage phase: the accumulated damage is taken off
/// the hit points of an entity with combat stats, and the accumulator is gone.
pub open spec fn damage_resolved(r: EntityRecord) -> EntityRecord {
    EntityRecord {
        combat_stats: match (r.combat_stats, r.damage) {
            (Some(s), Some(d)) => Some(CombatStats { hp: hp_after(s.hp as int, d.amount@) as i32, ..s }),
            _ => r.combat_stats,
        },
        damage: None,
        ..r
    }
}

/// The entity is deleted at the end of the turn: it has run out of hit
/// points and is not the player.
pub open spec fn reaped(r: EntityRecord) -> bool {
    r.combat_stats is Some && r.combat_stats->Some_0.hp < 1 && r.player is None
}

pub open spec fn reap_events(slot: Option<EntityRecord>, i: int) -> Seq<LogEntry> {
    match slot {
        Some(r) => if r.combat_stats is Some && r.combat_stats->Some_0.hp < 1 {
            if r.player is None {
                if r.name is Some {
                    seq![LogEntry::Died { entity: Entity { id: i as usize } }]
                } else {
                    seq![]
                }
            } else {
                seq![LogEntry::PlayerDied]
            }
        } else {
            seq![]
        },
        None => seq![],
    }
}

impl Damage {
    /// Adds `amount` to the damage that `store`'s entity takes this turn.
    pub fn new_damage(store: &mut Option<Damage>, amount: i32)
        ensures
            *final(store) is Some,
            final(store)->Some_0.amount@ == match *old(store) {
                Some(d) => d.amount@.push(amount),
                None => seq![amount],
            },
    {
        match store {
            Some(damage) => {
                damage.amount.push(amount);
            },
            None => {
                *store = Some(Damage { amount: vec![amount] });
            },
        }
    }
}

/// Takes `amounts` off `hp` one by one.
pub fn apply_amounts(hp: i32, amounts: &Vec<i32>) -> (r: i32)
    ensures
        r == hp_after(hp as int, amounts@),
{
    let mut cur: i32 = hp;
    let mut k: usize = 0;
    while k < amounts.len()
        invariant
            k <= amounts@.len(),
            cur == hp_after(hp as int, amounts@.take(k as int)),
        decreases amounts@.len() - k,
    {
        proof {
            assert(amounts@.take(k as int + 1).drop_last() =~= amounts@.take(k as int));
        }
        let next: i64 = cur as i64 - amounts[k] as i64;
        cur = if next < i32::MIN as i64 {
            i32::MIN
        } else if next > i32::MAX as i64 {
            i32::MAX
        } else {
            next as i32
        };
        k = k + 1;
    }
    proof {
        assert(amounts@.take(amounts@.len() as int) =~= amounts@);
    }
    cur
}

/// Where no step leaves the range of `i32`, taking the amounts one by one
/// removes exactly their sum.
pub proof fn lemma_batched_damage_is_sum(hp: int, amounts: Seq<i32>)
    requires
        i32::MIN <= hp <= i32::MAX,
        forall|k: int|
            0 <= k <= amounts.len() ==> i32::MIN <= hp - seq_sum(#[trigger] amounts.take(k))
                <= i32::MAX,
    ensures
        hp_after(hp, amounts) == hp - seq_sum(amounts),
    decreases amounts.len(),
{
    if amounts.len() > 0 {
        let prev = amounts.drop_last();
        assert forall|k: int| 0 <= k <= prev.len() implies i32::MIN <= hp - seq_sum(
            #[trigger] prev.take(k),
        ) <= i32::MAX by {
            assert(prev.take(k) =~= amounts.take(k));
        }
        lemma_batched_damage_is_sum(hp, prev);
        assert(amounts.take(amounts.len() as int) =~= amounts);
    }
}

/// Accumulating two batches of damage and resolving them once gives the same
/// hit points as resolving the first batch, then the second.
pub proof fn lemma_batches_compose(hp: int, first: Seq<i32>, second: Seq<i32>)
    ensures
        hp_after(hp, first + second) == hp_after(hp_after(hp, first), second),
    decreases second.len(),
{
    if second.len() == 0 {
        assert(first + second =~= first);
    } else {
        assert((first + second).drop_last() =~= first + second.drop_last());
        lemma_batches_compose(hp, first, second.drop_last());
    }
}

/// `b` is `a` after the damage pass.
pub open spec fn damage_post(a: World, b: World) -> bool {
    &&& b.entities@.len() == a.entities@.len()
    &&& forall|i: int|
        0 <= i < a.entities@.len() ==> #[trigger] b.entities@[i] == match a.entities@[i] {
            Some(r) => Some(damage_resolved(r)),
            None => None,
        }
    &&& b.pending_deletions == a.pending_deletions
    &&& b.player == a.player
    &&& b.player_pos == a.player_pos
    &&& b.log == a.log
}

pub struct DamageSystem {}

impl DamageSystem {
    /// Takes each entity's accumulated damage off its hit points, then clears
    /// every accumulator.
    pub fn run(&mut self, world: &mut World)
        ensures
            damage_post(*old(world), *final(world)),
    {
        let n = world.entities.len();
        let mut i: usize = 0;
        while i < n
            invariant
                i <= n,
                n == old(world).entities@.len(),
                world.entities@.len() == n,
                forall|j: int|
                    0 <= j < n ==> #[trigger] world.entities@[j] == if j < i {
                        match old(world).entities@[j] {
                            Some(r) => Some(damage_resolved(r)),
                            None => None,
                        }
                    } else {
                        old(world).entities@[j]
                    },
                world.pending_deletions == old(world).pending_deletions,
                world.player == old(world).player,
                world.player_pos == old(world).player_pos,
                world.log == old(world).log,
            decreases n - i,
        {
            let slot = world.take_slot(i);
            match slot {
                Some(mut rec) => {
                    let ghost r0 = rec;
                    if let Some(stats) = rec.combat_stats {
                        if let Some(d) = &rec.damage {
                            let hp = apply_amounts(stats.hp, &d.amount);
                            rec.combat_stats = Some(CombatStats { hp, ..stats });
                        }
                    }
                    rec.damage = None;
                    assert(rec == damage_resolved(r0));
                    world.entities.set(i, Some(rec));
                },
                None => {
                    world.entities.set(i, None);
                },
            }
            i = i + 1;
        }
    }
}

/// `b` is `a` after the reap: every entity out of hit points but the player
/// deleted, and each death logged (the player's too).
pub open spec fn reap_post(a: World, b: World) -> bool {
    &&& b.entities@.len() == a.entities@.len()
    &&& forall|i: int|
        0 <= i < a.entities@.len() ==> #[trigger] b.entities@[i] == match a.entities@[i] {
            Some(r) => if reaped(r) {
                None
            } else {
                Some(r)
            },
            None => None,
        }
    &&& b.log.entries@ == a.log.entries@ + events_upto(
        |j: int| reap_events(a.entities@[j], j),
        a.entities@.len() as int,
    )
    &&& b.pending_deletions == a.pending_deletions
    &&& b.player == a.player
    &&& b.player_pos == a.player_pos
}

/// Deletes every entity out of hit points but the player, and logs each
/// death (the player's too).
pub fn reap(world: &mut World)
    ensures
        reap_post(*old(world), *final(world)),
{
    let ghost f = |j: int| reap_events(old(world).entities@[j], j);
    let n = world.entities.len();
    let mut i: usize = 0;
    while i < n
        invariant
            i <= n,
            n == old(world).entities@.len(),
            world.entities@.len() == n,
            f == (|j: int| reap_events(old(world).entities@[j], j)),
            forall|j: int|
                0 <= j < n ==> #[trigger] world.entities@[j] == if j < i {
                    match old(world).entities@[j] {
                        Some(r) => if reaped(r) {
                            None
                        } else {
                            Some(r)
                        },
                        None => None,
                    }
                } else {
                    old(world).entities@[j]
                },
            world.log.entries@ == old(world).log.entries@ + events_upto(f, i as int),
            world.pending_deletions == old(world).pending_deletions,
            world.player == old(world).player,
            world.player_pos == old(world).player_pos,
        decreases n - i,
    {
        let mut dead = false;
        match &world.entities[i] {
            Some(rec) => {
                if let Some(stats) = rec.combat_stats {
                    if stats.hp < 1 {
                        if rec.player.is_none() {
                            if rec.name.is_some() {
                                world.log.entries.push(LogEntry::Died { entity: Entity { id: i } });
                            }
                            dead = true;
                        } else {
                            world.log.entries.push(LogEntry::PlayerDied);
                        }
                    }
                }
            },
            None => {},
        }
        proof {
            assert(events_upto(f, i as int + 1) == events_upto(f, i as int) + f(i as int));
            assert(world.log.entries@ =~= old(world).log.entries@ + events_upto(f, i as int + 1));
        }
        if dead {
            world.entities.set(i, None);
        }
        i = i + 1;
    }
}

} // verus!
