use vstd::prelude::*;

use crate::components::{Damage, Entity};
use crate::log::{events_upto, LogEntry};
use crate::world::{EntityRecord, World};

verus! {

/// `max(0, power - defense)`, held to the range of `i32`.
pub open spec fn melee_damage_of(power: int, defense: int) -> int {
    let d = power - defense;
    if d <= 0 {
        0
    } else if d > i32::MAX {
        i32::MAX as int
    } else {
        d
    }
}

/// The damage a blow of attack `power` deals through `defense`.
pub fn melee_damage(power: i32, defense: i32) -> (r: i32)
    ensures
        r == melee_damage_of(power as int, defense as int),
{
    let d: i64 = power as i64 - defense as i64;
    if d <= 0 {
        0
    } else if d > i32::MAX as i64 {
        i32::MAX
    } else {
        d as i32
    }
}

/// The blow that the entity in slot `i` strikes this turn, as the target and
/// the damage: it wants to attack, has a name and combat stats with hit
/// points left, and its target is live with hit points left.
pub open spec fn melee_blow(slots: Seq<Option<EntityRecord>>, i: int) -> Option<(Entity, int)> {
    match slots[i] {
        Some(r) => match (r.desires_melee, r.name, r.combat_stats) {
            (Some(m), Some(_), Some(s)) => if s.hp > 0 && m.target.id < slots.len() && slots[m.target.id as int] is Some
                && slots[m.target.id as int]->Some_0.combat_stats is Some
                && slots[m.target.id as int]->Some_0.combat_stats->Some_0.hp > 0 {
                Some(
                    (
                        m.target,
                        melee_damage_of(
                            s.power as int,
                            slots[m.target.id as int]->Some_0.combat_stats->Some_0.defense as int,
                        ),
                    ),
                )
            } else {
                None
            },
            _ => None,
        },
        None => None,
    }
}

pub open spec fn melee_events(slots: Seq<Option<EntityRecord>>, i: int) -> Seq<LogEntry> {
    match melee_blow(slots, i) {
        Some((t, d)) => if d == 0 {
            seq![LogEntry::NoDamage { attacker: Entity { id: i as usize }, target: t }]
        } else {
            seq![LogEntry::Hit { attacker: Entity { id: i as usize }, target: t, amount: d as i32 }]
        },
        None => seq![],
    }
}

/// The non-zero blows struck at slot `j` by the slots below `n`, in order.
pub open spec fn incoming_blows(slots: Seq<Option<EntityRecord>>, j: int, n: int) -> Seq<i32>
    decreases n,
{
    if n <= 0 {
        seq![]
    } else {
        incoming_blows(slots, j, n - 1) + match melee_blow(slots, n - 1) {
            Some((t, d)) => if t.id == j && d != 0 {
                seq![d as i32]
            } else {
                seq![]
            },
            None => seq![],
        }
    }
}

pub open spec fn damage_view(d: Option<Damage>) -> Option<Seq<i32>> {
    match d {
        Some(d) => Some(d.amount@),
        None => None,
    }
}

/// An accumulator after `extra` is added to it.
pub open spec fn damage_added(d: Option<Seq<i32>>, extra: Seq<i32>) -> Option<Seq<i32>> {
    if extra.len() == 0 {
        d
    } else {
        match d {
            Some(a) => Some(a + extra),
            None => Some(extra),
        }
    }
}

/// The two records differ at most in their melee intent and damage.
pub open spec fn same_but_melee(a: EntityRecord, b: EntityRecord) -> bool {
    EntityRecord { desires_melee: None, damage: None, ..a } == EntityRecord {
        desires_melee: None,
        damage: None,
        ..b
    }
}

/// The record in slot `j` after `n` slots have struck their blows.
pub open spec fn melee_slot_after(
    old_slots: Seq<Option<EntityRecord>>,
    new_slot: Option<EntityRecord>,
    j: int,
    n: int,
) -> bool {
    match old_slots[j] {
        Some(r) => new_slot is Some && same_but_melee(r, new_slot->Some_0) && damage_view(
            new_slot->Some_0.damage,
        ) == damage_added(damage_view(r.damage), incoming_blows(old_slots, j, n))
            && new_slot->Some_0.desires_melee == if j < n {
            None
        } else {
            r.desires_melee
        },
        None => new_slot is None,
    }
}

proof fn lemma_damage_added_step(d: Option<Seq<i32>>, a: Seq<i32>, b: Seq<i32>)
    ensures
        damage_added(damage_added(d, a), b) == damage_added(d, a + b),
{
    if a.len() == 0 {
        assert(a + b =~= b);
    }
    if b.len() == 0 {
        assert(a + b =~= a);
    }
    if a.len() > 0 && b.len() > 0 {
        match d {
            Some(x) => {
                assert(x + a + b =~= x + (a + b));
            },
            None => {},
        }
    }
}

/// `b` is `a` after the melee pass.
pub open spec fn melee_post(a: World, b: World) -> bool {
    &&& b.entities@.len() == a.entities@.len()
    &&& forall|j: int|
        0 <= j < a.entities@.len() ==> #[trigger] melee_slot_after(
            a.entities@,
            b.entities@[j],
            j,
            a.entities@.len() as int,
        )
    &&& b.log.entries@ == a.log.entries@ + events_upto(
        |i: int| melee_events(a.entities@, i),
        a.entities@.len() as int,
    )
    &&& b.pending_deletions == a.pending_deletions
    &&& b.player == a.player
    &&& b.player_pos == a.player_pos
}

pub struct MeleeCombatSystem {}

impl MeleeCombatSystem {
    /// Resolves every melee intent into a logged blow, adds each non-zero
    /// blow to its target's damage, and clears every melee intent.
    pub fn run(&mut self, world: &mut World)
        ensures
            melee_post(*old(world), *final(world)),
    {
        let ghost s0 = world.entities@;
        let ghost f = |i: int| melee_events(s0, i);
        let n = world.entities.len();
        let mut i: usize = 0;
        while i < n
            invariant
                i <= n,
                n == s0.len(),
                s0 == old(world).entities@,
                world.entities@.len() == n,
                f == (|k: int| melee_events(s0, k)),
                forall|j: int|
                    0 <= j < n ==> #[trigger] melee_slot_after(s0, world.entities@[j], j, i as int),
                world.log.entries@ == old(world).log.entries@ + events_upto(f, i as int),
                world.pending_deletions == old(world).pending_deletions,
                world.player == old(world).player,
                world.player_pos == old(world).player_pos,
            decreases n - i,
        {
            assert(melee_slot_after(s0, world.entities@[i as int], i as int, i as int));
            // What the attacker in slot i wants and can do; combat stats are
            // never changed here, so they read the same as at the start.
            let mut blow: Option<(Entity, i32)> = None;
            match &world.entities[i] {
                Some(rec) => {
                    if let (Some(m), Some(_), Some(s)) = (rec.desires_melee, &rec.name, rec.combat_stats) {
                        if s.hp > 0 && m.target.id < n {
                            match &world.entities[m.target.id] {
                                Some(trec) => {
                                    if let Some(ts) = trec.combat_stats {
                                        if ts.hp > 0 {
                                            blow = Some((m.target, melee_damage(s.power, ts.defense)));
                                        }
                                    }
                                },
                                None => {},
                            }
                        }
                    }
                },
                None => {},
            }
            proof {
                let t = s0[i as int];
                if t is Some {
                    let m = t->Some_0.desires_melee;
                    if m is Some && m->Some_0.target.id < n {
                        assert(melee_slot_after(s0, world.entities@[m->Some_0.target.id as int], m->Some_0.target.id as int, i as int));
                    }
                }
                assert(blow == match melee_blow(s0, i as int) {
                    Some((t, d)) => Some((t, d as i32)),
                    None => None,
                });
            }
            let ghost before = world.entities@;
            match blow {
                Some((target, amount)) => {
                    if amount == 0 {
                        world.log.entries.push(LogEntry::NoDamage { attacker: Entity { id: i }, target });
                    } else {
                        world.log.entries.push(
                            LogEntry::Hit { attacker: Entity { id: i }, target, amount },
                        );
                        match &mut world.entities[target.id] {
                            Some(trec) => {
                                Damage::new_damage(&mut trec.damage, amount);
                            },
                            None => {},
                        }
                    }
                },
                None => {},
            }
            let ghost mid = world.entities@;
            match &mut world.entities[i] {
                Some(rec) => {
                    rec.desires_melee = None;
                },
                None => {},
            }
            proof {
                assert(events_upto(f, i as int + 1) == events_upto(f, i as int) + f(i as int));
                assert(world.log.entries@ =~= old(world).log.entries@ + events_upto(f, i as int + 1));
                assert forall|j: int| 0 <= j < n implies #[trigger] melee_slot_after(
                    s0,
                    world.entities@[j],
                    j,
                    i as int + 1,
                ) by {
                    assert(melee_slot_after(s0, before[j], j, i as int));
                    let extra = match melee_blow(s0, i as int) {
                        Some((t, d)) => if t.id == j && d != 0 {
                            seq![d as i32]
                        } else {
                            seq![]
                        },
                        None => seq![],
                    };
                    assert(incoming_blows(s0, j, i as int + 1) == incoming_blows(s0, j, i as int) + extra);
                    if s0[j] is Some {
                        let r = s0[j]->Some_0;
                        lemma_damage_added_step(damage_view(r.damage), incoming_blows(s0, j, i as int), extra);
                        let b = before[j]->Some_0;
                        let m = mid[j]->Some_0;
                        let w = world.entities@[j]->Some_0;
                        if extra.len() == 0 {
                            assert(mid[j] == before[j]);
                        } else {
                            assert(same_but_melee(b, m));
                            assert(damage_view(m.damage) == damage_added(damage_view(b.damage), extra));
                        }
                        assert(same_but_melee(m, w));
                        assert(w.damage == m.damage);
                        assert(same_but_melee(r, w));
                    }
                }
            }
            i = i + 1;
        }
    }
}

} // verus!
