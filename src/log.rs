use vstd::prelude::*;

use crate::components::Entity;

verus! {

/// A narrative event of one turn, for the message log.
#[derive(Clone, Copy, Debug, PartialEq, Eq, Structural)]
pub enum LogEntry {
    /// A melee blow that took `amount` hit points.
    Hit { attacker: Entity, target: Entity, amount: i32 },
    /// A melee blow that the target's defense absorbed whole.
    NoDamage { attacker: Entity, target: Entity },
    /// A non-player actor was slain.
    Died { entity: Entity },
    /// The player's hit points ran out.
    PlayerDied,
    PickedUp { item: Entity },
    NothingToPickUp,
    Dropped { item: Entity },
    /// The player's item healed `target`.
    Healed { item: Entity, target: Entity, amount: i32 },
    /// The player's item hurt `target`.
    ItemDamage { item: Entity, target: Entity, amount: i32 },
    /// The player's item put its status effect on `target`.
    Afflicted { item: Entity, target: Entity },
    NoWayDown,
    Descended,
}

/// The rolling message log.
pub struct GameLog {
    pub entries: Vec<LogEntry>,
}

/// `b` is `a` with entries added at the end.
#[verifier::opaque]
pub open spec fn log_extends(a: Seq<LogEntry>, b: Seq<LogEntry>) -> bool {
    a.len() <= b.len() && b.take(a.len() as int) == a
}

/// Adding entries extends a log, and so does adding none.
pub proof fn lemma_log_extends(a: Seq<LogEntry>, extra: Seq<LogEntry>)
    ensures
        log_extends(a, a + extra),
        log_extends(a, a),
{
    reveal(log_extends);
    assert((a + extra).take(a.len() as int) =~= a);
    assert(a.take(a.len() as int) =~= a);
}

/// The events that `f` gives for the indices below `n`, in order.
pub open spec fn events_upto(f: spec_fn(int) -> Seq<LogEntry>, n: int) -> Seq<LogEntry>
    decreases n,
{
    if n <= 0 {
        seq![]
    } else {
        events_upto(f, n - 1) + f(n - 1)
    }
}

} // verus!
