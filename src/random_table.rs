use vstd::prelude::*;

use crate::random::roll_die;

verus! {

/// What a spawn roll can produce.
#[derive(Clone, Copy, Debug, PartialEq, Eq, Structural)]
pub enum SpawnKind {
    Goblin,
    Orc,
    HealthPotion,
    FireballScroll,
    ConfusionScroll,
    MagicMissileScroll,
}

#[derive(Clone, Copy, Debug, PartialEq, Eq, Structural)]
pub struct RandomEntry {
    pub kind: SpawnKind,
    pub weight: i32,
}

/// A weighted table: each entry is drawn in proportion to its weight.
pub struct RandomTable {
    pub entries: Vec<RandomEntry>,
    pub total_weight: i32,
}

pub open spec fn weight_sum(entries: Seq<RandomEntry>) -> int
    decreases entries.len(),
{
    if entries.len() == 0 {
        0
    } else {
        weight_sum(entries.drop_last()) + entries.last().weight
    }
}

/// The entry that a roll in `0..total_weight` lands on: the first whose
/// running weight passes the roll.
pub open spec fn pick(entries: Seq<RandomEntry>, roll: int) -> Option<SpawnKind>
    decreases entries.len(),
{
    if entries.len() == 0 {
        None
    } else if roll < entries[0].weight {
        Some(entries[0].kind)
    } else {
        pick(entries.subrange(1, entries.len() as int), roll - entries[0].weight)
    }
}

impl RandomTable {
    /// Every weight is positive and the total is their sum.
    pub open spec fn wf(&self) -> bool {
        &&& forall|k: int| 0 <= k < self.entries@.len() ==> (#[trigger] self.entries@[k]).weight > 0
        &&& self.total_weight == weight_sum(self.entries@)
    }

    pub fn new() -> (t: RandomTable)
        ensures
            t.wf(),
            t.entries@.len() == 0,
    {
        RandomTable { entries: Vec::new(), total_weight: 0 }
    }

    /// Adds `kind` with `weight`; a weight that is not positive, or that
    /// would take the total past `i32::MAX`, adds nothing.
    pub fn add(self, kind: SpawnKind, weight: i32) -> (t: RandomTable)
        requires
            self.wf(),
        ensures
            t.wf(),
            t.entries@ == if weight > 0 && self.total_weight + weight <= i32::MAX {
                self.entries@.push(RandomEntry { kind, weight })
            } else {
                self.entries@
            },
    {
        let mut t = self;
        if weight > 0 && t.total_weight as i64 + weight as i64 <= i32::MAX as i64 {
            let ghost old_entries = t.entries@;
            t.entries.push(RandomEntry { kind, weight });
            t.total_weight = t.total_weight + weight;
            proof {
                assert(t.entries@.drop_last() =~= old_entries);
            }
        }
        t
    }

    /// The entry that `roll` lands on.
    pub fn pick_entry(&self, roll: i32) -> (r: Option<SpawnKind>)
        requires
            self.wf(),
            0 <= roll,
        ensures
            r == pick(self.entries@, roll as int),
    {
        let mut rest: i64 = roll as i64;
        let mut k: usize = 0;
        assert(self.entries@.subrange(0, self.entries@.len() as int) =~= self.entries@);
        while k < self.entries.len()
            invariant
                k <= self.entries@.len(),
                self.wf(),
                0 <= rest <= roll,
                pick(self.entries@, roll as int) == pick(self.entries@.subrange(k as int, self.entries@.len() as int), rest as int),
            decreases self.entries@.len() - k,
        {
            let e = self.entries[k];
            let ghost sub = self.entries@.subrange(k as int, self.entries@.len() as int);
            assert(sub[0] == e);
            assert(sub.subrange(1, sub.len() as int) =~= self.entries@.subrange(k as int + 1, self.entries@.len() as int));
            if rest < e.weight as i64 {
                return Some(e.kind);
            }
            rest = rest - e.weight as i64;
            k = k + 1;
        }
        None
    }

    /// Draws an entry; `None` only when the table is empty.
    pub fn roll(&self, rng: &mut rltk::RandomNumberGenerator) -> (r: Option<SpawnKind>)
        requires
            self.wf(),
        ensures
            self.total_weight == 0 ==> r is None,
            self.total_weight > 0 ==> exists|n: int| 0 <= n < self.total_weight && r == pick(self.entries@, n),
    {
        if self.total_weight <= 0 {
            return None;
        }
        let die = if self.total_weight == i32::MAX { i32::MAX - 1 } else { self.total_weight };
        let n = roll_die(rng, die) - 1;
        self.pick_entry(n)
    }
}

} // verus!
