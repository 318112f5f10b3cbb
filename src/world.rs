use vstd::prelude::*;

use crate::components::{
    AreaOfEffect, BlocksCell, CombatStats, Consumable, Damage, DesiresAcquireItem, DesiresDropItem,
    DesiresMelee, DesiresUseItem, Enemy, Entity, InInventory, InflictsDamage, Item, Name, Player,
    Position, ProvidesHealing, Ranged, Renderable, StatusEffect, Viewshed,
};
use crate::geometry::Point;
use crate::log::GameLog;

verus! {

/// Every component an entity may carry; `None` where it has none of a kind.
pub struct EntityRecord {
    pub position: Option<Position>,
    pub renderable: Option<Renderable>,
    pub viewshed: Option<Viewshed>,
    pub player: Option<Player>,
    pub enemy: Option<Enemy>,
    pub name: Option<Name>,
    pub blocks_cell: Option<BlocksCell>,
    pub combat_stats: Option<CombatStats>,
    pub desires_melee: Option<DesiresMelee>,
    pub damage: Option<Damage>,
    pub item: Option<Item>,
    pub in_inventory: Option<InInventory>,
    pub desires_acquire_item: Option<DesiresAcquireItem>,
    pub desires_use_item: Option<DesiresUseItem>,
    pub desires_drop_item: Option<DesiresDropItem>,
    pub consumable: Option<Consumable>,
    pub provides_healing: Option<ProvidesHealing>,
    pub ranged: Option<Ranged>,
    pub inflicts_damage: Option<InflictsDamage>,
    pub area_of_effect: Option<AreaOfEffect>,
    pub status_effect: Option<StatusEffect>,
}

impl EntityRecord {
    /// A record with no components.
    pub fn new() -> (r: EntityRecord)
        ensures
            r == EntityRecord::empty(),
    {
        EntityRecord {
            position: None,
            renderable: None,
            viewshed: None,
            player: None,
            enemy: None,
            name: None,
            blocks_cell: None,
            combat_stats: None,
            desires_melee: None,
            damage: None,
            item: None,
            in_inventory: None,
            desires_acquire_item: None,
            desires_use_item: None,
            desires_drop_item: None,
            consumable: None,
            provides_healing: None,
            ranged: None,
            inflicts_damage: None,
            area_of_effect: None,
            status_effect: None,
        }
    }

    pub open spec fn empty() -> EntityRecord {
        EntityRecord {
            position: None,
            renderable: None,
            viewshed: None,
            player: None,
            enemy: None,
            name: None,
            blocks_cell: None,
            combat_stats: None,
            desires_melee: None,
            damage: None,
            item: None,
            in_inventory: None,
            desires_acquire_item: None,
            desires_use_item: None,
            desires_drop_item: None,
            consumable: None,
            provides_healing: None,
            ranged: None,
            inflicts_damage: None,
            area_of_effect: None,
            status_effect: None,
        }
    }
}

/// The entity/component store: slot `i` holds the components of the entity
/// with id `i`, or `None` once it has been deleted.
pub struct World {
    pub entities: Vec<Option<EntityRecord>>,
    /// Entities to delete at the next maintenance point.
    pub pending_deletions: Vec<Entity>,
    pub player: Entity,
    pub player_pos: Point,
    pub log: GameLog,
}

/// `b` is `a` with every queued entity deleted.
pub open spec fn maintain_post(a: World, b: World) -> bool {
&&& b.pending_deletions@.len() == 0
&&& b.entities@.len() == a.entities@.len()
&&& forall|i: int|
    0 <= i < a.entities@.len() ==> #[trigger] b.entities@[i] == if a.pending_deletions@.contains(Entity { id: i as usize }) {
        None
    } else {
        a.entities@[i]
    }
&&& b.player == a.player
&&& b.player_pos == a.player_pos
&&& b.log == a.log
}

impl World {
    /// A world with no entities; `player` is set once the player is spawned.
    pub fn new() -> (w: World)
        ensures
            w.entities@.len() == 0,
            w.pending_deletions@.len() == 0,
            w.log.entries@.len() == 0,
    {
        World {
            entities: Vec::new(),
            pending_deletions: Vec::new(),
            player: Entity { id: 0 },
            player_pos: Point { x: 0, y: 0 },
            log: GameLog { entries: Vec::new() },
        }
    }

    pub open spec fn live(&self, e: Entity) -> bool {
        e.id < self.entities@.len() && self.entities@[e.id as int] is Some
    }

    pub open spec fn rec(&self, e: Entity) -> EntityRecord {
        self.entities@[e.id as int]->Some_0
    }

    /// Whether `e` names an entity that has not been deleted.
    pub fn is_live(&self, e: Entity) -> (r: bool)
        ensures
            r == self.live(e),
    {
        e.id < self.entities.len() && self.entities[e.id].is_some()
    }

    /// Adds an entity with the given components.
    pub fn spawn(&mut self, rec: EntityRecord) -> (e: Entity)
        ensures
            e.id == old(self).entities@.len(),
            final(self).entities@ == old(self).entities@.push(Some(rec)),
            final(self).pending_deletions == old(self).pending_deletions,
            final(self).player == old(self).player,
            final(self).player_pos == old(self).player_pos,
            final(self).log == old(self).log,
    {
        let id = self.entities.len();
        self.entities.push(Some(rec));
        Entity { id }
    }

    /// Takes the record out of slot `i`, leaving it empty.
    pub(crate) fn take_slot(&mut self, i: usize) -> (r: Option<EntityRecord>)
        requires
            i < old(self).entities@.len(),
        ensures
            r == old(self).entities@[i as int],
            final(self).entities@ == old(self).entities@.update(i as int, None),
            final(self).pending_deletions == old(self).pending_deletions,
            final(self).player == old(self).player,
            final(self).player_pos == old(self).player_pos,
            final(self).log == old(self).log,
    {
        let mut slot: Option<EntityRecord> = None;
        std::mem::swap(&mut slot, &mut self.entities[i]);
        slot
    }

    /// Queues `e` for deletion at the next `maintain`.
    pub fn delete_later(&mut self, e: Entity)
        ensures
            final(self).pending_deletions@ == old(self).pending_deletions@.push(e),
            final(self).entities == old(self).entities,
            final(self).player == old(self).player,
            final(self).player_pos == old(self).player_pos,
            final(self).log == old(self).log,
    {
        self.pending_deletions.push(e);
    }


    /// Deletes every queued entity.
    pub fn maintain(&mut self)
        ensures
            maintain_post(*old(self), *final(self)),
    {
        let n = self.pending_deletions.len();
        let mut k: usize = 0;
        while k < n
            invariant
                k <= n,
                n == self.pending_deletions@.len(),
                self.pending_deletions == old(self).pending_deletions,
                self.entities@.len() == old(self).entities@.len(),
                forall|i: int|
                    0 <= i < old(self).entities@.len() ==> #[trigger] self.entities@[i] == if old(
                        self,
                    ).pending_deletions@.take(k as int).contains(Entity { id: i as usize }) {
                        None
                    } else {
                        old(self).entities@[i]
                    },
                self.player == old(self).player,
                self.player_pos == old(self).player_pos,
                self.log == old(self).log,
            decreases n - k,
        {
            let e = self.pending_deletions[k];
            let ghost pd = old(self).pending_deletions@;
            if e.id < self.entities.len() {
                self.entities.set(e.id, None);
            }
            proof {
                assert(pd.take(k as int + 1) =~= pd.take(k as int).push(e));
                assert forall|i: int| 0 <= i < old(self).entities@.len() implies #[trigger] self.entities@[i] == if pd.take(k as int + 1).contains(Entity { id: i as usize }) {
                    None
                } else {
                    old(self).entities@[i]
                } by {
                    if i == e.id {
                        assert(pd.take(k as int + 1)[k as int] == e);
                    } else {
                        if pd.take(k as int + 1).contains(Entity { id: i as usize }) {
                            let j = choose|j: int| 0 <= j < k + 1 && #[trigger] pd.take(k as int + 1)[j] == Entity { id: i as usize };
                            assert(j != k);
                            assert(pd.take(k as int)[j] == Entity { id: i as usize });
                        }
                    }
                }
            }
            k = k + 1;
        }
        proof {
            assert(old(self).pending_deletions@.take(n as int) =~= old(self).pending_deletions@);
        }
        self.pending_deletions = Vec::new();
    }
}

} // verus!
