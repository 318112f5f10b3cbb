use vstd::prelude::*;

use crate::components::{
    CombatStats, Damage, DesiresAcquireItem, DesiresDropItem, DesiresUseItem, Entity, InInventory,
    InflictsDamage, Position, ProvidesHealing, StatusEffect,
};
use crate::geometry::Point;
use crate::systems::visibility::fov_rel;
use crate::map::GameMap;
use crate::systems::damage::clamp_i32;
use crate::systems::melee_combat::{damage_added, damage_view};
use crate::log::{events_upto, lemma_log_extends, log_extends, LogEntry};
use crate::world::{EntityRecord, World};

verus! {

/// Hit points after healing by `amount`, never above `max_hp`.
pub open spec fn healed_hp(hp: int, max_hp: int, amount: int) -> int {
    clamp_i32(if max_hp <= hp + amount { max_hp } else { hp + amount })
}

/// The cell lies inside the grid's one-cell border.
pub open spec fn point_inside(w: int, h: int) -> spec_fn(Point) -> bool {
    |p: Point| 0 < p.x < w - 1 && 0 < p.y < h - 1
}

pub open spec fn no_duplicates(s: Seq<Entity>) -> bool {
    forall|a: int, b: int| 0 <= a < b < s.len() ==> s[a] != s[b]
}

/// The entities that an item used with `target` reaches: the user alone
/// when there is no target cell; otherwise whoever stands on the target cell,
/// or, for an item with a blast `radius`, on any cell of `blast`.
pub open spec fn reached(
    m: GameMap,
    user: Entity,
    target: Option<Point>,
    radius: Option<i32>,
    blast: Seq<Point>,
    e: Entity,
) -> bool {
    match target {
        None => e == user,
        Some(t) => match radius {
            None => m.in_bounds(t.x as int, t.y as int) && m.cell_content@[m.idx(
                t.x as int,
                t.y as int,
            )]@.contains(e),
            Some(_) => exists|k: int|
                0 <= k < blast.len() && m.cell_content@[m.idx(
                    (#[trigger] blast[k]).x as int,
                    blast[k].y as int,
                )]@.contains(e),
        },
    }
}

/// The effects an item carries, read before it is used.
pub struct ItemEffects {
    pub healing: Option<ProvidesHealing>,
    pub damage: Option<InflictsDamage>,
    pub status: Option<StatusEffect>,
}

/// Healing changes the hit points of this record.
pub open spec fn heals(r: EntityRecord, fx: ItemEffects) -> bool {
    fx.healing is Some && r.combat_stats is Some && healed_hp(
        r.combat_stats->Some_0.hp as int,
        r.combat_stats->Some_0.max_hp as int,
        fx.healing->Some_0.heal_amount as int,
    ) != r.combat_stats->Some_0.hp
}

/// The two records differ at most in hit points, damage, status effect and
/// use intent.
pub open spec fn same_but_use(a: EntityRecord, b: EntityRecord) -> bool {
    EntityRecord { combat_stats: None, damage: None, status_effect: None, desires_use_item: None, ..a }
        == EntityRecord {
        combat_stats: None,
        damage: None,
        status_effect: None,
        desires_use_item: None,
        ..b
    }
}

/// The two records differ at most in hit points, damage and status effect.
pub open spec fn same_but_effects(a: EntityRecord, b: EntityRecord) -> bool {
    EntityRecord { combat_stats: None, damage: None, status_effect: None, ..a } == EntityRecord {
        combat_stats: None,
        damage: None,
        status_effect: None,
        ..b
    }
}

/// A target after the item's healing, then damage, then status effect.
pub open spec fn affected(o: EntityRecord, n: EntityRecord, fx: ItemEffects) -> bool {
    &&& same_but_effects(o, n)
    &&& n.combat_stats == match (o.combat_stats, fx.healing) {
        (Some(s), Some(h)) => Some(
            CombatStats { hp: healed_hp(s.hp as int, s.max_hp as int, h.heal_amount as int) as i32, ..s },
        ),
        _ => o.combat_stats,
    }
    &&& damage_view(n.damage) == match fx.damage {
        Some(d) => damage_added(damage_view(o.damage), seq![d.damage]),
        None => damage_view(o.damage),
    }
    &&& n.status_effect == match fx.status {
        Some(s) => Some(s),
        None => o.status_effect,
    }
}

impl ItemEffects {
    pub open spec fn any_effect(&self) -> bool {
        self.healing is Some || self.damage is Some || self.status is Some
    }
}

/// The log lines for the effects of `item` on target `t`, when `logged`:
/// healing that changed its hit points, damage, a status effect.
pub open spec fn item_events(
    slots: Seq<Option<EntityRecord>>,
    t: Entity,
    fx: ItemEffects,
    item: Entity,
    logged: bool,
) -> Seq<LogEntry> {
    if logged && t.id < slots.len() && slots[t.id as int] is Some {
        let r = slots[t.id as int]->Some_0;
        (if heals(r, fx) {
            seq![LogEntry::Healed { item, target: t, amount: fx.healing->Some_0.heal_amount }]
        } else {
            seq![]
        }) + (if fx.damage is Some {
            seq![LogEntry::ItemDamage { item, target: t, amount: fx.damage->Some_0.damage }]
        } else {
            seq![]
        }) + (if fx.status is Some {
            seq![LogEntry::Afflicted { item, target: t }]
        } else {
            seq![]
        })
    } else {
        seq![]
    }
}

/// Applies the item's effects to each target in turn; returns whether an
/// effect took hold anywhere: healing that changed someone's hit points, or
/// damage or a status effect on at least one live target.
pub fn apply_item_effects(
    world: &mut World,
    targets: &Vec<Entity>,
    fx: &ItemEffects,
    item: Entity,
    logged: bool,
) -> (used: bool)
    requires
        no_duplicates(targets@),
    ensures
        final(world).entities@.len() == old(world).entities@.len(),
        forall|j: int|
            0 <= j < old(world).entities@.len() ==> {
                let o = old(world).entities@[j];
                let n = #[trigger] final(world).entities@[j];
                if o is Some && targets@.contains(Entity { id: j as usize }) {
                    n is Some && affected(o->Some_0, n->Some_0, *fx)
                } else {
                    n == o
                }
            },
        used == exists|j: int|
            0 <= j < old(world).entities@.len() && #[trigger] old(world).entities@[j] is Some
                && targets@.contains(Entity { id: j as usize }) && (heals(
                old(world).entities@[j]->Some_0,
                *fx,
            ) || fx.damage is Some || fx.status is Some),
        final(world).pending_deletions == old(world).pending_deletions,
        final(world).player == old(world).player,
        final(world).player_pos == old(world).player_pos,
        final(world).log.entries@ == old(world).log.entries@ + events_upto(
            |k: int| item_events(old(world).entities@, targets@[k], *fx, item, logged),
            targets@.len() as int,
        ),
{
    let ghost s0 = world.entities@;
    let ghost f = |k: int| item_events(old(world).entities@, targets@[k], *fx, item, logged);
    let n = world.entities.len();
    let mut used = false;
    let mut k: usize = 0;
    while k < targets.len()
        invariant
            k <= targets@.len(),
            no_duplicates(targets@),
            n == s0.len(),
            s0 == old(world).entities@,
            world.entities@.len() == n,
            forall|j: int|
                0 <= j < n ==> {
                    let o = s0[j];
                    let w = #[trigger] world.entities@[j];
                    if o is Some && targets@.take(k as int).contains(Entity { id: j as usize }) {
                        w is Some && affected(o->Some_0, w->Some_0, *fx)
                    } else {
                        w == o
                    }
                },
            used == exists|j: int|
                0 <= j < n && #[trigger] s0[j] is Some && targets@.take(k as int).contains(
                    Entity { id: j as usize },
                ) && (heals(s0[j]->Some_0, *fx) || fx.damage is Some || fx.status is Some),
            world.pending_deletions == old(world).pending_deletions,
            world.player == old(world).player,
            world.player_pos == old(world).player_pos,
            f == (|k2: int| item_events(old(world).entities@, targets@[k2], *fx, item, logged)),
            world.log.entries@ == old(world).log.entries@ + events_upto(f, k as int),
        decreases targets@.len() - k,
    {
        let t = targets[k];
        let ghost before = world.entities@;
        let ghost used_before = used;
        proof {
            assert(targets@.take(k as int + 1) =~= targets@.take(k as int).push(t));
            assert(!targets@.take(k as int).contains(t)) by {
                if targets@.take(k as int).contains(t) {
                    let a = choose|a: int| 0 <= a < k && #[trigger] targets@.take(k as int)[a] == t;
                    assert(targets@[a] == targets@[k as int]);
                }
            }
        }
        if t.id < n {
            let slot = world.take_slot(t.id);
            match slot {
                Some(mut rec) => {
                    let ghost r0 = rec;
                    let r0_stats = rec.combat_stats;
                    let mut healed_changed = false;
                    if let (Some(stats), Some(h)) = (rec.combat_stats, fx.healing) {
                        let raised: i64 = stats.hp as i64 + h.heal_amount as i64;
                        let capped: i64 = if stats.max_hp as i64 <= raised { stats.max_hp as i64 } else { raised };
                        let hp: i32 = if capped < i32::MIN as i64 { i32::MIN } else { capped as i32 };
                        if hp != stats.hp {
                            used = true;
                            healed_changed = true;
                        }
                        rec.combat_stats = Some(CombatStats { hp, ..stats });
                    }
                    if let Some(d) = fx.damage {
                        let ghost before_dmg = damage_view(rec.damage);
                        Damage::new_damage(&mut rec.damage, d.damage);
                        proof {
                            if before_dmg is Some {
                                assert(before_dmg->Some_0 + seq![d.damage] =~= before_dmg->Some_0.push(d.damage));
                            }
                        }
                        used = true;
                    }
                    match &fx.status {
                        Some(s) => {
                            rec.status_effect = Some(s.duplicate());
                            used = true;
                        },
                        None => {},
                    }
                    proof {
                        assert(affected(r0, rec, *fx));
                    }
                    world.entities.set(t.id, Some(rec));
                    if logged {
                        if let (Some(stats), Some(h)) = (r0_stats, fx.healing) {
                            if healed_changed {
                                world.log.entries.push(LogEntry::Healed { item, target: t, amount: h.heal_amount });
                            }
                        }
                        if let Some(d) = fx.damage {
                            world.log.entries.push(LogEntry::ItemDamage { item, target: t, amount: d.damage });
                        }
                        if fx.status.is_some() {
                            world.log.entries.push(LogEntry::Afflicted { item, target: t });
                        }
                    }
                },
                None => {
                    world.entities.set(t.id, None);
                },
            }
        }
        proof {
            assert(events_upto(f, k as int + 1) == events_upto(f, k as int) + f(k as int));
            assert(world.log.entries@ =~= old(world).log.entries@ + events_upto(f, k as int + 1));
            assert forall|j: int| 0 <= j < n implies {
                let o = s0[j];
                let w = #[trigger] world.entities@[j];
                if o is Some && targets@.take(k as int + 1).contains(Entity { id: j as usize }) {
                    w is Some && affected(o->Some_0, w->Some_0, *fx)
                } else {
                    w == o
                }
            } by {
                if j == t.id {
                    assert(targets@.take(k as int + 1)[k as int] == t);
                    assert(before[j] == s0[j]);
                } else {
                    assert(world.entities@[j] == before[j]);
                    if targets@.take(k as int + 1).contains(Entity { id: j as usize }) {
                        let a = choose|a: int| 0 <= a < k + 1 && #[trigger] targets@.take(k as int + 1)[a] == Entity { id: j as usize };
                        assert(a != k);
                        assert(targets@.take(k as int)[a] == Entity { id: j as usize });
                    }
                }
            }
            let p = |j: int| 0 <= j < n && s0[j] is Some && targets@.take(k as int + 1).contains(
                Entity { id: j as usize },
            ) && (heals(s0[j]->Some_0, *fx) || fx.damage is Some || fx.status is Some);
            if used {
                if used_before {
                    let j = choose|j: int|
                        0 <= j < n && #[trigger] s0[j] is Some && targets@.take(k as int).contains(
                            Entity { id: j as usize },
                        ) && (heals(s0[j]->Some_0, *fx) || fx.damage is Some || fx.status is Some);
                    let a = choose|a: int| 0 <= a < k && #[trigger] targets@.take(k as int)[a] == Entity { id: j as usize };
                    assert(targets@.take(k as int + 1)[a] == Entity { id: j as usize });
                    assert(p(j));
                } else {
                    assert(targets@.take(k as int + 1)[k as int] == t);
                    assert(p(t.id as int));
                }
            } else {
                assert forall|j: int| !#[trigger] p(j) by {
                    if p(j) {
                        let a = choose|a: int| 0 <= a < k + 1 && #[trigger] targets@.take(k as int + 1)[a] == Entity { id: j as usize };
                        if a < k {
                            assert(targets@.take(k as int)[a] == Entity { id: j as usize });
                        } else {
                            assert(j == t.id);
                        }
                    }
                }
            }
        }
        k = k + 1;
    }
    proof {
        assert(targets@.take(targets@.len() as int) =~= targets@);
    }
    used
}

impl StatusEffect {
    /// A copy of this effect.
    pub fn duplicate(&self) -> (r: StatusEffect)
        ensures
            r == *self,
    {
        StatusEffect { effect: self.effect, print_as: self.print_as.clone(), turns: self.turns }
    }
}

/// Adds each entity of `cell` that `r` does not hold yet.
fn add_occupants(r: &mut Vec<Entity>, cell: &Vec<Entity>)
    requires
        no_duplicates(old(r)@),
    ensures
        no_duplicates(final(r)@),
        forall|e: Entity| #[trigger] final(r)@.contains(e) == (old(r)@.contains(e) || cell@.contains(e)),
{
    let mut k: usize = 0;
    while k < cell.len()
        invariant
            k <= cell@.len(),
            no_duplicates(r@),
            forall|e: Entity| #[trigger] r@.contains(e) == (old(r)@.contains(e) || cell@.take(k as int).contains(e)),
        decreases cell@.len() - k,
    {
        let e = cell[k];
        proof {
            assert(cell@.take(k as int + 1) =~= cell@.take(k as int).push(e));
        }
        let mut present = false;
        let mut j: usize = 0;
        while j < r.len()
            invariant
                j <= r@.len(),
                present == exists|a: int| 0 <= a < j && r@[a] == e,
            decreases r@.len() - j,
        {
            if r[j] == e {
                present = true;
            }
            j = j + 1;
        }
        let ghost prev = r@;
        if !present {
            r.push(e);
        }
        proof {
            assert forall|x: Entity| #[trigger] r@.contains(x) == (old(r)@.contains(x) || cell@.take(
                k as int + 1,
            ).contains(x)) by {
                if cell@.take(k as int + 1).contains(x) && !cell@.take(k as int).contains(x) {
                    let a = choose|a: int| 0 <= a < k + 1 && #[trigger] cell@.take(k as int + 1)[a] == x;
                    if a < k {
                        assert(cell@.take(k as int)[a] == x);
                    }
                    assert(x == e);
                    if present {
                        let b = choose|b: int| 0 <= b < prev.len() && prev[b] == e;
                        assert(prev.contains(e));
                    } else {
                        assert(r@[prev.len() as int] == e);
                    }
                }
                if r@.contains(x) && !prev.contains(x) {
                    let b = choose|b: int| 0 <= b < r@.len() && #[trigger] r@[b] == x;
                    if b < prev.len() {
                        assert(prev[b] == x);
                    }
                    assert(x == e);
                    assert(cell@.take(k as int + 1)[k as int] == e);
                }
                if prev.contains(x) {
                    let b = choose|b: int| 0 <= b < prev.len() && #[trigger] prev[b] == x;
                    assert(r@[b] == x);
                }
            }
        }
        k = k + 1;
    }
    proof {
        assert(cell@.take(cell@.len() as int) =~= cell@);
    }
}

/// Keeps the cells inside the grid's one-cell border, in order.
fn keep_inside(points: &Vec<Point>, w: i32, h: i32) -> (r: Vec<Point>)
    ensures
        r@ == points@.filter(point_inside(w as int, h as int)),
{
    let ghost pred = point_inside(w as int, h as int);
    let mut r: Vec<Point> = Vec::new();
    let mut k: usize = 0;
    while k < points.len()
        invariant
            k <= points@.len(),
            pred == point_inside(w as int, h as int),
            r@ == points@.take(k as int).filter(pred),
        decreases points@.len() - k,
    {
        let p = points[k];
        proof {
            assert(points@.take(k as int + 1) =~= points@.take(k as int).push(p));
            points@.take(k as int).lemma_filter_push(p, pred);
        }
        if 0 < p.x && (p.x as i64) < w as i64 - 1 && 0 < p.y && (p.y as i64) < h as i64 - 1 {
            r.push(p);
        }
        k = k + 1;
    }
    proof {
        assert(points@.take(points@.len() as int) =~= points@);
    }
    r
}

/// The entities an item used by `user` with `target` reaches, each once; for
/// an item with a blast `radius`, `fov` gives the blast from the target cell,
/// kept inside the grid's border.
pub fn resolve_targets<F: Fn(&GameMap, Point, i32) -> Vec<Point>>(
    map: &GameMap,
    user: Entity,
    target: Option<Point>,
    radius: Option<i32>,
    fov: &F,
) -> (r: (Vec<Entity>, Vec<Point>))
    requires
        map.wf(),
        forall|m: &GameMap, p: Point, rr: i32| fov.requires((m, p, rr)),
    ensures
        no_duplicates(r.0@),
        (target is Some && radius is Some) ==> exists|raw: Vec<Point>|
            fov.ensures((map, target->Some_0, radius->Some_0), raw) && r.1@ == raw@.filter(
                point_inside(map.width as int, map.height as int),
            ),
        forall|e: Entity| #[trigger] r.0@.contains(e) == reached(*map, user, target, radius, r.1@, e),
{
    let mut r: Vec<Entity> = Vec::new();
    let mut cells: Vec<Point> = Vec::new();
    match target {
        None => {
            r.push(user);
            proof {
                assert forall|e: Entity| #[trigger] r@.contains(e) == reached(*map, user, target, radius, seq![], e) by {
                    if e == user {
                        assert(r@[0] == e);
                    }
                }
            }
        },
        Some(t) => {
            match radius {
                None => {
                    if 0 <= t.x && t.x < map.width && 0 <= t.y && t.y < map.height {
                        let idx = map.xy_idx(t.x, t.y);
                        add_occupants(&mut r, &map.cell_content[idx]);
                    }
                    proof {
                        assert forall|e: Entity| #[trigger] r@.contains(e) == reached(*map, user, target, radius, seq![], e) by {}
                    }
                },
                Some(rad) => {
                    let raw = fov(map, t, rad);
                    let blast = keep_inside(&raw, map.width, map.height);
                    proof {
                        assert forall|k2: int| 0 <= k2 < blast@.len() implies point_inside(map.width as int, map.height as int)(#[trigger] blast@[k2]) by {
                            raw@.lemma_filter_pred(point_inside(map.width as int, map.height as int), k2);
                        }
                    }
                    let mut k: usize = 0;
                    while k < blast.len()
                        invariant
                            k <= blast@.len(),
                            map.wf(),
                            no_duplicates(r@),
                            forall|k2: int| 0 <= k2 < blast@.len() ==> point_inside(map.width as int, map.height as int)(#[trigger] blast@[k2]),
                            forall|e: Entity| #[trigger] r@.contains(e) == exists|k2: int|
                                0 <= k2 < k && map.cell_content@[map.idx(
                                    (#[trigger] blast@[k2]).x as int,
                                    blast@[k2].y as int,
                                )]@.contains(e),
                        decreases blast@.len() - k,
                    {
                        let c = blast[k];
                        let idx = map.xy_idx(c.x, c.y);
                        let ghost prev = r@;
                        add_occupants(&mut r, &map.cell_content[idx]);
                        proof {
                            assert forall|e: Entity| #[trigger] r@.contains(e) == exists|k2: int|
                                0 <= k2 < k + 1 && map.cell_content@[map.idx(
                                    (#[trigger] blast@[k2]).x as int,
                                    blast@[k2].y as int,
                                )]@.contains(e) by {
                                if r@.contains(e) && !prev.contains(e) {
                                    assert(map.cell_content@[map.idx(blast@[k as int].x as int, blast@[k as int].y as int)]@.contains(e));
                                }
                                if exists|k2: int|
                                    0 <= k2 < k + 1 && map.cell_content@[map.idx(
                                        (#[trigger] blast@[k2]).x as int,
                                        blast@[k2].y as int,
                                    )]@.contains(e) {
                                    let k2 = choose|k2: int|
                                        0 <= k2 < k + 1 && map.cell_content@[map.idx(
                                            (#[trigger] blast@[k2]).x as int,
                                            blast@[k2].y as int,
                                        )]@.contains(e);
                                    if k2 < k {
                                        assert(prev.contains(e));
                                    }
                                }
                            }
                        }
                        k = k + 1;
                    }
                    proof {
                        assert(fov.ensures((map, t, rad), raw));
                        assert forall|e: Entity| #[trigger] r@.contains(e) == reached(*map, user, target, radius, blast@, e) by {}
                    }
                    cells = blast;
                },
            }
        },
    }
    (r, cells)
}

/// The use intent of slot `i`, if it is live and has one.
pub open spec fn use_intent_of(slots: Seq<Option<EntityRecord>>, i: int) -> Option<DesiresUseItem> {
    if 0 <= i < slots.len() && slots[i] is Some {
        slots[i]->Some_0.desires_use_item
    } else {
        None
    }
}

/// `e` names a live entity tagged as an item.
pub open spec fn is_item(slots: Seq<Option<EntityRecord>>, e: Entity) -> bool {
    e.id < slots.len() && slots[e.id as int] is Some && slots[e.id as int]->Some_0.item is Some
}

pub open spec fn effects_of(r: EntityRecord) -> ItemEffects {
    ItemEffects { healing: r.provides_healing, damage: r.inflicts_damage, status: r.status_effect }
}

pub open spec fn radius_of(r: EntityRecord) -> Option<i32> {
    match r.area_of_effect {
        Some(a) => Some(a.radius),
        None => None,
    }
}

/// `blast` is what the field of view `fovf` gives on `m` around the target
/// cell with the item's radius, kept inside the grid's border; it matters
/// only for an item with a radius used on a cell.
pub open spec fn blast_from(
    m: GameMap,
    target: Option<Point>,
    radius: Option<i32>,
    blast: Seq<Point>,
    fovf: spec_fn(GameMap, Point, i32, Vec<Point>) -> bool,
) -> bool {
    (target is Some && radius is Some) ==> exists|raw: Vec<Point>|
        fovf(m, target->Some_0, radius->Some_0, raw) && blast == raw@.filter(
            point_inside(m.width as int, m.height as int),
        )
}

/// Slot `i`'s use of an item with effects `fx` on the entities reached
/// through `blast`: reached records are affected, others keep everything but
/// slot `i`'s cleared intent, and the item is queued for deletion exactly
/// when it is consumable and some effect took hold.
pub open spec fn use_effects(
    a: Seq<Option<EntityRecord>>,
    pa: Seq<Entity>,
    b: Seq<Option<EntityRecord>>,
    pb: Seq<Entity>,
    i: int,
    m: GameMap,
    u: DesiresUseItem,
    fx: ItemEffects,
    radius: Option<i32>,
    blast: Seq<Point>,
    consumable: bool,
) -> bool {
    &&& b.len() == a.len()
    &&& forall|j: int|
        0 <= j < a.len() ==> {
            let o = a[j];
            let n = #[trigger] b[j];
            if o is None {
                n is None
            } else {
                let r = o->Some_0;
                let nr = n->Some_0;
                let kept = EntityRecord { desires_use_item: r.desires_use_item, ..nr };
                &&& n is Some
                &&& nr.desires_use_item == if j == i { None } else { r.desires_use_item }
                &&& if reached(m, Entity { id: i as usize }, u.target, radius, blast, Entity { id: j as usize }) {
                    affected(r, kept, fx)
                } else {
                    kept == r
                }
            }
        }
    &&& pb == if consumable && exists|j: int|
        0 <= j < a.len() && #[trigger] a[j] is Some && reached(
            m,
            Entity { id: i as usize },
            u.target,
            radius,
            blast,
            Entity { id: j as usize },
        ) && (heals(a[j]->Some_0, fx) || fx.damage is Some || fx.status is Some) {
        pa.push(u.item)
    } else {
        pa
    }
}

/// What carrying out slot `i`'s use intent does: nothing without an intent;
/// only clearing it when it names no live item; otherwise the item's
/// effects on what it reaches, as `use_effects` says.
#[verifier::opaque]
pub open spec fn use_step(
    a: Seq<Option<EntityRecord>>,
    pa: Seq<Entity>,
    b: Seq<Option<EntityRecord>>,
    pb: Seq<Entity>,
    i: int,
    m: GameMap,
    fovf: spec_fn(GameMap, Point, i32, Vec<Point>) -> bool,
) -> bool {
    match use_intent_of(a, i) {
        None => b == a && pb == pa,
        Some(u) => if !is_item(a, u.item) {
            b == a.update(i, Some(EntityRecord { desires_use_item: None, ..a[i]->Some_0 })) && pb == pa
        } else {
            let ir = a[u.item.id as int]->Some_0;
            exists|blast: Seq<Point>|
                #[trigger] blast_from(m, u.target, radius_of(ir), blast, fovf) && use_effects(
                    a,
                    pa,
                    b,
                    pb,
                    i,
                    m,
                    u,
                    effects_of(ir),
                    radius_of(ir),
                    blast,
                    ir.consumable is Some,
                )
        },
    }
}

/// `ws` runs from the first state to the last through one `use_step` per slot.
pub open spec fn use_chain(
    ws: Seq<(Seq<Option<EntityRecord>>, Seq<Entity>)>,
    m: GameMap,
    fovf: spec_fn(GameMap, Point, i32, Vec<Point>) -> bool,
) -> bool {
    forall|k: int|
        0 <= k < ws.len() - 1 ==> use_step(
            (#[trigger] ws[k]).0,
            ws[k].1,
            ws[k + 1].0,
            ws[k + 1].1,
            k,
            m,
            fovf,
        )
}

/// Carries out slot `i`'s use intent, as `use_step` says.
pub fn use_intent<F: Fn(&GameMap, Point, i32) -> Vec<Point>>(world: &mut World, map: &GameMap, i: usize, fov: &F)
    requires
        map.wf(),
        i < old(world).entities@.len(),
        forall|m: &GameMap, p: Point, rr: i32| fov.requires((m, p, rr)),
    ensures
        use_step(
            old(world).entities@,
            old(world).pending_deletions@,
            final(world).entities@,
            final(world).pending_deletions@,
            i as int,
            *map,
            fov_rel(fov),
        ),
        final(world).entities@.len() == old(world).entities@.len(),
        forall|j: int|
            0 <= j < old(world).entities@.len() ==> (#[trigger] final(world).entities@[j] is Some
                <==> old(world).entities@[j] is Some),
        forall|j: int|
            0 <= j < old(world).entities@.len() && #[trigger] final(world).entities@[j] is Some
                ==> same_but_use(old(world).entities@[j]->Some_0, final(world).entities@[j]->Some_0)
                && final(world).entities@[j]->Some_0.desires_use_item == if j == i {
                None
            } else {
                old(world).entities@[j]->Some_0.desires_use_item
            },
        old(world).pending_deletions@.len() <= final(world).pending_deletions@.len(),
        final(world).pending_deletions@.take(old(world).pending_deletions@.len() as int)
            == old(world).pending_deletions@,
        forall|k: int|
            old(world).pending_deletions@.len() <= k < final(world).pending_deletions@.len() ==> is_item(
                old(world).entities@,
                #[trigger] final(world).pending_deletions@[k],
            ),
        final(world).player == old(world).player,
        final(world).player_pos == old(world).player_pos,
        log_extends(old(world).log.entries@, final(world).log.entries@),
{
    let ghost a = world.entities@;
    let ghost pa = world.pending_deletions@;
    let ghost la = world.log.entries@;
    proof {
        lemma_log_extends(la, seq![]);
    }
    let ghost fovf = fov_rel(fov);
    let n = world.entities.len();
    let intent: Option<DesiresUseItem> = match &world.entities[i] {
        Some(rec) => rec.desires_use_item,
        None => None,
    };
    let u = match intent {
        Some(u) => u,
        None => {
            proof {
                reveal(use_step);
            }
            return;
        },
    };
    let item = u.item;
    let mut plan: Option<(ItemEffects, Option<i32>, bool)> = None;
    if item.id < n {
        match &world.entities[item.id] {
            Some(irec) => {
                if irec.item.is_some() {
                    let status = match &irec.status_effect {
                        Some(s) => Some(s.duplicate()),
                        None => None,
                    };
                    let fx = ItemEffects { healing: irec.provides_healing, damage: irec.inflicts_damage, status };
                    let radius = match irec.area_of_effect {
                        Some(ae) => Some(ae.radius),
                        None => None,
                    };
                    plan = Some((fx, radius, irec.consumable.is_some()));
                }
            },
            None => {},
        }
    }
    match plan {
        Some((fx, radius, consumable)) => {
            let ghost ir = a[item.id as int]->Some_0;
            assert(fx == effects_of(ir));
            assert(radius == radius_of(ir));
            let (targets, blast) = resolve_targets(map, Entity { id: i }, u.target, radius, fov);
            proof {
                assert(blast_from(*map, u.target, radius, blast@, fovf));
            }
            let logged = (Entity { id: i }) == world.player;
            let used = apply_item_effects(world, &targets, &fx, item, logged);
            proof {
                lemma_log_extends(la, world.log.entries@.subrange(la.len() as int, world.log.entries@.len() as int));
                assert(la + world.log.entries@.subrange(la.len() as int, world.log.entries@.len() as int) =~= world.log.entries@);
            }
            let ghost mid = world.entities@;
            match &mut world.entities[i] {
                Some(rec) => {
                    rec.desires_use_item = None;
                },
                None => {},
            }
            if used && consumable {
                world.delete_later(item);
            }
            proof {
                assert forall|j: int| 0 <= j < n && #[trigger] a[j] is Some implies targets@.contains(
                    Entity { id: j as usize },
                ) == reached(*map, Entity { id: i }, u.target, radius, blast@, Entity { id: j as usize }) by {}
                assert forall|j: int| 0 <= j < n implies {
                    let o = a[j];
                    let nn = #[trigger] world.entities@[j];
                    if o is None {
                        nn is None
                    } else {
                        let r = o->Some_0;
                        let nr = nn->Some_0;
                        let kept = EntityRecord { desires_use_item: r.desires_use_item, ..nr };
                        &&& nn is Some
                        &&& nr.desires_use_item == if j == i { None } else { r.desires_use_item }
                        &&& if reached(*map, Entity { id: i as usize }, u.target, radius, blast@, Entity { id: j as usize }) {
                            affected(r, kept, fx)
                        } else {
                            kept == r
                        }
                    }
                } by {
                    if j != i {
                        assert(world.entities@[j] == mid[j]);
                    } else {
                        assert(mid[j] is Some);
                        assert(EntityRecord { desires_use_item: a[j]->Some_0.desires_use_item, ..world.entities@[j]->Some_0 } == mid[j]->Some_0);
                    }
                }
                assert(use_effects(a, pa, world.entities@, world.pending_deletions@, i as int, *map, u, fx, radius, blast@, consumable));
                reveal(use_step);
                assert(use_step(a, pa, world.entities@, world.pending_deletions@, i as int, *map, fovf));
                assert(world.pending_deletions@.take(pa.len() as int) =~= pa);
                assert forall|j: int| 0 <= j < n && #[trigger] world.entities@[j] is Some implies same_but_use(
                    a[j]->Some_0,
                    world.entities@[j]->Some_0,
                ) by {
                    if j != i {
                        assert(world.entities@[j] == mid[j]);
                    }
                    if mid[j] != a[j] {
                        assert(same_but_effects(a[j]->Some_0, mid[j]->Some_0));
                    }
                }
            }
        },
        None => {
            match &mut world.entities[i] {
                Some(rec) => {
                    rec.desires_use_item = None;
                },
                None => {},
            }
            proof {
                reveal(use_step);
                assert(world.entities@ =~= a.update(i as int, Some(EntityRecord { desires_use_item: None, ..a[i as int]->Some_0 })));
            }
        },
    }
}

/// `b` is `a` after the pickup pass.
pub open spec fn pickup_post(a: World, b: World) -> bool {
    &&& b.entities@.len() == a.entities@.len()
    &&& forall|j: int|
        0 <= j < a.entities@.len() ==> (#[trigger] b.entities@[j] is Some
            <==> a.entities@[j] is Some)
    &&& forall|j: int|
        0 <= j < a.entities@.len() && #[trigger] b.entities@[j] is Some
            ==> b.entities@[j]->Some_0.desires_acquire_item is None
    &&& forall|i: int, j: int|
        0 <= i < a.entities@.len() && 0 <= j < a.entities@.len()
            && #[trigger] names_for_pickup(a.entities@, i, j) && a.entities@[j] is Some
            && (forall|k: int| i < k < a.entities@.len() ==> !#[trigger] names_for_pickup(a.entities@, k, j))
            ==> #[trigger] b.entities@[j]->Some_0.position is None
            && b.entities@[j]->Some_0.in_inventory == Some(
            InInventory { owner: a.entities@[i]->Some_0.desires_acquire_item->Some_0.acquired_by },
        )
    &&& forall|j: int|
        0 <= j < a.entities@.len() && a.entities@[j] is Some
            && (forall|i: int| 0 <= i < a.entities@.len() ==> !#[trigger] names_for_pickup(a.entities@, i, j))
            ==> #[trigger] b.entities@[j] == Some(
            EntityRecord { desires_acquire_item: None, ..a.entities@[j]->Some_0 },
        )
    &&& forall|j: int|
        0 <= j < a.entities@.len() && #[trigger] b.entities@[j] is Some
            ==> same_but_pickup(a.entities@[j]->Some_0, b.entities@[j]->Some_0)
    &&& b.pending_deletions == a.pending_deletions
    &&& b.player == a.player
    &&& b.player_pos == a.player_pos
}

/// `b` is `a` after the item-use pass on level `m`, with field of view `fovf`.
pub open spec fn use_post(a: World, b: World, m: GameMap, fovf: spec_fn(GameMap, Point, i32, Vec<Point>) -> bool) -> bool {
    &&& exists|ws: Seq<(Seq<Option<EntityRecord>>, Seq<Entity>)>|
        #[trigger] use_chain(ws, m, fovf)
            && ws.len() == a.entities@.len() + 1
            && ws[0] == (a.entities@, a.pending_deletions@)
            && ws.last() == (b.entities@, b.pending_deletions@)
    &&& b.entities@.len() == a.entities@.len()
    &&& forall|j: int|
        0 <= j < b.entities@.len() && #[trigger] b.entities@[j] is Some
            ==> b.entities@[j]->Some_0.desires_use_item is None
    &&& forall|j: int|
        0 <= j < b.entities@.len() ==> (#[trigger] b.entities@[j] is Some
            <==> a.entities@[j] is Some)
    &&& forall|j: int|
        0 <= j < b.entities@.len() && #[trigger] b.entities@[j] is Some
            ==> same_but_use(a.entities@[j]->Some_0, b.entities@[j]->Some_0)
    &&& a.pending_deletions@.len() <= b.pending_deletions@.len()
    &&& b.pending_deletions@.take(a.pending_deletions@.len() as int)
        == a.pending_deletions@
    &&& forall|k: int|
        a.pending_deletions@.len() <= k < b.pending_deletions@.len() ==> is_item(
            b.entities@,
            #[trigger] b.pending_deletions@[k],
        )
    &&& b.player == a.player
    &&& b.player_pos == a.player_pos
    &&& log_extends(a.log.entries@, b.log.entries@)
}

pub struct ItemUseSystem {}

impl ItemUseSystem {
    /// Carries out every use intent in slot order, one `use_step` per slot:
    /// the item's healing, damage and status effect reach the entities that
    /// `resolve_targets` gives on this level, and a consumable item that took
    /// effect anywhere is queued for deletion. Intents naming no live item are
    /// dropped. Every use intent ends cleared.
    pub fn run<F: Fn(&GameMap, Point, i32) -> Vec<Point>>(&mut self, world: &mut World, map: &GameMap, fov: &F)
        requires
            map.wf(),
            forall|m: &GameMap, p: Point, rr: i32| fov.requires((m, p, rr)),
        ensures
            use_post(*old(world), *final(world), *map, fov_rel(fov)),
    {
        let ghost fovf = fov_rel(fov);
        let ghost mut ws: Seq<(Seq<Option<EntityRecord>>, Seq<Entity>)> = seq![(world.entities@, world.pending_deletions@)];
        proof {
            lemma_log_extends(world.log.entries@, seq![]);
        }
        let n = world.entities.len();
        let mut i: usize = 0;
        while i < n
            invariant
                i <= n,
                n == world.entities@.len(),
                n == old(world).entities@.len(),
                map.wf(),
                forall|m: &GameMap, p: Point, rr: i32| fov.requires((m, p, rr)),
                fovf == fov_rel(fov),
                ws.len() == i + 1,
                ws[0] == (old(world).entities@, old(world).pending_deletions@),
                ws.last() == (world.entities@, world.pending_deletions@),
                use_chain(ws, *map, fovf),
                forall|j: int|
                    0 <= j < i && #[trigger] world.entities@[j] is Some
                        ==> world.entities@[j]->Some_0.desires_use_item is None,
                forall|j: int|
                    0 <= j < n ==> (#[trigger] world.entities@[j] is Some <==> old(world).entities@[j] is Some),
                forall|j: int|
                    0 <= j < n && #[trigger] world.entities@[j] is Some
                        ==> same_but_use(old(world).entities@[j]->Some_0, world.entities@[j]->Some_0),
                old(world).pending_deletions@.len() <= world.pending_deletions@.len(),
                world.pending_deletions@.take(old(world).pending_deletions@.len() as int)
                    == old(world).pending_deletions@,
                forall|k: int|
                    old(world).pending_deletions@.len() <= k < world.pending_deletions@.len() ==> is_item(
                        world.entities@,
                        #[trigger] world.pending_deletions@[k],
                    ),
                world.player == old(world).player,
                world.player_pos == old(world).player_pos,
                log_extends(old(world).log.entries@, world.log.entries@),
            decreases n - i,
        {
            let ghost before = world.entities@;
            let ghost pbefore = world.pending_deletions@;
            let ghost log_before = world.log.entries@;
            use_intent(world, map, i, fov);
            proof {
                reveal(log_extends);
                assert(world.log.entries@.take(old(world).log.entries@.len() as int)
                    =~= log_before.take(old(world).log.entries@.len() as int));
                let ws2 = ws.push((world.entities@, world.pending_deletions@));
                assert forall|k: int| 0 <= k < ws2.len() - 1 implies use_step(
                    (#[trigger] ws2[k]).0,
                    ws2[k].1,
                    ws2[k + 1].0,
                    ws2[k + 1].1,
                    k,
                    *map,
                    fovf,
                ) by {
                    if k < i {
                        assert(ws2[k] == ws[k]);
                        assert(ws2[k + 1] == ws[k + 1]);
                        assert(use_step(ws[k].0, ws[k].1, ws[k + 1].0, ws[k + 1].1, k, *map, fovf));
                    } else {
                        assert(ws2[k] == (before, pbefore));
                    }
                }
                ws = ws2;
                assert forall|j: int| 0 <= j < n && #[trigger] world.entities@[j] is Some implies same_but_use(
                    old(world).entities@[j]->Some_0,
                    world.entities@[j]->Some_0,
                ) by {
                    assert(same_but_use(old(world).entities@[j]->Some_0, before[j]->Some_0));
                    assert(same_but_use(before[j]->Some_0, world.entities@[j]->Some_0));
                }
                assert forall|k: int|
                    old(world).pending_deletions@.len() <= k < world.pending_deletions@.len() implies is_item(
                        world.entities@,
                        #[trigger] world.pending_deletions@[k],
                    ) by {
                    let e = world.pending_deletions@[k];
                    if k < pbefore.len() {
                        assert(world.pending_deletions@.take(pbefore.len() as int)[k] == pbefore[k]);
                        assert(is_item(before, e));
                    } else {
                        assert(is_item(before, e));
                    }
                    assert(before[e.id as int] is Some);
                    assert(same_but_use(before[e.id as int]->Some_0, world.entities@[e.id as int]->Some_0));
                }
                assert(world.pending_deletions@.take(old(world).pending_deletions@.len() as int)
                    =~= pbefore.take(old(world).pending_deletions@.len() as int));
            }
            i = i + 1;
        }
    }
}

/// Slot `i` asks to pick up the entity with id `j`.
pub open spec fn names_for_pickup(slots: Seq<Option<EntityRecord>>, i: int, j: int) -> bool {
    slots[i] is Some && slots[i]->Some_0.desires_acquire_item is Some
        && slots[i]->Some_0.desires_acquire_item->Some_0.item.id == j
}

/// Slot `i` asks to drop the entity with id `j`.
pub open spec fn names_for_drop(slots: Seq<Option<EntityRecord>>, i: int, j: int) -> bool {
    slots[i] is Some && slots[i]->Some_0.desires_drop_item is Some
        && slots[i]->Some_0.desires_drop_item->Some_0.item.id == j
}

/// The records differ at most in place (position, inventory) and pickup intent.
pub open spec fn same_but_pickup(a: EntityRecord, b: EntityRecord) -> bool {
    EntityRecord { position: None, in_inventory: None, desires_acquire_item: None, ..a } == EntityRecord {
        position: None,
        in_inventory: None,
        desires_acquire_item: None,
        ..b
    }
}

/// The records differ at most in place (position, inventory) and drop intent.
pub open spec fn same_but_drop(a: EntityRecord, b: EntityRecord) -> bool {
    EntityRecord { position: None, in_inventory: None, desires_drop_item: None, ..a } == EntityRecord {
        position: None,
        in_inventory: None,
        desires_drop_item: None,
        ..b
    }
}

/// Puts the item in slot `j` at `position` and in `holder`'s hands.
fn place_item(world: &mut World, j: usize, position: Option<Position>, holder: Option<InInventory>)
    requires
        j < old(world).entities@.len(),
    ensures
        final(world).entities@.len() == old(world).entities@.len(),
        forall|k: int| 0 <= k < old(world).entities@.len() && k != j ==> #[trigger] final(world).entities@[k] == old(world).entities@[k],
        final(world).entities@[j as int] == match old(world).entities@[j as int] {
            Some(r) => Some(EntityRecord { position, in_inventory: holder, ..r }),
            None => None,
        },
        final(world).pending_deletions == old(world).pending_deletions,
        final(world).player == old(world).player,
        final(world).player_pos == old(world).player_pos,
        final(world).log == old(world).log,
{
    match &mut world.entities[j] {
        Some(rec) => {
            rec.position = position;
            rec.in_inventory = holder;
        },
        None => {},
    }
}

/// `b` is `a` after the drop pass.
pub open spec fn drop_post(a: World, b: World) -> bool {
    &&& b.entities@.len() == a.entities@.len()
    &&& forall|j: int|
        0 <= j < a.entities@.len() ==> (#[trigger] b.entities@[j] is Some
            <==> a.entities@[j] is Some)
    &&& forall|j: int|
        0 <= j < a.entities@.len() && #[trigger] b.entities@[j] is Some
            ==> b.entities@[j]->Some_0.desires_drop_item is None
    &&& forall|i: int, j: int|
        0 <= i < a.entities@.len() && 0 <= j < a.entities@.len()
            && #[trigger] names_for_drop(a.entities@, i, j) && a.entities@[j] is Some
            && a.entities@[i]->Some_0.position is Some ==> #[trigger] b.entities@[j]->Some_0.position is Some
            && b.entities@[j]->Some_0.in_inventory is None
    &&& forall|j: int|
        0 <= j < a.entities@.len() && a.entities@[j] is Some
            && (forall|i: int| 0 <= i < a.entities@.len() ==> !#[trigger] names_for_drop(a.entities@, i, j))
            ==> #[trigger] b.entities@[j] == Some(
            EntityRecord { desires_drop_item: None, ..a.entities@[j]->Some_0 },
        )
    &&& forall|j: int|
        0 <= j < a.entities@.len() && #[trigger] b.entities@[j] is Some
            ==> same_but_drop(a.entities@[j]->Some_0, b.entities@[j]->Some_0)
    &&& forall|i: int, j: int|
        0 <= i < a.entities@.len() && 0 <= j < a.entities@.len()
            && #[trigger] names_for_drop(a.entities@, i, j) && a.entities@[j] is Some
            && a.entities@[i]->Some_0.position is Some
            && (forall|k: int| i < k < a.entities@.len() ==> !#[trigger] names_for_drop(a.entities@, k, j))
            && (forall|k: int| 0 <= k < i ==> !#[trigger] names_for_drop(a.entities@, k, i))
            ==> #[trigger] b.entities@[j]->Some_0.position == a.entities@[i]->Some_0.position
    &&& b.pending_deletions == a.pending_deletions
    &&& b.player == a.player
    &&& b.player_pos == a.player_pos
}

pub struct ItemAcquisitionSystem {}

impl ItemAcquisitionSystem {
    /// Moves each item that an intent names from the ground into the
    /// acquirer's inventory (the last intent naming it decides the owner),
    /// logs the player's pickups, and clears every pickup intent.
    #[verifier::rlimit(60)]
    pub fn run(&mut self, world: &mut World)
        ensures
            pickup_post(*old(world), *final(world)),
    {
        let ghost s0 = world.entities@;
        let n = world.entities.len();
        let mut cur: usize = 0;
        while cur < n
            invariant
                cur <= n,
                n == s0.len(),
                s0 == old(world).entities@,
                world.entities@.len() == n,
                forall|j: int| 0 <= j < n ==> (#[trigger] world.entities@[j] is Some <==> s0[j] is Some),
                forall|j: int|
                    0 <= j < cur && #[trigger] world.entities@[j] is Some
                        ==> world.entities@[j]->Some_0.desires_acquire_item is None,
                forall|j: int|
                    cur <= j < n && #[trigger] world.entities@[j] is Some
                        ==> world.entities@[j]->Some_0.desires_acquire_item == s0[j]->Some_0.desires_acquire_item,
                forall|i: int, j: int|
                    0 <= i < cur && 0 <= j < n && #[trigger] names_for_pickup(s0, i, j) && s0[j] is Some
                        && (forall|k: int| i < k < cur ==> !#[trigger] names_for_pickup(s0, k, j))
                        ==> #[trigger] world.entities@[j]->Some_0.position is None
                        && world.entities@[j]->Some_0.in_inventory == Some(
                        InInventory { owner: s0[i]->Some_0.desires_acquire_item->Some_0.acquired_by },
                    ),
                forall|j: int|
                    0 <= j < n && s0[j] is Some
                        && (forall|i: int| 0 <= i < cur ==> !#[trigger] names_for_pickup(s0, i, j))
                        ==> #[trigger] world.entities@[j] == Some(
                        EntityRecord {
                            desires_acquire_item: if j < cur { None } else { s0[j]->Some_0.desires_acquire_item },
                            ..s0[j]->Some_0
                        },
                    ),
                forall|j: int|
                    0 <= j < n && #[trigger] world.entities@[j] is Some ==> same_but_pickup(s0[j]->Some_0, world.entities@[j]->Some_0),
                world.pending_deletions == old(world).pending_deletions,
                world.player == old(world).player,
                world.player_pos == old(world).player_pos,
            decreases n - cur,
        {
            let ghost w0 = world.entities@;
            let intent: Option<DesiresAcquireItem> = match &world.entities[cur] {
                Some(rec) => rec.desires_acquire_item,
                None => None,
            };
            match intent {
                Some(a) => {
                    if a.item.id < n && world.is_live(a.item) {
                        place_item(world, a.item.id, None, Some(InInventory { owner: a.acquired_by }));
                        if a.acquired_by == world.player {
                            world.log.entries.push(LogEntry::PickedUp { item: a.item });
                        }
                    }
                },
                None => {},
            }
            let ghost w1 = world.entities@;
            match &mut world.entities[cur] {
                Some(rec) => {
                    rec.desires_acquire_item = None;
                },
                None => {},
            }
            proof {
                assert forall|j: int| 0 <= j < n && #[trigger] world.entities@[j] is Some implies same_but_pickup(
                    s0[j]->Some_0,
                    world.entities@[j]->Some_0,
                ) by {
                    assert(same_but_pickup(s0[j]->Some_0, w0[j]->Some_0));
                    assert(same_but_pickup(w0[j]->Some_0, w1[j]->Some_0));
                }
                assert(intent == if s0[cur as int] is Some { s0[cur as int]->Some_0.desires_acquire_item } else { None });
                assert forall|i: int, j: int|
                    0 <= i < cur + 1 && 0 <= j < n && #[trigger] names_for_pickup(s0, i, j) && s0[j] is Some
                        && (forall|k: int| i < k < cur + 1 ==> !#[trigger] names_for_pickup(s0, k, j))
                        implies #[trigger] world.entities@[j]->Some_0.position is None
                        && world.entities@[j]->Some_0.in_inventory == Some(
                        InInventory { owner: s0[i]->Some_0.desires_acquire_item->Some_0.acquired_by },
                    ) by {
                    if i < cur {
                        assert(!names_for_pickup(s0, cur as int, j));
                        assert(w0[j]->Some_0.position is None);
                    }
                }
                assert forall|j: int|
                    0 <= j < n && s0[j] is Some
                        && (forall|i: int| 0 <= i < cur + 1 ==> !#[trigger] names_for_pickup(s0, i, j))
                        implies #[trigger] world.entities@[j] == Some(
                        EntityRecord {
                            desires_acquire_item: if j < cur + 1 { None } else { s0[j]->Some_0.desires_acquire_item },
                            ..s0[j]->Some_0
                        },
                    ) by {
                    assert(!names_for_pickup(s0, cur as int, j));
                    assert(forall|i: int| 0 <= i < cur ==> !#[trigger] names_for_pickup(s0, i, j));
                }
            }
            cur = cur + 1;
        }
    }
}

pub struct ItemDropSystem {}

impl ItemDropSystem {
    /// Puts each item that a drop intent names on the ground at its holder's
    /// current position, out of any inventory, logs the player's drops, and
    /// clears every drop intent. An intent from a holder without a position
    /// is dropped.
    #[verifier::rlimit(60)]
    pub fn run(&mut self, world: &mut World)
        ensures
            drop_post(*old(world), *final(world)),
    {
        let ghost s0 = world.entities@;
        let n = world.entities.len();
        let mut cur: usize = 0;
        while cur < n
            invariant
                cur <= n,
                n == s0.len(),
                s0 == old(world).entities@,
                world.entities@.len() == n,
                forall|j: int| 0 <= j < n ==> (#[trigger] world.entities@[j] is Some <==> s0[j] is Some),
                forall|j: int|
                    0 <= j < cur && #[trigger] world.entities@[j] is Some
                        ==> world.entities@[j]->Some_0.desires_drop_item is None,
                forall|j: int|
                    cur <= j < n && #[trigger] world.entities@[j] is Some
                        ==> world.entities@[j]->Some_0.desires_drop_item == s0[j]->Some_0.desires_drop_item
                        && (world.entities@[j]->Some_0.position is Some || s0[j]->Some_0.position is None),
                forall|i: int, j: int|
                    0 <= i < cur && 0 <= j < n && #[trigger] names_for_drop(s0, i, j) && s0[j] is Some
                        && s0[i]->Some_0.position is Some ==> #[trigger] world.entities@[j]->Some_0.position is Some
                        && world.entities@[j]->Some_0.in_inventory is None,
                forall|j: int|
                    0 <= j < n && s0[j] is Some
                        && (forall|i: int| 0 <= i < cur ==> !#[trigger] names_for_drop(s0, i, j))
                        ==> #[trigger] world.entities@[j] == Some(
                        EntityRecord {
                            desires_drop_item: if j < cur { None } else { s0[j]->Some_0.desires_drop_item },
                            ..s0[j]->Some_0
                        },
                    ),
                forall|j: int|
                    0 <= j < n && #[trigger] world.entities@[j] is Some ==> same_but_drop(s0[j]->Some_0, world.entities@[j]->Some_0),
                forall|i: int, j: int|
                    0 <= i < cur && 0 <= j < n && #[trigger] names_for_drop(s0, i, j) && s0[j] is Some
                        && s0[i]->Some_0.position is Some
                        && (forall|k: int| i < k < cur ==> !#[trigger] names_for_drop(s0, k, j))
                        && (forall|k: int| 0 <= k < i ==> !#[trigger] names_for_drop(s0, k, i))
                        ==> #[trigger] world.entities@[j]->Some_0.position == s0[i]->Some_0.position,
                world.pending_deletions == old(world).pending_deletions,
                world.player == old(world).player,
                world.player_pos == old(world).player_pos,
            decreases n - cur,
        {
            let ghost w0 = world.entities@;
            let intent: Option<(DesiresDropItem, Option<Position>)> = match &world.entities[cur] {
                Some(rec) => match rec.desires_drop_item {
                    Some(d) => Some((d, rec.position)),
                    None => None,
                },
                None => None,
            };
            match intent {
                Some((d, Some(pos))) => {
                    if d.item.id < n && world.is_live(d.item) {
                        place_item(world, d.item.id, Some(Position { x: pos.x, y: pos.y }), None);
                        if (Entity { id: cur }) == world.player {
                            world.log.entries.push(LogEntry::Dropped { item: d.item });
                        }
                    }
                },
                _ => {},
            }
            match &mut world.entities[cur] {
                Some(rec) => {
                    rec.desires_drop_item = None;
                },
                None => {},
            }
            proof {
                assert forall|j: int| 0 <= j < n && #[trigger] world.entities@[j] is Some implies same_but_drop(
                    s0[j]->Some_0,
                    world.entities@[j]->Some_0,
                ) by {
                    assert(same_but_drop(s0[j]->Some_0, w0[j]->Some_0));
                }
                assert forall|i: int, j: int|
                    0 <= i < cur + 1 && 0 <= j < n && #[trigger] names_for_drop(s0, i, j) && s0[j] is Some
                        && s0[i]->Some_0.position is Some
                        && (forall|k: int| i < k < cur + 1 ==> !#[trigger] names_for_drop(s0, k, j))
                        && (forall|k: int| 0 <= k < i ==> !#[trigger] names_for_drop(s0, k, i))
                        implies #[trigger] world.entities@[j]->Some_0.position == s0[i]->Some_0.position by {
                    if i < cur {
                        assert(!names_for_drop(s0, cur as int, j));
                        assert(forall|k: int| i < k < cur ==> !#[trigger] names_for_drop(s0, k, j));
                        assert(w0[j]->Some_0.position == s0[i]->Some_0.position);
                    } else {
                        assert(forall|k: int| 0 <= k < cur ==> !#[trigger] names_for_drop(s0, k, cur as int));
                        assert(w0[cur as int]->Some_0.position == s0[cur as int]->Some_0.position);
                    }
                }
                assert forall|j: int|
                    0 <= j < n && s0[j] is Some
                        && (forall|i: int| 0 <= i < cur + 1 ==> !#[trigger] names_for_drop(s0, i, j))
                        implies #[trigger] world.entities@[j] == Some(
                        EntityRecord {
                            desires_drop_item: if j < cur + 1 { None } else { s0[j]->Some_0.desires_drop_item },
                            ..s0[j]->Some_0
                        },
                    ) by {
                    assert(!names_for_drop(s0, cur as int, j));
                    assert(forall|i: int| 0 <= i < cur ==> !#[trigger] names_for_drop(s0, i, j));
                }
                assert forall|i: int, j: int|
                    0 <= i < cur + 1 && 0 <= j < n && #[trigger] names_for_drop(s0, i, j) && s0[j] is Some
                        && s0[i]->Some_0.position is Some implies #[trigger] world.entities@[j]->Some_0.position is Some
                        && world.entities@[j]->Some_0.in_inventory is None by {
                    if i < cur && j != cur {
                        assert(w0[j]->Some_0.position is Some);
                    }
                }
            }
            cur = cur + 1;
        }
    }
}

} // verus!
