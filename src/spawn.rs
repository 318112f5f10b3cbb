use vstd::prelude::*;

use crate::components::{
    AreaOfEffect, BlocksCell, CombatStats, Consumable, Enemy, Entity, InflictsDamage, Item, Name,
    Player, Position, ProvidesHealing, Ranged, Renderable, Rgb, StatusEffect, StatusEffectType,
    Viewshed,
};
use crate::geometry::{in_interior, Rect};
use crate::map::room_fits;
use crate::random::roll_die;
use crate::random_table::{RandomTable, SpawnKind};
use crate::world::{EntityRecord, World};

verus! {

/// The most spawns a room gets on the first level, over a base of three.
pub const MAX_ENEMIES: i32 = 4;

/// The entity in slot `e` was just created at (x, y).
pub open spec fn spawned_at(w: World, e: Entity, x: i32, y: i32) -> bool {
    w.live(e) && w.rec(e).position == Some(Position { x, y })
}

/// Creates the player at (x, y).
pub fn player(world: &mut World, x: i32, y: i32) -> (e: Entity)
    ensures
        e.id == old(world).entities@.len(),
        final(world).entities@.len() == old(world).entities@.len() + 1,
        forall|j: int| 0 <= j < old(world).entities@.len() ==> #[trigger] final(world).entities@[j] == old(world).entities@[j],
        spawned_at(*final(world), e, x, y),
        final(world).rec(e).player is Some,
        final(world).rec(e).combat_stats == Some(CombatStats { max_hp: 30, hp: 30, defense: 2, power: 5 }),
        final(world).rec(e).viewshed is Some,
        final(world).rec(e).viewshed->Some_0.range == 8,
        final(world).rec(e).viewshed->Some_0.dirty,
        final(world).rec(e).blocks_cell is None,
        final(world).player == old(world).player,
        final(world).pending_deletions == old(world).pending_deletions,
        final(world).player_pos == old(world).player_pos,
        final(world).log == old(world).log,
{
    let mut rec = EntityRecord::new();
    rec.position = Some(Position { x, y });
    rec.renderable = Some(Renderable { glyph: 64, fg: Rgb { r: 255, g: 255, b: 0 }, bg: Rgb { r: 0, g: 0, b: 0 }, render_order: 0 });
    rec.player = Some(Player {});
    rec.name = Some(Name { name: "Player".to_owned() });
    rec.combat_stats = Some(CombatStats { max_hp: 30, hp: 30, defense: 2, power: 5 });
    rec.viewshed = Some(Viewshed { visible_cells: Vec::new(), range: 8, dirty: true });
    world.spawn(rec)
}

/// Creates a hostile actor at (x, y).
fn spawn_enemy(world: &mut World, x: i32, y: i32, glyph: u16, name: &str)
    ensures
        final(world).entities@.len() == old(world).entities@.len() + 1,
        forall|j: int| 0 <= j < old(world).entities@.len() ==> #[trigger] final(world).entities@[j] == old(world).entities@[j],
        spawned_at(*final(world), Entity { id: old(world).entities@.len() as usize }, x, y),
        final(world).player == old(world).player,
        final(world).pending_deletions == old(world).pending_deletions,
        final(world).player_pos == old(world).player_pos,
        final(world).log == old(world).log,
{
    let mut rec = EntityRecord::new();
    rec.position = Some(Position { x, y });
    rec.renderable = Some(Renderable { glyph, fg: Rgb { r: 255, g: 0, b: 0 }, bg: Rgb { r: 0, g: 0, b: 0 }, render_order: 1 });
    rec.viewshed = Some(Viewshed { visible_cells: Vec::new(), range: 8, dirty: true });
    rec.enemy = Some(Enemy {});
    rec.name = Some(Name { name: name.to_owned() });
    rec.combat_stats = Some(CombatStats { max_hp: 16, hp: 16, defense: 1, power: 4 });
    rec.blocks_cell = Some(BlocksCell {});
    world.spawn(rec);
}

/// An item record at (x, y) with the given look and name.
fn item_record(x: i32, y: i32, glyph: u16, fg: Rgb, name: &str) -> (r: EntityRecord)
    ensures
        r.position == Some(Position { x, y }),
        r.item is Some,
        r.consumable is Some,
{
    let mut rec = EntityRecord::new();
    rec.position = Some(Position { x, y });
    rec.renderable = Some(Renderable { glyph, fg, bg: Rgb { r: 0, g: 0, b: 0 }, render_order: 2 });
    rec.name = Some(Name { name: name.to_owned() });
    rec.item = Some(Item {});
    rec.consumable = Some(Consumable {});
    rec
}

/// Creates one spawn of `kind` at (x, y).
pub fn spawn_kind(world: &mut World, kind: SpawnKind, x: i32, y: i32)
    ensures
        final(world).entities@.len() == old(world).entities@.len() + 1,
        forall|j: int| 0 <= j < old(world).entities@.len() ==> #[trigger] final(world).entities@[j] == old(world).entities@[j],
        spawned_at(*final(world), Entity { id: old(world).entities@.len() as usize }, x, y),
        final(world).player == old(world).player,
        final(world).pending_deletions == old(world).pending_deletions,
        final(world).player_pos == old(world).player_pos,
        final(world).log == old(world).log,
{
    match kind {
        SpawnKind::Goblin => spawn_enemy(world, x, y, 103, "Goblin"),
        SpawnKind::Orc => spawn_enemy(world, x, y, 111, "Orc"),
        SpawnKind::HealthPotion => {
            let mut rec = item_record(x, y, 173, Rgb { r: 255, g: 0, b: 255 }, "Health Potion");
            rec.provides_healing = Some(ProvidesHealing { heal_amount: 8 });
            world.spawn(rec);
        },
        SpawnKind::MagicMissileScroll => {
            let mut rec = item_record(x, y, 41, Rgb { r: 0, g: 255, b: 255 }, "Magic Missile Scroll");
            rec.ranged = Some(Ranged { range: 6 });
            rec.inflicts_damage = Some(InflictsDamage { damage: 8 });
            world.spawn(rec);
        },
        SpawnKind::FireballScroll => {
            let mut rec = item_record(x, y, 41, Rgb { r: 255, g: 165, b: 0 }, "Fireball Scroll");
            rec.ranged = Some(Ranged { range: 6 });
            rec.inflicts_damage = Some(InflictsDamage { damage: 20 });
            rec.area_of_effect = Some(AreaOfEffect { radius: 3 });
            world.spawn(rec);
        },
        SpawnKind::ConfusionScroll => {
            let mut rec = item_record(x, y, 41, Rgb { r: 255, g: 192, b: 203 }, "Confusion Scroll");
            rec.ranged = Some(Ranged { range: 6 });
            rec.status_effect = Some(
                StatusEffect { effect: StatusEffectType::Confusion, print_as: "confusing".to_owned(), turns: 4 },
            );
            world.spawn(rec);
        },
    }
}

/// The spawn table at `map_depth`: deeper levels hold more orcs and scrolls.
pub fn room_table(map_depth: i32) -> (t: RandomTable)
    ensures
        t.wf(),
{
    let extra: i32 = if map_depth < 0 { 0 } else if map_depth > 1000 { 1000 } else { map_depth };
    RandomTable::new()
        .add(SpawnKind::Goblin, 10)
        .add(SpawnKind::Orc, 1 + extra)
        .add(SpawnKind::HealthPotion, 7)
        .add(SpawnKind::FireballScroll, 2 + extra)
        .add(SpawnKind::ConfusionScroll, 2 + extra)
        .add(SpawnKind::MagicMissileScroll, 4)
}

/// Fills a room with monsters and items drawn from the spawn table: a
/// random number of spawns (more on deeper levels), each on a distinct
/// random cell of the room's interior, giving up on a spawn after twenty
/// tries at an occupied cell.
pub fn room(world: &mut World, rng: &mut rltk::RandomNumberGenerator, room: &Rect, map_depth: i32)
    requires
        room_fits(*room),
    ensures
        final(world).entities@.len() >= old(world).entities@.len(),
        forall|j: int| 0 <= j < old(world).entities@.len() ==> #[trigger] final(world).entities@[j] == old(world).entities@[j],
        forall|j: int|
            old(world).entities@.len() <= j < final(world).entities@.len() ==> {
                let s = #[trigger] final(world).entities@[j];
                &&& s is Some
                &&& s->Some_0.position is Some
                &&& in_interior(*room, s->Some_0.position->Some_0.x as int, s->Some_0.position->Some_0.y as int)
            },
        final(world).player == old(world).player,
        final(world).pending_deletions == old(world).pending_deletions,
        final(world).player_pos == old(world).player_pos,
        final(world).log == old(world).log,
{
    let table = room_table(map_depth);
    let mut spawn_points: Vec<(i32, i32, SpawnKind)> = Vec::new();
    let depth_bonus: i64 = if map_depth < 1 { 0 } else if map_depth > 100 { 99 } else { map_depth as i64 - 1 };
    let num_spawns: i64 = roll_die(rng, MAX_ENEMIES + 3) as i64 + depth_bonus - 3;
    let w = room.x2 - room.x1;
    let h = room.y2 - room.y1;
    let mut i: i64 = 0;
    while i < num_spawns
        invariant
            room_fits(*room),
            w == room.x2 - room.x1,
            h == room.y2 - room.y1,
            table.wf(),
            forall|k: int| 0 <= k < spawn_points@.len() ==> in_interior(*room, (#[trigger] spawn_points@[k]).0 as int, spawn_points@[k].1 as int),
        decreases num_spawns - i,
    {
        let mut added = false;
        let mut tries: i32 = 0;
        while !added && tries < 20
            invariant
                room_fits(*room),
                w == room.x2 - room.x1,
                h == room.y2 - room.y1,
                table.wf(),
                0 <= tries <= 20,
                forall|k: int| 0 <= k < spawn_points@.len() ==> in_interior(*room, (#[trigger] spawn_points@[k]).0 as int, spawn_points@[k].1 as int),
            decreases 21 - tries - (if added { 1int } else { 0 }),
        {
            let x = room.x1 + roll_die(rng, w);
            let y = room.y1 + roll_die(rng, h);
            let mut taken = false;
            let mut k: usize = 0;
            while k < spawn_points.len()
                invariant
                    k <= spawn_points@.len(),
                decreases spawn_points@.len() - k,
            {
                if spawn_points[k].0 == x && spawn_points[k].1 == y {
                    taken = true;
                }
                k = k + 1;
            }
            if !taken {
                match table.roll(rng) {
                    Some(kind) => {
                        spawn_points.push((x, y, kind));
                    },
                    None => {},
                }
                added = true;
            } else {
                tries = tries + 1;
            }
        }
        i = i + 1;
    }
    let n0 = world.entities.len();
    let mut k: usize = 0;
    while k < spawn_points.len()
        invariant
            k <= spawn_points@.len(),
            world.entities@.len() == old(world).entities@.len() + k,
            forall|k2: int| 0 <= k2 < spawn_points@.len() ==> in_interior(*room, (#[trigger] spawn_points@[k2]).0 as int, spawn_points@[k2].1 as int),
            forall|j: int| 0 <= j < old(world).entities@.len() ==> #[trigger] world.entities@[j] == old(world).entities@[j],
            forall|j: int|
                old(world).entities@.len() <= j < world.entities@.len() ==> {
                    let s = #[trigger] world.entities@[j];
                    &&& s is Some
                    &&& s->Some_0.position is Some
                    &&& in_interior(*room, s->Some_0.position->Some_0.x as int, s->Some_0.position->Some_0.y as int)
                },
            world.player == old(world).player,
            world.pending_deletions == old(world).pending_deletions,
            world.player_pos == old(world).player_pos,
            world.log == old(world).log,
        decreases spawn_points@.len() - k,
    {
        let (x, y, kind) = spawn_points[k];
        let ghost before = *world;
        let n_before = world.entities.len();
        spawn_kind(world, kind, x, y);
        proof {
            assert(in_interior(*room, spawn_points@[k as int].0 as int, spawn_points@[k as int].1 as int));
            assert(spawned_at(*world, Entity { id: n_before }, x, y));
            let nj = n_before as int;
            assert(world.entities@[nj] is Some);
            assert(world.entities@[nj]->Some_0.position == Some(Position { x, y }));
            assert(in_interior(*room, x as int, y as int));
            assert forall|j: int| old(world).entities@.len() <= j < world.entities@.len() implies {
                let s = #[trigger] world.entities@[j];
                &&& s is Some
                &&& s->Some_0.position is Some
                &&& in_interior(*room, s->Some_0.position->Some_0.x as int, s->Some_0.position->Some_0.y as int)
            } by {
                if j < before.entities@.len() {
                    assert(world.entities@[j] == before.entities@[j]);
                } else {
                    assert(j == before.entities@.len());
                    let e = Entity { id: before.entities@.len() as usize };

                }
            }
        }
        k = k + 1;
    }
}

} // verus!
