use vstd::prelude::*;

use crate::components::{DesiresAcquireItem, DesiresMelee, Entity, Position};
use crate::geometry::Point;
use crate::log::LogEntry;
use crate::map::{CellType, GameMap};
use crate::world::{EntityRecord, World};

verus! {

/// The first entity with combat stats among `occupants`.
pub open spec fn first_fighter(slots: Seq<Option<EntityRecord>>, occupants: Seq<Entity>, k: int) -> Option<Entity>
    decreases occupants.len() - k,
{
    if k < 0 || k >= occupants.len() {
        None
    } else if occupants[k].id < slots.len() && slots[occupants[k].id as int] is Some
        && slots[occupants[k].id as int]->Some_0.combat_stats is Some {
        Some(occupants[k])
    } else {
        first_fighter(slots, occupants, k + 1)
    }
}

/// `b` is `a` after the player tried to move by (`delta_x`, `delta_y`) on `m`.
pub open spec fn moved_by(a: World, b: World, delta_x: i32, delta_y: i32, m: GameMap) -> bool {
    &&& b.entities@.len() == a.entities@.len()
    &&& forall|j: int|
            0 <= j < a.entities@.len() && j != a.player.id ==> #[trigger] b.entities@[j]
                == a.entities@[j]
    &&& ({
            let p = a.player;
            let o = a.entities@[p.id as int];
            let n = b.entities@[p.id as int];
            if a.live(p) && o->Some_0.position is Some && o->Some_0.viewshed is Some {
                let pos = o->Some_0.position->Some_0;
                let dx = pos.x + delta_x;
                let dy = pos.y + delta_y;
                if !m.in_bounds(dx, dy) {
                    n == o && b.player_pos == a.player_pos
                } else {
                    let occupants = m.cell_content@[m.idx(dx, dy)]@;
                    match first_fighter(a.entities@, occupants, 0) {
                        Some(t) => n == Some(EntityRecord { desires_melee: Some(DesiresMelee { target: t }), ..o->Some_0 })
                            && b.player_pos == a.player_pos,
                        None => if m.blocked@[m.idx(dx, dy)] {
                            n == o && b.player_pos == a.player_pos
                        } else {
                            &&& n is Some
                            &&& n->Some_0.position == Some(Position { x: dx as i32, y: dy as i32 })
                            &&& n->Some_0.viewshed is Some
                            &&& n->Some_0.viewshed->Some_0.dirty
                            &&& n->Some_0.viewshed->Some_0.visible_cells == o->Some_0.viewshed->Some_0.visible_cells
                            &&& n->Some_0.viewshed->Some_0.range == o->Some_0.viewshed->Some_0.range
                            &&& EntityRecord { position: None, viewshed: None, ..n->Some_0 } == EntityRecord {
                                position: None,
                                viewshed: None,
                                ..o->Some_0
                            }
                            &&& b.player_pos == (Point { x: dx as i32, y: dy as i32 })
                        },
                    }
                }
            } else {
                b == a
            }
        })
    &&& b.player == a.player
    &&& b.pending_deletions == a.pending_deletions
    &&& b.log == a.log
}

/// Moves the player by (`delta_x`, `delta_y`): onto a cell that holds an
/// entity with combat stats it attacks the first such entity instead; into
/// a free cell it moves, which dirties its viewshed; into a blocked cell or
/// off the grid it does nothing.
pub fn try_move_player(delta_x: i32, delta_y: i32, world: &mut World, map: &GameMap)
    requires
        map.wf(),
        -1 <= delta_x <= 1,
        -1 <= delta_y <= 1,
    ensures
        moved_by(*old(world), *final(world), delta_x, delta_y, *map),
{
    let p = world.player;
    if !world.is_live(p) {
        return;
    }
    let pos = match &world.entities[p.id] {
        Some(rec) => {
            if rec.viewshed.is_none() {
                return;
            }
            match rec.position {
                Some(pos) => pos,
                None => {
                    return;
                },
            }
        },
        None => {
            return;
        },
    };
    let dx: i64 = pos.x as i64 + delta_x as i64;
    let dy: i64 = pos.y as i64 + delta_y as i64;
    if !(0 <= dx && dx < map.width as i64 && 0 <= dy && dy < map.height as i64) {
        return;
    }
    let dest = map.xy_idx(dx as i32, dy as i32);
    let occupants = &map.cell_content[dest];
    let mut k: usize = 0;
    let mut target: Option<Entity> = None;
    while k < occupants.len() && target.is_none()
        invariant
            k <= occupants@.len(),
            target is None ==> first_fighter(world.entities@, occupants@, 0) == first_fighter(
                world.entities@,
                occupants@,
                k as int,
            ),
            target is Some ==> first_fighter(world.entities@, occupants@, 0) == target,
        decreases occupants@.len() - k,
    {
        let t = occupants[k];
        if world.is_live(t) {
            let fights = match &world.entities[t.id] {
                Some(r) => r.combat_stats.is_some(),
                None => false,
            };
            if fights {
                target = Some(t);
            }
        }
        k = k + 1;
    }
    match target {
        Some(t) => {
            match &mut world.entities[p.id] {
                Some(rec) => {
                    rec.desires_melee = Some(DesiresMelee { target: t });
                },
                None => {},
            }
            return;
        },
        None => {},
    }
    if map.blocked[dest] {
        return;
    }
    let nx = dx as i32;
    let ny = dy as i32;
    match &mut world.entities[p.id] {
        Some(rec) => {
            rec.position = Some(Position { x: nx, y: ny });
            match &mut rec.viewshed {
                Some(v) => {
                    v.dirty = true;
                },
                None => {},
            }
        },
        None => {},
    }
    world.player_pos = Point { x: nx, y: ny };
}

/// Slot `j` holds an item lying at `p`.
pub open spec fn item_at(slots: Seq<Option<EntityRecord>>, j: int, p: Point) -> bool {
    slots[j] is Some && slots[j]->Some_0.item is Some && slots[j]->Some_0.position == Some(
        Position { x: p.x, y: p.y },
    )
}

/// `b` is `a` after the player asked to pick up what lies at its position.
pub open spec fn pickup_requested(a: World, b: World) -> bool {
    &&& forall|j: int| 0 <= j < a.entities@.len() && j != a.player.id ==> #[trigger] b.entities@[j] == a.entities@[j]
    &&& a.live(a.player) ==> b.live(a.player) && EntityRecord { desires_acquire_item: None, ..b.rec(a.player) }
        == EntityRecord { desires_acquire_item: None, ..a.rec(a.player) }
    &&& !a.live(a.player) ==> b.entities@ == a.entities@
    &&& b.entities@.len() == a.entities@.len()
    &&& b.player == a.player
    &&& b.player_pos == a.player_pos
    &&& b.pending_deletions == a.pending_deletions
    &&& (forall|j: int| 0 <= j < a.entities@.len() ==> !#[trigger] item_at(a.entities@, j, a.player_pos))
            ==> b.entities@ == a.entities@ && b.log.entries@
            == a.log.entries@.push(LogEntry::NothingToPickUp)
    &&& forall|j: int|
            0 <= j < a.entities@.len() && #[trigger] item_at(a.entities@, j, a.player_pos)
                && (forall|k: int| j < k < a.entities@.len() ==> !#[trigger] item_at(a.entities@, k, a.player_pos))
                ==> b.log == a.log && b.entities@ == if a.live(a.player) {
                a.entities@.update(
                    a.player.id as int,
                    Some(EntityRecord {
                        desires_acquire_item: Some(DesiresAcquireItem { acquired_by: a.player, item: Entity { id: j as usize } }),
                        ..a.rec(a.player)
                    }),
                )
            } else {
                a.entities@
            }
}

/// Asks to pick up the item at the player's position (the one in the
/// highest slot when several lie there); logs that there is nothing to pick
/// up when none does.
pub fn acquire_item(world: &mut World)
    ensures
        pickup_requested(*old(world), *final(world)),
{
    let pp = world.player_pos;
    let n = world.entities.len();
    let mut found: Option<Entity> = None;
    let mut j: usize = 0;
    while j < n
        invariant
            j <= n,
            n == world.entities@.len(),
            pp == world.player_pos,
            match found {
                Some(e) => e.id < j && item_at(world.entities@, e.id as int, pp) && forall|k: int|
                    e.id < k < j ==> !#[trigger] item_at(world.entities@, k, pp),
                None => forall|k: int| 0 <= k < j ==> !#[trigger] item_at(world.entities@, k, pp),
            },
        decreases n - j,
    {
        let here = match &world.entities[j] {
            Some(r) => r.item.is_some() && match r.position {
                Some(q) => q.x == pp.x && q.y == pp.y,
                None => false,
            },
            None => false,
        };
        if here {
            found = Some(Entity { id: j });
        }
        j = j + 1;
    }
    match found {
        None => {
            world.log.entries.push(LogEntry::NothingToPickUp);
        },
        Some(item) => {
            let player = world.player;
            proof {
                assert forall|k: int| 0 <= k < n && #[trigger] item_at(world.entities@, k, pp)
                    && (forall|k2: int| k < k2 < n ==> !#[trigger] item_at(world.entities@, k2, pp)) implies k == item.id by {
                    if k < item.id {
                        assert(!item_at(world.entities@, item.id as int, pp));
                    }
                }
            }
            let ghost before = world.entities@;
            if player.id < n {
                match &mut world.entities[player.id] {
                    Some(rec) => {
                        rec.desires_acquire_item = Some(DesiresAcquireItem { acquired_by: player, item });
                    },
                    None => {},
                }
                proof {
                    assert(item == Entity { id: item.id as usize });
                    if old(world).live(player) {
                        assert(world.entities@ =~= old(world).entities@.update(
                            player.id as int,
                            Some(EntityRecord {
                                desires_acquire_item: Some(DesiresAcquireItem { acquired_by: player, item }),
                                ..old(world).rec(player)
                            }),
                        ));
                    }
                }
            }
            proof {
                let a = *old(world);
                assert forall|j: int|
                    0 <= j < a.entities@.len() && #[trigger] item_at(a.entities@, j, a.player_pos)
                        && (forall|k: int| j < k < a.entities@.len() ==> !#[trigger] item_at(a.entities@, k, a.player_pos))
                        implies world.entities@ == if a.live(a.player) {
                        a.entities@.update(
                            a.player.id as int,
                            Some(EntityRecord {
                                desires_acquire_item: Some(DesiresAcquireItem { acquired_by: a.player, item: Entity { id: j as usize } }),
                                ..a.rec(a.player)
                            }),
                        )
                    } else {
                        a.entities@
                    } by {
                    assert(j == item.id);
                }
            }
        },
    }
}

/// Whether the player stands on the down stairs; logs that there is no
/// way down when not.
pub fn try_next_level(world: &mut World, map: &GameMap) -> (r: bool)
    requires
        map.wf(),
    ensures
        r == (map.in_bounds(old(world).player_pos.x as int, old(world).player_pos.y as int)
            && map.cells@[map.idx(old(world).player_pos.x as int, old(world).player_pos.y as int)]
            == CellType::DownStairs),
        final(world).entities == old(world).entities,
        final(world).player == old(world).player,
        final(world).player_pos == old(world).player_pos,
        final(world).pending_deletions == old(world).pending_deletions,
        final(world).log.entries@ == if r {
            old(world).log.entries@
        } else {
            old(world).log.entries@.push(LogEntry::NoWayDown)
        },
{
    let pp = world.player_pos;
    if 0 <= pp.x && pp.x < map.width && 0 <= pp.y && pp.y < map.height {
        let idx = map.xy_idx(pp.x, pp.y);
        if map.cells[idx] == CellType::DownStairs {
            return true;
        }
    }
    world.log.entries.push(LogEntry::NoWayDown);
    false
}

} // verus!
