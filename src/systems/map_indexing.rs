use vstd::prelude::*;

use crate::components::Entity;
use crate::map::{idx_of, CellType, GameMap};
use crate::world::{EntityRecord, World};

verus! {

/// The index of the cell an entity stands on, if it has a position on a
/// `w` by `h` grid.
pub open spec fn slot_cell(slot: Option<EntityRecord>, w: int, h: int) -> Option<int> {
    match slot {
        Some(r) => match r.position {
            Some(p) => if 0 <= p.x < w && 0 <= p.y < h {
                Some(idx_of(w, p.x as int, p.y as int))
            } else {
                None
            },
            None => None,
        },
        None => None,
    }
}

/// The entities among the first `n` slots that stand on cell `i`, in slot order.
pub open spec fn occupants_upto(slots: Seq<Option<EntityRecord>>, w: int, h: int, i: int, n: int) -> Seq<
    Entity,
>
    decreases n,
{
    if n <= 0 {
        seq![]
    } else if slot_cell(slots[n - 1], w, h) == Some(i) {
        occupants_upto(slots, w, h, i, n - 1).push(Entity { id: (n - 1) as usize })
    } else {
        occupants_upto(slots, w, h, i, n - 1)
    }
}

/// Some entity among the first `n` slots that blocks its cell stands on cell `i`.
pub open spec fn blocker_at(slots: Seq<Option<EntityRecord>>, w: int, h: int, i: int, n: int) -> bool {
    exists|j: int|
        0 <= j < n && #[trigger] slot_cell(slots[j], w, h) == Some(i) && slots[j]->Some_0.blocks_cell is Some
}

/// The map's per-turn index agrees with the world: a cell is blocked iff it
/// is a wall or holds a blocking entity, and its occupants are exactly the
/// entities standing on it.
pub open spec fn indexed(m: GameMap, slots: Seq<Option<EntityRecord>>) -> bool {
    &&& m.wf()
    &&& forall|i: int|
        0 <= i < m.cells@.len() ==> #[trigger] m.blocked@[i] == (m.cells@[i] == CellType::Wall
            || blocker_at(slots, m.width as int, m.height as int, i, slots.len() as int))
    &&& forall|i: int|
        0 <= i < m.cells@.len() ==> (#[trigger] m.cell_content@[i])@ == occupants_upto(
            slots,
            m.width as int,
            m.height as int,
            i,
            slots.len() as int,
        )
}

/// `mb` is `ma` re-indexed for `w`.
pub open spec fn indexing_post(w: World, ma: GameMap, mb: GameMap) -> bool {
    &&& indexed(mb, w.entities@)
    &&& mb.cells == ma.cells
    &&& mb.revealed_cells == ma.revealed_cells
    &&& mb.visible_cells == ma.visible_cells
    &&& mb.rooms == ma.rooms
    &&& mb.width == ma.width
    &&& mb.height == ma.height
    &&& mb.depth == ma.depth
}

pub struct MapIndexingSystem {}

impl MapIndexingSystem {
    /// Rebuilds the map's blocked cells and occupant lists from scratch.
    pub fn run(&mut self, world: &World, map: &mut GameMap)
        requires
            old(map).wf(),
        ensures
            indexing_post(*world, *old(map), *final(map)),
    {
        map.populate_blocked();
        map.clear_content_idx();
        let ghost w = map.width as int;
        let ghost h = map.height as int;
        let ghost slots = world.entities@;
        let n = world.entities.len();
        let mut j: usize = 0;
        while j < n
            invariant
                j <= n,
                n == slots.len(),
                slots == world.entities@,
                map.wf(),
                w == map.width,
                h == map.height,
                map.cells == old(map).cells,
                map.revealed_cells == old(map).revealed_cells,
                map.visible_cells == old(map).visible_cells,
                map.rooms == old(map).rooms,
                map.width == old(map).width,
                map.height == old(map).height,
                map.depth == old(map).depth,
                forall|i: int|
                    0 <= i < map.cells@.len() ==> #[trigger] map.blocked@[i] == (map.cells@[i]
                        == CellType::Wall || blocker_at(slots, w, h, i, j as int)),
                forall|i: int|
                    0 <= i < map.cells@.len() ==> (#[trigger] map.cell_content@[i])@
                        == occupants_upto(slots, w, h, i, j as int),
            decreases n - j,
        {
            let mut cell: Option<(usize, bool)> = None;
            match &world.entities[j] {
                Some(rec) => {
                    if let Some(pos) = rec.position {
                        if 0 <= pos.x && pos.x < map.width && 0 <= pos.y && pos.y < map.height {
                            cell = Some((map.xy_idx(pos.x, pos.y), rec.blocks_cell.is_some()));
                        }
                    }
                },
                None => {},
            }
            let ghost before = *map;
            match cell {
                Some((idx, blocks)) => {
                    if blocks {
                        map.blocked.set(idx, true);
                    }
                    map.cell_content[idx].push(Entity { id: j });
                },
                None => {},
            }
            proof {
                assert forall|i: int| 0 <= i < map.cells@.len() implies #[trigger] map.blocked@[i] == (
                map.cells@[i] == CellType::Wall || blocker_at(slots, w, h, i, j as int + 1)) by {
                    if blocker_at(slots, w, h, i, j as int + 1) && !blocker_at(slots, w, h, i, j as int) {
                        let k = choose|k: int|
                            0 <= k < j + 1 && #[trigger] slot_cell(slots[k], w, h) == Some(i)
                                && slots[k]->Some_0.blocks_cell is Some;
                        assert(k == j);
                    }
                    if blocker_at(slots, w, h, i, j as int) {
                        let k = choose|k: int|
                            0 <= k < j && #[trigger] slot_cell(slots[k], w, h) == Some(i)
                                && slots[k]->Some_0.blocks_cell is Some;
                        assert(0 <= k < j + 1 && slot_cell(slots[k], w, h) == Some(i));
                    }
                    if cell is Some && cell->Some_0.0 == i && cell->Some_0.1 {
                        assert(slot_cell(slots[j as int], w, h) == Some(i));
                    }
                }
                assert forall|i: int| 0 <= i < map.cells@.len() implies (#[trigger] map.cell_content@[i])@
                    == occupants_upto(slots, w, h, i, j as int + 1) by {
                    assert(before.cell_content@[i]@ == occupants_upto(slots, w, h, i, j as int));
                }
            }
            j = j + 1;
        }
    }
}

} // verus!
