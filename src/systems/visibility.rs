use vstd::prelude::*;

use crate::components::Viewshed;
use crate::geometry::Point;
use crate::map::{lemma_idx_in_range, GameMap};
use crate::world::{EntityRecord, World};

verus! {

pub open spec fn point_in_bounds(w: int, h: int) -> spec_fn(Point) -> bool {
    |p: Point| 0 <= p.x < w && 0 <= p.y < h
}

/// The entity's field of view is due for recomputation.
pub open spec fn recomputes(slot: Option<EntityRecord>) -> bool {
    &&& slot is Some
    &&& slot->Some_0.viewshed is Some
    &&& slot->Some_0.viewshed->Some_0.dirty
    &&& slot->Some_0.position is Some
}

/// The two records differ at most in their viewshed.
pub open spec fn same_but_viewshed(a: EntityRecord, b: EntityRecord) -> bool {
    EntityRecord { viewshed: None, ..a } == EntityRecord { viewshed: None, ..b }
}

/// The two maps agree on everything but what is visible and revealed.
pub open spec fn same_terrain(a: GameMap, b: GameMap) -> bool {
    &&& a.cells == b.cells
    &&& a.blocked == b.blocked
    &&& a.cell_content == b.cell_content
    &&& a.rooms == b.rooms
    &&& a.width == b.width
    &&& a.height == b.height
    &&& a.depth == b.depth
}

/// Slot `j` holds a player whose viewshed this pass recomputes.
pub open spec fn player_recomputed(slots: Seq<Option<EntityRecord>>, j: int) -> bool {
    recomputes(slots[j]) && slots[j]->Some_0.player is Some
}

/// The map's visible cells are exactly `cells`.
pub open spec fn visible_exactly(m: GameMap, cells: Seq<Point>) -> bool {
    forall|i: int|
        0 <= i < m.visible_cells@.len() ==> #[trigger] m.visible_cells@[i] == exists|k: int|
            0 <= k < cells.len() && m.idx((#[trigger] cells[k]).x as int, cells[k].y as int) == i
}

/// Every cell visible now has been revealed.
pub open spec fn fog_consistent(m: GameMap) -> bool {
    forall|i: int| 0 <= i < m.visible_cells@.len() ==> #[trigger] m.visible_cells@[i] ==> m.revealed_cells@[i]
}

/// The outcomes that the field-of-view function `fov` admits.
pub open spec fn fov_rel<F: Fn(&GameMap, Point, i32) -> Vec<Point>>(fov: &F) -> spec_fn(
    GameMap,
    Point,
    i32,
    Vec<Point>,
) -> bool {
    |mm: GameMap, p: Point, r: i32, raw: Vec<Point>| fov.ensures((&mm, p, r), raw)
}

/// Keeps the points that lie on a `w` by `h` grid, in order.
pub fn keep_in_bounds(points: &Vec<Point>, w: i32, h: i32) -> (r: Vec<Point>)
    ensures
        r@ == points@.filter(point_in_bounds(w as int, h as int)),
{
    let ghost pred = point_in_bounds(w as int, h as int);
    let mut r: Vec<Point> = Vec::new();
    let mut k: usize = 0;
    while k < points.len()
        invariant
            k <= points@.len(),
            pred == point_in_bounds(w as int, h as int),
            r@ == points@.take(k as int).filter(pred),
        decreases points@.len() - k,
    {
        let p = points[k];
        proof {
            assert(points@.take(k as int + 1).drop_last() =~= points@.take(k as int));
            assert(points@.take(k as int + 1).last() == p);
            assert(pred(p) == (0 <= p.x < w && 0 <= p.y < h));
            assert(points@.take(k as int + 1) =~= points@.take(k as int).push(p));
            points@.take(k as int).lemma_filter_push(p, pred);
        }
        if 0 <= p.x && p.x < w && 0 <= p.y && p.y < h {
            r.push(p);
        }
        k = k + 1;
    }
    proof {
        assert(points@.take(points@.len() as int) =~= points@);
    }
    r
}

impl GameMap {
    /// Makes exactly `cells` visible, and reveals them for good.
    pub fn show_cells(&mut self, cells: &Vec<Point>)
        requires
            old(self).wf(),
            forall|k: int|
                0 <= k < cells@.len() ==> old(self).in_bounds(
                    (#[trigger] cells@[k]).x as int,
                    cells@[k].y as int,
                ),
        ensures
            final(self).wf(),
            forall|i: int|
                0 <= i < final(self).visible_cells@.len() ==> #[trigger] final(self).visible_cells@[i]
                    == exists|k: int|
                    0 <= k < cells@.len() && old(self).idx(
                        (#[trigger] cells@[k]).x as int,
                        cells@[k].y as int,
                    ) == i,
            forall|i: int|
                0 <= i < final(self).revealed_cells@.len() ==> #[trigger] final(self).revealed_cells@[i]
                    == (old(self).revealed_cells@[i] || final(self).visible_cells@[i]),
            final(self).cells == old(self).cells,
            final(self).blocked == old(self).blocked,
            final(self).cell_content == old(self).cell_content,
            final(self).rooms == old(self).rooms,
            final(self).width == old(self).width,
            final(self).height == old(self).height,
            final(self).depth == old(self).depth,
    {
        let n = self.visible_cells.len();
        let mut i: usize = 0;
        while i < n
            invariant
                i <= n,
                n == self.visible_cells@.len(),
                self.wf(),
                forall|j: int| 0 <= j < i ==> !#[trigger] self.visible_cells@[j],
                self.revealed_cells == old(self).revealed_cells,
                self.cells == old(self).cells,
                self.blocked == old(self).blocked,
                self.cell_content == old(self).cell_content,
                self.rooms == old(self).rooms,
                self.width == old(self).width,
                self.height == old(self).height,
                self.depth == old(self).depth,
            decreases n - i,
        {
            self.visible_cells.set(i, false);
            i = i + 1;
        }
        let mut k: usize = 0;
        while k < cells.len()
            invariant
                k <= cells@.len(),
                n == self.visible_cells@.len(),
                self.wf(),
                forall|k2: int|
                    0 <= k2 < cells@.len() ==> old(self).in_bounds(
                        (#[trigger] cells@[k2]).x as int,
                        cells@[k2].y as int,
                    ),
                forall|j: int|
                    0 <= j < n ==> #[trigger] self.visible_cells@[j] == exists|k2: int|
                        0 <= k2 < k && old(self).idx(
                            (#[trigger] cells@[k2]).x as int,
                            cells@[k2].y as int,
                        ) == j,
                forall|j: int|
                    0 <= j < n ==> #[trigger] self.revealed_cells@[j] == (
                    old(self).revealed_cells@[j] || self.visible_cells@[j]),
                self.cells == old(self).cells,
                self.blocked == old(self).blocked,
                self.cell_content == old(self).cell_content,
                self.rooms == old(self).rooms,
                self.width == old(self).width,
                self.height == old(self).height,
                self.depth == old(self).depth,
            decreases cells@.len() - k,
        {
            let c = cells[k];
            let idx = self.xy_idx(c.x, c.y);
            let ghost prev_vis = self.visible_cells@;
            let ghost prev_rev = self.revealed_cells@;
            self.revealed_cells.set(idx, true);
            self.visible_cells.set(idx, true);
            proof {
                assert forall|j: int| 0 <= j < n implies #[trigger] self.revealed_cells@[j] == (
                old(self).revealed_cells@[j] || self.visible_cells@[j]) by {
                    if j != idx {
                        assert(self.revealed_cells@[j] == prev_rev[j]);
                        assert(self.visible_cells@[j] == prev_vis[j]);
                    }
                }
                assert forall|j: int| 0 <= j < n implies #[trigger] self.visible_cells@[j] == exists|k2: int|
                    0 <= k2 < k + 1 && old(self).idx(
                        (#[trigger] cells@[k2]).x as int,
                        cells@[k2].y as int,
                    ) == j by {
                    if j == idx {
                        assert(old(self).idx(cells@[k as int].x as int, cells@[k as int].y as int) == j);
                    } else {
                        assert(self.visible_cells@[j] == prev_vis[j]);
                        if exists|k2: int|
                            0 <= k2 < k + 1 && old(self).idx(
                                (#[trigger] cells@[k2]).x as int,
                                cells@[k2].y as int,
                            ) == j {
                            let k2 = choose|k2: int|
                                0 <= k2 < k + 1 && old(self).idx(
                                    (#[trigger] cells@[k2]).x as int,
                                    cells@[k2].y as int,
                                ) == j;
                            assert(k2 != k);
                        }
                    }
                }
            }
            k = k + 1;
        }
    }
}

/// `b` and `mb` are `a` and `ma` after the visibility pass, with field of view `fovf`.
pub open spec fn vis_post(a: World, ma: GameMap, b: World, mb: GameMap, fovf: spec_fn(GameMap, Point, i32, Vec<Point>) -> bool) -> bool {
    &&& mb.wf()
    &&& fog_consistent(ma) ==> fog_consistent(mb)
    &&& forall|i: int|
        0 <= i < ma.revealed_cells@.len() ==> #[trigger] ma.revealed_cells@[i]
            ==> mb.revealed_cells@[i]
    &&& mb.cells == ma.cells
    &&& mb.blocked == ma.blocked
    &&& mb.cell_content == ma.cell_content
    &&& mb.rooms == ma.rooms
    &&& mb.width == ma.width
    &&& mb.height == ma.height
    &&& mb.depth == ma.depth
    &&& b.entities@.len() == a.entities@.len()
    &&& forall|j: int|
        0 <= j < a.entities@.len() ==> {
            let o = a.entities@[j];
            let n = #[trigger] b.entities@[j];
            if !recomputes(o) {
                n == o
            } else {
                let p = o->Some_0.position->Some_0;
                let v = o->Some_0.viewshed->Some_0;
                let nv = n->Some_0.viewshed->Some_0;
                &&& n is Some
                &&& same_but_viewshed(o->Some_0, n->Some_0)
                &&& n->Some_0.viewshed is Some
                &&& !nv.dirty
                &&& nv.range == v.range
                &&& exists|m: GameMap, raw: Vec<Point>|
                    fovf(m, Point { x: p.x, y: p.y }, v.range, raw) && same_terrain(m, ma)
                        && nv.visible_cells@ == raw@.filter(
                        point_in_bounds(ma.width as int, ma.height as int),
                    )
                &&& o->Some_0.player is Some ==> forall|k: int|
                    0 <= k < nv.visible_cells@.len() ==> ma.in_bounds(
                        nv.visible_cells@[k].x as int,
                        nv.visible_cells@[k].y as int,
                    ) && mb.revealed_cells@[ma.idx(
                        (#[trigger] nv.visible_cells@[k]).x as int,
                        nv.visible_cells@[k].y as int,
                    )]
            }
        }
    &&& forall|j: int|
        0 <= j < a.entities@.len() && #[trigger] player_recomputed(a.entities@, j)
            && (forall|l: int| j < l < a.entities@.len() ==> !#[trigger] player_recomputed(a.entities@, l))
            ==> visible_exactly(mb, b.entities@[j]->Some_0.viewshed->Some_0.visible_cells@)
    &&& b.pending_deletions == a.pending_deletions
    &&& b.player == a.player
    &&& b.player_pos == a.player_pos
    &&& b.log == a.log
}

pub struct VisibilitySystem {}

impl VisibilitySystem {
    /// Recomputes each dirty viewshed from the field of view that `fov` gives
    /// for the entity's cell and range, kept to the grid, and clears its flag.
    /// For the player the map's visible cells become exactly the new
    /// viewshed, and those cells are revealed for good.
    pub fn run<F: Fn(&GameMap, Point, i32) -> Vec<Point>>(&mut self, world: &mut World, map: &mut GameMap, fov: &F)
        requires
            old(map).wf(),
            forall|m: &GameMap, p: Point, r: i32| fov.requires((m, p, r)),
        ensures
            vis_post(*old(world), *old(map), *final(world), *final(map), fov_rel(fov)),
    {
        let ghost s0 = world.entities@;
        let n = world.entities.len();
        let mut i: usize = 0;
        while i < n
            invariant
                i <= n,
                n == s0.len(),
                s0 == old(world).entities@,
                world.entities@.len() == n,
                map.wf(),
                old(map).wf(),
                fog_consistent(*old(map)) ==> fog_consistent(*map),
                forall|j: int|
                    0 <= j < old(map).revealed_cells@.len() ==> #[trigger] old(map).revealed_cells@[j]
                        ==> map.revealed_cells@[j],
                map.cells == old(map).cells,
                map.blocked == old(map).blocked,
                map.cell_content == old(map).cell_content,
                map.rooms == old(map).rooms,
                map.width == old(map).width,
                map.height == old(map).height,
                map.depth == old(map).depth,
                forall|m: &GameMap, p: Point, r: i32| fov.requires((m, p, r)),
                forall|j: int| i <= j < n ==> #[trigger] world.entities@[j] == s0[j],
                forall|j: int|
                    0 <= j < i ==> {
                        let o = s0[j];
                        let n = #[trigger] world.entities@[j];
                        if !recomputes(o) {
                            n == o
                        } else {
                            let p = o->Some_0.position->Some_0;
                            let v = o->Some_0.viewshed->Some_0;
                            let nv = n->Some_0.viewshed->Some_0;
                            &&& n is Some
                            &&& same_but_viewshed(o->Some_0, n->Some_0)
                            &&& n->Some_0.viewshed is Some
                            &&& !nv.dirty
                            &&& nv.range == v.range
                            &&& exists|m: &GameMap, raw: Vec<Point>|
                                fov.ensures((m, Point { x: p.x, y: p.y }, v.range), raw)
                                    && same_terrain(*m, *old(map)) && nv.visible_cells@ == raw@.filter(
                                    point_in_bounds(old(map).width as int, old(map).height as int),
                                )
                            &&& o->Some_0.player is Some ==> forall|k: int|
                                0 <= k < nv.visible_cells@.len() ==> old(map).in_bounds(
                                    nv.visible_cells@[k].x as int,
                                    nv.visible_cells@[k].y as int,
                                ) && map.revealed_cells@[old(map).idx(
                                    (#[trigger] nv.visible_cells@[k]).x as int,
                                    nv.visible_cells@[k].y as int,
                                )]
                        }
                    },
                forall|j: int|
                    0 <= j < i && #[trigger] player_recomputed(s0, j)
                        && (forall|l: int| j < l < i ==> !#[trigger] player_recomputed(s0, l))
                        ==> visible_exactly(*map, world.entities@[j]->Some_0.viewshed->Some_0.visible_cells@),
                world.pending_deletions == old(world).pending_deletions,
                world.player == old(world).player,
                world.player_pos == old(world).player_pos,
                world.log == old(world).log,
            decreases n - i,
        {
            let ghost map_before = *map;
            let ghost ents_before = world.entities@;
            let mut job: Option<(Point, i32, bool)> = None;
            match &world.entities[i] {
                Some(rec) => {
                    if let (Some(vs), Some(pos)) = (&rec.viewshed, rec.position) {
                        if vs.dirty {
                            job = Some((Point { x: pos.x, y: pos.y }, vs.range, rec.player.is_some()));
                        }
                    }
                },
                None => {},
            }
            match job {
                Some((p, range, is_player)) => {
                    let ghost m0 = *map;
                    let raw = fov(map, p, range);
                    let cells = keep_in_bounds(&raw, map.width, map.height);
                    proof {
                        assert forall|k: int| 0 <= k < cells@.len() implies map.in_bounds(
                            (#[trigger] cells@[k]).x as int,
                            cells@[k].y as int,
                        ) by {
                            raw@.lemma_filter_pred(point_in_bounds(map.width as int, map.height as int), k);
                        }
                    }
                    if is_player {
                        let ghost before = *map;
                        map.show_cells(&cells);
                        proof {
                            assert(before == map_before);
                            assert forall|j: int|
                                0 <= j < old(map).revealed_cells@.len() && #[trigger] map_before.revealed_cells@[j]
                                    implies map.revealed_cells@[j] by {
                                assert(map.revealed_cells@[j] == (before.revealed_cells@[j] || map.visible_cells@[j]));
                            }
                            assert forall|k: int| 0 <= k < cells@.len() implies map.revealed_cells@[old(map).idx(
                                (#[trigger] cells@[k]).x as int,
                                cells@[k].y as int,
                            )] by {
                                lemma_idx_in_range(map.width as int, map.height as int, cells@[k].x as int, cells@[k].y as int);
                                assert(map.visible_cells@[old(map).idx(cells@[k].x as int, cells@[k].y as int)]);
                            }
                        }
                    }
                    let ghost cells_view = cells@;
                    let ghost map_now = *map;
                    proof {
                        if is_player {
                            assert(visible_exactly(*map, cells@));
                        }
                    }
                    assert(world.entities@[i as int] is Some);
                    match &mut world.entities[i] {
                        Some(rec) => {
                            rec.viewshed = Some(Viewshed { visible_cells: cells, range, dirty: false });
                        },
                        None => {},
                    }
                    proof {
                        assert(fov.ensures((&m0, p, range), raw));
                        assert(fov_rel(fov)(m0, p, range, raw));
                        assert(same_terrain(m0, *old(map)));
                        let o = s0[i as int];
                        let nv = world.entities@[i as int]->Some_0.viewshed->Some_0;
                        assert(nv.visible_cells@ == raw@.filter(
                            point_in_bounds(old(map).width as int, old(map).height as int),
                        ));
                        assert(same_but_viewshed(o->Some_0, world.entities@[i as int]->Some_0));
                        if is_player {
                            assert(nv.visible_cells@ == cells_view);
                            assert(visible_exactly(*map, nv.visible_cells@));
                        }
                    }
                },
                None => {},
            }
            proof {
                assert forall|j: int|
                    0 <= j < old(map).revealed_cells@.len() && #[trigger] map_before.revealed_cells@[j]
                        implies map.revealed_cells@[j] by {}
                assert forall|j: int| 0 <= j < i implies #[trigger] world.entities@[j] == ents_before[j] by {}
                assert forall|j: int| 0 <= j < i && recomputes(#[trigger] s0[j]) && s0[j]->Some_0.player is Some implies {
                    let nv = world.entities@[j]->Some_0.viewshed->Some_0;
                    forall|k: int|
                        0 <= k < nv.visible_cells@.len() ==> old(map).in_bounds(
                            nv.visible_cells@[k].x as int,
                            nv.visible_cells@[k].y as int,
                        ) && map.revealed_cells@[old(map).idx(
                            (#[trigger] nv.visible_cells@[k]).x as int,
                            nv.visible_cells@[k].y as int,
                        )]
                } by {
                    assert(world.entities@[j] == ents_before[j]);
                    let nv = world.entities@[j]->Some_0.viewshed->Some_0;
                    assert forall|k: int| 0 <= k < nv.visible_cells@.len() implies old(map).in_bounds(
                        nv.visible_cells@[k].x as int,
                        nv.visible_cells@[k].y as int,
                    ) && map.revealed_cells@[old(map).idx(
                        (#[trigger] nv.visible_cells@[k]).x as int,
                        nv.visible_cells@[k].y as int,
                    )] by {
                        lemma_idx_in_range(
                            old(map).width as int,
                            old(map).height as int,
                            nv.visible_cells@[k].x as int,
                            nv.visible_cells@[k].y as int,
                        );
                        assert(map_before.revealed_cells@[old(map).idx(
                            nv.visible_cells@[k].x as int,
                            nv.visible_cells@[k].y as int,
                        )]);
                    }
                }
            }
            proof {
                assert forall|j: int|
                    0 <= j < i + 1 && #[trigger] player_recomputed(s0, j)
                        && (forall|l: int| j < l < i + 1 ==> !#[trigger] player_recomputed(s0, l))
                        implies visible_exactly(*map, world.entities@[j]->Some_0.viewshed->Some_0.visible_cells@) by {
                    if j < i {
                        assert(!player_recomputed(s0, i as int));
                        assert(forall|l: int| j < l < i ==> !#[trigger] player_recomputed(s0, l));
                        assert(map.visible_cells == map_before.visible_cells);
                        assert(world.entities@[j] == ents_before[j]);
                    }
                }
            }
            i = i + 1;
        }
    }
}

} // verus!
