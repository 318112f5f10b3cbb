use vstd::prelude::*;

use crate::components::{DesiresMelee, Entity, Position, StatusEffect, Viewshed};
use crate::geometry::Point;
use crate::map::{lemma_cell_of_index, lemma_idx_in_range, lemma_idx_injective, GameMap};
use crate::state::RunState;
use crate::world::{EntityRecord, World};

verus! {

/// The Euclidean distance between the two cells is below 1.5: they touch,
/// diagonals included.
pub open spec fn adjacent(x1: int, y1: int, x2: int, y2: int) -> bool {
    4 * ((x1 - x2) * (x1 - x2) + (y1 - y2) * (y1 - y2)) < 9
}

proof fn lemma_adjacent_is_touching(dx: int, dy: int)
    ensures
        (4 * (dx * dx + dy * dy) < 9) == (-1 <= dx <= 1 && -1 <= dy <= 1),
{
    if dx > 1 {
        assert(dx * dx >= 4) by (nonlinear_arith)
            requires
                dx > 1,
        ;
    }
    if dx < -1 {
        assert(dx * dx >= 4) by (nonlinear_arith)
            requires
                dx < -1,
        ;
    }
    if dy > 1 {
        assert(dy * dy >= 4) by (nonlinear_arith)
            requires
                dy > 1,
        ;
    }
    if dy < -1 {
        assert(dy * dy >= 4) by (nonlinear_arith)
            requires
                dy < -1,
        ;
    }
    assert(dx * dx >= 0 && dy * dy >= 0) by (nonlinear_arith);
    if -1 <= dx <= 1 && -1 <= dy <= 1 {
        assert(dx * dx <= 1 && dy * dy <= 1) by (nonlinear_arith)
            requires
                -1 <= dx <= 1,
                -1 <= dy <= 1,
        ;
    }
}

/// The outcomes that the path search `path` admits.
pub open spec fn path_rel<P: Fn(&GameMap, usize, usize) -> Option<usize>>(path: &P) -> spec_fn(
    GameMap,
    usize,
    usize,
    Option<usize>,
) -> bool {
    |mm: GameMap, a: usize, b: usize, r: Option<usize>| path.ensures((&mm, a, b), r)
}

/// An actor that the AI moves: a hostile entity with a viewshed and a position.
pub open spec fn is_actor(slot: Option<EntityRecord>) -> bool {
    &&& slot is Some
    &&& slot->Some_0.enemy is Some
    &&& slot->Some_0.viewshed is Some
    &&& slot->Some_0.position is Some
}

/// A status effect after one turn in which it held its bearer back.
pub open spec fn status_ticked(s: Option<StatusEffect>) -> Option<StatusEffect> {
    match s {
        Some(e) => if e.turns - 1 < 1 {
            None
        } else {
            Some(StatusEffect { turns: (e.turns - 1) as i32, ..e })
        },
        None => None,
    }
}

/// How an actor left alone by status effects decided this turn.
pub open spec fn ai_outcome(
    o: EntityRecord,
    n: EntityRecord,
    player: Entity,
    player_pos: Point,
    m: GameMap,
    path: spec_fn(GameMap, usize, usize, Option<usize>) -> bool,
) -> bool {
    let p = o.position->Some_0;
    let v = o.viewshed->Some_0;
    if adjacent(p.x as int, p.y as int, player_pos.x as int, player_pos.y as int) {
        n == EntityRecord { desires_melee: Some(DesiresMelee { target: player }), ..o }
    } else if v.visible_cells@.contains(player_pos) && m.in_bounds(p.x as int, p.y as int) && m.in_bounds(
        player_pos.x as int,
        player_pos.y as int,
    ) {
        exists|mm: GameMap, r: Option<usize>|
            #[trigger] path(
                mm,
                m.idx(p.x as int, p.y as int) as usize,
                m.idx(player_pos.x as int, player_pos.y as int) as usize,
                r,
            ) && same_level(mm, m) && step_taken(o, n, r, m)
    } else {
        n == o
    }
}

/// The two maps are the same level; only their blocked cells may differ.
pub open spec fn same_level(a: GameMap, b: GameMap) -> bool {
    &&& a.cells == b.cells
    &&& a.revealed_cells == b.revealed_cells
    &&& a.visible_cells == b.visible_cells
    &&& a.cell_content == b.cell_content
    &&& a.rooms == b.rooms
    &&& a.width == b.width
    &&& a.height == b.height
    &&& a.depth == b.depth
}

/// The entity kept its slot and position component but changed position.
pub open spec fn moved(o: Option<EntityRecord>, n: Option<EntityRecord>) -> bool {
    &&& o is Some
    &&& n is Some
    &&& o->Some_0.position is Some
    &&& n->Some_0.position is Some
    &&& n->Some_0.position != o->Some_0.position
}

/// One actor's turn, taken on level `m0` and leaving level `m1`: its outcome
/// against the level as it stood, and, when it moved, its old cell
/// unblocked and its new cell blocked.
pub open spec fn ai_step(
    o: Option<EntityRecord>,
    n: Option<EntityRecord>,
    m0: GameMap,
    m1: GameMap,
    player: Entity,
    player_pos: Point,
    path: spec_fn(GameMap, usize, usize, Option<usize>) -> bool,
) -> bool {
    &&& ai_slot_after(o, n, player, player_pos, m0, path)
    &&& same_level(m1, m0)
    &&& m1.blocked@ == if moved(o, n) {
        m0.blocked@.update(
            m0.idx(o->Some_0.position->Some_0.x as int, o->Some_0.position->Some_0.y as int),
            false,
        ).update(m0.idx(n->Some_0.position->Some_0.x as int, n->Some_0.position->Some_0.y as int), true)
    } else {
        m0.blocked@
    }
}

/// The levels `ms` that the actors in slot order see: each takes its turn on
/// `ms[j]` and leaves `ms[j + 1]`.
pub open spec fn ai_map_chain(
    ms: Seq<GameMap>,
    a: Seq<Option<EntityRecord>>,
    b: Seq<Option<EntityRecord>>,
    ma: GameMap,
    mb: GameMap,
    player: Entity,
    player_pos: Point,
    path: spec_fn(GameMap, usize, usize, Option<usize>) -> bool,
) -> bool {
    &&& ms.len() == a.len() + 1
    &&& ms[0] == ma
    &&& ms[a.len() as int] == mb
    &&& forall|j: int|
        0 <= j < a.len() ==> ai_step(a[j], b[j], #[trigger] ms[j], ms[j + 1], player, player_pos, path)
}

/// An outcome stated against one map holds against any map of the same level.
pub proof fn lemma_outcome_same_level(
    o: EntityRecord,
    n: EntityRecord,
    player: Entity,
    player_pos: Point,
    m1: GameMap,
    m2: GameMap,
    path: spec_fn(GameMap, usize, usize, Option<usize>) -> bool,
)
    requires
        o.position is Some,
        o.viewshed is Some,
        ai_outcome(o, n, player, player_pos, m1, path),
        same_level(m1, m2),
    ensures
        ai_outcome(o, n, player, player_pos, m2, path),
{
    let p = o.position->Some_0;
    let v = o.viewshed->Some_0;
    if !adjacent(p.x as int, p.y as int, player_pos.x as int, player_pos.y as int)
        && v.visible_cells@.contains(player_pos) && m1.in_bounds(p.x as int, p.y as int) && m1.in_bounds(
        player_pos.x as int,
        player_pos.y as int,
    ) {
        let (mm, r) = choose|mm: GameMap, r: Option<usize>|
            #[trigger] path(
                mm,
                m1.idx(p.x as int, p.y as int) as usize,
                m1.idx(player_pos.x as int, player_pos.y as int) as usize,
                r,
            ) && same_level(mm, m1) && step_taken(o, n, r, m1);
        assert(same_level(mm, m2));
        assert(step_taken(o, n, r, m2));
        assert(path(
            mm,
            m2.idx(p.x as int, p.y as int) as usize,
            m2.idx(player_pos.x as int, player_pos.y as int) as usize,
            r,
        ));
    }
}

/// The actor moved to the cell with index `s` that the path search gave,
/// dirtying its viewshed, or held position when the search gave none or an
/// index off the grid.
pub open spec fn step_taken(o: EntityRecord, n: EntityRecord, r: Option<usize>, m: GameMap) -> bool {
    match r {
        Some(s) => if s < m.width * m.height {
            n == EntityRecord {
                position: Some(
                    Position { x: (s as int % m.width as int) as i32, y: (s as int / m.width as int) as i32 },
                ),
                viewshed: Some(Viewshed { dirty: true, ..o.viewshed->Some_0 }),
                ..o
            }
        } else {
            n == o
        },
        None => n == o,
    }
}

/// What one AI pass does to the slot `o`, leaving `n`.
pub open spec fn ai_slot_after(
    o: Option<EntityRecord>,
    n: Option<EntityRecord>,
    player: Entity,
    player_pos: Point,
    m: GameMap,
    path: spec_fn(GameMap, usize, usize, Option<usize>) -> bool,
) -> bool {
    if !is_actor(o) {
        n == o
    } else {
        let r = o->Some_0;
        &&& n is Some
        &&& n->Some_0.status_effect == status_ticked(r.status_effect)
        &&& if r.status_effect is Some {
            EntityRecord { status_effect: None, ..n->Some_0 } == EntityRecord {
                status_effect: None,
                ..r
            }
        } else {
            ai_outcome(r, n->Some_0, player, player_pos, m, path)
        }
    }
}

/// An actor whose status effect has one turn left takes no action in the AI
/// pass that processes it, and carries no status effect afterwards.
pub proof fn lemma_last_status_turn_suppresses(
    o: Option<EntityRecord>,
    n: Option<EntityRecord>,
    player: Entity,
    player_pos: Point,
    m: GameMap,
    path: spec_fn(GameMap, usize, usize, Option<usize>) -> bool,
)
    requires
        is_actor(o),
        o->Some_0.status_effect is Some,
        o->Some_0.status_effect->Some_0.turns == 1,
        ai_slot_after(o, n, player, player_pos, m, path),
    ensures
        n is Some,
        n->Some_0.status_effect is None,
        n->Some_0.desires_melee == o->Some_0.desires_melee,
        n->Some_0.position == o->Some_0.position,
{
    let a = EntityRecord { status_effect: None, ..n->Some_0 };
    let b = EntityRecord { status_effect: None, ..o->Some_0 };
    assert(a.desires_melee == b.desires_melee);
    assert(a.position == b.position);
}

/// An AI pass keeps every live actor live, with its player and item tags.
pub proof fn lemma_ai_keeps_tags(
    o: Option<EntityRecord>,
    n: Option<EntityRecord>,
    player: Entity,
    player_pos: Point,
    m: GameMap,
    path: spec_fn(GameMap, usize, usize, Option<usize>) -> bool,
)
    requires
        o is Some,
        ai_slot_after(o, n, player, player_pos, m, path),
    ensures
        n is Some,
        n->Some_0.player == o->Some_0.player,
        n->Some_0.item == o->Some_0.item,
{
    if is_actor(o) {
        let r = o->Some_0;
        let nr = n->Some_0;
        if r.status_effect is Some {
            assert(EntityRecord { status_effect: None, ..nr }.player == EntityRecord { status_effect: None, ..r }.player);
            assert(EntityRecord { status_effect: None, ..nr }.item == EntityRecord { status_effect: None, ..r }.item);
        }
    }
}

/// `wb` and `mb` are `wa` and `ma` after the AI pass in `run_state`, with path search `pathf`.
pub open spec fn ai_post(wa: World, ma: GameMap, wb: World, mb: GameMap, run_state: RunState, pathf: spec_fn(GameMap, usize, usize, Option<usize>) -> bool) -> bool {
    &&& mb.wf()
    &&& run_state == RunState::MonsterTurn ==> exists|ms: Seq<GameMap>|
        #[trigger] ai_map_chain(ms, wa.entities@, wb.entities@, ma, mb, wa.player, wa.player_pos, pathf)
    &&& run_state != RunState::MonsterTurn ==> wb == wa && mb == ma
    &&& wb.entities@.len() == wa.entities@.len()
    &&& forall|j: int|
        0 <= j < wa.entities@.len() && run_state == RunState::MonsterTurn
            ==> ai_slot_after(
            wa.entities@[j],
            #[trigger] wb.entities@[j],
            wa.player,
            wa.player_pos,
            ma,
            pathf,
        )
    &&& forall|k: int|
        0 <= k < ma.blocked@.len() && #[trigger] mb.blocked@[k] != ma.blocked@[k]
            ==> exists|j: int|
            0 <= j < wa.entities@.len() && #[trigger] moved(
                wa.entities@[j],
                wb.entities@[j],
            ) && (k == ma.idx(
                wa.entities@[j]->Some_0.position->Some_0.x as int,
                wa.entities@[j]->Some_0.position->Some_0.y as int,
            ) || k == ma.idx(
                wb.entities@[j]->Some_0.position->Some_0.x as int,
                wb.entities@[j]->Some_0.position->Some_0.y as int,
            ))
    &&& mb.cells == ma.cells
    &&& mb.revealed_cells == ma.revealed_cells
    &&& mb.visible_cells == ma.visible_cells
    &&& mb.cell_content == ma.cell_content
    &&& mb.rooms == ma.rooms
    &&& mb.width == ma.width
    &&& mb.height == ma.height
    &&& mb.depth == ma.depth
    &&& wb.pending_deletions == wa.pending_deletions
    &&& wb.player == wa.player
    &&& wb.player_pos == wa.player_pos
    &&& wb.log == wa.log
}

pub struct EnemyAISystem {}

/// The same system under the name the turn state uses.
pub type MonsterAISystem = EnemyAISystem;

impl EnemyAISystem {
    /// On the monsters' turn, each hostile actor that no status effect holds
    /// back attacks the player when adjacent, and otherwise, when it sees the
    /// player, steps to the cell that `path` gives as the next step from its
    /// cell toward the player's. Every status effect counts down one turn and
    /// is dropped when it runs out. On any other turn nothing changes.
    pub fn run<P: Fn(&GameMap, usize, usize) -> Option<usize>>(
        &mut self,
        world: &mut World,
        map: &mut GameMap,
        run_state: RunState,
        path: &P,
    )
        requires
            old(map).wf(),
            forall|m: &GameMap, a: usize, b: usize| path.requires((m, a, b)),
        ensures
            ai_post(*old(world), *old(map), *final(world), *final(map), run_state, path_rel(path)),
    {
        if run_state != RunState::MonsterTurn {
            return;
        }
        let ghost pf = path_rel(path);
        let ghost s0 = world.entities@;
        let ghost mut ms: Seq<GameMap> = seq![*map];
        let player = world.player;
        let player_pos = world.player_pos;
        let n = world.entities.len();
        let mut i: usize = 0;
        while i < n
            invariant
                i <= n,
                ms.len() == i + 1,
                ms[0] == *old(map),
                ms[i as int] == *map,
                forall|j: int| 0 <= j < i ==> ai_step(s0[j], world.entities@[j], #[trigger] ms[j], ms[j + 1], player, player_pos, pf),
                n == s0.len(),
                s0 == old(world).entities@,
                world.entities@.len() == n,
                map.wf(),
                old(map).wf(),
                player == old(world).player,
                player_pos == old(world).player_pos,
                pf == (path_rel(path)),
                forall|m: &GameMap, a: usize, b: usize| path.requires((m, a, b)),
                forall|j: int| i <= j < n ==> #[trigger] world.entities@[j] == s0[j],
                forall|j: int|
                    0 <= j < i ==> ai_slot_after(
                        s0[j],
                        #[trigger] world.entities@[j],
                        player,
                        player_pos,
                        *old(map),
                        pf,
                    ),
                map.blocked@.len() == old(map).blocked@.len(),
                forall|k: int|
                    0 <= k < old(map).blocked@.len() && #[trigger] map.blocked@[k] != old(map).blocked@[k]
                        ==> exists|j: int|
                        0 <= j < i && #[trigger] moved(s0[j], world.entities@[j]) && (k == old(map).idx(
                            s0[j]->Some_0.position->Some_0.x as int,
                            s0[j]->Some_0.position->Some_0.y as int,
                        ) || k == old(map).idx(
                            world.entities@[j]->Some_0.position->Some_0.x as int,
                            world.entities@[j]->Some_0.position->Some_0.y as int,
                        )),
                map.cells == old(map).cells,
                map.revealed_cells == old(map).revealed_cells,
                map.visible_cells == old(map).visible_cells,
                map.cell_content == old(map).cell_content,
                map.rooms == old(map).rooms,
                map.width == old(map).width,
                map.height == old(map).height,
                map.depth == old(map).depth,
                world.pending_deletions == old(world).pending_deletions,
                world.player == old(world).player,
                world.player_pos == old(world).player_pos,
                world.log == old(world).log,
            decreases n - i,
        {
            let ghost ents_before = world.entities@;
            let ghost map_before = *map;
            let ghost mut moved_to: Option<(int, int)> = None;
            assert(map_before.blocked@.len() == map_before.width * map_before.height);
            let slot = world.take_slot(i);
            let new_slot = match slot {
                Some(mut rec) => {
                    if rec.enemy.is_some() && rec.viewshed.is_some() && rec.position.is_some() {
                        let ghost r0 = rec;
                        let can_act = rec.status_effect.is_none();
                        let ticked = match rec.status_effect {
                            Some(e) => {
                                if e.turns as i64 - 1 < 1 {
                                    None
                                } else {
                                    Some(StatusEffect { effect: e.effect, print_as: e.print_as, turns: e.turns - 1 })
                                }
                            },
                            None => None,
                        };
                        rec.status_effect = ticked;
                        if can_act {
                            let ghost mb = *map;
                            let ghost rb = rec;
                            self.act(&mut rec, map, player, player_pos, path);
                            proof {
                                if rec.position != rb.position {
                                    lemma_idx_in_range(mb.width as int, mb.height as int, rb.position->Some_0.x as int, rb.position->Some_0.y as int);
                                    lemma_idx_in_range(mb.width as int, mb.height as int, rec.position->Some_0.x as int, rec.position->Some_0.y as int);
                                    moved_to = Some((
                                        mb.idx(rb.position->Some_0.x as int, rb.position->Some_0.y as int),
                                        mb.idx(rec.position->Some_0.x as int, rec.position->Some_0.y as int),
                                    ));
                                }
                                assert(rb == r0);
                                assert(mb.width == old(map).width);
                                assert(ai_outcome(r0, rec, player, player_pos, mb, pf));
                                lemma_outcome_same_level(r0, rec, player, player_pos, mb, *old(map), pf);
                            }
                        }
                        Some(rec)
                    } else {
                        Some(rec)
                    }
                },
                None => None,
            };
            proof {
                match moved_to {
                    Some((a, b)) => {
                        assert(0 <= a < map_before.blocked@.len() && 0 <= b < map_before.blocked@.len());
                        assert(moved(s0[i as int], new_slot));
                        assert(map.blocked@ == map_before.blocked@.update(a, false).update(b, true));
                        assert(a == old(map).idx(s0[i as int]->Some_0.position->Some_0.x as int, s0[i as int]->Some_0.position->Some_0.y as int));
                        assert(b == old(map).idx(new_slot->Some_0.position->Some_0.x as int, new_slot->Some_0.position->Some_0.y as int));
                    },
                    None => {
                        assert(map.blocked@ == map_before.blocked@);
                    },
                }
            }
            proof {
                if s0[i as int] is Some && is_actor(s0[i as int]) && s0[i as int]->Some_0.status_effect is None {
                    assert(ai_outcome(s0[i as int]->Some_0, new_slot->Some_0, player, player_pos, map_before, pf));
                }
                assert(same_level(*map, map_before));
                assert(ai_step(s0[i as int], new_slot, map_before, *map, player, player_pos, pf));
            }
            world.entities.set(i, new_slot);
            proof {
                let ms2 = ms.push(*map);
                assert forall|j: int| 0 <= j < i + 1 implies ai_step(s0[j], world.entities@[j], #[trigger] ms2[j], ms2[j + 1], player, player_pos, pf) by {
                    assert(ms2[j] == if j <= i { ms[j] } else { *map });
                    if j < i {
                        assert(ms2[j + 1] == ms[j + 1]);
                        assert(world.entities@[j] == ents_before[j]);
                    }
                }
                ms = ms2;
                assert forall|j: int| 0 <= j < i implies #[trigger] world.entities@[j] == ents_before[j] by {}
                assert forall|k: int|
                    0 <= k < old(map).blocked@.len() && #[trigger] map.blocked@[k] != old(map).blocked@[k]
                        implies exists|j: int|
                        0 <= j < i + 1 && #[trigger] moved(s0[j], world.entities@[j]) && (k == old(map).idx(
                            s0[j]->Some_0.position->Some_0.x as int,
                            s0[j]->Some_0.position->Some_0.y as int,
                        ) || k == old(map).idx(
                            world.entities@[j]->Some_0.position->Some_0.x as int,
                            world.entities@[j]->Some_0.position->Some_0.y as int,
                        )) by {
                    if map_before.blocked@[k] != old(map).blocked@[k] {
                        let j = choose|j: int|
                            0 <= j < i && #[trigger] moved(s0[j], ents_before[j]) && (k == old(map).idx(
                                s0[j]->Some_0.position->Some_0.x as int,
                                s0[j]->Some_0.position->Some_0.y as int,
                            ) || k == old(map).idx(
                                ents_before[j]->Some_0.position->Some_0.x as int,
                                ents_before[j]->Some_0.position->Some_0.y as int,
                            ));
                        assert(world.entities@[j] == ents_before[j]);
                        assert(moved(s0[j], world.entities@[j]));
                    } else {
                        assert(map.blocked@[k] != map_before.blocked@[k]);
                        assert(moved_to is Some);
                        let (a, b) = moved_to->Some_0;
                        assert(k == a || k == b);
                        assert(world.entities@[i as int] == new_slot);
                        assert(moved(s0[i as int], world.entities@[i as int]));
                    }
                }
            }
            i = i + 1;
        }
        proof {
            assert(ai_map_chain(ms, s0, world.entities@, *old(map), *map, player, player_pos, pf));
        }
    }

    /// One actor's decision once it is free to act; a move unblocks the
    /// vacated cell and blocks the entered one.
    fn act<P: Fn(&GameMap, usize, usize) -> Option<usize>>(
        &self,
        rec: &mut EntityRecord,
        map: &mut GameMap,
        player: Entity,
        player_pos: Point,
        path: &P,
    )
        requires
            old(map).wf(),
            old(rec).viewshed is Some,
            old(rec).position is Some,
            forall|m: &GameMap, a: usize, b: usize| path.requires((m, a, b)),
        ensures
            final(map).wf(),
            ai_outcome(
                *old(rec),
                *final(rec),
                player,
                player_pos,
                *old(map),
                path_rel(path),
            ),
            same_level(*final(map), *old(map)),
            final(map).blocked@ == if final(rec).position != old(rec).position {
                old(map).blocked@.update(
                    old(map).idx(old(rec).position->Some_0.x as int, old(rec).position->Some_0.y as int),
                    false,
                ).update(
                    old(map).idx(final(rec).position->Some_0.x as int, final(rec).position->Some_0.y as int),
                    true,
                )
            } else {
                old(map).blocked@
            },
            final(rec).position != old(rec).position ==> final(rec).position is Some && old(map).in_bounds(
                old(rec).position->Some_0.x as int,
                old(rec).position->Some_0.y as int,
            ) && old(map).in_bounds(final(rec).position->Some_0.x as int, final(rec).position->Some_0.y as int),
    {
        let ghost pf = path_rel(path);
        let pos = match rec.position {
            Some(p) => p,
            None => { return; },
        };
        let dx: i64 = pos.x as i64 - player_pos.x as i64;
        let dy: i64 = pos.y as i64 - player_pos.y as i64;
        proof {
            lemma_adjacent_is_touching(dx as int, dy as int);
        }
        if -1 <= dx && dx <= 1 && -1 <= dy && dy <= 1 {
            rec.desires_melee = Some(DesiresMelee { target: player });
            return;
        }
        let mut sees = false;
        match &rec.viewshed {
            Some(v) => {
                let mut k: usize = 0;
                while k < v.visible_cells.len()
                    invariant
                        k <= v.visible_cells@.len(),
                        sees == exists|k2: int| 0 <= k2 < k && v.visible_cells@[k2] == player_pos,
                    decreases v.visible_cells@.len() - k,
                {
                    let c = v.visible_cells[k];
                    if c.x == player_pos.x && c.y == player_pos.y {
                        sees = true;
                    }
                    k = k + 1;
                }
                proof {
                    if sees {
                        let k2 = choose|k2: int| 0 <= k2 < v.visible_cells@.len() && v.visible_cells@[k2] == player_pos;
                        assert(v.visible_cells@.contains(player_pos));
                    } else {
                        assert(!v.visible_cells@.contains(player_pos));
                    }
                }
            },
            None => {},
        }
        if !sees {
            return;
        }
        if !(0 <= pos.x && pos.x < map.width && 0 <= pos.y && pos.y < map.height) {
            return;
        }
        if !(0 <= player_pos.x && player_pos.x < map.width && 0 <= player_pos.y && player_pos.y < map.height) {
            return;
        }
        let start = map.xy_idx(pos.x, pos.y);
        let goal = map.xy_idx(player_pos.x, player_pos.y);
        let ghost m0 = *map;
        let step = path(map, start, goal);
        proof {
            assert(pf(m0, start, goal, step));
        }
        match step {
            Some(s) => {
                if s < map.cells.len() {
                    let w = map.width as usize;
                    proof {
                        lemma_cell_of_index(map.width as int, map.height as int, s as int);
                    }
                    let nx = (s % w) as i32;
                    let ny = (s / w) as i32;
                    let nidx = map.xy_idx(nx, ny);
                    if nidx != start {
                        map.blocked.set(start, false);
                        map.blocked.set(nidx, true);
                    }
                    rec.position = Some(Position { x: nx, y: ny });
                    match &mut rec.viewshed {
                        Some(v) => {
                            v.dirty = true;
                        },
                        None => {},
                    }
                    proof {
                        assert(nidx == s);
                        assert(nx == (s as int % m0.width as int) as i32);
                        assert(ny == (s as int / m0.width as int) as i32);
                        assert(s < m0.width * m0.height);
                        assert(step_taken(*old(rec), *rec, step, m0));
                        if rec.position == old(rec).position {
                            assert(nidx == start);
                        } else {
                            assert(nidx != start) by {
                                if nidx == start {
                                    lemma_idx_injective(m0.width as int, nx as int, ny as int, pos.x as int, pos.y as int);
                                }
                            }
                        }
                    }
                } else {
                    proof {
                        assert(step_taken(*old(rec), *rec, step, m0));
                    }
                }
            },
            None => {
                proof {
                    assert(step_taken(*old(rec), *rec, step, m0));
                }
            },
        }
        proof {
            assert(path.ensures((&m0, start, goal), step));
            assert(same_level(m0, m0));
            assert(start == m0.idx(pos.x as int, pos.y as int) as usize);
            assert(goal == m0.idx(player_pos.x as int, player_pos.y as int) as usize);
            assert(pf(m0, start, goal, step) && same_level(m0, *old(map)) && step_taken(*old(rec), *rec, step, *old(map)));
        }
    }
}

} // verus!
