use vstd::prelude::*;

use crate::components::{DesiresDropItem, DesiresUseItem, Entity, InInventory, Viewshed};
use crate::geometry::{rect_center, Point};
use crate::log::LogEntry;
use crate::map::{generated_layout, GameMap};
use crate::player::{acquire_item, moved_by, pickup_requested, try_move_player, try_next_level};
use crate::random::new_rng;
use crate::spawn;
use crate::systems::damage::{damage_post, damage_resolved, reap, reap_post, reaped, DamageSystem};
use crate::systems::enemy_ai::{ai_post, ai_slot_after, lemma_ai_keeps_tags, path_rel, MonsterAISystem};
use crate::systems::inventory::{
    drop_post, pickup_post, use_post, is_item, same_but_drop, same_but_pickup, same_but_use, ItemAcquisitionSystem, ItemDropSystem,
    ItemUseSystem,
};
use crate::systems::map_indexing::{indexing_post, MapIndexingSystem};
use crate::systems::melee_combat::{melee_post, melee_slot_after, same_but_melee, MeleeCombatSystem};
use crate::systems::visibility::{fov_rel, vis_post, fog_consistent, same_but_viewshed, VisibilitySystem};
use crate::world::{maintain_post, EntityRecord, World};

verus! {

#[derive(Clone, Copy, Debug, PartialEq, Eq, Structural)]
pub enum MainMenuSelection {
    NewGame,
    LoadGame,
    Quit,
}

/// The turn-state machine that gates which systems run.
#[derive(Clone, Copy, Debug, PartialEq, Eq, Structural)]
pub enum RunState {
    /// Runs the systems once, silently, then waits for input.
    PreRun,
    AwaitingInput,
    PlayerTurn,
    MonsterTurn,
    ShowInventory,
    ShowDropItem,
    /// Choosing a target cell for a ranged item.
    ShowTargeting { range: i32, item: Entity },
    MainMenu { menu_selection: MainMenuSelection },
    SaveGame,
    NextLevel,
}

/// What a menu of items reports.
#[derive(Clone, Copy, Debug, PartialEq, Eq, Structural)]
pub enum ItemMenuResult {
    Cancel,
    NoResponse,
    Selected,
}

/// What the main menu reports.
#[derive(Clone, Copy, Debug, PartialEq, Eq, Structural)]
pub enum MainMenuResult {
    NoSelection { selected: MainMenuSelection },
    Selected { selected: MainMenuSelection },
}

/// An abstract player intent decoded from input.
#[derive(Clone, Copy, Debug, PartialEq, Eq, Structural)]
pub enum PlayerIntent {
    Move { dx: i32, dy: i32 },
    PickUp,
    OpenInventory,
    OpenDropMenu,
    Descend,
    SaveAndQuit,
    /// A key that means nothing here.
    Other,
}

/// What the outside world hands the turn machine on one tick.
#[derive(Clone, Copy, Debug, PartialEq, Eq, Structural)]
pub enum TickInput {
    Nothing,
    Intent(PlayerIntent),
    ItemMenu { result: ItemMenuResult, item: Option<Entity> },
    Targeting { result: ItemMenuResult, target: Option<Point> },
    MainMenu(MainMenuResult),
}

/// Outside work the turn machine asks for after a tick.
#[derive(Clone, Copy, Debug, PartialEq, Eq, Structural)]
pub enum TickAction {
    /// Nothing outside is needed.
    Continue,
    SaveGame,
    LoadGame,
    Quit,
}

/// The next run state and the outside work asked for, given the selected
/// item's range (`None` when it is not a ranged item) and whether the player
/// stands on the down stairs.
pub open spec fn transition_of(
    state: RunState,
    input: TickInput,
    selected_range: Option<i32>,
    on_stairs: bool,
) -> (RunState, TickAction) {
    match state {
        RunState::PreRun => (RunState::AwaitingInput, TickAction::Continue),
        RunState::AwaitingInput => match input {
            TickInput::Intent(i) => match i {
                PlayerIntent::Move { .. } => (RunState::PlayerTurn, TickAction::Continue),
                PlayerIntent::PickUp => (RunState::PlayerTurn, TickAction::Continue),
                PlayerIntent::OpenInventory => (RunState::ShowInventory, TickAction::Continue),
                PlayerIntent::OpenDropMenu => (RunState::ShowDropItem, TickAction::Continue),
                PlayerIntent::SaveAndQuit => (RunState::SaveGame, TickAction::Continue),
                PlayerIntent::Descend => if on_stairs {
                    (RunState::NextLevel, TickAction::Continue)
                } else {
                    (RunState::PlayerTurn, TickAction::Continue)
                },
                PlayerIntent::Other => (RunState::AwaitingInput, TickAction::Continue),
            },
            _ => (RunState::AwaitingInput, TickAction::Continue),
        },
        RunState::PlayerTurn => (RunState::MonsterTurn, TickAction::Continue),
        RunState::MonsterTurn => (RunState::AwaitingInput, TickAction::Continue),
        RunState::ShowInventory => match input {
            TickInput::ItemMenu { result, item } => match result {
                ItemMenuResult::Cancel => (RunState::AwaitingInput, TickAction::Continue),
                ItemMenuResult::NoResponse => (state, TickAction::Continue),
                ItemMenuResult::Selected => match item {
                    Some(it) => match selected_range {
                        Some(r) => (RunState::ShowTargeting { range: r, item: it }, TickAction::Continue),
                        None => (RunState::PlayerTurn, TickAction::Continue),
                    },
                    None => (state, TickAction::Continue),
                },
            },
            _ => (state, TickAction::Continue),
        },
        RunState::ShowDropItem => match input {
            TickInput::ItemMenu { result, item } => match result {
                ItemMenuResult::Cancel => (RunState::AwaitingInput, TickAction::Continue),
                ItemMenuResult::NoResponse => (state, TickAction::Continue),
                ItemMenuResult::Selected => match item {
                    Some(_) => (RunState::PlayerTurn, TickAction::Continue),
                    None => (state, TickAction::Continue),
                },
            },
            _ => (state, TickAction::Continue),
        },
        RunState::ShowTargeting { .. } => match input {
            TickInput::Targeting { result, target } => match result {
                ItemMenuResult::Cancel => (RunState::AwaitingInput, TickAction::Continue),
                ItemMenuResult::NoResponse => (state, TickAction::Continue),
                ItemMenuResult::Selected => (RunState::PlayerTurn, TickAction::Continue),
            },
            _ => (state, TickAction::Continue),
        },
        RunState::MainMenu { .. } => match input {
            TickInput::MainMenu(m) => match m {
                MainMenuResult::NoSelection { selected } => (
                    RunState::MainMenu { menu_selection: selected },
                    TickAction::Continue,
                ),
                MainMenuResult::Selected { selected } => match selected {
                    MainMenuSelection::NewGame => (RunState::PreRun, TickAction::Continue),
                    MainMenuSelection::LoadGame => (RunState::PreRun, TickAction::LoadGame),
                    MainMenuSelection::Quit => (state, TickAction::Quit),
                },
            },
            _ => (state, TickAction::Continue),
        },
        RunState::SaveGame => (
            RunState::MainMenu { menu_selection: MainMenuSelection::LoadGame },
            TickAction::SaveGame,
        ),
        RunState::NextLevel => (RunState::PreRun, TickAction::Continue),
    }
}

/// The turn machine's decision for one tick.
pub fn transition(state: RunState, input: TickInput, selected_range: Option<i32>, on_stairs: bool) -> (r: (
    RunState,
    TickAction,
))
    ensures
        r == transition_of(state, input, selected_range, on_stairs),
{
    match state {
        RunState::PreRun => (RunState::AwaitingInput, TickAction::Continue),
        RunState::AwaitingInput => match input {
            TickInput::Intent(i) => match i {
                PlayerIntent::Move { .. } => (RunState::PlayerTurn, TickAction::Continue),
                PlayerIntent::PickUp => (RunState::PlayerTurn, TickAction::Continue),
                PlayerIntent::OpenInventory => (RunState::ShowInventory, TickAction::Continue),
                PlayerIntent::OpenDropMenu => (RunState::ShowDropItem, TickAction::Continue),
                PlayerIntent::SaveAndQuit => (RunState::SaveGame, TickAction::Continue),
                PlayerIntent::Descend => if on_stairs {
                    (RunState::NextLevel, TickAction::Continue)
                } else {
                    (RunState::PlayerTurn, TickAction::Continue)
                },
                PlayerIntent::Other => (RunState::AwaitingInput, TickAction::Continue),
            },
            _ => (RunState::AwaitingInput, TickAction::Continue),
        },
        RunState::PlayerTurn => (RunState::MonsterTurn, TickAction::Continue),
        RunState::MonsterTurn => (RunState::AwaitingInput, TickAction::Continue),
        RunState::ShowInventory => match input {
            TickInput::ItemMenu { result, item } => match result {
                ItemMenuResult::Cancel => (RunState::AwaitingInput, TickAction::Continue),
                ItemMenuResult::NoResponse => (state, TickAction::Continue),
                ItemMenuResult::Selected => match item {
                    Some(it) => match selected_range {
                        Some(r) => (RunState::ShowTargeting { range: r, item: it }, TickAction::Continue),
                        None => (RunState::PlayerTurn, TickAction::Continue),
                    },
                    None => (state, TickAction::Continue),
                },
            },
            _ => (state, TickAction::Continue),
        },
        RunState::ShowDropItem => match input {
            TickInput::ItemMenu { result, item } => match result {
                ItemMenuResult::Cancel => (RunState::AwaitingInput, TickAction::Continue),
                ItemMenuResult::NoResponse => (state, TickAction::Continue),
                ItemMenuResult::Selected => match item {
                    Some(_) => (RunState::PlayerTurn, TickAction::Continue),
                    None => (state, TickAction::Continue),
                },
            },
            _ => (state, TickAction::Continue),
        },
        RunState::ShowTargeting { .. } => match input {
            TickInput::Targeting { result, target } => match result {
                ItemMenuResult::Cancel => (RunState::AwaitingInput, TickAction::Continue),
                ItemMenuResult::NoResponse => (state, TickAction::Continue),
                ItemMenuResult::Selected => (RunState::PlayerTurn, TickAction::Continue),
            },
            _ => (state, TickAction::Continue),
        },
        RunState::MainMenu { .. } => match input {
            TickInput::MainMenu(m) => match m {
                MainMenuResult::NoSelection { selected } => (
                    RunState::MainMenu { menu_selection: selected },
                    TickAction::Continue,
                ),
                MainMenuResult::Selected { selected } => match selected {
                    MainMenuSelection::NewGame => (RunState::PreRun, TickAction::Continue),
                    MainMenuSelection::LoadGame => (RunState::PreRun, TickAction::LoadGame),
                    MainMenuSelection::Quit => (state, TickAction::Quit),
                },
            },
            _ => (state, TickAction::Continue),
        },
        RunState::SaveGame => (
            RunState::MainMenu { menu_selection: MainMenuSelection::LoadGame },
            TickAction::SaveGame,
        ),
        RunState::NextLevel => (RunState::PreRun, TickAction::Continue),
    }
}

/// The range of the item a menu selected, when the menu selected a live
/// ranged item.
pub open spec fn selected_range(w: World, input: TickInput) -> Option<i32> {
    match input {
        TickInput::ItemMenu { result: _, item: Some(it) } => if w.live(it) && w.rec(it).ranged is Some {
            Some(w.rec(it).ranged->Some_0.range)
        } else {
            None
        },
        _ => None,
    }
}

/// The player's recorded position is the down stairs.
pub open spec fn on_stairs(w: World, m: GameMap) -> bool {
    m.in_bounds(w.player_pos.x as int, w.player_pos.y as int) && m.cells@[m.idx(
        w.player_pos.x as int,
        w.player_pos.y as int,
    )] == crate::map::CellType::DownStairs
}

/// No entity but the player is left with hit points below one.
pub open spec fn no_dead_left(w: World) -> bool {
    forall|j: int|
        0 <= j < w.entities@.len() && #[trigger] w.entities@[j] is Some
            && w.entities@[j]->Some_0.combat_stats is Some
            && w.entities@[j]->Some_0.combat_stats->Some_0.hp < 1 ==> w.entities@[j]->Some_0.player is Some
}

/// No live entity holds an intent.
pub open spec fn intents_cleared(w: World) -> bool {
    forall|j: int|
        0 <= j < w.entities@.len() && #[trigger] w.entities@[j] is Some ==> {
            let r = w.entities@[j]->Some_0;
            &&& r.desires_melee is None
            &&& r.desires_acquire_item is None
            &&& r.desires_use_item is None
            &&& r.desires_drop_item is None
        }
}

/// `e` is live, tagged as the player, and not an item.
pub open spec fn player_kept(w: World, e: Entity) -> bool {
    w.live(e) && w.rec(e).player is Some && w.rec(e).item is None
}

/// The pass from `a` to `b` through the eight systems in order, each as its
/// own contract states: `ws` are the worlds after visibility, AI, melee,
/// damage, pickup, use and drop; `ms` the levels after visibility, AI and
/// indexing. Maintenance then deletes what was queued, so every entity
/// queued during the pass (a consumed item) is gone.
pub open spec fn pipeline_chain(
    a: State,
    b: State,
    ws: Seq<World>,
    ms: Seq<GameMap>,
    fovf: spec_fn(GameMap, Point, i32, Vec<Point>) -> bool,
    pathf: spec_fn(GameMap, usize, usize, Option<usize>) -> bool,
) -> bool {
    &&& ws.len() == 7
    &&& ms.len() == 3
    &&& vis_post(a.world, a.map, ws[0], ms[0], fovf)
    &&& ai_post(ws[0], ms[0], ws[1], ms[1], a.run_state, pathf)
    &&& indexing_post(ws[1], ms[1], ms[2])
    &&& melee_post(ws[1], ws[2])
    &&& damage_post(ws[2], ws[3])
    &&& pickup_post(ws[3], ws[4])
    &&& use_post(ws[4], ws[5], ms[2], fovf)
    &&& drop_post(ws[5], ws[6])
    &&& maintain_post(ws[6], b.world)
    &&& forall|e: Entity|
        #[trigger] ws[6].pending_deletions@.contains(e) && e.id < b.world.entities@.len()
            ==> b.world.entities@[e.id as int] is None
    &&& b.map == ms[2]
}

/// What one pass of the systems guarantees: the level keeps its layout and
/// its fog of war stays consistent, no entity comes back to life, every
/// intent is consumed, the deletion queue is drained, and the player (never
/// an item, never queued) stays.
pub open spec fn pipeline_post(
    a: State,
    b: State,
    fovf: spec_fn(GameMap, Point, i32, Vec<Point>) -> bool,
    pathf: spec_fn(GameMap, usize, usize, Option<usize>) -> bool,
) -> bool {
    &&& exists|ws: Seq<World>, ms: Seq<GameMap>| #[trigger] pipeline_chain(a, b, ws, ms, fovf, pathf)
    &&& b.map.wf()
    &&& fog_consistent(a.map) ==> fog_consistent(b.map)
    &&& b.map.cells == a.map.cells
    &&& b.map.rooms == a.map.rooms
    &&& b.map.width == a.map.width
    &&& b.map.height == a.map.height
    &&& b.map.depth == a.map.depth
    &&& b.run_state == a.run_state
    &&& b.world.pending_deletions@.len() == 0
    &&& b.world.player == a.world.player
    &&& b.world.player_pos == a.world.player_pos
    &&& b.world.entities@.len() == a.world.entities@.len()
    &&& forall|j: int|
        0 <= j < b.world.entities@.len() && #[trigger] b.world.entities@[j] is Some ==> a.world.entities@[j] is Some
    &&& intents_cleared(b.world)
    &&& (player_kept(a.world, a.world.player) && !a.world.pending_deletions@.contains(a.world.player))
        ==> player_kept(b.world, b.world.player)
}

/// The entity in slot `j` is kept on a level change: it is the player, or
/// the player carries it.
pub open spec fn survives_descent(w: World, j: int) -> bool {
    w.entities@[j] is Some && (w.entities@[j]->Some_0.player is Some || w.entities@[j]->Some_0.in_inventory
        == Some(InInventory { owner: w.player }))
}

/// `b` is `a` with the player's use intent set to `use_item` and its drop
/// intent set to `drop_item`, where given; nothing else changes.
pub open spec fn intent_set(a: World, b: World, use_item: Option<DesiresUseItem>, drop_item: Option<DesiresDropItem>) -> bool {
    let p = a.player;
    &&& b.entities@ == if a.live(p) {
        a.entities@.update(
            p.id as int,
            Some(EntityRecord {
                desires_use_item: if use_item is Some { use_item } else { a.rec(p).desires_use_item },
                desires_drop_item: if drop_item is Some { drop_item } else { a.rec(p).desires_drop_item },
                ..a.rec(p)
            }),
        )
    } else {
        a.entities@
    }
    &&& b.pending_deletions == a.pending_deletions
    &&& b.player == a.player
    &&& b.player_pos == a.player_pos
    &&& b.log == a.log
}

/// The world step of a tick before the reap, for the run states that run no
/// systems and change no level.
pub open spec fn quiet_step(a: World, m: GameMap, state: RunState, input: TickInput, sel: Option<i32>, b: World) -> bool {
    match state {
        RunState::AwaitingInput => match input {
            TickInput::Intent(PlayerIntent::Move { dx, dy }) => moved_by(a, b, unit_step(dx), unit_step(dy), m),
            TickInput::Intent(PlayerIntent::PickUp) => pickup_requested(a, b),
            TickInput::Intent(PlayerIntent::Descend) => b.entities == a.entities && b.pending_deletions
                == a.pending_deletions && b.player == a.player && b.player_pos == a.player_pos,
            _ => b == a,
        },
        RunState::ShowInventory => match input {
            TickInput::ItemMenu { result: ItemMenuResult::Selected, item: Some(it) } => if sel is None {
                intent_set(a, b, Some(DesiresUseItem { item: it, target: None }), None)
            } else {
                b == a
            },
            _ => b == a,
        },
        RunState::ShowDropItem => match input {
            TickInput::ItemMenu { result: ItemMenuResult::Selected, item: Some(it) } => intent_set(
                a,
                b,
                None,
                Some(DesiresDropItem { item: it }),
            ),
            _ => b == a,
        },
        RunState::ShowTargeting { range: _, item } => match input {
            TickInput::Targeting { result: ItemMenuResult::Selected, target } => intent_set(
                a,
                b,
                Some(DesiresUseItem { item, target }),
                None,
            ),
            _ => b == a,
        },
        _ => b == a,
    }
}

/// If `a`'s player is kept and not queued for deletion, it is still live in
/// `b` with its player tag.
pub open spec fn player_stays(a: World, b: World) -> bool {
    (player_kept(a, a.player) && !a.pending_deletions@.contains(a.player)) ==> b.live(a.player) && b.rec(
        a.player,
    ).player is Some
}

/// The sign of `d`: the one-cell step a move intent of `d` makes.
pub open spec fn unit_step(d: i32) -> i32 {
    if d < 0 {
        -1i32
    } else if d > 0 {
        1i32
    } else {
        0i32
    }
}

/// `b` is `a` after descending to the next level.
pub open spec fn descent_post(a: State, b: State) -> bool {
&&& generated_layout(b.map)
&&& b.map.depth == if a.map.depth < i32::MAX {
    a.map.depth + 1
} else {
    a.map.depth as int
}
&&& b.world.player == a.world.player
&&& b.world.player_pos.x == rect_center(b.map.rooms@[0]).0
&&& b.world.player_pos.y == rect_center(b.map.rooms@[0]).1
&&& b.map.rooms@.len() > 0
&&& fog_consistent(b.map)
&&& b.run_state == a.run_state
&&& b.world.pending_deletions == a.world.pending_deletions
&&& b.world.entities@.len() >= a.world.entities@.len()
&&& forall|j: int|
    0 <= j < a.world.entities@.len() ==> (#[trigger] b.world.entities@[j] is Some
        <==> survives_descent(a.world, j))
&&& forall|j: int|
    0 <= j < a.world.entities@.len() && j != a.world.player.id
        && #[trigger] b.world.entities@[j] is Some ==> b.world.entities@[j]
        == a.world.entities@[j]
&&& a.world.live(a.world.player) && a.world.rec(a.world.player).player is Some
    ==> b.world.entities@[a.world.player.id as int] == Some(
    EntityRecord {
        position: match a.world.rec(a.world.player).position {
            Some(_) => Some(
                crate::components::Position {
                    x: b.world.player_pos.x,
                    y: b.world.player_pos.y,
                },
            ),
            None => None,
        },
        viewshed: match a.world.rec(a.world.player).viewshed {
            Some(v) => Some(Viewshed { dirty: true, ..v }),
            None => None,
        },
        ..a.world.rec(a.world.player)
    },
)
}

/// The whole game: the world, the current level and the turn state.
pub struct State {
    pub world: World,
    pub map: GameMap,
    pub run_state: RunState,
}

impl State {
    /// Runs the systems in their fixed order: visibility, monster AI, map
    /// indexing, melee, damage, item pickup, item use, item drop; then
    /// deletes what was queued for deletion.
    #[verifier::rlimit(80)]
    pub fn run_systems<F: Fn(&GameMap, Point, i32) -> Vec<Point>, P: Fn(&GameMap, usize, usize) -> Option<usize>>(
        &mut self,
        fov: &F,
        path: &P,
    )
        requires
            old(self).map.wf(),
            forall|m: &GameMap, p: Point, r: i32| fov.requires((m, p, r)),
            forall|m: &GameMap, a: usize, b: usize| path.requires((m, a, b)),
        ensures
            pipeline_post(*old(self), *final(self), fov_rel(fov), path_rel(path)),
    {
        let ghost w0 = self.world;
        let mut vis = VisibilitySystem {};
        vis.run(&mut self.world, &mut self.map, fov);
        let ghost w1 = self.world;
        let ghost m1 = self.map;
        let mut ai = MonsterAISystem {};
        ai.run(&mut self.world, &mut self.map, self.run_state, path);
        let ghost w2 = self.world;
        let ghost m2 = self.map;
        let mut indexing = MapIndexingSystem {};
        indexing.run(&self.world, &mut self.map);
        let ghost m3 = self.map;
        let mut melee = MeleeCombatSystem {};
        melee.run(&mut self.world);
        let ghost w4 = self.world;
        let mut damage = DamageSystem {};
        damage.run(&mut self.world);
        let ghost w5 = self.world;
        let mut acquisition = ItemAcquisitionSystem {};
        acquisition.run(&mut self.world);
        let ghost w6 = self.world;
        let mut item_use = ItemUseSystem {};
        item_use.run(&mut self.world, &self.map, fov);
        let ghost w7 = self.world;
        let mut drop = ItemDropSystem {};
        drop.run(&mut self.world);
        let ghost w8 = self.world;
        self.world.maintain();
        proof {
            let n = w0.entities@.len();
            let pl = w0.player;
            if player_kept(w0, pl) && !w0.pending_deletions@.contains(pl) {
                let k = pl.id as int;
                assert(w1.entities@[k] is Some);
                assert(same_but_viewshed(w0.entities@[k]->Some_0, w1.entities@[k]->Some_0));
                assert(w2.entities@[k] is Some);
                if self.run_state == RunState::MonsterTurn {
                    lemma_ai_keeps_tags(
                        w1.entities@[k],
                        w2.entities@[k],
                        w1.player,
                        w1.player_pos,
                        m1,
                        path_rel(path),
                    );
                }
                assert(melee_slot_after(w2.entities@, w4.entities@[k], k, n as int));
                assert(same_but_melee(w2.entities@[k]->Some_0, w4.entities@[k]->Some_0));
                assert(w5.entities@[k] == Some(damage_resolved(w4.entities@[k]->Some_0)));
                assert(same_but_pickup(w5.entities@[k]->Some_0, w6.entities@[k]->Some_0));
                assert(same_but_use(w6.entities@[k]->Some_0, w7.entities@[k]->Some_0));
                assert(same_but_drop(w7.entities@[k]->Some_0, w8.entities@[k]->Some_0));
                assert(w8.entities@[k]->Some_0.item is None);
                assert(!w8.pending_deletions@.contains(pl)) by {
                    if w8.pending_deletions@.contains(pl) {
                        let q = choose|q: int| 0 <= q < w8.pending_deletions@.len() && w8.pending_deletions@[q] == pl;
                        if q < w0.pending_deletions@.len() {
                            assert(w7.pending_deletions@.take(w6.pending_deletions@.len() as int)[q] == w7.pending_deletions@[q]);
                            assert(w0.pending_deletions@[q] == pl);
                        } else {
                            assert(is_item(w7.entities@, w7.pending_deletions@[q]));
                        }
                    }
                }
                assert(self.world.entities@[k] == w8.entities@[k]);
            }
            assert forall|j: int| 0 <= j < n implies (w8.entities@[j] is Some ==> w0.entities@[j] is Some) && (
            #[trigger] w8.entities@[j] is Some ==> {
                let r = w8.entities@[j]->Some_0;
                &&& r.desires_melee is None
                &&& r.desires_acquire_item is None
                &&& r.desires_use_item is None
                &&& r.desires_drop_item is None
            }) by {
                if w8.entities@[j] is Some {
                    assert(w7.entities@[j] is Some);
                    assert(w6.entities@[j] is Some);
                    assert(w5.entities@[j] is Some);
                    assert(w4.entities@[j] is Some);
                    assert(melee_slot_after(w2.entities@, w4.entities@[j], j, n as int));
                    assert(w2.entities@[j] is Some);
                    if self.run_state == RunState::MonsterTurn {
                        assert(ai_slot_after(
                            w1.entities@[j],
                            w2.entities@[j],
                            w1.player,
                            w1.player_pos,
                            m1,
                            path_rel(path),
                        ));
                    }
                    assert(w1.entities@[j] is Some);
                    assert(w0.entities@[j] is Some);
                    assert(same_but_drop(w7.entities@[j]->Some_0, w8.entities@[j]->Some_0));
                    assert(same_but_use(w6.entities@[j]->Some_0, w7.entities@[j]->Some_0));
                    assert(same_but_pickup(w5.entities@[j]->Some_0, w6.entities@[j]->Some_0));
                }
            }
            assert forall|j: int| 0 <= j < n && #[trigger] self.world.entities@[j] is Some implies self.world.entities@[j] == w8.entities@[j] by {}
            assert forall|e: Entity|
                #[trigger] w8.pending_deletions@.contains(e) && e.id < self.world.entities@.len()
                    implies self.world.entities@[e.id as int] is None by {
                assert(Entity { id: (e.id as int) as usize } == e);
            }
            let ws = seq![w1, w2, w4, w5, w6, w7, w8];
            let ms = seq![m1, m2, m3];
            assert(pipeline_chain(*old(self), *self, ws, ms, fov_rel(fov), path_rel(path)));
        }
    }

    /// Every live entity but the player and what the player carries.
    fn entities_to_remove_on_level_change(&self) -> (r: Vec<Entity>)
        ensures
            forall|e: Entity|
                #[trigger] r@.contains(e) == (self.world.live(e) && self.world.rec(e).player is None
                    && self.world.rec(e).in_inventory != Some(InInventory { owner: self.world.player })),
    {
        let mut r: Vec<Entity> = Vec::new();
        let n = self.world.entities.len();
        let mut j: usize = 0;
        while j < n
            invariant
                j <= n,
                n == self.world.entities@.len(),
                forall|e: Entity|
                    #[trigger] r@.contains(e) == (e.id < j && self.world.live(e) && self.world.rec(e).player is None
                        && self.world.rec(e).in_inventory != Some(InInventory { owner: self.world.player })),
            decreases n - j,
        {
            let remove = match &self.world.entities[j] {
                Some(rec) => rec.player.is_none() && rec.in_inventory != Some(InInventory { owner: self.world.player }),
                None => false,
            };
            let ghost prev = r@;
            if remove {
                r.push(Entity { id: j });
            }
            proof {
                assert forall|e: Entity|
                    #[trigger] r@.contains(e) == (e.id < j + 1 && self.world.live(e) && self.world.rec(e).player is None
                        && self.world.rec(e).in_inventory != Some(InInventory { owner: self.world.player })) by {
                    if remove && e == (Entity { id: j }) {
                        assert(r@[prev.len() as int] == e);
                    }
                    if r@.contains(e) && !prev.contains(e) {
                        let b = choose|b: int| 0 <= b < r@.len() && #[trigger] r@[b] == e;
                        if b < prev.len() {
                            assert(prev[b] == e);
                        }
                    }
                    if prev.contains(e) {
                        let b = choose|b: int| 0 <= b < prev.len() && #[trigger] prev[b] == e;
                        assert(r@[b] == e);
                    }
                }
            }
            j = j + 1;
        }
        r
    }

    /// Descends: deletes every entity but the player and what the player
    /// carries, generates the next level, fills every room but the first,
    /// and puts the player at the first room's center with a dirty viewshed.

    fn goto_next_level(&mut self)
        ensures
            descent_post(*old(self), *final(self)),
    {
        let n0 = self.world.entities.len();
        let ghost w0 = self.world;
        let to_delete = self.entities_to_remove_on_level_change();
        let mut k: usize = 0;
        while k < to_delete.len()
            invariant
                k <= to_delete@.len(),
                self.world.player == old(self).world.player,
                self.world.player_pos == old(self).world.player_pos,
                self.world.pending_deletions == old(self).world.pending_deletions,
                self.run_state == old(self).run_state,
                self.map.depth == old(self).map.depth,
                w0 == old(self).world,
                n0 == w0.entities@.len(),
                self.world.entities@.len() == w0.entities@.len(),
                forall|e: Entity|
                    #[trigger] to_delete@.contains(e) == (w0.live(e) && w0.rec(e).player is None
                        && w0.rec(e).in_inventory != Some(InInventory { owner: w0.player })),
                forall|j: int|
                    0 <= j < w0.entities@.len() ==> #[trigger] self.world.entities@[j] == if to_delete@.take(
                        k as int,
                    ).contains(Entity { id: j as usize }) {
                        None
                    } else {
                        w0.entities@[j]
                    },
            decreases to_delete@.len() - k,
        {
            let e = to_delete[k];
            let ghost td = to_delete@;
            if e.id < self.world.entities.len() {
                self.world.entities.set(e.id, None);
            }
            proof {
                assert(td.take(k as int + 1) =~= td.take(k as int).push(e));
                assert(td.contains(e));
                assert forall|j: int| 0 <= j < w0.entities@.len() implies #[trigger] self.world.entities@[j] == if td.take(
                    k as int + 1,
                ).contains(Entity { id: j as usize }) {
                    None
                } else {
                    w0.entities@[j]
                } by {
                    if j == e.id {
                        assert(td.take(k as int + 1)[k as int] == e);
                    } else if td.take(k as int + 1).contains(Entity { id: j as usize }) {
                        let q = choose|q: int| 0 <= q < k + 1 && #[trigger] td.take(k as int + 1)[q] == Entity { id: j as usize };
                        assert(q != k);
                        assert(td.take(k as int)[q] == Entity { id: j as usize });
                    }
                }
            }
            k = k + 1;
        }
        proof {
            assert(to_delete@.take(to_delete@.len() as int) =~= to_delete@);
            assert forall|j: int| 0 <= j < w0.entities@.len() implies (#[trigger] self.world.entities@[j] is Some
                <==> survives_descent(w0, j)) && (self.world.entities@[j] is Some ==> self.world.entities@[j] == w0.entities@[j]) by {
                let e = Entity { id: j as usize };
                assert(e.id as int == j);
                assert(to_delete@.contains(e) == (w0.live(e) && w0.rec(e).player is None
                    && w0.rec(e).in_inventory != Some(InInventory { owner: w0.player })));
            }
        }
        let ghost w1 = self.world;
        let depth = if self.map.depth < i32::MAX { self.map.depth + 1 } else { self.map.depth };
        self.map = GameMap::generate_map_rooms_and_tunnels(depth);
        assert(fog_consistent(self.map));
        let mut rng = new_rng();
        let mut r: usize = 1;
        while r < self.map.rooms.len()
            invariant
                generated_layout(self.map),
                self.map.depth == depth,
                self.map.rooms@.len() > 0,
                fog_consistent(self.map),
                self.world.player == old(self).world.player,
                self.world.player_pos == old(self).world.player_pos,
                self.world.pending_deletions == old(self).world.pending_deletions,
                self.run_state == old(self).run_state,
                self.world.entities@.len() >= w1.entities@.len(),
                forall|j: int| 0 <= j < w1.entities@.len() ==> #[trigger] self.world.entities@[j] == w1.entities@[j],
            decreases self.map.rooms@.len() - r,
        {
            let room = self.map.rooms[r];
            spawn::room(&mut self.world, &mut rng, &room, depth);
            r = r + 1;
        }
        let (px, py) = self.map.rooms[0].center();
        self.world.player_pos = Point { x: px, y: py };
        let p = self.world.player;
        let ghost w2 = self.world;
        if p.id < self.world.entities.len() {
            match &mut self.world.entities[p.id] {
                Some(rec) => {
                    if rec.position.is_some() {
                        rec.position = Some(crate::components::Position { x: px, y: py });
                    }
                    match &mut rec.viewshed {
                        Some(v) => {
                            v.dirty = true;
                        },
                        None => {},
                    }
                },
                None => {},
            }
        }
        self.world.log.entries.push(LogEntry::Descended);
        proof {
            assert forall|j: int| 0 <= j < w0.entities@.len() && j != p.id implies #[trigger] self.world.entities@[j] == w2.entities@[j] by {}
            if w0.live(p) && w0.rec(p).player is Some {
                assert(survives_descent(w0, p.id as int));
                assert(w2.entities@[p.id as int] == w0.entities@[p.id as int]);
            }
        }
    }

    /// One tick: does the work of the current run state with this tick's
    /// input, moves to the next run state as `transition` decides, and reaps
    /// the dead. Returns the outside work the tick asks for.
    #[verifier::spinoff_prover]
    #[verifier::rlimit(100)]
    pub fn tick<F: Fn(&GameMap, Point, i32) -> Vec<Point>, P: Fn(&GameMap, usize, usize) -> Option<usize>>(
        &mut self,
        input: TickInput,
        fov: &F,
        path: &P,
    ) -> (action: TickAction)
        requires
            old(self).map.wf(),
            forall|m: &GameMap, p: Point, r: i32| fov.requires((m, p, r)),
            forall|m: &GameMap, a: usize, b: usize| path.requires((m, a, b)),
        ensures
            final(self).map.wf(),
            (final(self).run_state, action) == transition_of(
                old(self).run_state,
                input,
                selected_range(old(self).world, input),
                on_stairs(old(self).world, old(self).map),
            ),
            fog_consistent(old(self).map) ==> fog_consistent(final(self).map),
            no_dead_left(final(self).world),
            final(self).world.player == old(self).world.player,
            (old(self).run_state is PreRun || old(self).run_state is PlayerTurn || old(self).run_state is MonsterTurn)
                ==> exists|mid: State|
                #[trigger] pipeline_post(*old(self), mid, fov_rel(fov), path_rel(path)) && reap_post(mid.world, final(self).world)
                    && final(self).map == mid.map,
            old(self).run_state is NextLevel ==> exists|mid: State|
                #[trigger] descent_post(*old(self), mid) && reap_post(mid.world, final(self).world)
                    && final(self).map == mid.map,
            old(self).run_state is NextLevel ==> {
                let p = old(self).world.player;
                let c = rect_center(final(self).map.rooms@[0]);
                &&& generated_layout(final(self).map)
                &&& final(self).map.rooms@.len() > 0
                &&& final(self).map.depth == if old(self).map.depth < i32::MAX {
                    old(self).map.depth + 1
                } else {
                    old(self).map.depth as int
                }
                &&& final(self).world.player_pos.x == c.0
                &&& final(self).world.player_pos.y == c.1
                &&& (old(self).world.live(p) && old(self).world.rec(p).player is Some) ==> {
                    let r = final(self).world.rec(p);
                    &&& final(self).world.live(p)
                    &&& (old(self).world.rec(p).position is Some ==> r.position == Some(
                        crate::components::Position { x: c.0 as i32, y: c.1 as i32 },
                    ))
                    &&& (old(self).world.rec(p).viewshed is Some ==> r.viewshed is Some && r.viewshed->Some_0.dirty)
                }
            },
            (old(self).run_state is AwaitingInput && input is Intent && input->Intent_0 is Move) ==> exists|mid: World|
                #[trigger] moved_by(
                    old(self).world,
                    mid,
                    unit_step(input->Intent_0->Move_dx),
                    unit_step(input->Intent_0->Move_dy),
                    old(self).map,
                ) && reap_post(mid, final(self).world),
            (old(self).run_state is AwaitingInput && input == TickInput::Intent(PlayerIntent::PickUp)) ==> exists|mid: World|
                #[trigger] pickup_requested(old(self).world, mid) && reap_post(mid, final(self).world),
            !(old(self).run_state is PreRun || old(self).run_state is PlayerTurn || old(self).run_state is MonsterTurn
                || old(self).run_state is NextLevel) ==> final(self).map == old(self).map && exists|mid: World|
                #[trigger] quiet_step(
                    old(self).world,
                    old(self).map,
                    old(self).run_state,
                    input,
                    selected_range(old(self).world, input),
                    mid,
                ) && reap_post(mid, final(self).world),
            (player_kept(old(self).world, old(self).world.player) && !old(self).world.pending_deletions@.contains(
                old(self).world.player,
            )) ==> final(self).world.live(old(self).world.player) && final(self).world.rec(old(self).world.player).player is Some,
    {
        let sel: Option<i32> = match input {
            TickInput::ItemMenu { result: _, item: Some(it) } => {
                if self.world.is_live(it) {
                    match &self.world.entities[it.id] {
                        Some(rec) => match rec.ranged {
                            Some(rg) => Some(rg.range),
                            None => None,
                        },
                        None => None,
                    }
                } else {
                    None
                }
            },
            _ => None,
        };
        let mut stairs = false;
        let ghost w0 = self.world;
        let ghost m0 = self.map;
        let ghost w_state = self.run_state;
        match self.run_state {
            RunState::PreRun | RunState::PlayerTurn | RunState::MonsterTurn => {
                self.run_systems(fov, path);
                assert(player_stays(w0, self.world));
            },
            RunState::AwaitingInput => {
                match input {
                    TickInput::Intent(PlayerIntent::Move { dx, dy }) => {
                        let sx: i32 = if dx < 0 { -1 } else if dx > 0 { 1 } else { 0 };
                        let sy: i32 = if dy < 0 { -1 } else if dy > 0 { 1 } else { 0 };
                        assert(sx == unit_step(dx) && sy == unit_step(dy));
                        try_move_player(sx, sy, &mut self.world, &self.map);
                        proof {
                            let k = w0.player.id as int;
                            if w0.live(w0.player) {
                                let o = w0.entities@[k]->Some_0;
                                let n = self.world.entities@[k];
                                assert(n is Some);
                                assert(EntityRecord { position: None, viewshed: None, ..n->Some_0 }.player == n->Some_0.player);
                                assert(EntityRecord { desires_melee: None, ..o }.player == o.player);
                            }
                            assert(player_stays(w0, self.world));
                        }
                    },
                    TickInput::Intent(PlayerIntent::PickUp) => {
                        acquire_item(&mut self.world);
                        assert(player_stays(w0, self.world));
                    },
                    TickInput::Intent(PlayerIntent::Descend) => {
                        stairs = try_next_level(&mut self.world, &self.map);
                        assert(player_stays(w0, self.world));
                    },
                    _ => {},
                }
            },
            RunState::ShowInventory => {
                match input {
                    TickInput::ItemMenu { result: ItemMenuResult::Selected, item: Some(it) } => {
                        if sel.is_none() {
                            self.set_player_intent(Some(DesiresUseItem { item: it, target: None }), None);
                        }
                    },
                    _ => {},
                }
            },
            RunState::ShowDropItem => {
                match input {
                    TickInput::ItemMenu { result: ItemMenuResult::Selected, item: Some(it) } => {
                        self.set_player_intent(None, Some(DesiresDropItem { item: it }));
                    },
                    _ => {},
                }
            },
            RunState::ShowTargeting { range: _, item } => {
                match input {
                    TickInput::Targeting { result: ItemMenuResult::Selected, target } => {
                        self.set_player_intent(Some(DesiresUseItem { item, target }), None);
                    },
                    _ => {},
                }
            },
            RunState::NextLevel => {
                self.goto_next_level();
                assert(player_stays(w0, self.world));
            },
            _ => {},
        }
        let (next, action) = transition(self.run_state, input, sel, stairs);
        self.run_state = next;
        let ghost wr = self.world;
        assert(player_stays(w0, wr));
        proof {
            if !(w_state is PreRun || w_state is PlayerTurn || w_state is MonsterTurn || w_state is NextLevel) {
                assert(quiet_step(w0, m0, w_state, input, sel, wr));
            }
        }
        reap(&mut self.world);
        proof {
            let p = w0.player;
            if player_kept(w0, p) && !w0.pending_deletions@.contains(p) {
                assert(wr.entities@[p.id as int] is Some);
                assert(!reaped(wr.entities@[p.id as int]->Some_0));
            }
        }
        proof {
            assert forall|j: int|
                0 <= j < self.world.entities@.len() && #[trigger] self.world.entities@[j] is Some
                    && self.world.entities@[j]->Some_0.combat_stats is Some
                    && self.world.entities@[j]->Some_0.combat_stats->Some_0.hp < 1 implies self.world.entities@[j]->Some_0.player is Some by {}
        }
        action
    }

    /// Records the player's wish to use or to drop an item; nothing else
    /// changes.
    fn set_player_intent(&mut self, use_item: Option<DesiresUseItem>, drop_item: Option<DesiresDropItem>)
        ensures
            intent_set(old(self).world, final(self).world, use_item, drop_item),
            final(self).map == old(self).map,
            final(self).run_state == old(self).run_state,
            final(self).world.player == old(self).world.player,
            final(self).world.player_pos == old(self).world.player_pos,
            final(self).world.pending_deletions == old(self).world.pending_deletions,
            final(self).world.entities@.len() == old(self).world.entities@.len(),
            forall|j: int|
                0 <= j < old(self).world.entities@.len() ==> (#[trigger] final(self).world.entities@[j] is Some
                    <==> old(self).world.entities@[j] is Some),
            forall|j: int|
                0 <= j < old(self).world.entities@.len() && #[trigger] final(self).world.entities@[j] is Some
                    ==> final(self).world.entities@[j]->Some_0.player == old(self).world.entities@[j]->Some_0.player
                    && final(self).world.entities@[j]->Some_0.item == old(self).world.entities@[j]->Some_0.item,
    {
        let p = self.world.player;
        if p.id < self.world.entities.len() {
            match &mut self.world.entities[p.id] {
                Some(rec) => {
                    if use_item.is_some() {
                        rec.desires_use_item = use_item;
                    }
                    if drop_item.is_some() {
                        rec.desires_drop_item = drop_item;
                    }
                },
                None => {},
            }
        }
        proof {
            let a = old(self).world;
            if a.live(p) {
                assert(self.world.entities@ =~= a.entities@.update(
                    p.id as int,
                    Some(EntityRecord {
                        desires_use_item: if use_item is Some { use_item } else { a.rec(p).desires_use_item },
                        desires_drop_item: if drop_item is Some { drop_item } else { a.rec(p).desires_drop_item },
                        ..a.rec(p)
                    }),
                ));
            } else {
                assert(self.world.entities@ =~= a.entities@);
            }
        }
    }
}

} // verus!
