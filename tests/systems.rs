use whatever::components::{
    CombatStats, Consumable, Enemy, Entity, Item, Name, Position, ProvidesHealing,
    StatusEffect, StatusEffectType, Viewshed, BlocksCell, DesiresMelee, Damage, InInventory,
    DesiresUseItem, DesiresAcquireItem, DesiresDropItem,
};
use whatever::geometry::{Point, Rect};
use whatever::log::LogEntry;
use whatever::map::{CellType, GameMap};
use whatever::random_table::{RandomTable, SpawnKind};
use whatever::state::{
    transition, ItemMenuResult, MainMenuResult, MainMenuSelection, PlayerIntent, RunState,
    TickAction, TickInput,
};
use whatever::systems::damage::{apply_amounts, reap, DamageSystem};
use whatever::systems::enemy_ai::EnemyAISystem;
use whatever::systems::inventory::{ItemAcquisitionSystem, ItemDropSystem, ItemUseSystem};
use whatever::systems::map_indexing::MapIndexingSystem;
use whatever::systems::melee_combat::{melee_damage, MeleeCombatSystem};
use whatever::systems::visibility::VisibilitySystem;
use whatever::world::{EntityRecord, World};

struct Grid<'a>(&'a GameMap);

impl rltk::Algorithm2D for Grid<'_> {
    fn dimensions(&self) -> rltk::Point {
        let d = self.0.dimensions();
        rltk::Point::new(d.x, d.y)
    }
}

impl rltk::BaseMap for Grid<'_> {
    fn is_opaque(&self, idx: usize) -> bool {
        self.0.is_opaque(idx)
    }

    fn get_available_exits(&self, idx: usize) -> rltk::SmallVec<[(usize, f32); 10]> {
        self.0
            .get_available_exits(idx)
            .into_iter()
            .map(|(i, c)| (i, c as f32 / 100.0))
            .collect()
    }

    fn get_pathing_distance(&self, a: usize, b: usize) -> f32 {
        let w = self.0.width as usize;
        let p1 = rltk::Point::new(a % w, a / w);
        let p2 = rltk::Point::new(b % w, b / w);
        rltk::DistanceAlg::Pythagoras.distance2d(p1, p2)
    }
}

fn fov(m: &GameMap, p: Point, r: i32) -> Vec<Point> {
    rltk::field_of_view(rltk::Point::new(p.x, p.y), r, &Grid(m))
        .into_iter()
        .map(|q| Point { x: q.x, y: q.y })
        .collect()
}

fn path(m: &GameMap, a: usize, b: usize) -> Option<usize> {
    let p = rltk::a_star_search(a, b, &Grid(m));
    if p.success && p.steps.len() > 1 {
        Some(p.steps[1])
    } else {
        None
    }
}

/// A level whose only floor is the rectangle from (x1, y1) to (x2, y2).
fn open_room(x1: i32, y1: i32, x2: i32, y2: i32) -> GameMap {
    let mut m = GameMap::blank(1);
    for y in y1..=y2 {
        for x in x1..=x2 {
            let i = (y * m.width + x) as usize;
            m.cells[i] = CellType::Floor;
        }
    }
    m
}

fn stats(hp: i32, max_hp: i32, defense: i32, power: i32) -> CombatStats {
    CombatStats { max_hp, hp, defense, power }
}

fn named(name: &str) -> Option<Name> {
    Some(Name { name: name.to_string() })
}

fn slot(w: &World, e: Entity) -> &EntityRecord {
    w.entities[e.id].as_ref().unwrap()
}

fn add_player(w: &mut World, x: i32, y: i32) -> Entity {
    let e = whatever::spawn::player(w, x, y);
    w.player = e;
    w.player_pos = Point { x, y };
    e
}

fn add_enemy(w: &mut World, x: i32, y: i32, s: CombatStats) -> Entity {
    let mut r = EntityRecord::new();
    r.position = Some(Position { x, y });
    r.enemy = Some(Enemy {});
    r.name = named("Orc");
    r.combat_stats = Some(s);
    r.blocks_cell = Some(BlocksCell {});
    r.viewshed = Some(Viewshed { visible_cells: Vec::new(), range: 8, dirty: true });
    w.spawn(r)
}

#[test]
fn melee_damage_formula() {
    assert_eq!(melee_damage(5, 2), 3);
    assert_eq!(melee_damage(1, 4), 0);
    assert_eq!(melee_damage(4, 4), 0);
    assert_eq!(melee_damage(i32::MAX, -5), i32::MAX);
}

#[test]
fn melee_blow_goes_to_accumulator() {
    let mut w = World::new();
    let p = add_player(&mut w, 5, 5);
    let o = add_enemy(&mut w, 6, 5, stats(16, 16, 1, 4));
    w.entities[p.id].as_mut().unwrap().desires_melee = Some(DesiresMelee { target: o });
    w.entities[o.id].as_mut().unwrap().desires_melee = Some(DesiresMelee { target: p });
    MeleeCombatSystem {}.run(&mut w);
    assert_eq!(slot(&w, o).damage.as_ref().unwrap().amount, vec![4]);
    assert_eq!(slot(&w, p).damage.as_ref().unwrap().amount, vec![2]);
    assert!(slot(&w, p).desires_melee.is_none());
    assert!(slot(&w, o).desires_melee.is_none());
    assert_eq!(slot(&w, o).combat_stats.unwrap().hp, 16);
    assert_eq!(
        w.log.entries,
        vec![
            LogEntry::Hit { attacker: p, target: o, amount: 4 },
            LogEntry::Hit { attacker: o, target: p, amount: 2 },
        ]
    );
}

#[test]
fn zero_damage_blow_is_logged_without_accumulator() {
    let mut w = World::new();
    let p = add_player(&mut w, 5, 5);
    let o = add_enemy(&mut w, 6, 5, stats(16, 16, 4, 1));
    w.entities[o.id].as_mut().unwrap().desires_melee = Some(DesiresMelee { target: p });
    w.entities[p.id].as_mut().unwrap().combat_stats = Some(stats(30, 30, 4, 5));
    MeleeCombatSystem {}.run(&mut w);
    assert!(slot(&w, p).damage.is_none());
    assert_eq!(w.log.entries, vec![LogEntry::NoDamage { attacker: o, target: p }]);
}

#[test]
fn no_blow_at_a_corpse() {
    let mut w = World::new();
    let p = add_player(&mut w, 5, 5);
    let o = add_enemy(&mut w, 6, 5, stats(0, 16, 1, 4));
    w.entities[p.id].as_mut().unwrap().desires_melee = Some(DesiresMelee { target: o });
    MeleeCombatSystem {}.run(&mut w);
    assert!(slot(&w, o).damage.is_none());
    assert!(w.log.entries.is_empty());
}

#[test]
fn batched_damage_equals_sequential() {
    let mut w = World::new();
    let o = add_enemy(&mut w, 6, 5, stats(30, 30, 1, 4));
    w.entities[o.id].as_mut().unwrap().damage = Some(Damage { amount: vec![5, 7, 3] });
    DamageSystem {}.run(&mut w);
    assert_eq!(slot(&w, o).combat_stats.unwrap().hp, 15);
    assert!(slot(&w, o).damage.is_none());

    let mut seq = World::new();
    let o2 = add_enemy(&mut seq, 6, 5, stats(30, 30, 1, 4));
    for a in [5, 7, 3] {
        Damage::new_damage(&mut seq.entities[o2.id].as_mut().unwrap().damage, a);
        DamageSystem {}.run(&mut seq);
    }
    assert_eq!(slot(&seq, o2).combat_stats.unwrap().hp, 15);
}

#[test]
fn damage_may_leave_hp_negative() {
    assert_eq!(apply_amounts(3, &vec![10]), -7);
    assert_eq!(apply_amounts(i32::MIN + 1, &vec![5]), i32::MIN);
}

#[test]
fn new_damage_appends() {
    let mut d: Option<Damage> = None;
    Damage::new_damage(&mut d, 4);
    Damage::new_damage(&mut d, 6);
    assert_eq!(d.unwrap().amount, vec![4, 6]);
}

#[test]
fn reap_deletes_dead_but_keeps_player() {
    let mut w = World::new();
    let p = add_player(&mut w, 5, 5);
    let o = add_enemy(&mut w, 6, 5, stats(0, 16, 1, 4));
    let alive = add_enemy(&mut w, 7, 5, stats(3, 16, 1, 4));
    w.entities[p.id].as_mut().unwrap().combat_stats = Some(stats(0, 30, 2, 5));
    reap(&mut w);
    assert!(w.entities[o.id].is_none());
    assert!(w.entities[p.id].is_some());
    assert!(w.entities[alive.id].is_some());
    assert_eq!(w.log.entries, vec![LogEntry::PlayerDied, LogEntry::Died { entity: o }]);
}

#[test]
fn astar_step_is_diagonal() {
    let mut m = open_room(1, 1, 3, 3);
    let mut w = World::new();
    let p = add_player(&mut w, 3, 3);
    let o = add_enemy(&mut w, 1, 1, stats(16, 16, 1, 4));
    MapIndexingSystem {}.run(&w, &mut m);
    VisibilitySystem {}.run(&mut w, &mut m, &fov);
    assert!(slot(&w, o).viewshed.as_ref().unwrap().visible_cells.contains(&Point { x: 3, y: 3 }));
    EnemyAISystem {}.run(&mut w, &mut m, RunState::MonsterTurn, &path);
    assert_eq!(slot(&w, o).position, Some(Position { x: 2, y: 2 }));
    assert!(slot(&w, o).viewshed.as_ref().unwrap().dirty);
    assert!(m.blocked[(2 * m.width + 2) as usize]);
    assert!(!m.blocked[(m.width + 1) as usize]);
    assert!(slot(&w, p).desires_melee.is_none());
}

#[test]
fn ai_waits_outside_monster_turn() {
    let mut m = open_room(1, 1, 3, 3);
    let mut w = World::new();
    add_player(&mut w, 3, 3);
    let o = add_enemy(&mut w, 1, 1, stats(16, 16, 1, 4));
    MapIndexingSystem {}.run(&w, &mut m);
    VisibilitySystem {}.run(&mut w, &mut m, &fov);
    EnemyAISystem {}.run(&mut w, &mut m, RunState::PlayerTurn, &path);
    assert_eq!(slot(&w, o).position, Some(Position { x: 1, y: 1 }));
}

#[test]
fn adjacent_enemy_attacks() {
    let mut m = open_room(1, 1, 5, 5);
    let mut w = World::new();
    let p = add_player(&mut w, 3, 3);
    let o = add_enemy(&mut w, 2, 2, stats(16, 16, 1, 4));
    EnemyAISystem {}.run(&mut w, &mut m, RunState::MonsterTurn, &path);
    assert_eq!(slot(&w, o).desires_melee, Some(DesiresMelee { target: p }));
    assert_eq!(slot(&w, o).position, Some(Position { x: 2, y: 2 }));
}

#[test]
fn confusion_suppresses_one_turn() {
    let mut m = open_room(1, 1, 5, 5);
    let mut w = World::new();
    add_player(&mut w, 3, 3);
    let o = add_enemy(&mut w, 2, 2, stats(16, 16, 1, 4));
    w.entities[o.id].as_mut().unwrap().status_effect = Some(StatusEffect {
        effect: StatusEffectType::Confusion,
        print_as: "confusing".to_string(),
        turns: 1,
    });
    EnemyAISystem {}.run(&mut w, &mut m, RunState::MonsterTurn, &path);
    assert!(slot(&w, o).desires_melee.is_none());
    assert!(slot(&w, o).status_effect.is_none());
    EnemyAISystem {}.run(&mut w, &mut m, RunState::MonsterTurn, &path);
    assert!(slot(&w, o).desires_melee.is_some());
}

#[test]
fn status_effect_counts_down() {
    let mut m = open_room(1, 1, 5, 5);
    let mut w = World::new();
    add_player(&mut w, 3, 3);
    let o = add_enemy(&mut w, 2, 2, stats(16, 16, 1, 4));
    w.entities[o.id].as_mut().unwrap().status_effect = Some(StatusEffect {
        effect: StatusEffectType::Confusion,
        print_as: "confusing".to_string(),
        turns: 3,
    });
    EnemyAISystem {}.run(&mut w, &mut m, RunState::MonsterTurn, &path);
    assert_eq!(slot(&w, o).status_effect.as_ref().unwrap().turns, 2);
    assert!(slot(&w, o).desires_melee.is_none());
}

fn potion(w: &mut World, holder: Entity) -> Entity {
    let mut r = EntityRecord::new();
    r.name = named("Health Potion");
    r.item = Some(Item {});
    r.consumable = Some(Consumable {});
    r.provides_healing = Some(ProvidesHealing { heal_amount: 8 });
    r.in_inventory = Some(InInventory { owner: holder });
    w.spawn(r)
}

#[test]
fn healing_potion_round_trip() {
    let m = open_room(1, 1, 5, 5);
    let mut w = World::new();
    let p = add_player(&mut w, 3, 3);
    w.entities[p.id].as_mut().unwrap().combat_stats = Some(stats(10, 30, 2, 5));
    let item = potion(&mut w, p);
    w.entities[p.id].as_mut().unwrap().desires_use_item = Some(DesiresUseItem { item, target: None });
    ItemUseSystem {}.run(&mut w, &m, &fov);
    w.maintain();
    assert_eq!(slot(&w, p).combat_stats.unwrap().hp, 18);
    assert_eq!(w.log.entries, vec![LogEntry::Healed { item, target: p, amount: 8 }]);
    assert!(w.entities[item.id].is_none());
    assert!(slot(&w, p).desires_use_item.is_none());
}

#[test]
fn healing_at_full_health_fizzles() {
    let m = open_room(1, 1, 5, 5);
    let mut w = World::new();
    let p = add_player(&mut w, 3, 3);
    let item = potion(&mut w, p);
    w.entities[p.id].as_mut().unwrap().desires_use_item = Some(DesiresUseItem { item, target: None });
    ItemUseSystem {}.run(&mut w, &m, &fov);
    w.maintain();
    assert_eq!(slot(&w, p).combat_stats.unwrap().hp, 30);
    assert!(w.entities[item.id].is_some());
}

#[test]
fn healing_is_capped() {
    let m = open_room(1, 1, 5, 5);
    let mut w = World::new();
    let p = add_player(&mut w, 3, 3);
    w.entities[p.id].as_mut().unwrap().combat_stats = Some(stats(27, 30, 2, 5));
    let item = potion(&mut w, p);
    w.entities[p.id].as_mut().unwrap().desires_use_item = Some(DesiresUseItem { item, target: None });
    ItemUseSystem {}.run(&mut w, &m, &fov);
    assert_eq!(slot(&w, p).combat_stats.unwrap().hp, 30);
}

#[test]
fn fireball_hits_every_occupant_of_the_blast() {
    let mut m = open_room(1, 1, 10, 10);
    let mut w = World::new();
    let p = add_player(&mut w, 1, 1);
    let a = add_enemy(&mut w, 5, 5, stats(16, 16, 1, 4));
    let b = add_enemy(&mut w, 6, 5, stats(16, 16, 1, 4));
    let far = add_enemy(&mut w, 10, 10, stats(16, 16, 1, 4));
    let mut r = EntityRecord::new();
    r.item = Some(Item {});
    r.consumable = Some(Consumable {});
    r.inflicts_damage = Some(whatever::components::InflictsDamage { damage: 20 });
    r.area_of_effect = Some(whatever::components::AreaOfEffect { radius: 2 });
    r.in_inventory = Some(InInventory { owner: p });
    let scroll = w.spawn(r);
    MapIndexingSystem {}.run(&w, &mut m);
    w.entities[p.id].as_mut().unwrap().desires_use_item =
        Some(DesiresUseItem { item: scroll, target: Some(Point { x: 5, y: 5 }) });
    ItemUseSystem {}.run(&mut w, &m, &fov);
    assert_eq!(slot(&w, a).damage.as_ref().unwrap().amount, vec![20]);
    assert_eq!(slot(&w, b).damage.as_ref().unwrap().amount, vec![20]);
    assert!(slot(&w, far).damage.is_none());
    assert!(slot(&w, p).damage.is_none());
    assert_eq!(w.pending_deletions, vec![scroll]);
}

#[test]
fn pickup_and_drop() {
    let mut w = World::new();
    let p = add_player(&mut w, 3, 3);
    let mut r = EntityRecord::new();
    r.item = Some(Item {});
    r.position = Some(Position { x: 3, y: 3 });
    let item = w.spawn(r);
    whatever::player::acquire_item(&mut w);
    assert_eq!(
        slot(&w, p).desires_acquire_item,
        Some(DesiresAcquireItem { acquired_by: p, item })
    );
    ItemAcquisitionSystem {}.run(&mut w);
    assert_eq!(slot(&w, item).position, None);
    assert_eq!(slot(&w, item).in_inventory, Some(InInventory { owner: p }));
    assert_eq!(w.log.entries, vec![LogEntry::PickedUp { item }]);

    w.entities[p.id].as_mut().unwrap().position = Some(Position { x: 4, y: 2 });
    w.entities[p.id].as_mut().unwrap().desires_drop_item = Some(DesiresDropItem { item });
    ItemDropSystem {}.run(&mut w);
    assert_eq!(slot(&w, item).position, Some(Position { x: 4, y: 2 }));
    assert_eq!(slot(&w, item).in_inventory, None);
    assert!(slot(&w, p).desires_drop_item.is_none());
}

#[test]
fn nothing_to_pick_up() {
    let mut w = World::new();
    add_player(&mut w, 3, 3);
    whatever::player::acquire_item(&mut w);
    assert_eq!(w.log.entries, vec![LogEntry::NothingToPickUp]);
}

#[test]
fn indexing_rebuilds_blocked_and_occupants() {
    let mut m = open_room(1, 1, 5, 5);
    let mut w = World::new();
    let p = add_player(&mut w, 2, 2);
    let o = add_enemy(&mut w, 3, 3, stats(16, 16, 1, 4));
    MapIndexingSystem {}.run(&w, &mut m);
    let width = m.width;
    assert!(!m.blocked[(2 * width + 2) as usize]);
    assert!(m.blocked[(3 * width + 3) as usize]);
    assert!(m.blocked[0]);
    assert_eq!(m.cell_content[(2 * width + 2) as usize], vec![p]);
    w.entities[o.id].as_mut().unwrap().position = Some(Position { x: 4, y: 4 });
    MapIndexingSystem {}.run(&w, &mut m);
    assert!(m.cell_content[(3 * width + 3) as usize].is_empty());
    assert!(!m.blocked[(3 * width + 3) as usize]);
    assert_eq!(m.cell_content[(4 * width + 4) as usize], vec![o]);
}

#[test]
fn visibility_reveals_and_keeps_fog_consistent() {
    let mut m = open_room(1, 1, 10, 10);
    let mut w = World::new();
    let p = add_player(&mut w, 2, 2);
    VisibilitySystem {}.run(&mut w, &mut m, &fov);
    let v = slot(&w, p).viewshed.as_ref().unwrap();
    assert!(!v.dirty);
    assert!(v.visible_cells.contains(&Point { x: 5, y: 5 }));
    let idx = (5 * m.width + 5) as usize;
    assert!(m.visible_cells[idx] && m.revealed_cells[idx]);
    for i in 0..m.visible_cells.len() {
        assert!(!m.visible_cells[i] || m.revealed_cells[i]);
    }
    whatever::player::try_move_player(1, 1, &mut w, &m);
    assert_eq!(slot(&w, p).position, Some(Position { x: 3, y: 3 }));
    VisibilitySystem {}.run(&mut w, &mut m, &fov);
    assert!(m.revealed_cells[(m.width + 1) as usize]);
    for i in 0..m.visible_cells.len() {
        assert!(!m.visible_cells[i] || m.revealed_cells[i]);
    }
}

#[test]
fn moving_into_an_enemy_attacks_it() {
    let mut m = open_room(1, 1, 5, 5);
    let mut w = World::new();
    let p = add_player(&mut w, 2, 2);
    let o = add_enemy(&mut w, 3, 2, stats(16, 16, 1, 4));
    MapIndexingSystem {}.run(&w, &mut m);
    whatever::player::try_move_player(1, 0, &mut w, &m);
    assert_eq!(slot(&w, p).desires_melee, Some(DesiresMelee { target: o }));
    assert_eq!(slot(&w, p).position, Some(Position { x: 2, y: 2 }));
    whatever::player::try_move_player(-1, 0, &mut w, &m);
    assert_eq!(slot(&w, p).position, Some(Position { x: 1, y: 2 }));
    assert_eq!(w.player_pos, Point { x: 1, y: 2 });
    whatever::player::try_move_player(-1, 0, &mut w, &m);
    assert_eq!(slot(&w, p).position, Some(Position { x: 1, y: 2 }));
}

#[test]
fn stairs_check() {
    let mut m = open_room(1, 1, 5, 5);
    let mut w = World::new();
    add_player(&mut w, 2, 2);
    assert!(!whatever::player::try_next_level(&mut w, &m));
    assert_eq!(w.log.entries, vec![LogEntry::NoWayDown]);
    m.cells[(2 * m.width + 2) as usize] = CellType::DownStairs;
    assert!(whatever::player::try_next_level(&mut w, &m));
}

#[test]
fn turn_transitions() {
    let c = TickAction::Continue;
    assert_eq!(transition(RunState::PreRun, TickInput::Nothing, None, false), (RunState::AwaitingInput, c));
    assert_eq!(
        transition(RunState::AwaitingInput, TickInput::Intent(PlayerIntent::Move { dx: 1, dy: 0 }), None, false),
        (RunState::PlayerTurn, c)
    );
    assert_eq!(transition(RunState::AwaitingInput, TickInput::Nothing, None, false), (RunState::AwaitingInput, c));
    assert_eq!(transition(RunState::PlayerTurn, TickInput::Nothing, None, false), (RunState::MonsterTurn, c));
    assert_eq!(transition(RunState::MonsterTurn, TickInput::Nothing, None, false), (RunState::AwaitingInput, c));
    assert_eq!(
        transition(RunState::AwaitingInput, TickInput::Intent(PlayerIntent::Descend), None, true),
        (RunState::NextLevel, c)
    );
    let item = Entity { id: 4 };
    assert_eq!(
        transition(
            RunState::ShowInventory,
            TickInput::ItemMenu { result: ItemMenuResult::Selected, item: Some(item) },
            Some(6),
            false
        ),
        (RunState::ShowTargeting { range: 6, item }, c)
    );
    assert_eq!(
        transition(RunState::SaveGame, TickInput::Nothing, None, false),
        (RunState::MainMenu { menu_selection: MainMenuSelection::LoadGame }, TickAction::SaveGame)
    );
    assert_eq!(
        transition(
            RunState::MainMenu { menu_selection: MainMenuSelection::NewGame },
            TickInput::MainMenu(MainMenuResult::Selected { selected: MainMenuSelection::LoadGame }),
            None,
            false
        ),
        (RunState::PreRun, TickAction::LoadGame)
    );
    assert_eq!(transition(RunState::NextLevel, TickInput::Nothing, None, false), (RunState::PreRun, c));
}

#[test]
fn random_table_picks_by_weight() {
    let t = RandomTable::new().add(SpawnKind::Goblin, 10).add(SpawnKind::Orc, 2).add(SpawnKind::HealthPotion, 0);
    assert_eq!(t.total_weight, 12);
    assert_eq!(t.pick_entry(0), Some(SpawnKind::Goblin));
    assert_eq!(t.pick_entry(9), Some(SpawnKind::Goblin));
    assert_eq!(t.pick_entry(10), Some(SpawnKind::Orc));
    assert_eq!(t.pick_entry(12), None);
    let mut rng = rltk::RandomNumberGenerator::seeded(7);
    for _ in 0..50 {
        assert!(t.roll(&mut rng).is_some());
    }
    assert!(RandomTable::new().roll(&mut rng).is_none());
}

#[test]
fn room_spawns_inside_room() {
    let mut w = World::new();
    let mut rng = rltk::RandomNumberGenerator::seeded(3);
    let room = Rect { x1: 10, y1: 10, x2: 18, y2: 17 };
    for _ in 0..20 {
        whatever::spawn::room(&mut w, &mut rng, &room, 3);
    }
    assert!(!w.entities.is_empty());
    for s in w.entities.iter() {
        let p = s.as_ref().unwrap().position.unwrap();
        assert!(p.x > 10 && p.x <= 18 && p.y > 10 && p.y <= 17);
    }
}

#[test]
fn drop_lands_on_holder_cell() {
    let mut w = World::new();
    let p = add_player(&mut w, 7, 4);
    let mut r = EntityRecord::new();
    r.item = Some(Item {});
    r.in_inventory = Some(InInventory { owner: p });
    let item = w.spawn(r);
    w.entities[p.id].as_mut().unwrap().desires_drop_item = Some(DesiresDropItem { item });
    ItemDropSystem {}.run(&mut w);
    assert_eq!(slot(&w, item).position, Some(Position { x: 7, y: 4 }));
}

#[test]
fn use_intent_naming_a_non_item_is_dropped() {
    let m = open_room(1, 1, 5, 5);
    let mut w = World::new();
    let p = add_player(&mut w, 3, 3);
    let o = add_enemy(&mut w, 2, 2, stats(16, 16, 1, 4));
    w.entities[p.id].as_mut().unwrap().desires_use_item = Some(DesiresUseItem { item: o, target: None });
    ItemUseSystem {}.run(&mut w, &m, &fov);
    assert!(slot(&w, p).desires_use_item.is_none());
    assert!(w.pending_deletions.is_empty());
}

#[test]
fn tick_runs_the_pipeline_and_reaps() {
    let mut m = open_room(1, 1, 8, 8);
    let mut w = World::new();
    let p = add_player(&mut w, 2, 2);
    let o = add_enemy(&mut w, 3, 2, stats(2, 16, 1, 4));
    w.entities[p.id].as_mut().unwrap().desires_melee = Some(DesiresMelee { target: o });
    MapIndexingSystem {}.run(&w, &mut m);
    let mut gs = whatever::state::State { world: w, map: m, run_state: RunState::PlayerTurn };
    let action = gs.tick(TickInput::Nothing, &fov, &path);
    assert_eq!(action, TickAction::Continue);
    assert_eq!(gs.run_state, RunState::MonsterTurn);
    assert!(gs.world.entities[o.id].is_none());
    assert!(gs.world.entities[p.id].is_some());
    assert!(gs.world.log.entries.contains(&LogEntry::Died { entity: o }));
}

#[test]
fn tick_moves_the_player() {
    let mut m = open_room(1, 1, 8, 8);
    let mut w = World::new();
    let p = add_player(&mut w, 2, 2);
    MapIndexingSystem {}.run(&w, &mut m);
    let mut gs = whatever::state::State { world: w, map: m, run_state: RunState::AwaitingInput };
    gs.tick(TickInput::Intent(PlayerIntent::Move { dx: 5, dy: 0 }), &fov, &path);
    assert_eq!(gs.run_state, RunState::PlayerTurn);
    assert_eq!(slot(&gs.world, p).position, Some(Position { x: 3, y: 2 }));
}
