use vstd::prelude::*;

use crate::geometry::Point;

verus! {

/// A stable handle: the index of the entity's slot in the world.
#[derive(Clone, Copy, Debug, PartialEq, Eq, Structural, Hash)]
pub struct Entity {
    pub id: usize,
}

#[derive(Clone, Copy, Debug, PartialEq, Eq, Structural)]
pub struct Position {
    pub x: i32,
    pub y: i32,
}

/// The cells an entity currently sees; `dirty` asks for a recomputation.
#[derive(Debug)]
pub struct Viewshed {
    pub visible_cells: Vec<Point>,
    pub range: i32,
    pub dirty: bool,
}

/// A color as red, green and blue intensities.
#[derive(Clone, Copy, Debug, PartialEq, Eq, Structural)]
pub struct Rgb {
    pub r: u8,
    pub g: u8,
    pub b: u8,
}

/// How an entity is drawn; entities are painted in ascending `render_order`.
#[derive(Clone, Copy, Debug, PartialEq, Eq, Structural)]
pub struct Renderable {
    pub glyph: u16,
    pub fg: Rgb,
    pub bg: Rgb,
    pub render_order: i32,
}

/// Tag: the entity blocks movement through its cell.
#[derive(Clone, Copy, Debug, PartialEq, Eq, Structural)]
pub struct BlocksCell {}

/// Tag: the entity is the player.
#[derive(Clone, Copy, Debug, PartialEq, Eq, Structural)]
pub struct Player {}

/// Tag: the entity is a hostile actor run by the AI.
#[derive(Clone, Copy, Debug, PartialEq, Eq, Structural)]
pub struct Enemy {}

#[derive(Debug)]
pub struct Name {
    pub name: String,
}

#[derive(Clone, Copy, Debug, PartialEq, Eq, Structural)]
pub struct CombatStats {
    pub max_hp: i32,
    pub hp: i32,
    pub defense: i32,
    pub power: i32,
}

/// Intent: attack `target` this turn.
#[derive(Clone, Copy, Debug, PartialEq, Eq, Structural)]
pub struct DesiresMelee {
    pub target: Entity,
}

/// The damage dealt to an entity this turn, not yet taken off its hit points.
#[derive(Debug)]
pub struct Damage {
    pub amount: Vec<i32>,
}

/// Tag: the entity can be picked up.
#[derive(Clone, Copy, Debug, PartialEq, Eq, Structural)]
pub struct Item {}

/// The item is carried by `owner`.
#[derive(Clone, Copy, Debug, PartialEq, Eq, Structural)]
pub struct InInventory {
    pub owner: Entity,
}

/// Intent: `acquired_by` picks up `item`.
#[derive(Clone, Copy, Debug, PartialEq, Eq, Structural)]
pub struct DesiresAcquireItem {
    pub acquired_by: Entity,
    pub item: Entity,
}

/// Intent: use `item`, on the user itself or on the cell `target`.
#[derive(Clone, Copy, Debug, PartialEq, Eq, Structural)]
pub struct DesiresUseItem {
    pub item: Entity,
    pub target: Option<Point>,
}

/// Intent: drop `item` where the holder stands.
#[derive(Clone, Copy, Debug, PartialEq, Eq, Structural)]
pub struct DesiresDropItem {
    pub item: Entity,
}

/// Tag: the item is used up once it takes effect.
#[derive(Clone, Copy, Debug, PartialEq, Eq, Structural)]
pub struct Consumable {}

#[derive(Clone, Copy, Debug, PartialEq, Eq, Structural)]
pub struct ProvidesHealing {
    pub heal_amount: i32,
}

/// The item is aimed at a cell up to `range` away.
#[derive(Clone, Copy, Debug, PartialEq, Eq, Structural)]
pub struct Ranged {
    pub range: i32,
}

#[derive(Clone, Copy, Debug, PartialEq, Eq, Structural)]
pub struct InflictsDamage {
    pub damage: i32,
}

#[derive(Clone, Copy, Debug, PartialEq, Eq, Structural)]
pub struct AreaOfEffect {
    pub radius: i32,
}

#[derive(Clone, Copy, Debug, PartialEq, Eq, Structural)]
pub enum StatusEffectType {
    Confusion,
}

/// A status effect on an actor, or the one an item inflicts.
#[derive(Debug)]
pub struct StatusEffect {
    pub effect: StatusEffectType,
    pub print_as: String,
    pub turns: i32,
}

} // verus!
