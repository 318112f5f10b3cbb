//! Simulation core of a turn-based dungeon crawler: an entity/component
//! world, a dungeon grid with visibility and path steps, and the combat and
//! item systems that advance the world one turn at a time.
pub mod components;
pub mod geometry;
pub mod map;
pub mod random;
pub mod log;
pub mod world;
pub mod systems;
pub mod state;
pub mod player;
pub mod random_table;
pub mod spawn;
