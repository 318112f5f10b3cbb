pub mod damage;
pub mod melee_combat;
pub mod map_indexing;
pub mod visibility;
pub mod enemy_ai;
pub mod inventory;
