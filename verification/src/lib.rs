//! Game rules of a top-down elemental spell-casting dungeon crawler:
//! spell recipes, health and experience, item effects, loot tables,
//! summon and stolen-item queues, the boss attack planner, level
//! generation on a tile grid, the mobs' way-finding over the level's graph
//! and the choice of their spawn points.

pub mod elements;
pub mod health;
pub mod experience;
pub mod items;
pub mod loot;
pub mod mobs;
pub mod thief;
pub mod summon;
pub mod boss;
pub mod world;
pub mod timer;
pub mod gamemap;
pub mod pathfinding;
pub mod mob_map;
mod dice;
