//! Simulation core of a turn-based dungeon game: a generated tile map, the
//! systems that compute visibility, occupancy, monster behaviour, melee and
//! death over an entity-component world, and the turn state machine that
//! orders them.

pub mod rect;
pub mod random;
pub mod components;
pub mod store;
pub mod map;
pub mod connectivity;
pub mod map_indexing_system;
pub mod melee_combat_system;
pub mod damage_system;
pub mod visibility_system;
pub mod monster_ai_system;
pub mod state;

pub use rect::Rect;
pub use map::{Layout, TileMap, TileType};
pub use map_indexing_system::MapIndexingSystem;
pub use melee_combat_system::{Blow, MeleeCombatSystem};
pub use visibility_system::VisibilitySystem;
pub use monster_ai_system::{Intent, MonsterAI, NavigationPath};
pub use state::{RunState, State};
pub use damage_system::{delete_the_dead, DamageSystem};
pub use components::{
    BlocksTile, CombatStats, Monster, Name, Player, Coord, Position, Renderable, SufferDamage,
    Viewshed, ViewshedView, WantsToMelee,
};
