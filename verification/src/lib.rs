//! Simulation core of a small 2D arcade shooter: an entity store, the
//! systems that move the player, fire and move projectiles, and the
//! scheduler that runs them once per tick.

pub mod algebra;
pub mod components;
pub mod laws;
pub mod model;
pub mod resources;
pub mod scheduler;
pub mod store;
pub mod systems;
pub mod units;
