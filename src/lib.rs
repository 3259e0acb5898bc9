//! Procedural dungeon generation and the turn scheduler that consumes it.
//!
//! - `map`, `geometry`: the fixed-size tile grid and its points and rooms.
//! - `distance`: breadth-first distance fields over walkable tiles.
//! - `automata`, `drunkard`, `rooms`: the three generation architects.
//! - `map_builder`, `prefab`: level assembly, goal choice, spawn points and
//!   the fortress prefab; `reach`: what the prefab leaves reachable.
//! - `turn_state`, `level`: the phase machine and what crosses a level change.
//! - `spawner`, `systems`, `camera`: what each phase decides about entities.
//!
//! Randomness comes from bracket-lib's `RandomNumberGenerator`, through the
//! wrappers in `rng`.

mod rng;

pub mod automata;
pub mod camera;
pub mod distance;
pub mod drunkard;
pub mod geometry;
pub mod level;
pub mod map;
pub mod map_builder;
pub mod prefab;
pub mod reach;
pub mod rooms;
pub mod spawner;
pub mod systems;
pub mod turn_state;
