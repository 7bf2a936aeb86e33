//! A deterministic, turn-based grid-simulation engine for a snake game.
//!
//! The engine owns the board state, advances it one discrete step at a time,
//! enforces movement and collision rules, spawns food through a seeded
//! pseudo-random generator, and tracks score and high score. Rendering,
//! input handling and scheduling are left to an external driver, which calls
//! `tick`, `change_direction` and `restart` (or feeds `Command`s to `apply`)
//! and reads the state back through the public fields.
//!
//! Every operation carries a contract against the mathematical state in
//! `GameModel`; the `laws` module states and proves the engine's global
//! properties, such as the board-occupancy accounting and determinism.

pub mod laws;
pub mod random;
pub mod snake;
