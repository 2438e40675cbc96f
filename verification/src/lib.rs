//! The simulation core of a tick-driven multiplayer social-deduction game:
//! a handful of players share a map, a hidden impostor thins the crew while
//! the crew work through their tasks, and periodic day phases put the
//! suspicion to a vote. The engine owns the authoritative state — the phase
//! machine, the movement and collision rules, the election, and the win
//! conditions — and every rule is stated in its contract and proved.
//!
//! Coordinates and durations are integers: positions in fine units (16 000
//! to the map unit) and times in microseconds, so that identical inputs give
//! identical outcomes on every machine, whatever the frame rate.

pub mod vec2;
pub mod uuid;
pub mod rng;
pub mod entities;
pub mod status;
pub mod map;
pub mod trig;
pub mod game;
