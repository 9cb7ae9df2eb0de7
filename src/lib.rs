//! Hexagonal-map foraging simulation: hex coordinates, a spatial index over
//! the map, and the per-agent decision loop that drives foraging and wandering.

pub mod behave_tree;
pub mod board_state;
pub mod hex;
pub mod partition;
pub mod pathing;
mod rng;
pub mod simulation;
