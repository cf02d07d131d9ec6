//! Grayscale LED-matrix rendering for ICN2037 driver chains, and a Game of Life
//! engine that drives it through fade transitions.

pub mod config;
pub mod display;
pub mod lifegame;
pub mod message;
pub mod patterns;
pub mod rng;
pub mod controls;
