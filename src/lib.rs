//! Conway's Game of Life on an unbounded grid: a sparse live-set, the
//! generation rule, a text viewport, the classic patterns and the state of a
//! running simulation.

pub mod cell;
pub mod life;
pub mod render;
pub mod patterns;
pub mod laws;
pub mod game;
pub mod config;
