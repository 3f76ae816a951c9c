//! Simulation core of a falling-block puzzle game: the shape catalog, the
//! board with its collision and line-removal rules, and the game orchestrator.

pub mod piece;
pub mod board;
pub mod game;
