//! A verified engine for Conway's Game of Life.
//!
//! The engine keeps the board as a sparse set of live coordinates and
//! advances it one generation at a time under a bounded or a toroidal
//! (wrap-around) topology.  Rendering, input handling and timing are the
//! host's business; the engine is pure and total over its valid inputs.

pub mod grid;
pub mod live;
pub mod patterns;
pub mod game;
pub mod laws;
