//! Conway's Game of Life on a fixed-size torus, with per-cell age tracking.
//!
//! * [`grid`] is the mathematical model: a grid as a sequence of ages, the
//!   neighbour count, the transition rule and one generation step.
//! * [`game`] is the executable engine, whose contracts are stated over the model.
//! * [`theorems`] holds facts about the model that relate several operations.

pub mod grid;
pub mod game;
pub mod theorems;
