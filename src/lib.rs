//! A rule-driven cellular automaton over a fixed square grid of binary cells.
//!
//! Each generation is computed from the current grid by applying an ordered
//! list of rules to every cell in column-major scan order, writing into a
//! second buffer that then replaces the current grid.
pub mod state;
pub mod grid;
pub mod rule;
pub mod engine;
pub mod theorems;
