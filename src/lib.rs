//! Conway's Game of Life on a fixed, bounded grid: the grid itself, the
//! successor rule, a half-block text renderer, a detector for repeated
//! generations and the decisions of the generation loop.

pub mod grid;
pub mod history;
pub mod render;
pub mod rules;
pub mod schedule;
pub mod stats;
