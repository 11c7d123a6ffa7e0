//! A color-stack sorting puzzle engine: a fixed grid of stacks, each holding
//! colored tokens up to a fixed depth, with moves that pour the top token of
//! one stack onto another. The board validates moves, applies and reverts
//! them, and detects the solved condition.

pub mod board;
pub mod laws;
