//! Chain reaction: a turn-based board game in which cells that hold as many
//! atoms as they have neighbours explode into those neighbours.
pub mod board;
pub mod cell;
pub mod color;
pub mod errors;
