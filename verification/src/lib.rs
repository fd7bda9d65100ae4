//! Decision core of a Tetris-playing agent: a placement enumerator and an
//! exact, integer-valued board evaluator.

pub mod board;
pub mod piece;
pub mod state;
pub mod placement;
pub mod move_map;
pub mod surface;
pub mod evaluator;
pub mod gen_moves;
