//! Conway's Game of Life on a wrapping board: the board, the generation
//! rule, resizing, and the decisions of the real-time control loop.

pub mod board;
pub mod logic;
pub mod control;
pub mod patterns;
