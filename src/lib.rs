//! A Minesweeper solving engine: the board model, the game session and the
//! exploration / deduction state machine that decides which tile to open and
//! which tile to flag as a mine.

pub mod grid;
pub mod board;
pub mod session;
pub mod solver;
