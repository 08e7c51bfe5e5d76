//! A 9x9 Sudoku puzzle engine: board generation by a Latin-square
//! permutation construction, clue removal by difficulty, constraint
//! validation over rows, columns and boxes, and a compact 81-character
//! serialization, together with a cursor-based interaction layer.

pub mod app;
pub mod board;
pub mod difficulties;
pub mod generate;
pub mod grid;
pub mod position;
pub mod serial;
