//! A 9x9 Sudoku solver built on a propositional SAT engine.
//!
//! The puzzle is encoded as a Boolean formula in conjunctive normal form:
//! one variable per (row, column, digit) triple, clause families that force
//! every cell to hold exactly one digit and every row, column and 3x3 box to
//! hold each digit at most once, plus one unit clause per pre-filled clue.
//! The external engine searches for a satisfying assignment, and the decoder
//! turns that assignment back into a completed grid, checking it against the
//! original clues.

pub mod decode;
pub mod encode;
pub mod grid;
pub mod solver;
pub mod soundness;
pub mod sudoku;
