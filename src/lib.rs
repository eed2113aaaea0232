//! Bulls and cows ("toros y vacas"): secret codes, feedback, and a
//! minimax guessing strategy, with contracts proved by Verus.

pub mod code;
pub mod solver;
pub mod player;
pub mod text;
pub mod session;
