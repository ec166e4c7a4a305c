//! Core of a UCI chess engine: score arithmetic that is aware of mate
//! distances, a fixed-capacity transposition table, move ordering and an
//! iterative-deepening alpha-beta search that can be stopped cooperatively.

pub mod display;
pub mod evaluation;
pub mod hash;
pub mod moveorder;
pub mod moves;
pub mod position;
pub mod score;
pub mod search;
pub mod searchinterface;
pub mod text;
pub mod uci;
