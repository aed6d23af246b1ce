//! A 3x3 two-player grid game: a state machine for the board, a terminal
//! evaluator, and an adversarial search engine that picks a provably optimal
//! move via minimax with alpha-beta pruning.

pub mod game;
pub mod random;
