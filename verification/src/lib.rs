//! A playable core for the board game Santorini: a phase-typed game state
//! machine over a bit-packed 5x5 board, together with the verified parts of a
//! Monte-Carlo tree search opponent (move enumeration, expansion, and a
//! semi-greedy random playout).

pub mod mcts;
pub mod player;
pub mod rng;
pub mod santorini;
