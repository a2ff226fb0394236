//! A verified Othello/Reversi engine: a bit-packed board with the capture
//! rule, exhaustive move enumeration, minimax search with alpha-beta pruning,
//! and a family of move-picking bots built on top of them.

pub mod board;
pub mod bots;
pub mod interface;
pub mod search;
