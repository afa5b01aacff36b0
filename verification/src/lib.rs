//! A chess engine: a depth-limited alpha-beta search over the positions of the
//! `chess` crate, with a tapered piece-square evaluation, killer and history
//! move ordering, and a transposition table keyed by Zobrist hashes.

pub mod bits;
pub mod pieces;
pub mod placement;
pub mod position;
pub mod zobrist;
pub mod piece_sq_tables;
pub mod pieces_colored;
pub mod uci;
pub mod basic_bot;
pub mod evaluation;
pub mod ordering;
pub mod search;
pub mod conversion;
pub mod symmetry;
pub mod minimax;
