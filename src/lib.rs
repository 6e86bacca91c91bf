//! A chess position held as one occupancy bitboard per piece kind, a parser for
//! Forsyth-Edwards style position descriptions, and pseudo-legal move generation.
pub mod bitboard;
pub mod board;
pub mod fen;
pub mod moves;
pub mod piece;
pub mod text;
