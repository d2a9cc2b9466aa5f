//! A bitboard chess core: fixed 64-bit occupancy masks for one position,
//! and per-piece pseudo-legal move predicates derived from them by shifts,
//! edge masks and bounded ray walks.

pub mod bits;
pub mod board;
pub mod laws;
