//! Piece staging: assemble blocks in memory until a piece is whole.
pub mod piece_pool;
pub mod pool;
