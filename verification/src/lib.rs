//! A chess rules engine: the board state, the pseudo-legal and legal move
//! oracles, attack detection, castling, en passant and legal-move enumeration.

pub mod board;
pub mod fen;
pub mod laws;
pub mod lines;
pub mod model;
pub mod piece;
pub mod rules;

pub use board::{Board, Position};
