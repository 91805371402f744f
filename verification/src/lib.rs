//! The rules and state core of a chess engine: a bitboard-based board
//! representation, a six-field textual position codec, and per-piece-kind
//! pseudo-legal move generation. Every executable function carries a
//! contract stated over the mathematical views of the types, and the
//! invariants the design relies on — above all, that no square is ever held
//! by two of the twelve bitboards — are proved, not assumed.

pub mod bitboard;
pub mod board;
pub mod errors;
pub mod fen;
pub mod half_move;
pub mod piece;
pub mod piece_map;
pub mod pieces;
pub mod player;
pub mod position;
