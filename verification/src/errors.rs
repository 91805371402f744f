//! Failure values returned by the coordinate model, the interchange codec,
//! and move application. All of them are ordinary values: every fallible
//! operation in this crate reports its failure through a `Result`.

use vstd::prelude::*;

verus! {

/// A character does not map to any recognized axis, color, piece kind or
/// board-side token.
#[derive(Clone, Copy, Debug, PartialEq, Eq, Structural)]
pub struct InvalidChar;

/// A position-interchange string violates the six-field grammar: wrong field
/// count, a bad digit, a malformed en-passant pair, an unknown castling or
/// placement token.
#[derive(Clone, Copy, Debug, PartialEq, Eq, Structural)]
pub struct InvalidFenString;

/// A derived coordinate falls outside the 8x8 grid.
#[derive(Clone, Copy, Debug, PartialEq, Eq, Structural)]
pub struct PositionOutOfBounds;

/// Move application was asked to move from a square that holds no piece.
#[derive(Clone, Debug, PartialEq, Eq)]
pub struct InvalidMove {
    pub reason: String,
}

} // verus!
