//! The move-supplier capability: an external collaborator asked, once per
//! turn, to pick a half-move for the position it is shown. Nothing is
//! promised of the answer; full legality is the caller's concern.

use vstd::prelude::*;

use crate::board::Board;
use crate::half_move::HalfMove;

verus! {

/// Suggests one half-move for a position snapshot. The call is synchronous
/// and may block arbitrarily long; the game loop stalls until it returns.
pub trait Player: Send + Sync {
    fn suggest_move(&self, board: &Board) -> HalfMove;
}

} // verus!
