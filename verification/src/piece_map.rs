//! One value per (piece kind, color) pair: the twelve bitboards of a board,
//! indexed by `Piece::index`.

use vstd::prelude::*;

use crate::bitboard::Bitboard;
use crate::piece::Piece;

verus! {

/// The twelve square-sets of a board, one per (kind, color) pair, laid out
/// by `pm_index`: a color's six kinds sit together, White first.
#[derive(Clone, Copy, Debug, PartialEq, Eq)]
pub struct PieceMap {
    boards: [Bitboard; 12],
}

impl View for PieceMap {
    type V = Seq<u64>;

    closed spec fn view(&self) -> Seq<u64> {
        self.boards@.map_values(|b: Bitboard| b@)
    }
}

impl PieceMap {
    /// An all-empty map: every bitboard is the empty set.
    pub fn new() -> (r: Self)
        ensures
            r@.len() == 12,
            forall|i: int| 0 <= i < 12 ==> r@[i] == 0u64,
    {
        let empty = Bitboard::new();
        let r = Self {
            boards: [
                empty,
                empty,
                empty,
                empty,
                empty,
                empty,
                empty,
                empty,
                empty,
                empty,
                empty,
                empty,
            ],
        };
        proof {
            assert(forall|i: int| 0 <= i < 12 ==> r@[i] == r.boards@[i]@);
        }
        r
    }

    /// The map always holds exactly twelve bitboards.
    pub proof fn lemma_len(self)
        ensures
            self@.len() == 12,
    {
    }

    /// The bitboard of one (kind, color) pair.
    pub fn get(&self, piece: &Piece) -> (r: Bitboard)
        ensures
            r@ == self@[pm_index_of(piece)],
    {
        proof {
            self.lemma_len();
        }
        self.boards[piece.index() as usize]
    }

    /// Replaces the bitboard of one (kind, color) pair; the other eleven stay
    /// as they were.
    pub fn set(&mut self, piece: &Piece, value: Bitboard)
        ensures
            final(self)@ == old(self)@.update(pm_index_of(piece), value@),
    {
        proof {
            old(self).lemma_len();
        }
        let idx = piece.index() as usize;
        self.boards[idx] = value;
        proof {
            assert(final(self)@ =~= old(self)@.update(pm_index_of(piece), value@));
        }
    }
}

/// The bitboard index of a piece, as `pm_index` gives it.
pub open spec fn pm_index_of(piece: &Piece) -> int {
    crate::piece::pm_index(piece.ptype.idx(), piece.color.idx())
}

} // verus!
