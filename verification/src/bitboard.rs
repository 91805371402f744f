//! A 64-bit membership set over the squares of the grid. One instance exists
//! per (piece kind, color) pair; bit `i` records whether the square with
//! linear index `i` belongs to the set.

use vstd::prelude::*;

use crate::errors::PositionOutOfBounds;
use crate::position::{Axis, Position};

verus! {

/// Whether bit `i` of `data` is set. Meaningful for `0 <= i < 64`.
pub open spec fn bit_at(data: u64, i: int) -> bool {
    (data >> (i as u64)) & 1u64 == 1u64
}

/// `data` with bit `i` set.
pub open spec fn with_bit(data: u64, i: int) -> u64 {
    data | (1u64 << (i as u64))
}

/// `data` with bit `i` cleared.
pub open spec fn without_bit(data: u64, i: int) -> u64 {
    data & !(1u64 << (i as u64))
}

/// Setting bit `i` leaves every other bit alone and makes bit `i` true.
pub proof fn lemma_with_bit(data: u64, i: int, j: int)
    requires
        0 <= i < 64,
        0 <= j < 64,
    ensures
        bit_at(with_bit(data, i), j) == (bit_at(data, j) || i == j),
{
    let iu = i as u64;
    let ju = j as u64;
    assert((((data | (1u64 << iu)) >> ju) & 1u64 == 1u64) == (((data >> ju) & 1u64 == 1u64) || iu
        == ju)) by (bit_vector)
        requires
            iu < 64 && ju < 64,
    ;
}

/// Clearing bit `i` leaves every other bit alone and makes bit `i` false.
pub proof fn lemma_without_bit(data: u64, i: int, j: int)
    requires
        0 <= i < 64,
        0 <= j < 64,
    ensures
        bit_at(without_bit(data, i), j) == (bit_at(data, j) && i != j),
{
    let iu = i as u64;
    let ju = j as u64;
    assert((((data & !(1u64 << iu)) >> ju) & 1u64 == 1u64) == (((data >> ju) & 1u64 == 1u64) && iu
        != ju)) by (bit_vector)
        requires
            iu < 64 && ju < 64,
    ;
}

/// The all-zero word has no bit set.
pub proof fn lemma_zero_has_no_bit(j: int)
    requires
        0 <= j < 64,
    ensures
        !bit_at(0u64, j),
{
    let ju = j as u64;
    assert((0u64 >> ju) & 1u64 == 0u64) by (bit_vector);
}

/// A 64-bit set of squares. Any bit pattern is a valid set; whether the
/// twelve sets of a board stay disjoint is the board's concern, not this
/// type's.
#[derive(Clone, Copy, Debug, PartialEq, Eq, Structural)]
pub struct Bitboard {
    data: u64,
}

impl View for Bitboard {
    type V = u64;

    closed spec fn view(&self) -> u64 {
        self.data
    }
}

impl Bitboard {
    /// Whether the square with linear index `i` belongs to this set.
    pub open spec fn spec_get(self, i: int) -> bool {
        bit_at(self@, i)
    }

    /// The empty set.
    pub fn new() -> (r: Self)
        ensures
            r@ == 0u64,
            forall|j: int| 0 <= j < 64 ==> !r.spec_get(j),
    {
        proof {
            assert forall|j: int| 0 <= j < 64 implies !bit_at(0u64, j) by {
                lemma_zero_has_no_bit(j);
            }
        }
        Self { data: 0 }
    }

    /// Membership test for one square.
    pub fn get(self, position: Position) -> (r: bool)
        ensures
            r == self.spec_get(position.idx()),
    {
        let idx = position.index() as u64;
        let r = self.data & (1u64 << idx) != 0;
        proof {
            let d = self.data;
            assert((d & (1u64 << idx) != 0) == ((d >> idx) & 1u64 == 1u64)) by (bit_vector)
                requires
                    idx < 64,
            ;
        }
        r
    }

    /// Adds one square to the set; idempotent, and no other square changes.
    pub fn set(&mut self, position: Position)
        ensures
            final(self)@ == with_bit(old(self)@, position.idx()),
            forall|j: int|
                0 <= j < 64 ==> final(self).spec_get(j) == (old(self).spec_get(j) || j
                    == position.idx()),
    {
        let idx = position.index() as u64;
        self.data = self.data | (1u64 << idx);
        proof {
            assert forall|j: int|
                0 <= j < 64 implies final(self).spec_get(j) == (old(self).spec_get(j) || j
                == position.idx()) by {
                lemma_with_bit(old(self)@, position.idx(), j);
            }
        }
    }

    /// Takes one square out of the set; idempotent, and no other square
    /// changes.
    pub fn remove(&mut self, position: Position)
        ensures
            final(self)@ == without_bit(old(self)@, position.idx()),
            forall|j: int|
                0 <= j < 64 ==> final(self).spec_get(j) == (old(self).spec_get(j) && j
                    != position.idx()),
    {
        let idx = position.index() as u64;
        self.data = self.data & !(1u64 << idx);
        proof {
            assert forall|j: int|
                0 <= j < 64 implies final(self).spec_get(j) == (old(self).spec_get(j) && j
                != position.idx()) by {
                lemma_without_bit(old(self)@, position.idx(), j);
            }
        }
    }

    /// Builds a set from a raw 64-bit word; every bit pattern is accepted.
    pub fn from_data(data: u64) -> (r: Self)
        ensures
            r@ == data,
    {
        Self { data }
    }

    /// The raw 64-bit word of this set.
    pub fn data(self) -> (r: u64)
        ensures
            r == self@,
    {
        self.data
    }
}

/// Adds the square at (`src.rank + rank_offset`, `src.file + file_offset`)
/// to the set, or reports `PositionOutOfBounds`, leaving the set unchanged,
/// when that coordinate falls off the grid. The building block of the
/// precomputed leaper attack tables: applied to each offset of a leaper
/// from each origin square in turn.
pub fn add_to_bitboard_at_offset(
    src: Position,
    rank_offset: i32,
    file_offset: i32,
    bitboard: &mut Bitboard,
) -> (r: Result<(), PositionOutOfBounds>)
    ensures
        ({
            let nr = src.rank.idx() + rank_offset;
            let nf = src.file.idx() + file_offset;
            if 0 <= nr < 8 && 0 <= nf < 8 {
                r is Ok && final(bitboard)@ == with_bit(old(bitboard)@, nr * 8 + nf)
            } else {
                r is Err && *final(bitboard) == *old(bitboard)
            }
        }),
{
    let nr = src.rank().to_index() as i64 + rank_offset as i64;
    let nf = src.file().to_index() as i64 + file_offset as i64;
    if nr < 0 || nr > 7 || nf < 0 || nf > 7 {
        return Err(PositionOutOfBounds);
    }
    let rank = Axis::from_index(nr as usize).unwrap();
    let file = Axis::from_index(nf as usize).unwrap();
    bitboard.set(Position::new(rank, file));
    Ok(())
}

} // verus!
