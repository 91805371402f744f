//! The coordinate model: an 8-valued ordinal used for both ranks and files,
//! and a (rank, file) pair mapped onto a linear index in `[0, 64)`.

use vstd::prelude::*;

use crate::errors::{InvalidChar, PositionOutOfBounds};

verus! {

/// One of the eight ordinal positions along a rank or a file.
#[derive(Clone, Copy, Debug, PartialEq, Eq, Structural)]
pub enum Axis {
    A,
    B,
    C,
    D,
    E,
    F,
    G,
    H,
}

impl Axis {
    /// The mathematical index of this ordinal, in `[0, 8)`.
    pub open spec fn idx(self) -> int {
        match self {
            Axis::A => 0,
            Axis::B => 1,
            Axis::C => 2,
            Axis::D => 3,
            Axis::E => 4,
            Axis::F => 5,
            Axis::G => 6,
            Axis::H => 7,
        }
    }

    /// The ordinal whose index is `i`, if `i` is in `[0, 8)`.
    pub open spec fn spec_from_index(i: int) -> Option<Axis> {
        if i == 0 {
            Some(Axis::A)
        } else if i == 1 {
            Some(Axis::B)
        } else if i == 2 {
            Some(Axis::C)
        } else if i == 3 {
            Some(Axis::D)
        } else if i == 4 {
            Some(Axis::E)
        } else if i == 5 {
            Some(Axis::F)
        } else if i == 6 {
            Some(Axis::G)
        } else if i == 7 {
            Some(Axis::H)
        } else {
            None
        }
    }

    /// Converts this ordinal to its 0-based index.
    pub fn to_index(self) -> (r: usize)
        ensures
            r == self.idx(),
    {
        match self {
            Axis::A => 0,
            Axis::B => 1,
            Axis::C => 2,
            Axis::D => 3,
            Axis::E => 4,
            Axis::F => 5,
            Axis::G => 6,
            Axis::H => 7,
        }
    }

    /// Converts a 0-based index back to an ordinal; out-of-range indices give
    /// `None`.
    pub fn from_index(value: usize) -> (r: Option<Axis>)
        ensures
            r == Axis::spec_from_index(value as int),
    {
        if value == 0 {
            Some(Axis::A)
        } else if value == 1 {
            Some(Axis::B)
        } else if value == 2 {
            Some(Axis::C)
        } else if value == 3 {
            Some(Axis::D)
        } else if value == 4 {
            Some(Axis::E)
        } else if value == 5 {
            Some(Axis::F)
        } else if value == 6 {
            Some(Axis::G)
        } else if value == 7 {
            Some(Axis::H)
        } else {
            None
        }
    }
}

/// A square of the 8x8 grid, as a (rank, file) pair of ordinals. Its linear
/// index `rank * 8 + file` always lies in `[0, 64)`.
#[derive(Clone, Copy, Debug, PartialEq, Eq, Structural)]
pub struct Position {
    pub rank: Axis,
    pub file: Axis,
}

impl Position {
    /// The linear index of this square, `rank * 8 + file`.
    pub open spec fn idx(self) -> int {
        self.rank.idx() * 8 + self.file.idx()
    }

    /// The linear index always lies in `[0, 64)`, and two squares share it
    /// only when they are equal.
    pub proof fn lemma_idx_bounds(self)
        ensures
            0 <= self.idx() < 64,
    {
    }

    /// Distinct squares have distinct linear indices.
    pub proof fn lemma_idx_injective(self, other: Position)
        ensures
            self.idx() == other.idx() ==> self == other,
    {
    }

    pub fn new(rank: Axis, file: Axis) -> (r: Self)
        ensures
            r.rank == rank,
            r.file == file,
    {
        Self { rank, file }
    }

    pub fn rank(&self) -> (r: &Axis)
        ensures
            *r == self.rank,
    {
        &self.rank
    }

    pub fn file(&self) -> (r: &Axis)
        ensures
            *r == self.file,
    {
        &self.file
    }

    pub fn index(self) -> (r: usize)
        ensures
            r == self.idx(),
            r < 64,
    {
        self.rank.to_index() * 8 + self.file.to_index()
    }

    /// Decodes a rank letter (`'A'` through `'H'`) and a file digit (`'0'`
    /// through `'7'`) into a square; any other pair of characters gives
    /// `InvalidChar`. This is the en-passant square notation of the
    /// interchange codec.
    pub fn from_chars(first: char, second: char) -> (r: Result<Position, InvalidChar>)
        ensures
            r == Position::spec_from_chars(first, second),
    {
        let first_code = first as u32;
        let rank = if first_code >= 65 && first_code < 73 {
            Axis::from_index((first_code - 65) as usize)
        } else {
            None
        };
        let second_code = second as u32;
        let file = if second_code >= 48 && second_code < 58 {
            Axis::from_index((second_code - 48) as usize)
        } else {
            None
        };
        match (rank, file) {
            (Some(rank), Some(file)) => Ok(Position::new(rank, file)),
            _ => Err(InvalidChar),
        }
    }

    /// What `from_chars` returns: the rank letter is offset from `'A'`, the
    /// file is a decimal digit, and both must land inside the grid.
    pub open spec fn spec_from_chars(first: char, second: char) -> Result<Position, InvalidChar> {
        let rank = if 65 <= (first as int) && (first as int) < 73 {
            Axis::spec_from_index((first as int) - 65)
        } else {
            None
        };
        let file = if 48 <= (second as int) && (second as int) < 58 {
            Axis::spec_from_index((second as int) - 48)
        } else {
            None
        };
        match (rank, file) {
            (Some(rank), Some(file)) => Ok(Position { rank, file }),
            _ => Err(InvalidChar),
        }
    }

    /// Rebuilds a square from a linear value below 64, pairing the value's
    /// remainder by 8 as the rank with its quotient as the file; 64 and above
    /// give `PositionOutOfBounds`.
    pub fn from_linear(value: usize) -> (r: Result<Position, PositionOutOfBounds>)
        ensures
            value < 64 ==> (r matches Ok(p) && p.rank.idx() == value as int % 8 && p.file.idx()
                == value as int / 8),
            value >= 64 ==> r == Result::<Position, PositionOutOfBounds>::Err(PositionOutOfBounds),
    {
        let rank = Axis::from_index(value % 8);
        let file = Axis::from_index(value / 8);
        match (rank, file) {
            (Some(rank), Some(file)) => Ok(Position::new(rank, file)),
            _ => Err(PositionOutOfBounds),
        }
    }
}

} // verus!
