//! One ply: an immutable relocation of a piece from an origin square to a
//! destination square.

use vstd::prelude::*;

use crate::position::Position;

verus! {

/// An (origin, destination) pair of squares, the unit of move application.
#[derive(Clone, Copy, Debug, PartialEq, Eq, Structural)]
pub struct HalfMove {
    pub from: Position,
    pub to: Position,
}

impl HalfMove {
    pub fn new(from: Position, to: Position) -> (r: Self)
        ensures
            r.from == from,
            r.to == to,
    {
        Self { from, to }
    }

    pub fn from(&self) -> (r: &Position)
        ensures
            *r == self.from,
    {
        &self.from
    }

    pub fn to(&self) -> (r: &Position)
        ensures
            *r == self.to,
    {
        &self.to
    }
}

} // verus!
