//! The king: a leaper with the eight unit offsets.

use vstd::prelude::*;

use crate::board::{Board, BoardView};
use crate::half_move::HalfMove;
use crate::piece::Color;
use crate::pieces::{lemma_concat_contains, lemma_leap_contains, occupied_by, spec_leap, try_leap};
use crate::position::Position;

verus! {

/// All king candidates from `from`, in the fixed offset order, each
/// filtered against the grid edge and the mover's own pieces. Castling is
/// not generated here: it is not a single-square relocation.
pub open spec fn spec_king_moves(b: BoardView, color: Color, from: Position) -> Seq<HalfMove> {
    spec_leap(b, color, from, 0, 1) + spec_leap(b, color, from, 1, 1) + spec_leap(
        b,
        color,
        from,
        1,
        0,
    ) + spec_leap(b, color, from, 1, -1) + spec_leap(b, color, from, 0, -1) + spec_leap(
        b,
        color,
        from,
        -1,
        -1,
    ) + spec_leap(b, color, from, -1, 0) + spec_leap(b, color, from, -1, 1)
}

/// The king's pseudo-legal moves: the eight unit offsets, each emitted when
/// its square is on the grid and not held by the mover's own color.
pub fn generate_moves(board: &Board, color: Color, position: Position) -> (r: Vec<HalfMove>)
    requires
        board@.wf(),
    ensures
        r@ == spec_king_moves(board@, color, position),
{
    let mut moves: Vec<HalfMove> = Vec::new();
    try_leap(board, color, position, 0, 1, &mut moves);
    try_leap(board, color, position, 1, 1, &mut moves);
    try_leap(board, color, position, 1, 0, &mut moves);
    try_leap(board, color, position, 1, -1, &mut moves);
    try_leap(board, color, position, 0, -1, &mut moves);
    try_leap(board, color, position, -1, -1, &mut moves);
    try_leap(board, color, position, -1, 0, &mut moves);
    try_leap(board, color, position, -1, 1, &mut moves);
    proof {
        assert(moves@ =~= spec_king_moves(board@, color, position));
    }
    moves
}

/// Whether `to` is one king's step away from `from`: the squares differ,
/// and neither coordinate moves by more than one.
pub open spec fn is_king_step(from: Position, to: Position) -> bool {
    let dr = to.rank.idx() - from.rank.idx();
    let df = to.file.idx() - from.file.idx();
    !(dr == 0 && df == 0) && -1 <= dr <= 1 && -1 <= df <= 1
}

/// Law: the king's generated moves are exactly the king steps from the
/// origin whose landing square is not held by the mover's own color.
pub proof fn lemma_king_moves_characterize(b: BoardView, color: Color, from: Position)
    ensures
        forall|m: HalfMove|
            #[trigger] spec_king_moves(b, color, from).contains(m) <==> (m.from == from
                && is_king_step(from, m.to) && !occupied_by(b, color, m.to.idx())),
{
    let l1 = spec_leap(b, color, from, 0, 1);
    let l2 = spec_leap(b, color, from, 1, 1);
    let l3 = spec_leap(b, color, from, 1, 0);
    let l4 = spec_leap(b, color, from, 1, -1);
    let l5 = spec_leap(b, color, from, 0, -1);
    let l6 = spec_leap(b, color, from, -1, -1);
    let l7 = spec_leap(b, color, from, -1, 0);
    let l8 = spec_leap(b, color, from, -1, 1);
    assert forall|m: HalfMove|
        #[trigger] spec_king_moves(b, color, from).contains(m) <==> (m.from == from && is_king_step(
            from,
            m.to,
        ) && !occupied_by(b, color, m.to.idx())) by {
        lemma_concat_contains(l1, l2, m);
        lemma_concat_contains(l1 + l2, l3, m);
        lemma_concat_contains(l1 + l2 + l3, l4, m);
        lemma_concat_contains(l1 + l2 + l3 + l4, l5, m);
        lemma_concat_contains(l1 + l2 + l3 + l4 + l5, l6, m);
        lemma_concat_contains(l1 + l2 + l3 + l4 + l5 + l6, l7, m);
        lemma_concat_contains(l1 + l2 + l3 + l4 + l5 + l6 + l7, l8, m);
        lemma_leap_contains(b, color, from, 0, 1, m);
        lemma_leap_contains(b, color, from, 1, 1, m);
        lemma_leap_contains(b, color, from, 1, 0, m);
        lemma_leap_contains(b, color, from, 1, -1, m);
        lemma_leap_contains(b, color, from, 0, -1, m);
        lemma_leap_contains(b, color, from, -1, -1, m);
        lemma_leap_contains(b, color, from, -1, 0, m);
        lemma_leap_contains(b, color, from, -1, 1, m);
    }
}

} // verus!
