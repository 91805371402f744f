//! The queen: a slider along all eight rays, the union of the rook's and
//! the bishop's patterns.

use vstd::prelude::*;

use crate::board::{Board, BoardView};
use crate::half_move::HalfMove;
use crate::piece::Color;
use crate::pieces::{bishop, is_ray_dest, lemma_concat_contains, rook};
use crate::position::Position;

verus! {

/// All queen destinations from `from`: the orthogonal rays first, then the
/// diagonal ones.
pub open spec fn spec_queen_moves(b: BoardView, color: Color, from: Position) -> Seq<HalfMove> {
    rook::spec_rook_moves(b, color, from) + bishop::spec_bishop_moves(b, color, from)
}

/// The queen's pseudo-legal moves: the rook's rays followed by the
/// bishop's.
pub fn generate_moves(board: &Board, color: Color, position: Position) -> (r: Vec<HalfMove>)
    requires
        board@.wf(),
    ensures
        r@ == spec_queen_moves(board@, color, position),
{
    let mut moves = rook::generate_moves(board, color, position);
    let mut diagonal = bishop::generate_moves(board, color, position);
    moves.append(&mut diagonal);
    moves
}

/// Law: the queen's generated moves are exactly the moves from the origin
/// onto a ray destination of one of the eight walks, orthogonal or
/// diagonal.
pub proof fn lemma_queen_moves_characterize(b: BoardView, color: Color, from: Position)
    ensures
        forall|m: HalfMove|
            #[trigger] spec_queen_moves(b, color, from).contains(m) <==> (m.from == from && (
            is_ray_dest(b, color, from.rank.idx(), from.file.idx(), 1, 0, m.to) || is_ray_dest(
                b,
                color,
                from.rank.idx(),
                from.file.idx(),
                -1,
                0,
                m.to,
            ) || is_ray_dest(b, color, from.rank.idx(), from.file.idx(), 0, 1, m.to) || is_ray_dest(
                b,
                color,
                from.rank.idx(),
                from.file.idx(),
                0,
                -1,
                m.to,
            ) || is_ray_dest(b, color, from.rank.idx(), from.file.idx(), 1, 1, m.to)
                || is_ray_dest(b, color, from.rank.idx(), from.file.idx(), 1, -1, m.to)
                || is_ray_dest(b, color, from.rank.idx(), from.file.idx(), -1, 1, m.to)
                || is_ray_dest(b, color, from.rank.idx(), from.file.idx(), -1, -1, m.to))),
{
    rook::lemma_rook_moves_characterize(b, color, from);
    bishop::lemma_bishop_moves_characterize(b, color, from);
    assert forall|m: HalfMove|
        #[trigger] spec_queen_moves(b, color, from).contains(m) <==> (m.from == from && (
        is_ray_dest(b, color, from.rank.idx(), from.file.idx(), 1, 0, m.to) || is_ray_dest(
            b,
            color,
            from.rank.idx(),
            from.file.idx(),
            -1,
            0,
            m.to,
        ) || is_ray_dest(b, color, from.rank.idx(), from.file.idx(), 0, 1, m.to) || is_ray_dest(
            b,
            color,
            from.rank.idx(),
            from.file.idx(),
            0,
            -1,
            m.to,
        ) || is_ray_dest(b, color, from.rank.idx(), from.file.idx(), 1, 1, m.to) || is_ray_dest(
            b,
            color,
            from.rank.idx(),
            from.file.idx(),
            1,
            -1,
            m.to,
        ) || is_ray_dest(b, color, from.rank.idx(), from.file.idx(), -1, 1, m.to) || is_ray_dest(
            b,
            color,
            from.rank.idx(),
            from.file.idx(),
            -1,
            -1,
            m.to,
        ))) by {
        lemma_concat_contains(
            rook::spec_rook_moves(b, color, from),
            bishop::spec_bishop_moves(b, color, from),
            m,
        );
    }
}

} // verus!
