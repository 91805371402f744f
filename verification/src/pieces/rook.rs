//! The rook: a slider along the four orthogonal rays.

use vstd::prelude::*;

use crate::board::{Board, BoardView};
use crate::half_move::HalfMove;
use crate::piece::Color;
use crate::pieces::{is_ray_dest, lemma_concat_contains, lemma_ray_contains, lemma_ray_len_open,
    scan_ray, spec_ray_moves, square_free, steps_to_edge};
use crate::position::Position;

verus! {

/// All rook destinations from `from`: the four orthogonal rays, each walked
/// outward until the grid edge, an enemy piece (included, as a capture) or
/// an own piece (excluded) stops it.
pub open spec fn spec_rook_moves(b: BoardView, color: Color, from: Position) -> Seq<HalfMove> {
    let r = from.rank.idx();
    let f = from.file.idx();
    spec_ray_moves(b, color, from, r, f, 1, 0, 7) + spec_ray_moves(b, color, from, r, f, -1, 0, 7)
        + spec_ray_moves(b, color, from, r, f, 0, 1, 7) + spec_ray_moves(
        b,
        color,
        from,
        r,
        f,
        0,
        -1,
        7,
    )
}

/// The rook's pseudo-legal moves: the four orthogonal ray scans.
pub fn generate_moves(board: &Board, color: Color, position: Position) -> (r: Vec<HalfMove>)
    requires
        board@.wf(),
    ensures
        r@ == spec_rook_moves(board@, color, position),
{
    let mut moves: Vec<HalfMove> = Vec::new();
    scan_ray(board, color, position, 1, 0, &mut moves);
    scan_ray(board, color, position, -1, 0, &mut moves);
    scan_ray(board, color, position, 0, 1, &mut moves);
    scan_ray(board, color, position, 0, -1, &mut moves);
    proof {
        assert(moves@ =~= spec_rook_moves(board@, color, position));
    }
    moves
}

/// Law: on a board whose every square but the origin is free, the rook has
/// exactly fourteen destinations from any origin — the seven other squares
/// of its rank and the seven other squares of its file, reached as the two
/// opposite rays along each line run to the grid edge unblocked.
pub proof fn lemma_rook_moves_open_board(b: BoardView, color: Color, from: Position)
    requires
        forall|sq: int| 0 <= sq < 64 && sq != from.idx() ==> square_free(b, sq),
    ensures
        spec_rook_moves(b, color, from).len() == 14,
{
    let r = from.rank.idx();
    let f = from.file.idx();
    lemma_ray_len_open(b, color, from, r, f, 1, 0, 7);
    lemma_ray_len_open(b, color, from, r, f, -1, 0, 7);
    lemma_ray_len_open(b, color, from, r, f, 0, 1, 7);
    lemma_ray_len_open(b, color, from, r, f, 0, -1, 7);
    assert(steps_to_edge(r, f, 1, 0) == 7 - r);
    assert(steps_to_edge(r, f, -1, 0) == r);
    assert(steps_to_edge(r, f, 0, 1) == 7 - f);
    assert(steps_to_edge(r, f, 0, -1) == f);
}

/// Law: the rook's generated moves are exactly the moves from the origin
/// onto a ray destination of one of the four orthogonal walks — reached by
/// some step, every earlier step free, and not held by the mover's own
/// color.
pub proof fn lemma_rook_moves_characterize(b: BoardView, color: Color, from: Position)
    ensures
        forall|m: HalfMove|
            #[trigger] spec_rook_moves(b, color, from).contains(m) <==> (m.from == from && (
            is_ray_dest(b, color, from.rank.idx(), from.file.idx(), 1, 0, m.to) || is_ray_dest(
                b,
                color,
                from.rank.idx(),
                from.file.idx(),
                -1,
                0,
                m.to,
            ) || is_ray_dest(b, color, from.rank.idx(), from.file.idx(), 0, 1, m.to) || is_ray_dest(
                b,
                color,
                from.rank.idx(),
                from.file.idx(),
                0,
                -1,
                m.to,
            ))),
{
    let r = from.rank.idx();
    let f = from.file.idx();
    let ray_up = spec_ray_moves(b, color, from, r, f, 1, 0, 7);
    let ray_down = spec_ray_moves(b, color, from, r, f, -1, 0, 7);
    let ray_right = spec_ray_moves(b, color, from, r, f, 0, 1, 7);
    let ray_left = spec_ray_moves(b, color, from, r, f, 0, -1, 7);
    assert forall|m: HalfMove|
        #[trigger] spec_rook_moves(b, color, from).contains(m) <==> (m.from == from && (
        is_ray_dest(b, color, r, f, 1, 0, m.to) || is_ray_dest(b, color, r, f, -1, 0, m.to)
            || is_ray_dest(b, color, r, f, 0, 1, m.to) || is_ray_dest(
            b,
            color,
            r,
            f,
            0,
            -1,
            m.to,
        ))) by {
        lemma_concat_contains(ray_up, ray_down, m);
        lemma_concat_contains(ray_up + ray_down, ray_right, m);
        lemma_concat_contains(ray_up + ray_down + ray_right, ray_left, m);
        lemma_ray_contains(b, color, from, r, f, 1, 0, 7, m);
        lemma_ray_contains(b, color, from, r, f, -1, 0, 7, m);
        lemma_ray_contains(b, color, from, r, f, 0, 1, 7, m);
        lemma_ray_contains(b, color, from, r, f, 0, -1, 7, m);
    }
}

} // verus!
