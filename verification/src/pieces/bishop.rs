//! The bishop: a slider along the four diagonal rays.

use vstd::prelude::*;

use crate::board::{Board, BoardView};
use crate::half_move::HalfMove;
use crate::piece::Color;
use crate::pieces::{is_ray_dest, lemma_concat_contains, lemma_ray_contains, lemma_ray_dest_bounds,
    occupied_by, pos_at, scan_ray, spec_ray_moves, square_free};
use crate::position::Position;

verus! {

/// All bishop destinations from `from`: the four diagonal rays, each walked
/// outward until the grid edge, an enemy piece (included, as a capture) or
/// an own piece (excluded) stops it.
pub open spec fn spec_bishop_moves(b: BoardView, color: Color, from: Position) -> Seq<HalfMove> {
    let r = from.rank.idx();
    let f = from.file.idx();
    spec_ray_moves(b, color, from, r, f, 1, 1, 7) + spec_ray_moves(b, color, from, r, f, 1, -1, 7)
        + spec_ray_moves(b, color, from, r, f, -1, 1, 7) + spec_ray_moves(
        b,
        color,
        from,
        r,
        f,
        -1,
        -1,
        7,
    )
}

/// The bishop's pseudo-legal moves: the four diagonal ray scans.
pub fn generate_moves(board: &Board, color: Color, position: Position) -> (r: Vec<HalfMove>)
    requires
        board@.wf(),
    ensures
        r@ == spec_bishop_moves(board@, color, position),
{
    let mut moves: Vec<HalfMove> = Vec::new();
    scan_ray(board, color, position, 1, 1, &mut moves);
    scan_ray(board, color, position, 1, -1, &mut moves);
    scan_ray(board, color, position, -1, 1, &mut moves);
    scan_ray(board, color, position, -1, -1, &mut moves);
    proof {
        assert(moves@ =~= spec_bishop_moves(board@, color, position));
    }
    moves
}

/// Law: a piece one square away along a diagonal stops that diagonal's ray
/// at once. A piece of the mover's own color keeps the ray empty — the
/// occupied square is not a destination; an enemy piece is a destination
/// (a capture) and nothing follows it. In either case no destination of the
/// whole bishop pattern lies strictly beyond the blocker on that diagonal.
pub proof fn lemma_bishop_blocked_adjacent(
    b: BoardView,
    color: Color,
    from: Position,
    dr: int,
    df: int,
)
    requires
        dr == 1 || dr == -1,
        df == 1 || df == -1,
        0 <= from.rank.idx() + dr < 8,
        0 <= from.file.idx() + df < 8,
        !square_free(b, (from.rank.idx() + dr) * 8 + (from.file.idx() + df)),
    ensures
        occupied_by(b, color, (from.rank.idx() + dr) * 8 + (from.file.idx() + df))
            ==> spec_ray_moves(b, color, from, from.rank.idx(), from.file.idx(), dr, df, 7)
            == Seq::<HalfMove>::empty(),
        !occupied_by(b, color, (from.rank.idx() + dr) * 8 + (from.file.idx() + df))
            ==> spec_ray_moves(b, color, from, from.rank.idx(), from.file.idx(), dr, df, 7) == seq![
            HalfMove { from, to: pos_at(from.rank.idx() + dr, from.file.idx() + df) },
        ],
        forall|m: HalfMove|
            spec_bishop_moves(b, color, from).contains(m) && (dr == 1 ==> m.to.rank.idx()
                > from.rank.idx() + 1) && (dr == -1 ==> m.to.rank.idx() < from.rank.idx() - 1) && (
            df == 1 ==> m.to.file.idx() > from.file.idx() + 1) && (df == -1 ==> m.to.file.idx()
                < from.file.idx() - 1) ==> false,
{
    let r = from.rank.idx();
    let f = from.file.idx();
    let all = spec_bishop_moves(b, color, from);
    let ray_pp = spec_ray_moves(b, color, from, r, f, 1, 1, 7);
    let ray_pm = spec_ray_moves(b, color, from, r, f, 1, -1, 7);
    let ray_mp = spec_ray_moves(b, color, from, r, f, -1, 1, 7);
    let ray_mm = spec_ray_moves(b, color, from, r, f, -1, -1, 7);
    lemma_ray_dest_bounds(b, color, from, r, f, 1, 1, 7);
    lemma_ray_dest_bounds(b, color, from, r, f, 1, -1, 7);
    lemma_ray_dest_bounds(b, color, from, r, f, -1, 1, 7);
    lemma_ray_dest_bounds(b, color, from, r, f, -1, -1, 7);
    crate::pieces::lemma_pos_at(r + dr, f + df);
    assert forall|m: HalfMove|
        all.contains(m) && (dr == 1 ==> m.to.rank.idx() > r + 1) && (dr == -1 ==> m.to.rank.idx()
            < r - 1) && (df == 1 ==> m.to.file.idx() > f + 1) && (df == -1 ==> m.to.file.idx() < f
            - 1) implies false by {
        let i = choose|i: int| 0 <= i < all.len() && all[i] == m;
        if i < ray_pp.len() {
            assert(m == ray_pp[i]);
        } else if i < ray_pp.len() + ray_pm.len() {
            assert(m == ray_pm[i - ray_pp.len()]);
        } else if i < ray_pp.len() + ray_pm.len() + ray_mp.len() {
            assert(m == ray_mp[i - ray_pp.len() - ray_pm.len()]);
        } else {
            assert(m == ray_mm[i - ray_pp.len() - ray_pm.len() - ray_mp.len()]);
        }
        // the blocked ray itself holds at most the blocker square, one step
        // out; the other three rays walk to the wrong side of the origin.
    }
}

/// Law: the bishop's generated moves are exactly the moves from the origin
/// onto a ray destination of one of the four diagonal walks — reached by
/// some step, every earlier step free, and not held by the mover's own
/// color.
pub proof fn lemma_bishop_moves_characterize(b: BoardView, color: Color, from: Position)
    ensures
        forall|m: HalfMove|
            #[trigger] spec_bishop_moves(b, color, from).contains(m) <==> (m.from == from && (
            is_ray_dest(b, color, from.rank.idx(), from.file.idx(), 1, 1, m.to) || is_ray_dest(
                b,
                color,
                from.rank.idx(),
                from.file.idx(),
                1,
                -1,
                m.to,
            ) || is_ray_dest(b, color, from.rank.idx(), from.file.idx(), -1, 1, m.to)
                || is_ray_dest(b, color, from.rank.idx(), from.file.idx(), -1, -1, m.to))),
{
    let r = from.rank.idx();
    let f = from.file.idx();
    let ray_pp = spec_ray_moves(b, color, from, r, f, 1, 1, 7);
    let ray_pm = spec_ray_moves(b, color, from, r, f, 1, -1, 7);
    let ray_mp = spec_ray_moves(b, color, from, r, f, -1, 1, 7);
    let ray_mm = spec_ray_moves(b, color, from, r, f, -1, -1, 7);
    assert forall|m: HalfMove|
        #[trigger] spec_bishop_moves(b, color, from).contains(m) <==> (m.from == from && (
        is_ray_dest(b, color, r, f, 1, 1, m.to) || is_ray_dest(b, color, r, f, 1, -1, m.to)
            || is_ray_dest(b, color, r, f, -1, 1, m.to) || is_ray_dest(
            b,
            color,
            r,
            f,
            -1,
            -1,
            m.to,
        ))) by {
        lemma_concat_contains(ray_pp, ray_pm, m);
        lemma_concat_contains(ray_pp + ray_pm, ray_mp, m);
        lemma_concat_contains(ray_pp + ray_pm + ray_mp, ray_mm, m);
        lemma_ray_contains(b, color, from, r, f, 1, 1, 7, m);
        lemma_ray_contains(b, color, from, r, f, 1, -1, 7, m);
        lemma_ray_contains(b, color, from, r, f, -1, 1, 7, m);
        lemma_ray_contains(b, color, from, r, f, -1, -1, 7, m);
    }
}

} // verus!
