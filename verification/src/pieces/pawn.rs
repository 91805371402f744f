//! The pawn: the one asymmetric piece. Its color fixes its direction —
//! White walks toward increasing rank index, Black toward decreasing — and
//! its pushes and captures follow different rules.

use vstd::prelude::*;

use crate::board::{Board, BoardView};
use crate::half_move::HalfMove;
use crate::piece::Color;
use crate::pieces::{classify_square, lemma_concat_contains, lemma_pos_at, occupied_by, pos_at,
    square_free};
use crate::position::{Axis, Position};

verus! {

/// The rank direction a pawn of `color` walks in.
pub open spec fn pawn_dir(color: Color) -> int {
    match color {
        Color::White => 1,
        Color::Black => -1,
    }
}

/// The rank index a pawn of `color` starts on, from which alone the double
/// push is allowed.
pub open spec fn pawn_start_rank(color: Color) -> int {
    match color {
        Color::White => 1,
        Color::Black => 6,
    }
}

/// One diagonal capture candidate, toward file offset `side`: emitted when
/// the square ahead-diagonal is on the grid and either holds an enemy piece
/// or is the board's en-passant target.
pub open spec fn spec_pawn_capture(b: BoardView, color: Color, from: Position, side: int) -> Seq<
    HalfMove,
> {
    let r = from.rank.idx() + pawn_dir(color);
    let f = from.file.idx() + side;
    if 0 <= r < 8 && 0 <= f < 8 && (occupied_by(b, color.other(), r * 8 + f) || b.en_passant_target
        == Some(pos_at(r, f))) {
        seq![HalfMove { from, to: pos_at(r, f) }]
    } else {
        Seq::empty()
    }
}

/// The single push: one square ahead, onto a free square only.
pub open spec fn spec_pawn_single(b: BoardView, color: Color, from: Position) -> Seq<HalfMove> {
    let r = from.rank.idx() + pawn_dir(color);
    let f = from.file.idx();
    if 0 <= r < 8 && square_free(b, r * 8 + f) {
        seq![HalfMove { from, to: pos_at(r, f) }]
    } else {
        Seq::empty()
    }
}

/// The double push: two squares ahead, from the starting rank only, with
/// both the intervening and the destination square free.
pub open spec fn spec_pawn_double(b: BoardView, color: Color, from: Position) -> Seq<HalfMove> {
    let r1 = from.rank.idx() + pawn_dir(color);
    let r2 = from.rank.idx() + 2 * pawn_dir(color);
    let f = from.file.idx();
    if from.rank.idx() == pawn_start_rank(color) && 0 <= r1 < 8 && 0 <= r2 < 8 && square_free(
        b,
        r1 * 8 + f,
    ) && square_free(b, r2 * 8 + f) {
        seq![HalfMove { from, to: pos_at(r2, f) }]
    } else {
        Seq::empty()
    }
}

/// All pawn candidates from `from`: single push, double push, then the two
/// diagonal captures, file-decreasing side first. A pawn reaching the
/// farthest rank moves like any other: the half-move carries no promotion
/// payload.
pub open spec fn spec_pawn_moves(b: BoardView, color: Color, from: Position) -> Seq<HalfMove> {
    spec_pawn_single(b, color, from) + spec_pawn_double(b, color, from) + spec_pawn_capture(
        b,
        color,
        from,
        -1,
    ) + spec_pawn_capture(b, color, from, 1)
}

/// Appends the capture candidate toward file offset `side`.
fn push_capture(board: &Board, color: Color, from: Position, side: i32, moves: &mut Vec<HalfMove>)
    requires
        board@.wf(),
        side == 1 || side == -1i32,
    ensures
        final(moves)@ == old(moves)@ + spec_pawn_capture(board@, color, from, side as int),
{
    let dir: i32 = match color {
        Color::White => 1,
        Color::Black => -1,
    };
    let r = from.rank().to_index() as i32 + dir;
    let f = from.file().to_index() as i32 + side;
    if r < 0 || r > 7 || f < 0 || f > 7 {
        proof {
            assert(moves@ =~= old(moves)@ + spec_pawn_capture(board@, color, from, side as int));
        }
        return ;
    }
    let to = Position::new(Axis::from_index(r as usize).unwrap(), Axis::from_index(f as usize).unwrap());
    proof {
        lemma_pos_at(r as int, f as int);
        assert(to == pos_at(r as int, f as int));
        assert(to.idx() == r * 8 + f);
    }
    let enemy = match classify_square(board, color, to) {
        Some(own) => !own,
        None => false,
    };
    let en_passant = match board.en_passant_target() {
        Some(target) => target == to,
        None => false,
    };
    if enemy || en_passant {
        moves.push(HalfMove::new(from, to));
        proof {
            assert(moves@ =~= old(moves)@ + spec_pawn_capture(board@, color, from, side as int));
        }
    } else {
        proof {
            assert(moves@ =~= old(moves)@ + spec_pawn_capture(board@, color, from, side as int));
        }
    }
}

/// The pawn's pseudo-legal moves: forward pushes onto free squares — the
/// double one from the starting rank only — and diagonal captures onto
/// enemy-held squares or the en-passant target.
pub fn generate_moves(board: &Board, color: Color, position: Position) -> (r: Vec<HalfMove>)
    requires
        board@.wf(),
    ensures
        r@ == spec_pawn_moves(board@, color, position),
{
    let mut moves: Vec<HalfMove> = Vec::new();
    let dir: i32 = match color {
        Color::White => 1,
        Color::Black => -1,
    };
    let start_rank: i32 = match color {
        Color::White => 1,
        Color::Black => 6,
    };
    let r0 = position.rank().to_index() as i32;
    let f0 = position.file().to_index() as i32;
    let file_axis = *position.file();
    let r1 = r0 + dir;
    let ghost before_single = moves@;
    if 0 <= r1 && r1 < 8 {
        let ahead = Position::new(Axis::from_index(r1 as usize).unwrap(), file_axis);
        proof {
            lemma_pos_at(r1 as int, f0 as int);
            assert(ahead == pos_at(r1 as int, f0 as int));
            assert(ahead.idx() == r1 * 8 + f0);
        }
        let ahead_free = match classify_square(board, color, ahead) {
            None => true,
            Some(b) => false,
        };
        if ahead_free {
            moves.push(HalfMove::new(position, ahead));
            let r2 = r0 + 2 * dir;
            if r0 == start_rank && 0 <= r2 && r2 < 8 {
                let ahead2 = Position::new(Axis::from_index(r2 as usize).unwrap(), file_axis);
                proof {
                    lemma_pos_at(r2 as int, f0 as int);
                    assert(ahead2 == pos_at(r2 as int, f0 as int));
                    assert(ahead2.idx() == r2 * 8 + f0);
                }
                let ahead2_free = match classify_square(board, color, ahead2) {
                    None => true,
                    Some(b) => false,
                };
                if ahead2_free {
                    moves.push(HalfMove::new(position, ahead2));
                }
            }
        }
    }
    proof {
        assert(moves@ =~= spec_pawn_single(board@, color, position) + spec_pawn_double(
            board@,
            color,
            position,
        ));
    }
    push_capture(board, color, position, -1, &mut moves);
    push_capture(board, color, position, 1, &mut moves);
    proof {
        assert(moves@ =~= spec_pawn_moves(board@, color, position));
    }
    moves
}

/// Whether `to` is a pawn destination from `from` for `color`: a single
/// push onto a free square, a double push from the starting rank over a
/// free square onto a free square, or a diagonal capture onto an enemy-held
/// square or the en-passant target.
pub open spec fn is_pawn_dest(b: BoardView, color: Color, from: Position, to: Position) -> bool {
    let dr = to.rank.idx() - from.rank.idx();
    let df = to.file.idx() - from.file.idx();
    let d = pawn_dir(color);
    (df == 0 && dr == d && square_free(b, to.idx())) || (df == 0 && dr == 2 * d && from.rank.idx()
        == pawn_start_rank(color) && square_free(b, (from.rank.idx() + d) * 8 + from.file.idx())
        && square_free(b, to.idx())) || ((df == 1 || df == -1) && dr == d && (occupied_by(
        b,
        color.other(),
        to.idx(),
    ) || b.en_passant_target == Some(to)))
}

/// A move lies in one singleton pawn candidate exactly when it starts at
/// the origin and lands on the candidate square.
proof fn lemma_singleton_contains(part: Seq<HalfMove>, emitted: bool, mv: HalfMove, m: HalfMove)
    requires
        part == if emitted {
            seq![mv]
        } else {
            Seq::<HalfMove>::empty()
        },
    ensures
        part.contains(m) <==> (emitted && m == mv),
{
    if part.contains(m) {
        let i = choose|i: int| 0 <= i < part.len() && part[i] == m;
    }
    if emitted && m == mv {
        assert(part[0] == m);
        assert(part.contains(m));
    }
}

/// Law: the pawn's generated moves are exactly the pawn destinations from
/// the origin, as `is_pawn_dest` describes them.
pub proof fn lemma_pawn_moves_characterize(b: BoardView, color: Color, from: Position)
    ensures
        forall|m: HalfMove|
            #[trigger] spec_pawn_moves(b, color, from).contains(m) <==> (m.from == from
                && is_pawn_dest(b, color, from, m.to)),
{
    let r0 = from.rank.idx();
    let f0 = from.file.idx();
    let d = pawn_dir(color);
    let single = spec_pawn_single(b, color, from);
    let double = spec_pawn_double(b, color, from);
    let cap_low = spec_pawn_capture(b, color, from, -1);
    let cap_high = spec_pawn_capture(b, color, from, 1);
    assert forall|m: HalfMove|
        #[trigger] spec_pawn_moves(b, color, from).contains(m) <==> (m.from == from && is_pawn_dest(
            b,
            color,
            from,
            m.to,
        )) by {
        lemma_concat_contains(single, double, m);
        lemma_concat_contains(single + double, cap_low, m);
        lemma_concat_contains(single + double + cap_low, cap_high, m);
        assert(0 <= m.to.rank.idx() < 8);
        assert(0 <= m.to.file.idx() < 8);
        if 0 <= r0 + d < 8 {
            lemma_pos_at(r0 + d, f0);
            lemma_singleton_contains(
                single,
                square_free(b, (r0 + d) * 8 + f0),
                HalfMove { from, to: pos_at(r0 + d, f0) },
                m,
            );
            if m.to.rank.idx() == r0 + d && m.to.file.idx() == f0 {
                m.to.lemma_idx_injective(pos_at(r0 + d, f0));
            }
        } else {
            lemma_singleton_contains(single, false, m, m);
        }
        if r0 == pawn_start_rank(color) && 0 <= r0 + d < 8 && 0 <= r0 + 2 * d < 8 {
            lemma_pos_at(r0 + 2 * d, f0);
            lemma_singleton_contains(
                double,
                square_free(b, (r0 + d) * 8 + f0) && square_free(b, (r0 + 2 * d) * 8 + f0),
                HalfMove { from, to: pos_at(r0 + 2 * d, f0) },
                m,
            );
            if m.to.rank.idx() == r0 + 2 * d && m.to.file.idx() == f0 {
                m.to.lemma_idx_injective(pos_at(r0 + 2 * d, f0));
            }
        } else {
            lemma_singleton_contains(double, false, m, m);
        }
        if 0 <= r0 + d < 8 && 0 <= f0 - 1 {
            lemma_pos_at(r0 + d, f0 - 1);
            lemma_singleton_contains(
                cap_low,
                occupied_by(b, color.other(), (r0 + d) * 8 + (f0 - 1)) || b.en_passant_target
                    == Some(pos_at(r0 + d, f0 - 1)),
                HalfMove { from, to: pos_at(r0 + d, f0 - 1) },
                m,
            );
            if m.to.rank.idx() == r0 + d && m.to.file.idx() == f0 - 1 {
                m.to.lemma_idx_injective(pos_at(r0 + d, f0 - 1));
            }
        } else {
            lemma_singleton_contains(cap_low, false, m, m);
        }
        if 0 <= r0 + d < 8 && f0 + 1 < 8 {
            lemma_pos_at(r0 + d, f0 + 1);
            lemma_singleton_contains(
                cap_high,
                occupied_by(b, color.other(), (r0 + d) * 8 + (f0 + 1)) || b.en_passant_target
                    == Some(pos_at(r0 + d, f0 + 1)),
                HalfMove { from, to: pos_at(r0 + d, f0 + 1) },
                m,
            );
            if m.to.rank.idx() == r0 + d && m.to.file.idx() == f0 + 1 {
                m.to.lemma_idx_injective(pos_at(r0 + d, f0 + 1));
            }
        } else {
            lemma_singleton_contains(cap_high, false, m, m);
        }
    }
}

} // verus!
