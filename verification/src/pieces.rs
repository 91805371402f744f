//! Piece identity: the closed set of six piece kinds, each with a display
//! character, a set-index in `[0, 6)`, and (through the dispatch in this
//! module) a move-generation rule. The kind-specific generators live in the
//! submodules; the occupancy predicates and the leaper and ray scanners they
//! share live here.

use vstd::prelude::*;

use crate::bitboard::bit_at;
use crate::board::{sq_empty_all, Board, BoardView, first_occupant,
    lemma_first_occupant_none_iff_empty, lemma_first_occupant_some};
use crate::half_move::HalfMove;
use crate::piece::{pm_index, Color};
use crate::position::{Axis, Position};

pub mod bishop;
pub mod king;
pub mod knight;
pub mod pawn;
pub mod queen;
pub mod rook;

verus! {

/// One of the six piece kinds. The kind alone decides the movement rule; the
/// color of the concrete piece only orients it (pawns) or tells friend from
/// foe.
#[derive(Clone, Copy, Debug, PartialEq, Eq, Structural)]
pub enum PieceType {
    Pawn,
    Knight,
    Bishop,
    Rook,
    Queen,
    King,
}

impl PieceType {
    /// The set-index of this kind, in `[0, 6)`.
    pub open spec fn idx(self) -> int {
        match self {
            PieceType::Pawn => 0,
            PieceType::Knight => 1,
            PieceType::Bishop => 2,
            PieceType::Rook => 3,
            PieceType::Queen => 4,
            PieceType::King => 5,
        }
    }

    /// The kind whose set-index is `i`, if `i` is in `[0, 6)`.
    pub open spec fn spec_from_index(i: int) -> Option<PieceType> {
        if i == 0 {
            Some(PieceType::Pawn)
        } else if i == 1 {
            Some(PieceType::Knight)
        } else if i == 2 {
            Some(PieceType::Bishop)
        } else if i == 3 {
            Some(PieceType::Rook)
        } else if i == 4 {
            Some(PieceType::Queen)
        } else if i == 5 {
            Some(PieceType::King)
        } else {
            None
        }
    }

    /// The lowercase display character of this kind.
    pub open spec fn spec_piece_char(self) -> char {
        match self {
            PieceType::Pawn => 'p',
            PieceType::Knight => 'n',
            PieceType::Bishop => 'b',
            PieceType::Rook => 'r',
            PieceType::Queen => 'q',
            PieceType::King => 'k',
        }
    }

    pub fn index(&self) -> (r: usize)
        ensures
            r == self.idx(),
    {
        match self {
            PieceType::Pawn => 0,
            PieceType::Knight => 1,
            PieceType::Bishop => 2,
            PieceType::Rook => 3,
            PieceType::Queen => 4,
            PieceType::King => 5,
        }
    }

    pub fn from_index(value: usize) -> (r: Option<PieceType>)
        ensures
            r == PieceType::spec_from_index(value as int),
    {
        if value == 0 {
            Some(PieceType::Pawn)
        } else if value == 1 {
            Some(PieceType::Knight)
        } else if value == 2 {
            Some(PieceType::Bishop)
        } else if value == 3 {
            Some(PieceType::Rook)
        } else if value == 4 {
            Some(PieceType::Queen)
        } else if value == 5 {
            Some(PieceType::King)
        } else {
            None
        }
    }

    pub fn piece_char(&self) -> (r: char)
        ensures
            r == self.spec_piece_char(),
    {
        match self {
            PieceType::Pawn => 'p',
            PieceType::Knight => 'n',
            PieceType::Bishop => 'b',
            PieceType::Rook => 'r',
            PieceType::Queen => 'q',
            PieceType::King => 'k',
        }
    }

    /// The pseudo-legal moves of a piece of this kind and `color` standing
    /// on `position`: the kind picks the movement rule, and nothing else of
    /// the piece matters.
    pub fn generate_pseudo_legal_moves(
        &self,
        board: &Board,
        color: Color,
        position: Position,
    ) -> (r: Vec<HalfMove>)
        requires
            board@.wf(),
        ensures
            r@ == spec_pseudo_legal_moves(board@, *self, color, position),
    {
        match self {
            PieceType::Pawn => pawn::generate_moves(board, color, position),
            PieceType::Knight => knight::generate_moves(board, color, position),
            PieceType::Bishop => bishop::generate_moves(board, color, position),
            PieceType::Rook => rook::generate_moves(board, color, position),
            PieceType::Queen => queen::generate_moves(board, color, position),
            PieceType::King => king::generate_moves(board, color, position),
        }
    }
}

/// The movement rule of each kind, as one spec: what the dispatch returns.
pub open spec fn spec_pseudo_legal_moves(
    b: BoardView,
    kind: PieceType,
    color: Color,
    from: Position,
) -> Seq<HalfMove> {
    match kind {
        PieceType::Pawn => pawn::spec_pawn_moves(b, color, from),
        PieceType::Knight => knight::spec_knight_moves(b, color, from),
        PieceType::Bishop => bishop::spec_bishop_moves(b, color, from),
        PieceType::Rook => rook::spec_rook_moves(b, color, from),
        PieceType::Queen => queen::spec_queen_moves(b, color, from),
        PieceType::King => king::spec_king_moves(b, color, from),
    }
}

/// What `get_piece_type_from_char` returns: the six recognized letters, in
/// either case; everything else is unknown.
pub open spec fn spec_piece_type_from_char(character: char) -> Option<PieceType> {
    if character == 'p' || character == 'P' {
        Some(PieceType::Pawn)
    } else if character == 'n' || character == 'N' {
        Some(PieceType::Knight)
    } else if character == 'b' || character == 'B' {
        Some(PieceType::Bishop)
    } else if character == 'r' || character == 'R' {
        Some(PieceType::Rook)
    } else if character == 'q' || character == 'Q' {
        Some(PieceType::Queen)
    } else if character == 'k' || character == 'K' {
        Some(PieceType::King)
    } else {
        None
    }
}

/// Maps a placement letter, in either case, to its piece kind.
pub fn get_piece_type_from_char(character: char) -> (r: Option<PieceType>)
    ensures
        r == spec_piece_type_from_char(character),
{
    match character {
        'p' | 'P' => Some(PieceType::Pawn),
        'n' | 'N' => Some(PieceType::Knight),
        'b' | 'B' => Some(PieceType::Bishop),
        'r' | 'R' => Some(PieceType::Rook),
        'q' | 'Q' => Some(PieceType::Queen),
        'k' | 'K' => Some(PieceType::King),
        _ => None,
    }
}

/// Whether some piece of `color` stands on the square with linear index
/// `sq`.
pub open spec fn occupied_by(b: BoardView, color: Color, sq: int) -> bool {
    exists|k: int| 0 <= k < 6 && bit_at(b.boards[#[trigger] pm_index(k, color.idx())], sq)
}

/// Whether no piece of either color stands on the square with linear index
/// `sq`.
pub open spec fn square_free(b: BoardView, sq: int) -> bool {
    !occupied_by(b, Color::White, sq) && !occupied_by(b, Color::Black, sq)
}

/// The square at coordinates (`r`, `f`); meaningful when both lie in
/// `[0, 8)`.
pub open spec fn pos_at(r: int, f: int) -> Position {
    Position { rank: Axis::spec_from_index(r)->Some_0, file: Axis::spec_from_index(f)->Some_0 }
}

/// In-range coordinates round-trip through `pos_at`.
pub proof fn lemma_pos_at(r: int, f: int)
    requires
        0 <= r < 8,
        0 <= f < 8,
    ensures
        pos_at(r, f).rank.idx() == r,
        pos_at(r, f).file.idx() == f,
        pos_at(r, f).idx() == r * 8 + f,
{
}

/// A square is free exactly when none of the twelve bitboards holds it.
pub proof fn lemma_square_free_iff_empty(b: BoardView, sq: int)
    requires
        b.boards.len() == 12,
    ensures
        square_free(b, sq) <==> sq_empty_all(b.boards, sq),
{
    if sq_empty_all(b.boards, sq) {
        if occupied_by(b, Color::White, sq) {
            let k = choose|k: int|
                0 <= k < 6 && bit_at(b.boards[#[trigger] pm_index(k, Color::White.idx())], sq);
            assert(!bit_at(b.boards[pm_index(k, 0)], sq));
        }
        if occupied_by(b, Color::Black, sq) {
            let k = choose|k: int|
                0 <= k < 6 && bit_at(b.boards[#[trigger] pm_index(k, Color::Black.idx())], sq);
            assert(!bit_at(b.boards[pm_index(k, 1)], sq));
        }
    }
    if square_free(b, sq) {
        assert forall|pi: int| 0 <= pi < 12 implies !bit_at(#[trigger] b.boards[pi], sq) by {
            if bit_at(b.boards[pi], sq) {
                let k = pi % 6;
                let c = pi / 6;
                assert(pm_index(k, c) == pi);
                if c == 0 {
                    assert(bit_at(b.boards[pm_index(k, Color::White.idx())], sq));
                    assert(occupied_by(b, Color::White, sq));
                } else {
                    assert(bit_at(b.boards[pm_index(k, Color::Black.idx())], sq));
                    assert(occupied_by(b, Color::Black, sq));
                }
            }
        }
    }
}

/// On a well-formed board no square is occupied by both colors.
pub proof fn lemma_occupancy_exclusive(b: BoardView, sq: int)
    requires
        b.wf(),
        0 <= sq < 64,
    ensures
        !(occupied_by(b, Color::White, sq) && occupied_by(b, Color::Black, sq)),
{
    if occupied_by(b, Color::White, sq) && occupied_by(b, Color::Black, sq) {
        let k1 = choose|k: int|
            0 <= k < 6 && bit_at(b.boards[#[trigger] pm_index(k, Color::White.idx())], sq);
        let k2 = choose|k: int|
            0 <= k < 6 && bit_at(b.boards[#[trigger] pm_index(k, Color::Black.idx())], sq);
        assert(bit_at(b.boards[pm_index(k1, 0)], sq));
        assert(bit_at(b.boards[pm_index(k2, 1)], sq));
    }
}

/// What a square holds, judged against one side: `None` for a free square,
/// `Some(true)` for a piece of that side, `Some(false)` for an enemy piece.
pub(crate) fn classify_square(board: &Board, color: Color, position: Position) -> (r: Option<bool>)
    requires
        board@.wf(),
    ensures
        (r is None) == square_free(board@, position.idx()),
        (r == Some(true)) == occupied_by(board@, color, position.idx()),
        (r == Some(false)) == occupied_by(board@, color.other(), position.idx()),
{
    let sq = position;
    let ghost sqi = position.idx();
    proof {
        position.lemma_idx_bounds();
        lemma_square_free_iff_empty(board@, sqi);
        lemma_occupancy_exclusive(board@, sqi);
    }
    match board.get(sq) {
        None => {
            proof {
                lemma_first_occupant_none_iff_empty(board@.boards, sqi);
            }
            None
        },
        Some(piece) => {
            proof {
                let (k, c) = first_occupant(board@.boards, sqi)->Some_0;
                lemma_first_occupant_some(board@.boards, sqi, 0, k, c);
                if c == 0 {
                    assert(bit_at(board@.boards[pm_index(k, Color::White.idx())], sqi));
                    assert(occupied_by(board@, Color::White, sqi));
                } else {
                    assert(bit_at(board@.boards[pm_index(k, Color::Black.idx())], sqi));
                    assert(occupied_by(board@, Color::Black, sqi));
                }
            }
            Some(piece.color() == color)
        },
    }
}

/// One fixed-offset candidate of a leaper: the single move to the offset
/// square, provided it lies on the grid and holds no piece of the mover's
/// own color.
pub open spec fn spec_leap(b: BoardView, color: Color, from: Position, dr: int, df: int) -> Seq<
    HalfMove,
> {
    let r = from.rank.idx() + dr;
    let f = from.file.idx() + df;
    if 0 <= r < 8 && 0 <= f < 8 && !occupied_by(b, color, r * 8 + f) {
        seq![HalfMove { from, to: pos_at(r, f) }]
    } else {
        Seq::empty()
    }
}

/// Tries one leaper offset, appending the candidate move when the offset
/// square is on the grid and not held by the mover's own color.
pub(crate) fn try_leap(board: &Board, color: Color, from: Position, dr: i32, df: i32, moves: &mut Vec<HalfMove>)
    requires
        board@.wf(),
        -2 <= dr <= 2,
        -2 <= df <= 2,
    ensures
        final(moves)@ == old(moves)@ + spec_leap(board@, color, from, dr as int, df as int),
{
    let r = from.rank().to_index() as i32 + dr;
    let f = from.file().to_index() as i32 + df;
    if r < 0 || r > 7 || f < 0 || f > 7 {
        proof {
            assert(moves@ =~= old(moves)@ + spec_leap(board@, color, from, dr as int, df as int));
        }
        return ;
    }
    let rank = Axis::from_index(r as usize).unwrap();
    let file = Axis::from_index(f as usize).unwrap();
    let to = Position::new(rank, file);
    proof {
        lemma_pos_at(r as int, f as int);
        assert(to == pos_at(r as int, f as int));
        assert(to.idx() == r * 8 + f);
    }
    let own = match classify_square(board, color, to) {
        Some(true) => true,
        _ => false,
    };
    if !own {
        moves.push(HalfMove::new(from, to));
        proof {
            assert(moves@ =~= old(moves)@ + spec_leap(board@, color, from, dr as int, df as int));
        }
    } else {
        proof {
            assert(moves@ =~= old(moves)@ + spec_leap(board@, color, from, dr as int, df as int));
        }
    }
}

/// One ray of a slider, scanned outward from (`r`, `f`) in direction
/// (`dr`, `df`): an empty square is a destination and the scan goes on, an
/// enemy-held square is a destination (a capture) and the scan stops, an
/// own-held or off-grid square stops the scan without a destination. The
/// fuel only bounds the recursion; seven steps reach any edge.
pub open spec fn spec_ray_moves(
    b: BoardView,
    color: Color,
    from: Position,
    r: int,
    f: int,
    dr: int,
    df: int,
    fuel: nat,
) -> Seq<HalfMove>
    decreases fuel,
{
    if fuel == 0 {
        Seq::empty()
    } else {
        let nr = r + dr;
        let nf = f + df;
        if !(0 <= nr < 8 && 0 <= nf < 8) {
            Seq::empty()
        } else {
            let sq = nr * 8 + nf;
            let m = HalfMove { from, to: pos_at(nr, nf) };
            if square_free(b, sq) {
                seq![m] + spec_ray_moves(b, color, from, nr, nf, dr, df, (fuel - 1) as nat)
            } else if occupied_by(b, color, sq) {
                Seq::empty()
            } else {
                seq![m]
            }
        }
    }
}

/// An element lies in a concatenation exactly when it lies in one of the
/// parts.
pub proof fn lemma_concat_contains<A>(a: Seq<A>, b: Seq<A>, x: A)
    ensures
        (a + b).contains(x) <==> a.contains(x) || b.contains(x),
{
    if (a + b).contains(x) {
        let i = choose|i: int| 0 <= i < (a + b).len() && (a + b)[i] == x;
        if i < a.len() {
            assert(a[i] == x);
        } else {
            assert(b[i - a.len()] == x);
        }
    }
    if a.contains(x) {
        let i = choose|i: int| 0 <= i < a.len() && a[i] == x;
        assert((a + b)[i] == x);
    }
    if b.contains(x) {
        let i = choose|i: int| 0 <= i < b.len() && b[i] == x;
        assert((a + b)[a.len() + i] == x);
    }
}

/// A move lies in a leap candidate exactly when it starts at the origin,
/// lands at the offset square, and that square is not held by the mover's
/// own color. The grid bound needs no separate clause: a destination is a
/// square, so its coordinates lie on the grid.
pub proof fn lemma_leap_contains(
    b: BoardView,
    color: Color,
    from: Position,
    dr: int,
    df: int,
    m: HalfMove,
)
    ensures
        spec_leap(b, color, from, dr, df).contains(m) <==> (m.from == from && m.to.rank.idx()
            == from.rank.idx() + dr && m.to.file.idx() == from.file.idx() + df && !occupied_by(
            b,
            color,
            m.to.idx(),
        )),
{
    let r = from.rank.idx() + dr;
    let f = from.file.idx() + df;
    let leap = spec_leap(b, color, from, dr, df);
    assert(0 <= m.to.rank.idx() < 8);
    assert(0 <= m.to.file.idx() < 8);
    if 0 <= r < 8 && 0 <= f < 8 {
        lemma_pos_at(r, f);
        let mv = HalfMove { from, to: pos_at(r, f) };
        if !occupied_by(b, color, r * 8 + f) {
            assert(leap[0] == mv);
            if leap.contains(m) {
                let i = choose|i: int| 0 <= i < leap.len() && leap[i] == m;
                assert(m == mv);
            }
            if m.from == from && m.to.rank.idx() == r && m.to.file.idx() == f && !occupied_by(
                b,
                color,
                m.to.idx(),
            ) {
                m.to.lemma_idx_injective(pos_at(r, f));
                assert(leap[0] == m);
                assert(leap.contains(m));
            }
        } else {
            if leap.contains(m) {
                let i = choose|i: int| 0 <= i < leap.len() && leap[i] == m;
            }
            if m.to.rank.idx() == r && m.to.file.idx() == f {
                assert(m.to.idx() == r * 8 + f);
            }
        }
    } else {
        if leap.contains(m) {
            let i = choose|i: int| 0 <= i < leap.len() && leap[i] == m;
        }
    }
}

/// How many steps a walk from (`r`, `f`) in direction (`dr`, `df`) can take
/// before leaving the grid.
pub open spec fn steps_to_edge(r: int, f: int, dr: int, df: int) -> int {
    let rank_steps = if dr == 1 {
        7 - r
    } else if dr == -1 {
        r
    } else {
        7
    };
    let file_steps = if df == 1 {
        7 - f
    } else if df == -1 {
        f
    } else {
        7
    };
    if rank_steps <= file_steps {
        rank_steps
    } else {
        file_steps
    }
}

/// On a board whose every square but the walk's origin is free, a ray runs
/// all the way to the grid edge: it emits one destination per step it can
/// take.
pub proof fn lemma_ray_len_open(
    b: BoardView,
    color: Color,
    from: Position,
    r: int,
    f: int,
    dr: int,
    df: int,
    fuel: nat,
)
    requires
        -1 <= dr <= 1,
        -1 <= df <= 1,
        !(dr == 0 && df == 0),
        0 <= r < 8,
        0 <= f < 8,
        fuel >= steps_to_edge(r, f, dr, df),
        forall|sq: int| 0 <= sq < 64 && sq != from.idx() ==> square_free(b, sq),
        dr == 1 ==> r >= from.rank.idx(),
        dr == -1 ==> r <= from.rank.idx(),
        dr == 0 ==> r == from.rank.idx(),
        df == 1 ==> f >= from.file.idx(),
        df == -1 ==> f <= from.file.idx(),
        df == 0 ==> f == from.file.idx(),
    ensures
        spec_ray_moves(b, color, from, r, f, dr, df, fuel).len() == steps_to_edge(r, f, dr, df),
    decreases fuel,
{
    let nr = r + dr;
    let nf = f + df;
    if !(0 <= nr < 8 && 0 <= nf < 8) {
        assert(steps_to_edge(r, f, dr, df) == 0);
    } else {
        let sq = nr * 8 + nf;
        let fr = from.rank.idx();
        let ff = from.file.idx();
        if dr != 0 {
            assert(nr != fr);
            assert(sq != from.idx());
        } else {
            assert(nf != ff);
            assert(sq != from.idx());
        }
        assert(square_free(b, sq));
        assert(steps_to_edge(nr, nf, dr, df) == steps_to_edge(r, f, dr, df) - 1);
        lemma_ray_len_open(b, color, from, nr, nf, dr, df, (fuel - 1) as nat);
    }
}

/// Whether `to` is the landing square of step `t` of a walk from (`r`, `f`)
/// in direction (`dr`, `df`).
pub open spec fn ray_lands_at(r: int, f: int, dr: int, df: int, t: int, to: Position) -> bool {
    to.rank.idx() == r + t * dr && to.file.idx() == f + t * df
}

/// The linear index of the square reached after `u` steps of a walk from
/// (`r`, `f`) in direction (`dr`, `df`).
pub open spec fn ray_sq(r: int, f: int, dr: int, df: int, u: int) -> int {
    (r + u * dr) * 8 + (f + u * df)
}

/// Every square strictly before step `t` of the walk from (`r`, `f`) is
/// free.
pub open spec fn ray_clear_before(b: BoardView, r: int, f: int, dr: int, df: int, t: int) -> bool {
    forall|u: int| 1 <= u < t ==> square_free(b, #[trigger] ray_sq(r, f, dr, df, u))
}

/// Whether `to` is a slider destination along direction (`dr`, `df`) from
/// (`r`, `f`): some step of the walk lands on it, every earlier step is
/// free, and it is not held by the mover's own color.
pub open spec fn is_ray_dest(
    b: BoardView,
    color: Color,
    r: int,
    f: int,
    dr: int,
    df: int,
    to: Position,
) -> bool {
    exists|t: int|
        1 <= t <= 7 && #[trigger] ray_lands_at(r, f, dr, df, t, to) && ray_clear_before(
            b,
            r,
            f,
            dr,
            df,
            t,
        ) && !occupied_by(b, color, to.idx())
}

/// A step that lands on the grid lies within the walk's reach of the edge.
pub proof fn lemma_lands_bound(r: int, f: int, dr: int, df: int, t: int, to: Position)
    requires
        -1 <= dr <= 1,
        -1 <= df <= 1,
        !(dr == 0 && df == 0),
        0 <= r < 8,
        0 <= f < 8,
        1 <= t,
        ray_lands_at(r, f, dr, df, t, to),
    ensures
        t <= steps_to_edge(r, f, dr, df),
{
    assert(0 <= to.rank.idx() < 8);
    assert(0 <= to.file.idx() < 8);
    if dr == 1 {
        assert(t * dr == t) by (nonlinear_arith)
            requires
                dr == 1,
        ;
    }
    if dr == -1 {
        assert(t * dr == -t) by (nonlinear_arith)
            requires
                dr == -1,
        ;
    }
    if dr == 0 {
        assert(t * dr == 0) by (nonlinear_arith)
            requires
                dr == 0,
        ;
    }
    if df == 1 {
        assert(t * df == t) by (nonlinear_arith)
            requires
                df == 1,
        ;
    }
    if df == -1 {
        assert(t * df == -t) by (nonlinear_arith)
            requires
                df == -1,
        ;
    }
    if df == 0 {
        assert(t * df == 0) by (nonlinear_arith)
            requires
                df == 0,
        ;
    }
}

/// A move lies in a ray — given fuel enough to reach the grid edge —
/// exactly when it starts at the mover's square and its destination is a
/// ray destination of the walk: reached by some step, with every earlier
/// step free, and not held by the mover's own color.
#[verifier::rlimit(60)]
pub proof fn lemma_ray_contains(
    b: BoardView,
    color: Color,
    from: Position,
    r: int,
    f: int,
    dr: int,
    df: int,
    fuel: nat,
    m: HalfMove,
)
    requires
        -1 <= dr <= 1,
        -1 <= df <= 1,
        !(dr == 0 && df == 0),
        0 <= r < 8,
        0 <= f < 8,
        fuel >= steps_to_edge(r, f, dr, df),
    ensures
        spec_ray_moves(b, color, from, r, f, dr, df, fuel).contains(m) <==> (m.from == from
            && is_ray_dest(b, color, r, f, dr, df, m.to)),
    decreases fuel,
{
    let ray = spec_ray_moves(b, color, from, r, f, dr, df, fuel);
    let nr = r + dr;
    let nf = f + df;
    assert(1 * dr == dr) by (nonlinear_arith);
    assert(1 * df == df) by (nonlinear_arith);
    if fuel == 0 || !(0 <= nr < 8 && 0 <= nf < 8) {
        if !(0 <= nr < 8 && 0 <= nf < 8) {
            if nr < 0 {
                assert(dr == -1 && r == 0);
            }
            if nr > 7 {
                assert(dr == 1 && r == 7);
            }
            if nf < 0 {
                assert(df == -1 && f == 0);
            }
            if nf > 7 {
                assert(df == 1 && f == 7);
            }
        }
        assert(steps_to_edge(r, f, dr, df) <= 0);
        if ray.contains(m) {
            let i = choose|i: int| 0 <= i < ray.len() && ray[i] == m;
        }
        if m.from == from && is_ray_dest(b, color, r, f, dr, df, m.to) {
            let t = choose|t: int|
                1 <= t <= 7 && #[trigger] ray_lands_at(r, f, dr, df, t, m.to) && ray_clear_before(
                    b,
                    r,
                    f,
                    dr,
                    df,
                    t,
                ) && !occupied_by(b, color, m.to.idx());
            lemma_lands_bound(r, f, dr, df, t, m.to);
            assert(false);
        }
    } else {
        let sq = nr * 8 + nf;
        lemma_pos_at(nr, nf);
        let mv = HalfMove { from, to: pos_at(nr, nf) };
        assert(ray_sq(r, f, dr, df, 1) == sq);
        if square_free(b, sq) {
            let tail = spec_ray_moves(b, color, from, nr, nf, dr, df, (fuel - 1) as nat);
            assert(steps_to_edge(nr, nf, dr, df) == steps_to_edge(r, f, dr, df) - 1);
            lemma_ray_contains(b, color, from, nr, nf, dr, df, (fuel - 1) as nat, m);
            lemma_concat_contains(seq![mv], tail, m);
            if seq![mv].contains(m) {
                let i = choose|i: int| 0 <= i < seq![mv].len() && seq![mv][i] == m;
                assert(m == mv);
            }
            if ray.contains(m) {
                if m == mv {
                    assert(ray_lands_at(r, f, dr, df, 1, m.to));
                    assert(ray_clear_before(b, r, f, dr, df, 1));
                    assert(m.to.idx() == sq);
                    assert(is_ray_dest(b, color, r, f, dr, df, m.to));
                } else {
                    assert(tail.contains(m));
                    let t2 = choose|t2: int|
                        1 <= t2 <= 7 && #[trigger] ray_lands_at(nr, nf, dr, df, t2, m.to)
                            && ray_clear_before(b, nr, nf, dr, df, t2) && !occupied_by(
                            b,
                            color,
                            m.to.idx(),
                        );
                    lemma_lands_bound(nr, nf, dr, df, t2, m.to);
                    let t = t2 + 1;
                    assert((t2 + 1) * dr == t2 * dr + dr) by (nonlinear_arith);
                    assert((t2 + 1) * df == t2 * df + df) by (nonlinear_arith);
                    assert(ray_lands_at(r, f, dr, df, t, m.to));
                    assert forall|u: int| 1 <= u < t implies square_free(
                        b,
                        #[trigger] ray_sq(r, f, dr, df, u),
                    ) by {
                        if u == 1 {
                            assert(ray_sq(r, f, dr, df, 1) == sq);
                        } else {
                            assert(u * dr == (u - 1) * dr + dr) by (nonlinear_arith);
                            assert(u * df == (u - 1) * df + df) by (nonlinear_arith);
                            assert(ray_sq(r, f, dr, df, u) == ray_sq(nr, nf, dr, df, u - 1));
                            assert(square_free(b, ray_sq(nr, nf, dr, df, u - 1)));
                        }
                    }
                    assert(ray_clear_before(b, r, f, dr, df, t));
                    assert(is_ray_dest(b, color, r, f, dr, df, m.to));
                }
            }
            if m.from == from && is_ray_dest(b, color, r, f, dr, df, m.to) {
                let t = choose|t: int|
                    1 <= t <= 7 && #[trigger] ray_lands_at(r, f, dr, df, t, m.to)
                        && ray_clear_before(b, r, f, dr, df, t) && !occupied_by(
                        b,
                        color,
                        m.to.idx(),
                    );
                if t == 1 {
                    assert(m.to.rank.idx() == nr && m.to.file.idx() == nf);
                    m.to.lemma_idx_injective(pos_at(nr, nf));
                    assert(seq![mv][0] == m);
                    assert(seq![mv].contains(m));
                    assert(ray.contains(m));
                } else {
                    assert((t - 1) * dr == t * dr - dr) by (nonlinear_arith);
                    assert((t - 1) * df == t * df - df) by (nonlinear_arith);
                    assert(ray_lands_at(nr, nf, dr, df, t - 1, m.to));
                    assert forall|u: int| 1 <= u < t - 1 implies square_free(
                        b,
                        #[trigger] ray_sq(nr, nf, dr, df, u),
                    ) by {
                        assert((u + 1) * dr == u * dr + dr) by (nonlinear_arith);
                        assert((u + 1) * df == u * df + df) by (nonlinear_arith);
                        assert(ray_sq(nr, nf, dr, df, u) == ray_sq(r, f, dr, df, u + 1));
                        assert(square_free(b, ray_sq(r, f, dr, df, u + 1)));
                    }
                    assert(ray_clear_before(b, nr, nf, dr, df, t - 1));
                    assert(is_ray_dest(b, color, nr, nf, dr, df, m.to));
                    assert(tail.contains(m));
                    assert(ray.contains(m));
                }
            }
        } else if occupied_by(b, color, sq) {
            if ray.contains(m) {
                let i = choose|i: int| 0 <= i < ray.len() && ray[i] == m;
            }
            if m.from == from && is_ray_dest(b, color, r, f, dr, df, m.to) {
                let t = choose|t: int|
                    1 <= t <= 7 && #[trigger] ray_lands_at(r, f, dr, df, t, m.to)
                        && ray_clear_before(b, r, f, dr, df, t) && !occupied_by(
                        b,
                        color,
                        m.to.idx(),
                    );
                if t == 1 {
                    assert(m.to.rank.idx() == nr && m.to.file.idx() == nf);
                    assert(m.to.idx() == sq);
                } else {
                    assert(square_free(b, ray_sq(r, f, dr, df, 1)));
                }
                assert(false);
            }
        } else {
            if ray.contains(m) {
                let i = choose|i: int| 0 <= i < ray.len() && ray[i] == m;
                assert(m == mv);
                assert(ray_lands_at(r, f, dr, df, 1, m.to));
                assert(ray_clear_before(b, r, f, dr, df, 1));
                assert(m.to.idx() == sq);
                assert(is_ray_dest(b, color, r, f, dr, df, m.to));
            }
            if m.from == from && is_ray_dest(b, color, r, f, dr, df, m.to) {
                let t = choose|t: int|
                    1 <= t <= 7 && #[trigger] ray_lands_at(r, f, dr, df, t, m.to)
                        && ray_clear_before(b, r, f, dr, df, t) && !occupied_by(
                        b,
                        color,
                        m.to.idx(),
                    );
                if t == 1 {
                    assert(m.to.rank.idx() == nr && m.to.file.idx() == nf);
                    m.to.lemma_idx_injective(pos_at(nr, nf));
                    assert(ray[0] == m);
                    assert(ray.contains(m));
                } else {
                    assert(square_free(b, ray_sq(r, f, dr, df, 1)));
                    assert(false);
                }
            }
        }
    }
}

/// Every move a ray emits starts at the walk's origin, and its destination
/// lies strictly on the walking side of (`r`, `f`) in each moving
/// coordinate, and exactly on (`r`, `f`)'s line in each still one.
pub open spec fn ray_dests_directional(
    ray: Seq<HalfMove>,
    from: Position,
    r: int,
    f: int,
    dr: int,
    df: int,
) -> bool {
    forall|i: int|
        0 <= i < ray.len() ==> (#[trigger] ray[i]).from == from && (dr == 1
            ==> ray[i].to.rank.idx() > r) && (dr == -1 ==> ray[i].to.rank.idx() < r) && (dr == 0
            ==> ray[i].to.rank.idx() == r) && (df == 1 ==> ray[i].to.file.idx() > f) && (df == -1
            ==> ray[i].to.file.idx() < f) && (df == 0 ==> ray[i].to.file.idx() == f)
}

/// A ray only walks away from its starting point: see
/// `ray_dests_directional`.
pub proof fn lemma_ray_dest_bounds(
    b: BoardView,
    color: Color,
    from: Position,
    r: int,
    f: int,
    dr: int,
    df: int,
    fuel: nat,
)
    requires
        -1 <= dr <= 1,
        -1 <= df <= 1,
        0 <= r < 8,
        0 <= f < 8,
    ensures
        ray_dests_directional(spec_ray_moves(b, color, from, r, f, dr, df, fuel), from, r, f, dr, df),
    decreases fuel,
{
    let ray = spec_ray_moves(b, color, from, r, f, dr, df, fuel);
    if fuel == 0 {
    } else {
        let nr = r + dr;
        let nf = f + df;
        if !(0 <= nr < 8 && 0 <= nf < 8) {
        } else {
            lemma_pos_at(nr, nf);
            let sq = nr * 8 + nf;
            if square_free(b, sq) {
                let tail = spec_ray_moves(b, color, from, nr, nf, dr, df, (fuel - 1) as nat);
                lemma_ray_dest_bounds(b, color, from, nr, nf, dr, df, (fuel - 1) as nat);
                assert forall|i: int| 0 <= i < ray.len() implies (#[trigger] ray[i]).from == from
                    && (dr == 1 ==> ray[i].to.rank.idx() > r) && (dr == -1 ==> ray[i].to.rank.idx()
                    < r) && (dr == 0 ==> ray[i].to.rank.idx() == r) && (df == 1
                    ==> ray[i].to.file.idx() > f) && (df == -1 ==> ray[i].to.file.idx() < f) && (df
                    == 0 ==> ray[i].to.file.idx() == f) by {
                    if i == 0 {
                    } else {
                        assert(ray[i] == tail[i - 1]);
                    }
                }
            } else {
            }
        }
    }
}

/// Scans one ray, appending its destinations in walking order.
pub(crate) fn scan_ray(board: &Board, color: Color, from: Position, dr: i32, df: i32, moves: &mut Vec<HalfMove>)
    requires
        board@.wf(),
        -1 <= dr <= 1,
        -1 <= df <= 1,
    ensures
        final(moves)@ == old(moves)@ + spec_ray_moves(
            board@,
            color,
            from,
            from.rank.idx(),
            from.file.idx(),
            dr as int,
            df as int,
            7,
        ),
{
    let mut r: i32 = from.rank().to_index() as i32;
    let mut f: i32 = from.file().to_index() as i32;
    let mut steps: usize = 0;
    let mut done = false;
    while !done && steps < 7
        invariant
            board@.wf(),
            -1 <= dr <= 1,
            -1 <= df <= 1,
            0 <= r < 8,
            0 <= f < 8,
            0 <= steps <= 7,
            old(moves)@ + spec_ray_moves(
                board@,
                color,
                from,
                from.rank.idx(),
                from.file.idx(),
                dr as int,
                df as int,
                7,
            ) == if done {
                moves@
            } else {
                moves@ + spec_ray_moves(
                    board@,
                    color,
                    from,
                    r as int,
                    f as int,
                    dr as int,
                    df as int,
                    (7 - steps) as nat,
                )
            },
        decreases 7 - steps + if done {
            0int
        } else {
            1
        },
    {
        let nr = r + dr;
        let nf = f + df;
        if nr < 0 || nr > 7 || nf < 0 || nf > 7 {
            done = true;
        } else {
            let rank = Axis::from_index(nr as usize).unwrap();
            let file = Axis::from_index(nf as usize).unwrap();
            let to = Position::new(rank, file);
            proof {
                lemma_pos_at(nr as int, nf as int);
                assert(to == pos_at(nr as int, nf as int));
                assert(to.idx() == nr * 8 + nf);
            }
            match classify_square(board, color, to) {
                None => {
                    moves.push(HalfMove::new(from, to));
                    r = nr;
                    f = nf;
                    steps += 1;
                    proof {
                        assert(old(moves)@ + spec_ray_moves(
                            board@,
                            color,
                            from,
                            from.rank.idx(),
                            from.file.idx(),
                            dr as int,
                            df as int,
                            7,
                        ) =~= moves@ + spec_ray_moves(
                            board@,
                            color,
                            from,
                            r as int,
                            f as int,
                            dr as int,
                            df as int,
                            (7 - steps) as nat,
                        ));
                    }
                },
                Some(true) => {
                    done = true;
                },
                Some(false) => {
                    moves.push(HalfMove::new(from, to));
                    done = true;
                    proof {
                        assert(old(moves)@ + spec_ray_moves(
                            board@,
                            color,
                            from,
                            from.rank.idx(),
                            from.file.idx(),
                            dr as int,
                            df as int,
                            7,
                        ) =~= moves@);
                    }
                },
            }
        }
    }
}

} // verus!
