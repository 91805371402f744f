//! The board: twelve bitboards (one per piece kind and color), the side to
//! move, castling rights, the en-passant target and the two move clocks,
//! together with placement queries and move application. The interchange
//! codec lives in `fen` and fills a board through the constructors here.

use vstd::prelude::*;

use crate::bitboard::{bit_at, lemma_with_bit, lemma_without_bit, lemma_zero_has_no_bit, with_bit,
    without_bit, Bitboard};
use crate::errors::{InvalidChar, InvalidFenString, InvalidMove};
use crate::half_move::HalfMove;
use crate::piece::{pm_index, Color, Piece};
use crate::piece_map::{pm_index_of, PieceMap};
use crate::pieces::PieceType;
use crate::position::{Axis, Position};

verus! {

/// The kind scanned at step `s` of the fixed placement-query order: piece
/// kinds outer, colors inner.
pub open spec fn scan_kind(s: int) -> int {
    s / 2
}

/// The color scanned at step `s` of the fixed placement-query order.
pub open spec fn scan_color(s: int) -> int {
    s % 2
}

/// The first (kind, color) pair whose bitboard holds `sq`, scanning in the
/// fixed order from step `s` on; `None` when no bitboard from step `s` on
/// holds it.
pub open spec fn first_occupant_from(boards: Seq<u64>, sq: int, s: int) -> Option<(int, int)>
    decreases 12 - s,
{
    if s < 0 || s >= 12 {
        None
    } else if bit_at(boards[pm_index(scan_kind(s), scan_color(s))], sq) {
        Some((scan_kind(s), scan_color(s)))
    } else {
        first_occupant_from(boards, sq, s + 1)
    }
}

/// The first (kind, color) pair whose bitboard holds `sq`, in the fixed scan
/// order; what a placement query returns.
pub open spec fn first_occupant(boards: Seq<u64>, sq: int) -> Option<(int, int)> {
    first_occupant_from(boards, sq, 0)
}

/// No bitboard holds the square `sq`.
pub open spec fn sq_empty_all(boards: Seq<u64>, sq: int) -> bool {
    forall|pi: int| 0 <= pi < 12 ==> !bit_at(#[trigger] boards[pi], sq)
}

/// No square belongs to two of the twelve bitboards: a square holds at most
/// one piece.
pub open spec fn no_overlap(boards: Seq<u64>) -> bool {
    forall|sq: int, p1: int, p2: int|
        0 <= sq < 64 && 0 <= p1 < 12 && 0 <= p2 < 12 && p1 != p2 && #[trigger] bit_at(
            boards[p1],
            sq,
        ) ==> !(#[trigger] bit_at(boards[p2], sq))
}

/// `boards` with the first occupant of `sq` (in scan order) taken off `sq`;
/// unchanged when `sq` is empty.
pub open spec fn clear_first(boards: Seq<u64>, sq: int) -> Seq<u64> {
    match first_occupant(boards, sq) {
        None => boards,
        Some((k, c)) => boards.update(pm_index(k, c), without_bit(boards[pm_index(k, c)], sq)),
    }
}

/// `boards` with `sq` added to the bitboard at index `pi`.
pub open spec fn place(boards: Seq<u64>, pi: int, sq: int) -> Seq<u64> {
    boards.update(pi, with_bit(boards[pi], sq))
}

/// A found occupant lies in range and its bitboard really holds the square.
pub proof fn lemma_first_occupant_some(boards: Seq<u64>, sq: int, s: int, k: int, c: int)
    requires
        first_occupant_from(boards, sq, s) == Some((k, c)),
    ensures
        0 <= k < 6,
        0 <= c < 2,
        s <= 2 * k + c < 12,
        bit_at(boards[pm_index(k, c)], sq),
    decreases 12 - s,
{
    if s < 0 || s >= 12 {
    } else if bit_at(boards[pm_index(scan_kind(s), scan_color(s))], sq) {
    } else {
        lemma_first_occupant_some(boards, sq, s + 1, k, c);
    }
}

/// When the scan from step `s` finds nothing, none of the bitboards scanned
/// from step `s` on holds the square.
pub proof fn lemma_first_occupant_none(boards: Seq<u64>, sq: int, s: int)
    requires
        0 <= s,
        first_occupant_from(boards, sq, s) is None,
    ensures
        forall|s2: int|
            s <= s2 < 12 ==> !bit_at(#[trigger] boards[pm_index(scan_kind(s2), scan_color(s2))], sq),
    decreases 12 - s,
{
    if s >= 12 {
    } else {
        lemma_first_occupant_none(boards, sq, s + 1);
    }
}

/// Every bitboard index is reached by some step of the scan order.
pub proof fn lemma_scan_covers(pi: int)
    requires
        0 <= pi < 12,
    ensures
        exists|s: int|
            0 <= s < 12 && pm_index(#[trigger] scan_kind(s), scan_color(s)) == pi,
{
    let k = pi % 6;
    let c = pi / 6;
    let s = 2 * k + c;
    assert(s / 2 == k && s % 2 == c) by (nonlinear_arith)
        requires
            0 <= k < 6 && 0 <= c < 2 && s == 2 * k + c,
    ;
    assert(pm_index(scan_kind(s), scan_color(s)) == pi);
}

/// An empty scan means an empty square, and the other way round.
pub proof fn lemma_first_occupant_none_iff_empty(boards: Seq<u64>, sq: int)
    requires
        boards.len() == 12,
    ensures
        first_occupant(boards, sq) is None <==> sq_empty_all(boards, sq),
{
    if first_occupant(boards, sq) is None {
        lemma_first_occupant_none(boards, sq, 0);
        assert forall|pi: int| 0 <= pi < 12 implies !bit_at(#[trigger] boards[pi], sq) by {
            lemma_scan_covers(pi);
            let s = choose|s: int|
                0 <= s < 12 && pm_index(#[trigger] scan_kind(s), scan_color(s)) == pi;
            assert(!bit_at(boards[pm_index(scan_kind(s), scan_color(s))], sq));
        }
    } else {
        let (k, c) = first_occupant(boards, sq)->Some_0;
        lemma_first_occupant_some(boards, sq, 0, k, c);
        assert(0 <= pm_index(k, c) < 12);
    }
}

/// Taking the first occupant off a square keeps the no-overlap invariant and
/// leaves that square empty.
pub proof fn lemma_clear_first_preserves(boards: Seq<u64>, sq: int)
    requires
        boards.len() == 12,
        no_overlap(boards),
        0 <= sq < 64,
    ensures
        clear_first(boards, sq).len() == 12,
        no_overlap(clear_first(boards, sq)),
        sq_empty_all(clear_first(boards, sq), sq),
{
    let cleared = clear_first(boards, sq);
    match first_occupant(boards, sq) {
        None => {
            lemma_first_occupant_none_iff_empty(boards, sq);
        },
        Some((k, c)) => {
            lemma_first_occupant_some(boards, sq, 0, k, c);
            let pc = pm_index(k, c);
            assert forall|q: int, p1: int, p2: int|
                0 <= q < 64 && 0 <= p1 < 12 && 0 <= p2 < 12 && p1 != p2 && #[trigger] bit_at(
                    cleared[p1],
                    q,
                ) implies !(#[trigger] bit_at(cleared[p2], q)) by {
                if p1 == pc {
                    lemma_without_bit(boards[pc], sq, q);
                } else {
                }
                if p2 == pc {
                    lemma_without_bit(boards[pc], sq, q);
                } else {
                }
            }
            assert forall|pi: int| 0 <= pi < 12 implies !bit_at(#[trigger] cleared[pi], sq) by {
                if pi == pc {
                    lemma_without_bit(boards[pc], sq, sq);
                } else {
                    assert(bit_at(boards[pc], sq));
                    assert(cleared[pi] == boards[pi]);
                }
            }
        },
    }
}

/// Placing on an empty square keeps the no-overlap invariant.
pub proof fn lemma_place_preserves(boards: Seq<u64>, pi: int, sq: int)
    requires
        boards.len() == 12,
        no_overlap(boards),
        sq_empty_all(boards, sq),
        0 <= pi < 12,
        0 <= sq < 64,
    ensures
        place(boards, pi, sq).len() == 12,
        no_overlap(place(boards, pi, sq)),
{
    let placed = place(boards, pi, sq);
    assert forall|q: int, p1: int, p2: int|
        0 <= q < 64 && 0 <= p1 < 12 && 0 <= p2 < 12 && p1 != p2 && #[trigger] bit_at(
            placed[p1],
            q,
        ) implies !(#[trigger] bit_at(placed[p2], q)) by {
        if p1 == pi {
            lemma_with_bit(boards[pi], sq, q);
        }
        if p2 == pi {
            lemma_with_bit(boards[pi], sq, q);
        }
    }
}

/// Whether one side may still castle on one wing.
#[derive(Clone, Copy, Debug, PartialEq, Eq, Structural)]
pub enum BoardSide {
    QueenSide,
    KingSide,
}

impl BoardSide {
    /// Decodes a castling letter: `'k'` or `'K'` names the king side, `'q'`
    /// or `'Q'` the queen side; anything else is rejected.
    pub fn from_char(character: char) -> (r: Result<BoardSide, InvalidChar>)
        ensures
            r == BoardSide::spec_from_char(character),
    {
        match character {
            'k' | 'K' => Ok(BoardSide::KingSide),
            'q' | 'Q' => Ok(BoardSide::QueenSide),
            _ => Err(InvalidChar),
        }
    }

    /// What `from_char` returns.
    pub open spec fn spec_from_char(character: char) -> Result<BoardSide, InvalidChar> {
        if character == 'k' || character == 'K' {
            Ok(BoardSide::KingSide)
        } else if character == 'q' || character == 'Q' {
            Ok(BoardSide::QueenSide)
        } else {
            Err(InvalidChar)
        }
    }
}

/// The four independent castling permissions: {White, Black} x {queen side,
/// king side}.
#[derive(Clone, Copy, Debug, PartialEq, Eq, Structural)]
pub struct CastlingRights {
    pub white_queen_side: bool,
    pub white_king_side: bool,
    pub black_queen_side: bool,
    pub black_king_side: bool,
}

impl CastlingRights {
    /// The permission of one (color, wing) pair.
    pub open spec fn spec_get(self, colour: Color, side: BoardSide) -> bool {
        match (colour, side) {
            (Color::White, BoardSide::QueenSide) => self.white_queen_side,
            (Color::White, BoardSide::KingSide) => self.white_king_side,
            (Color::Black, BoardSide::QueenSide) => self.black_queen_side,
            (Color::Black, BoardSide::KingSide) => self.black_king_side,
        }
    }

    /// All four permissions granted, as a value.
    pub open spec fn spec_all() -> CastlingRights {
        CastlingRights {
            white_queen_side: true,
            white_king_side: true,
            black_queen_side: true,
            black_king_side: true,
        }
    }

    /// No permission granted, as a value.
    pub open spec fn spec_none() -> CastlingRights {
        CastlingRights {
            white_queen_side: false,
            white_king_side: false,
            black_queen_side: false,
            black_king_side: false,
        }
    }

    /// All four permissions granted; what a freshly built board carries.
    pub fn new() -> (r: Self)
        ensures
            r == CastlingRights::spec_all(),
            forall|colour: Color, side: BoardSide| r.spec_get(colour, side),
    {
        Self { white_queen_side: true, white_king_side: true, black_queen_side: true, black_king_side: true }
    }

    /// No permission granted; the codec's castling field starts from this and
    /// only adds.
    pub fn none() -> (r: Self)
        ensures
            r == CastlingRights::spec_none(),
            forall|colour: Color, side: BoardSide| !r.spec_get(colour, side),
    {
        Self {
            white_queen_side: false,
            white_king_side: false,
            black_queen_side: false,
            black_king_side: false,
        }
    }

    pub fn get(&self, colour: Color, side: BoardSide) -> (r: bool)
        ensures
            r == self.spec_get(colour, side),
    {
        match (colour, side) {
            (Color::White, BoardSide::QueenSide) => self.white_queen_side,
            (Color::White, BoardSide::KingSide) => self.white_king_side,
            (Color::Black, BoardSide::QueenSide) => self.black_queen_side,
            (Color::Black, BoardSide::KingSide) => self.black_king_side,
        }
    }

    /// Grants one permission; the other three stay as they were.
    pub fn set(&mut self, colour: Color, side: BoardSide)
        ensures
            *final(self) == old(self).spec_with(colour, side, true),
    {
        match (colour, side) {
            (Color::White, BoardSide::QueenSide) => self.white_queen_side = true,
            (Color::White, BoardSide::KingSide) => self.white_king_side = true,
            (Color::Black, BoardSide::QueenSide) => self.black_queen_side = true,
            (Color::Black, BoardSide::KingSide) => self.black_king_side = true,
        }
    }

    /// Withdraws one permission; the other three stay as they were.
    pub fn remove(&mut self, colour: Color, side: BoardSide)
        ensures
            *final(self) == old(self).spec_with(colour, side, false),
    {
        match (colour, side) {
            (Color::White, BoardSide::QueenSide) => self.white_queen_side = false,
            (Color::White, BoardSide::KingSide) => self.white_king_side = false,
            (Color::Black, BoardSide::QueenSide) => self.black_queen_side = false,
            (Color::Black, BoardSide::KingSide) => self.black_king_side = false,
        }
    }

    /// This set of permissions with one entry replaced.
    pub open spec fn spec_with(self, colour: Color, side: BoardSide, value: bool) -> CastlingRights {
        match (colour, side) {
            (Color::White, BoardSide::QueenSide) => CastlingRights { white_queen_side: value, ..self },
            (Color::White, BoardSide::KingSide) => CastlingRights { white_king_side: value, ..self },
            (Color::Black, BoardSide::QueenSide) => CastlingRights { black_queen_side: value, ..self },
            (Color::Black, BoardSide::KingSide) => CastlingRights { black_king_side: value, ..self },
        }
    }
}

/// How a game that is over ended. Terminal-state detection is an extension
/// point of this core: nothing here computes check status.
#[derive(Clone, Copy, Debug, PartialEq, Eq, Structural)]
pub enum Outcome {
    Checkmate(Color),
    Stalemate,
}

/// The mathematical content of a board: the raw words of the twelve
/// bitboards in `pm_index` order, and the auxiliary state.
pub struct BoardView {
    pub boards: Seq<u64>,
    pub current_turn: Color,
    pub castling_rights: CastlingRights,
    pub en_passant_target: Option<Position>,
    pub half_move_clock: u32,
    pub full_move_clock: u32,
}

impl BoardView {
    /// Well-formedness: twelve bitboards, no square held by two of them.
    pub open spec fn wf(self) -> bool {
        self.boards.len() == 12 && no_overlap(self.boards)
    }

    /// Two views that agree on everything but the bitboards.
    pub open spec fn same_aux(self, other: BoardView) -> bool {
        self.current_turn == other.current_turn && self.castling_rights == other.castling_rights
            && self.en_passant_target == other.en_passant_target && self.half_move_clock
            == other.half_move_clock && self.full_move_clock == other.full_move_clock
    }
}

/// The full position: twelve bitboards plus side to move, castling rights,
/// en-passant target and the two clocks. A plain value: copied, not aliased.
#[derive(Clone, Copy, Debug, PartialEq, Eq)]
pub struct Board {
    data: PieceMap,
    castling_rights: CastlingRights,
    full_move_clock: u32,
    half_move_clock: u32,
    current_turn: Color,
    en_passant_target: Option<Position>,
}

impl View for Board {
    type V = BoardView;

    closed spec fn view(&self) -> BoardView {
        BoardView {
            boards: self.data@,
            current_turn: self.current_turn,
            castling_rights: self.castling_rights,
            en_passant_target: self.en_passant_target,
            half_move_clock: self.half_move_clock,
            full_move_clock: self.full_move_clock,
        }
    }
}

impl Board {
    /// The side to move.
    pub fn current_turn(&self) -> (r: Color)
        ensures
            r == self@.current_turn,
    {
        self.current_turn
    }

    /// The castling permissions.
    pub fn castling_rights(&self) -> (r: CastlingRights)
        ensures
            r == self@.castling_rights,
    {
        self.castling_rights
    }

    /// The square a pawn may capture onto in passing, if any.
    pub fn en_passant_target(&self) -> (r: Option<Position>)
        ensures
            r == self@.en_passant_target,
    {
        self.en_passant_target
    }

    /// Plies since the last capture or pawn move, as decoded.
    pub fn half_move_clock(&self) -> (r: u32)
        ensures
            r == self@.half_move_clock,
    {
        self.half_move_clock
    }

    /// Full moves played, as decoded.
    pub fn full_move_clock(&self) -> (r: u32)
        ensures
            r == self@.full_move_clock,
    {
        self.full_move_clock
    }

    /// The bitboard of one (kind, color) pair.
    pub fn piece_bitboard(&self, piece: &Piece) -> (r: Bitboard)
        ensures
            r@ == self@.boards[pm_index_of(piece)],
    {
        self.data.get(piece)
    }

    /// The view of a board with no pieces, White to move, full castling
    /// permissions, no en-passant target, clocks at zero.
    pub open spec fn spec_empty() -> BoardView {
        BoardView {
            boards: Seq::new(12, |i: int| 0u64),
            current_turn: Color::White,
            castling_rights: CastlingRights::spec_all(),
            en_passant_target: None,
            half_move_clock: 0,
            full_move_clock: 0,
        }
    }

    /// A board with no pieces, White to move, full castling permissions, no
    /// en-passant target, clocks at zero.
    pub fn empty() -> (r: Board)
        ensures
            r@ == Board::spec_empty(),
            r@.boards.len() == 12,
            forall|i: int| 0 <= i < 12 ==> r@.boards[i] == 0u64,
            r@.current_turn == Color::White,
            forall|colour: Color, side: BoardSide| r@.castling_rights.spec_get(colour, side),
            r@.en_passant_target is None,
            r@.half_move_clock == 0,
            r@.full_move_clock == 0,
            r@.wf(),
    {
        let r = Board {
            data: PieceMap::new(),
            castling_rights: CastlingRights::new(),
            full_move_clock: 0,
            half_move_clock: 0,
            current_turn: Color::White,
            en_passant_target: None,
        };
        proof {
            assert forall|sq: int, p1: int, p2: int|
                0 <= sq < 64 && 0 <= p1 < 12 && 0 <= p2 < 12 && p1 != p2 && #[trigger] bit_at(
                    r@.boards[p1],
                    sq,
                ) implies !(#[trigger] bit_at(r@.boards[p2], sq)) by {
                lemma_zero_has_no_bit(sq);
            }
            assert(r@.boards =~= Board::spec_empty().boards);
        }
        r
    }

    /// Decodes a six-field interchange string, all-or-nothing: the result is
    /// exactly the position the grammar assigns to the string, or
    /// `InvalidFenString` when the grammar rejects it; a decoded board is
    /// always well formed.
    pub fn from_fen(fen_string: &str) -> (r: Result<Board, InvalidFenString>)
        ensures
            match r {
                Ok(board) => crate::fen::spec_from_fen(fen_string@) == Some(board@) && board@.wf(),
                Err(e) => crate::fen::spec_from_fen(fen_string@) is None,
            },
    {
        let fields = crate::fen::split_str(fen_string, ' ');
        let ghost fieldsv = crate::fen::spec_split(fen_string@, ' ');
        if fields.len() != 6 {
            return Err(InvalidFenString);
        }
        proof {
            assert(fields@[0]@ == fieldsv[0]);
            assert(fields@[1]@ == fieldsv[1]);
            assert(fields@[2]@ == fieldsv[2]);
            assert(fields@[3]@ == fieldsv[3]);
            assert(fields@[4]@ == fieldsv[4]);
            assert(fields@[5]@ == fieldsv[5]);
        }
        let data = match crate::fen::parse_data_fen_field(fields[0]) {
            Ok(v) => v,
            Err(e) => {
                return Err(InvalidFenString);
            },
        };
        let current_turn = match crate::fen::parse_current_turn_fen_field(fields[1]) {
            Ok(v) => v,
            Err(e) => {
                return Err(InvalidFenString);
            },
        };
        let castling_rights = match crate::fen::parse_castling_rights_fen_field(fields[2]) {
            Ok(v) => v,
            Err(e) => {
                return Err(InvalidFenString);
            },
        };
        let en_passant_target = match crate::fen::parse_en_passant_fen_field(fields[3]) {
            Ok(v) => v,
            Err(e) => {
                return Err(InvalidFenString);
            },
        };
        let half_move_clock = match crate::fen::parse_move_clock_fen_field(fields[4]) {
            Ok(v) => v,
            Err(e) => {
                return Err(InvalidFenString);
            },
        };
        let full_move_clock = match crate::fen::parse_move_clock_fen_field(fields[5]) {
            Ok(v) => v,
            Err(e) => {
                return Err(InvalidFenString);
            },
        };
        let board = Board {
            data,
            castling_rights,
            full_move_clock,
            half_move_clock,
            current_turn,
            en_passant_target,
        };
        proof {
            crate::fen::lemma_from_fen_wf(fen_string@);
        }
        Ok(board)
    }

    /// The standard starting position, decoded from the compiled-in starting
    /// string. Were that constant ever undecodable the empty board would be
    /// handed back instead; the contract records which of the two happened.
    pub fn new() -> (r: Board)
        ensures
            match crate::fen::spec_from_fen(
                "rnbqkbnr/pppppppp/8/8/8/8/PPPPPPPP/RNBQKBNR w KQkq - 0 1"@,
            ) {
                Some(v) => r@ == v && r@.wf(),
                None => r@ == Board::spec_empty(),
            },
    {
        match Self::from_fen("rnbqkbnr/pppppppp/8/8/8/8/PPPPPPPP/RNBQKBNR w KQkq - 0 1") {
            Ok(board) => board,
            Err(e) => Self::empty(),
        }
    }

    /// The piece on a square: the first of the twelve bitboards, in the fixed
    /// scan order, that holds it; `None` when the square is empty.
    pub fn get(&self, position: Position) -> (r: Option<Piece>)
        ensures
            match r {
                Some(piece) => first_occupant(self@.boards, position.idx()) == Some(
                    (piece.ptype.idx(), piece.color.idx()),
                ),
                None => first_occupant(self@.boards, position.idx()) is None,
            },
    {
        let ghost sq = position.idx();
        let mut s: usize = 0;
        while s < 12
            invariant
                s <= 12,
                first_occupant(self@.boards, sq) == first_occupant_from(self@.boards, sq, s as int),
                sq == position.idx(),
            decreases 12 - s,
        {
            let kind = PieceType::from_index(s / 2).unwrap();
            let color = if s % 2 == 0 {
                Color::White
            } else {
                Color::Black
            };
            let piece = Piece::new(kind, color);
            proof {
                assert(kind.idx() == scan_kind(s as int));
                assert(color.idx() == scan_color(s as int));
            }
            if self.data.get(&piece).get(position) {
                return Some(piece);
            }
            s += 1;
        }
        None
    }

    /// Adds `piece` to the square, touching nothing else. Does not clear an
    /// occupant of another kind or color first: that is the caller's duty
    /// (move application clears before it places).
    pub fn set(&mut self, piece: &Piece, position: Position)
        ensures
            final(self)@.boards == place(old(self)@.boards, pm_index_of(piece), position.idx()),
            final(self)@.same_aux(old(self)@),
    {
        let mut bb = self.data.get(piece);
        bb.set(position);
        self.data.set(piece, bb);
        proof {
            assert(final(self)@.boards =~= place(
                old(self)@.boards,
                pm_index_of(piece),
                position.idx(),
            ));
        }
    }

    /// Clears the square: the first bitboard (in scan order) holding it loses
    /// it; a no-op when the square is empty.
    pub fn remove(&mut self, position: Position)
        ensures
            final(self)@.boards == clear_first(old(self)@.boards, position.idx()),
            final(self)@.same_aux(old(self)@),
    {
        let ghost sq = position.idx();
        let mut s: usize = 0;
        while s < 12
            invariant
                s <= 12,
                *self == *old(self),
                first_occupant(self@.boards, sq) == first_occupant_from(self@.boards, sq, s as int),
                sq == position.idx(),
            decreases 12 - s,
        {
            let kind = PieceType::from_index(s / 2).unwrap();
            let color = if s % 2 == 0 {
                Color::White
            } else {
                Color::Black
            };
            let piece = Piece::new(kind, color);
            proof {
                assert(kind.idx() == scan_kind(s as int));
                assert(color.idx() == scan_color(s as int));
            }
            let bb = self.data.get(&piece);
            if bb.get(position) {
                let mut cleared = bb;
                cleared.remove(position);
                self.data.set(&piece, cleared);
                proof {
                    assert(first_occupant(old(self)@.boards, sq) == Some(
                        (kind.idx(), color.idx()),
                    ));
                    assert(final(self)@.boards =~= clear_first(old(self)@.boards, sq));
                }
                return ;
            }
            s += 1;
        }
        proof {
            assert(final(self)@.boards =~= clear_first(old(self)@.boards, sq));
        }
    }

    /// Applies one half-move. Fails, changing nothing, when the origin square
    /// is empty. On success the origin's piece is taken off its square,
    /// whatever occupied the destination is taken off unconditionally (an
    /// implicit capture), and the piece is placed on the destination. The
    /// side to move, castling rights, en-passant target and clocks are left
    /// untouched: updating them is a caller's concern.
    pub fn move_piece(&mut self, half_move: &HalfMove) -> (r: Result<(), InvalidMove>)
        ensures
            match first_occupant(old(self)@.boards, half_move.from.idx()) {
                None => r is Err && *final(self) == *old(self),
                Some((k, c)) => r is Ok && final(self)@.boards == place(
                    clear_first(clear_first(old(self)@.boards, half_move.from.idx()), half_move.to.idx()),
                    pm_index(k, c),
                    half_move.to.idx(),
                ),
            },
            final(self)@.same_aux(old(self)@),
            old(self)@.wf() ==> final(self)@.wf(),
    {
        let piece = match self.get(*half_move.from()) {
            Some(piece) => piece,
            None => {
                return Err(InvalidMove { reason: "No piece at position 'from'".to_owned() });
            },
        };
        self.remove(*half_move.from());
        self.remove(*half_move.to());
        self.set(&piece, *half_move.to());
        proof {
            if old(self)@.wf() {
                let b0 = old(self)@.boards;
                let from = half_move.from.idx();
                let to = half_move.to.idx();
                lemma_clear_first_preserves(b0, from);
                let b1 = clear_first(b0, from);
                lemma_clear_first_preserves(b1, to);
                let b2 = clear_first(b1, to);
                let (k, c) = first_occupant(b0, from)->Some_0;
                lemma_first_occupant_some(b0, from, 0, k, c);
                lemma_place_preserves(b2, pm_index(k, c), to);
            }
        }
        Ok(())
    }

    /// Whether the game is over. Terminal-state detection is not computed by
    /// this core: the answer is always `None`, and a layer that detects check
    /// status is expected to take this decision over.
    pub fn get_outcome(&self) -> (r: Option<Outcome>)
        ensures
            r is None,
    {
        None
    }

    /// One rank rendered for display: the eight glyphs of the rank,
    /// file 0 first, separated by single spaces.
    pub fn rank_to_string(&self, rank: Axis) -> (r: String)
        ensures
            r@ == spec_rank_chars(self@, rank.idx()),
    {
        let ghost line = spec_rank_chars(self@, rank.idx());
        let mut chars: Vec<char> = Vec::new();
        let mut file: usize = 0;
        proof {
            assert(chars@ =~= line.subrange(0, 0));
        }
        while file < 8
            invariant
                0 <= file <= 8,
                line == spec_rank_chars(self@, rank.idx()),
                chars@ == line.subrange(
                    0,
                    if file == 0 {
                        0int
                    } else {
                        2 * file - 1
                    },
                ),
            decreases 8 - file,
        {
            if file > 0 {
                chars.push(' ');
                proof {
                    assert(line[2 * file - 1] == ' ');
                    assert(chars@ =~= line.subrange(0, 2 * file as int));
                }
            }
            let file_axis = Axis::from_index(file).unwrap();
            let position = Position::new(rank, file_axis);
            let glyph = match self.get(position) {
                None => '-',
                Some(piece) => piece.to_char(),
            };
            proof {
                assert(position.idx() == rank.idx() * 8 + file);
                assert(glyph == spec_square_char(self@, position.idx()));
                assert(line[2 * file as int] == glyph);
            }
            chars.push(glyph);
            proof {
                assert(chars@ =~= line.subrange(0, 2 * file as int + 1));
            }
            file += 1;
        }
        proof {
            assert(chars@ =~= line);
        }
        chars_to_string(chars)
    }

    /// The whole grid for display: the ranks from rank 7 at the top down to
    /// rank 0, one line each. Diagnostic only — this is not the interchange
    /// format, and nothing parses it.
    pub fn to_display_string(&self) -> (r: String)
        ensures
            r@ == spec_grid_chars_from(self@, 7),
    {
        let mut out = self.rank_to_string(Axis::H);
        let mut step: usize = 1;
        while step < 8
            invariant
                1 <= step <= 8,
                step < 8 ==> out@ + seq!['\n'] + spec_grid_chars_from(self@, 7 - step as int)
                    == spec_grid_chars_from(self@, 7),
                step == 8 ==> out@ == spec_grid_chars_from(self@, 7),
            decreases 8 - step,
        {
            let rank = Axis::from_index(7 - step).unwrap();
            let line = self.rank_to_string(rank);
            out.append("\n");
            out.append(line.as_str());
            proof {
                reveal_strlit("\n");
                if step < 7 {
                    assert(out@ + seq!['\n'] + spec_grid_chars_from(self@, 7 - (step + 1) as int)
                        =~= spec_grid_chars_from(self@, 7));
                } else {
                    assert(out@ =~= spec_grid_chars_from(self@, 7));
                }
            }
            step += 1;
        }
        out
    }
}

/// The glyph of one square for display: the occupant's display character,
/// `'-'` when the square is empty.
pub open spec fn spec_square_char(bv: BoardView, sq: int) -> char {
    match first_occupant(bv.boards, sq) {
        None => '-',
        Some((k, c)) => (Piece {
            ptype: PieceType::spec_from_index(k)->Some_0,
            color: if c == 0 {
                Color::White
            } else {
                Color::Black
            },
        }).spec_to_char(),
    }
}

/// One rank's display line: glyphs at the even offsets, single spaces at
/// the odd ones.
pub open spec fn spec_rank_chars(bv: BoardView, rank: int) -> Seq<char> {
    Seq::new(
        15,
        |i: int|
            if i % 2 == 0 {
                spec_square_char(bv, rank * 8 + i / 2)
            } else {
                ' '
            },
    )
}

/// The display lines of the ranks from `rank` down to rank 0, joined by
/// newlines.
pub open spec fn spec_grid_chars_from(bv: BoardView, rank: int) -> Seq<char>
    decreases rank,
{
    if rank <= 0 {
        spec_rank_chars(bv, 0)
    } else {
        spec_rank_chars(bv, rank) + seq!['\n'] + spec_grid_chars_from(bv, rank - 1)
    }
}

/// Relies on `String`'s `FromIterator<char>`: collecting characters yields
/// the string of exactly those characters, in order.
#[verifier::external_body]
fn chars_to_string(chars: Vec<char>) -> (r: String)
    ensures
        r@ == chars@,
{
    chars.into_iter().collect()
}

} // verus!
