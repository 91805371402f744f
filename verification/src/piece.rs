//! A piece as seen on a square: a kind together with a color. Pieces are
//! transient views, reconstructed on query from whichever bitboard holds the
//! square; the board itself stores only the twelve bitboards.

use vstd::prelude::*;

use crate::errors::InvalidChar;
use crate::pieces::{spec_piece_type_from_char, PieceType};
use crate::position::Position;

verus! {

/// The side a piece belongs to.
#[derive(Clone, Copy, Debug, PartialEq, Eq, Structural)]
pub enum Color {
    White,
    Black,
}

impl Color {
    /// The index of this color: White is 0, Black is 1.
    pub open spec fn idx(self) -> int {
        match self {
            Color::White => 0,
            Color::Black => 1,
        }
    }

    /// The other color.
    pub open spec fn other(self) -> Color {
        match self {
            Color::White => Color::Black,
            Color::Black => Color::White,
        }
    }

    /// The side-to-move letter of this color.
    pub fn to_char(self) -> (r: char)
        ensures
            self == Color::White ==> r == 'w',
            self == Color::Black ==> r == 'b',
    {
        match self {
            Color::White => 'w',
            Color::Black => 'b',
        }
    }

    /// Decodes a side-to-move letter; anything but `'w'` or `'b'` is
    /// rejected.
    pub fn from_char(value: char) -> (r: Result<Color, InvalidChar>)
        ensures
            r == Color::spec_from_char(value),
    {
        match value {
            'w' => Ok(Color::White),
            'b' => Ok(Color::Black),
            _ => Err(InvalidChar),
        }
    }

    /// What `from_char` returns.
    pub open spec fn spec_from_char(value: char) -> Result<Color, InvalidChar> {
        if value == 'w' {
            Ok(Color::White)
        } else if value == 'b' {
            Ok(Color::Black)
        } else {
            Err(InvalidChar)
        }
    }
}

/// The index of the bitboard that holds pieces of kind `kind` and color
/// `color`: the six kinds of a color sit together, White first.
pub open spec fn pm_index(kind: int, color: int) -> int {
    color * 6 + kind
}

/// A kind paired with a color.
#[derive(Clone, Copy, Debug, PartialEq, Eq, Structural)]
pub struct Piece {
    pub ptype: PieceType,
    pub color: Color,
}

impl Piece {
    pub fn new(ptype: PieceType, color: Color) -> (r: Self)
        ensures
            r.ptype == ptype,
            r.color == color,
    {
        Self { ptype, color }
    }

    /// The index of this piece's bitboard among the twelve of a board.
    pub fn index(&self) -> (r: u8)
        ensures
            r as int == pm_index(self.ptype.idx(), self.color.idx()),
            r < 12,
    {
        let color_part: u8 = match self.color {
            Color::White => 0,
            Color::Black => 1,
        };
        color_part * 6 + (self.ptype.index() as u8)
    }

    /// The pseudo-legal moves of this piece from `piece_position`, by its
    /// kind's movement rule.
    pub fn get_pseudo_legal_moves(&self, board: &crate::board::Board, piece_position: Position) -> (r: Vec<
        crate::half_move::HalfMove,
    >)
        requires
            board@.wf(),
        ensures
            r@ == crate::pieces::spec_pseudo_legal_moves(
                board@,
                self.ptype,
                self.color,
                piece_position,
            ),
    {
        self.ptype.generate_pseudo_legal_moves(board, self.color, piece_position)
    }

    pub fn color(&self) -> (r: Color)
        ensures
            r == self.color,
    {
        self.color
    }

    pub fn ptype(&self) -> (r: PieceType)
        ensures
            r == self.ptype,
    {
        self.ptype
    }

    /// Decodes a placement letter: the letter names the kind, its case the
    /// color, uppercase for White. Unknown letters and non-letters are
    /// rejected.
    pub fn from_char(character: char) -> (r: Result<Piece, InvalidChar>)
        ensures
            r == Piece::spec_from_char(character),
    {
        let code = character as u32;
        let is_upper = code >= 65 && code < 91;
        let is_lower = code >= 97 && code < 123;
        if !is_upper && !is_lower {
            return Err(InvalidChar);
        }
        let color = if is_lower {
            Color::Black
        } else {
            Color::White
        };
        match crate::pieces::get_piece_type_from_char(character) {
            Some(kind) => Ok(Piece::new(kind, color)),
            None => Err(InvalidChar),
        }
    }

    /// What `from_char` returns.
    pub open spec fn spec_from_char(character: char) -> Result<Piece, InvalidChar> {
        let code = character as int;
        let is_upper = 65 <= code && code < 91;
        let is_lower = 97 <= code && code < 123;
        if !is_upper && !is_lower {
            Err(InvalidChar)
        } else {
            match spec_piece_type_from_char(character) {
                Some(kind) => Ok(
                    Piece {
                        ptype: kind,
                        color: if is_lower {
                            Color::Black
                        } else {
                            Color::White
                        },
                    },
                ),
                None => Err(InvalidChar),
            }
        }
    }

    /// The display character of this piece: the kind's letter, uppercase for
    /// White and lowercase for Black.
    pub fn to_char(&self) -> (r: char)
        ensures
            r == self.spec_to_char(),
    {
        match (self.ptype, self.color) {
            (PieceType::Pawn, Color::White) => 'P',
            (PieceType::Knight, Color::White) => 'N',
            (PieceType::Bishop, Color::White) => 'B',
            (PieceType::Rook, Color::White) => 'R',
            (PieceType::Queen, Color::White) => 'Q',
            (PieceType::King, Color::White) => 'K',
            (PieceType::Pawn, Color::Black) => 'p',
            (PieceType::Knight, Color::Black) => 'n',
            (PieceType::Bishop, Color::Black) => 'b',
            (PieceType::Rook, Color::Black) => 'r',
            (PieceType::Queen, Color::Black) => 'q',
            (PieceType::King, Color::Black) => 'k',
        }
    }

    /// What `to_char` returns.
    pub open spec fn spec_to_char(self) -> char {
        match (self.ptype, self.color) {
            (PieceType::Pawn, Color::White) => 'P',
            (PieceType::Knight, Color::White) => 'N',
            (PieceType::Bishop, Color::White) => 'B',
            (PieceType::Rook, Color::White) => 'R',
            (PieceType::Queen, Color::White) => 'Q',
            (PieceType::King, Color::White) => 'K',
            (PieceType::Pawn, Color::Black) => 'p',
            (PieceType::Knight, Color::Black) => 'n',
            (PieceType::Bishop, Color::Black) => 'b',
            (PieceType::Rook, Color::Black) => 'r',
            (PieceType::Queen, Color::Black) => 'q',
            (PieceType::King, Color::Black) => 'k',
        }
    }
}

} // verus!
