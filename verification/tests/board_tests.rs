use chess_core::board::Board;
use chess_core::half_move::HalfMove;
use chess_core::piece::{Color, Piece};
use chess_core::pieces::PieceType;
use chess_core::position::{Axis, Position};

#[test]
fn get_finds_pieces_and_empty_squares() {
    let board = Board::new();
    let pawn = board.get(Position::new(Axis::B, Axis::C)).unwrap();
    assert_eq!(pawn.ptype(), PieceType::Pawn);
    assert_eq!(pawn.color(), Color::White);
    assert!(board.get(Position::new(Axis::D, Axis::D)).is_none());
}

#[test]
fn set_and_remove_one_square() {
    let mut board = Board::empty();
    let square = Position::new(Axis::C, Axis::G);
    board.set(&Piece::new(PieceType::Bishop, Color::Black), square);
    let found = board.get(square).unwrap();
    assert_eq!(found.ptype(), PieceType::Bishop);
    assert_eq!(found.color(), Color::Black);
    board.remove(square);
    assert!(board.get(square).is_none());
    // Removing an empty square is a no-op.
    let before = board;
    board.remove(square);
    assert_eq!(board, before);
}

#[test]
fn move_piece_with_empty_origin_fails_and_changes_nothing() {
    let mut board = Board::empty();
    let before = board;
    let mv = HalfMove::new(Position::new(Axis::A, Axis::A), Position::new(Axis::B, Axis::B));
    let result = board.move_piece(&mv);
    assert!(result.is_err());
    assert_eq!(board, before);

    let mut start = Board::new();
    let before = start;
    let mv = HalfMove::new(Position::new(Axis::D, Axis::D), Position::new(Axis::E, Axis::E));
    assert!(start.move_piece(&mv).is_err());
    assert_eq!(start, before);
}

#[test]
fn move_piece_relocates_the_origin_piece() {
    let mut board = Board::new();
    let from = Position::new(Axis::B, Axis::E);
    let to = Position::new(Axis::D, Axis::E);
    board.move_piece(&HalfMove::new(from, to)).unwrap();
    assert!(board.get(from).is_none());
    let moved = board.get(to).unwrap();
    assert_eq!(moved.ptype(), PieceType::Pawn);
    assert_eq!(moved.color(), Color::White);
    // Auxiliary state is not move_piece's concern.
    assert_eq!(board.current_turn(), Color::White);
}

#[test]
fn move_piece_captures_whatever_occupies_the_destination() {
    let mut board = Board::empty();
    let from = Position::new(Axis::A, Axis::A);
    let to = Position::new(Axis::H, Axis::A);
    board.set(&Piece::new(PieceType::Rook, Color::White), from);
    board.set(&Piece::new(PieceType::Rook, Color::Black), to);
    board.move_piece(&HalfMove::new(from, to)).unwrap();
    let survivor = board.get(to).unwrap();
    assert_eq!(survivor.ptype(), PieceType::Rook);
    assert_eq!(survivor.color(), Color::White);
    assert!(board.get(from).is_none());
    assert_eq!(board.piece_bitboard(&Piece::new(PieceType::Rook, Color::Black)).data(), 0);
}

#[test]
fn outcome_detection_is_not_computed_here() {
    assert!(Board::new().get_outcome().is_none());
    assert!(Board::empty().get_outcome().is_none());
}

#[test]
fn empty_board_state() {
    let board = Board::empty();
    assert_eq!(board.current_turn(), Color::White);
    assert_eq!(board.en_passant_target(), None);
    assert_eq!(board.half_move_clock(), 0);
    assert_eq!(board.full_move_clock(), 0);
    for sq in 0..64 {
        assert!(board.get(Position::from_linear(sq).unwrap()).is_none());
    }
}
