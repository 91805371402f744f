use chess_core::bitboard::{add_to_bitboard_at_offset, Bitboard};
use chess_core::half_move::HalfMove;
use chess_core::piece::{Color, Piece};
use chess_core::pieces::{get_piece_type_from_char, PieceType};
use chess_core::position::{Axis, Position};

#[test]
fn bitboard_set_get_remove() {
    let mut bb = Bitboard::new();
    let d4 = Position::new(Axis::D, Axis::D);
    let e5 = Position::new(Axis::E, Axis::E);
    assert!(!bb.get(d4));
    bb.set(d4);
    assert!(bb.get(d4));
    assert!(!bb.get(e5));
    bb.set(d4);
    assert!(bb.get(d4));
    bb.remove(d4);
    assert!(!bb.get(d4));
    bb.remove(d4);
    assert!(!bb.get(d4));
}

#[test]
fn bitboard_raw_data_round_trip() {
    let bb = Bitboard::from_data(0xFF00);
    assert_eq!(bb.data(), 0xFF00);
    assert!(bb.get(Position::new(Axis::B, Axis::A)));
    assert!(!bb.get(Position::new(Axis::A, Axis::A)));
    assert_eq!(Bitboard::new().data(), 0);
}

#[test]
fn position_linear_index() {
    assert_eq!(Position::new(Axis::A, Axis::A).index(), 0);
    assert_eq!(Position::new(Axis::D, Axis::E).index(), 3 * 8 + 4);
    assert_eq!(Position::new(Axis::H, Axis::H).index(), 63);
    let p = Position::new(Axis::C, Axis::F);
    assert_eq!(*p.rank(), Axis::C);
    assert_eq!(*p.file(), Axis::F);
}

#[test]
fn axis_index_round_trip() {
    let all = [Axis::A, Axis::B, Axis::C, Axis::D, Axis::E, Axis::F, Axis::G, Axis::H];
    for (i, axis) in all.iter().enumerate() {
        assert_eq!(axis.to_index(), i);
        assert_eq!(Axis::from_index(i), Some(*axis));
    }
    assert_eq!(Axis::from_index(8), None);
}

#[test]
fn position_from_chars_decodes_rank_letter_and_file_digit() {
    let p = Position::from_chars('C', '4').unwrap();
    assert_eq!(*p.rank(), Axis::C);
    assert_eq!(*p.file(), Axis::E);
    assert!(Position::from_chars('a', '1').is_err());
    assert!(Position::from_chars('I', '0').is_err());
    assert!(Position::from_chars('A', '8').is_err());
    assert!(Position::from_chars('A', 'x').is_err());
}

#[test]
fn position_from_linear_pairs_remainder_with_quotient() {
    let p = Position::from_linear(10).unwrap();
    assert_eq!(*p.rank(), Axis::C);
    assert_eq!(*p.file(), Axis::B);
    assert!(Position::from_linear(64).is_err());
    assert!(Position::from_linear(0).is_ok());
}

#[test]
fn half_move_accessors() {
    let from = Position::new(Axis::A, Axis::A);
    let to = Position::new(Axis::B, Axis::B);
    let mv = HalfMove::new(from, to);
    assert_eq!(*mv.from(), from);
    assert_eq!(*mv.to(), to);
}

#[test]
fn offset_addition_sets_bit_or_reports_out_of_bounds() {
    let mut bb = Bitboard::new();
    let src = Position::new(Axis::A, Axis::A);
    assert!(add_to_bitboard_at_offset(src, 1, 2, &mut bb).is_ok());
    assert!(bb.get(Position::new(Axis::B, Axis::C)));
    let before = bb.data();
    assert!(add_to_bitboard_at_offset(src, -1, 0, &mut bb).is_err());
    assert_eq!(bb.data(), before);
    assert!(add_to_bitboard_at_offset(src, 8, 0, &mut bb).is_err());
    assert_eq!(bb.data(), before);
}

#[test]
fn piece_from_char_maps_letter_to_kind_and_case_to_color() {
    let wk = Piece::from_char('K').unwrap();
    assert_eq!(wk.ptype(), PieceType::King);
    assert_eq!(wk.color(), Color::White);
    let bp = Piece::from_char('p').unwrap();
    assert_eq!(bp.ptype(), PieceType::Pawn);
    assert_eq!(bp.color(), Color::Black);
    assert!(Piece::from_char('x').is_err());
    assert!(Piece::from_char('3').is_err());
    assert!(Piece::from_char('/').is_err());
}

#[test]
fn piece_to_char_uses_case_for_color() {
    assert_eq!(Piece::new(PieceType::Queen, Color::White).to_char(), 'Q');
    assert_eq!(Piece::new(PieceType::Queen, Color::Black).to_char(), 'q');
    assert_eq!(Piece::new(PieceType::Knight, Color::White).to_char(), 'N');
}

#[test]
fn piece_index_is_color_major() {
    assert_eq!(Piece::new(PieceType::Pawn, Color::White).index(), 0);
    assert_eq!(Piece::new(PieceType::King, Color::White).index(), 5);
    assert_eq!(Piece::new(PieceType::Pawn, Color::Black).index(), 6);
    assert_eq!(Piece::new(PieceType::King, Color::Black).index(), 11);
}

#[test]
fn piece_type_lookup_by_char_and_index() {
    assert_eq!(get_piece_type_from_char('q'), Some(PieceType::Queen));
    assert_eq!(get_piece_type_from_char('Q'), Some(PieceType::Queen));
    assert_eq!(get_piece_type_from_char('z'), None);
    assert_eq!(PieceType::from_index(3), Some(PieceType::Rook));
    assert_eq!(PieceType::from_index(6), None);
    assert_eq!(PieceType::Bishop.index(), 2);
    assert_eq!(PieceType::Rook.piece_char(), 'r');
}

#[test]
fn color_char_conversions() {
    assert_eq!(Color::from_char('w').unwrap(), Color::White);
    assert_eq!(Color::from_char('b').unwrap(), Color::Black);
    assert!(Color::from_char('x').is_err());
    assert_eq!(Color::White.to_char(), 'w');
    assert_eq!(Color::Black.to_char(), 'b');
}
