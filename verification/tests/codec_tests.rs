use chess_core::board::{Board, BoardSide, CastlingRights};
use chess_core::fen::{parse_castling_rights_fen_field, parse_current_turn_fen_field,
    parse_en_passant_fen_field, parse_move_clock_fen_field, split_str};
use chess_core::piece::{Color, Piece};
use chess_core::pieces::PieceType;
use chess_core::position::{Axis, Position};

const START: &str = "rnbqkbnr/pppppppp/8/8/8/8/PPPPPPPP/RNBQKBNR w KQkq - 0 1";

fn bb(board: &Board, kind: PieceType, color: Color) -> u64 {
    board.piece_bitboard(&Piece::new(kind, color)).data()
}

#[test]
fn empty_fen_scenario() {
    let board = Board::from_fen("8/8/8/8/8/8/8/8 w - - 0 1").unwrap();
    for kind in [
        PieceType::Pawn,
        PieceType::Knight,
        PieceType::Bishop,
        PieceType::Rook,
        PieceType::Queen,
        PieceType::King,
    ] {
        assert_eq!(bb(&board, kind, Color::White), 0);
        assert_eq!(bb(&board, kind, Color::Black), 0);
    }
    assert_eq!(board.current_turn(), Color::White);
    let rights = board.castling_rights();
    assert!(!rights.get(Color::White, BoardSide::KingSide));
    assert!(!rights.get(Color::White, BoardSide::QueenSide));
    assert!(!rights.get(Color::Black, BoardSide::KingSide));
    assert!(!rights.get(Color::Black, BoardSide::QueenSide));
    assert_eq!(board.en_passant_target(), None);
    assert_eq!(board.half_move_clock(), 0);
    assert_eq!(board.full_move_clock(), 1);
}

#[test]
fn start_position_piece_counts_and_ranks() {
    let board = Board::from_fen(START).unwrap();
    let mut pawns = 0;
    let mut knights = 0;
    let mut bishops = 0;
    let mut rooks = 0;
    let mut queens = 0;
    let mut kings = 0;
    let mut white_union: u64 = 0;
    let mut black_union: u64 = 0;
    for color in [Color::White, Color::Black] {
        pawns += bb(&board, PieceType::Pawn, color).count_ones();
        knights += bb(&board, PieceType::Knight, color).count_ones();
        bishops += bb(&board, PieceType::Bishop, color).count_ones();
        rooks += bb(&board, PieceType::Rook, color).count_ones();
        queens += bb(&board, PieceType::Queen, color).count_ones();
        kings += bb(&board, PieceType::King, color).count_ones();
    }
    for kind in [
        PieceType::Pawn,
        PieceType::Knight,
        PieceType::Bishop,
        PieceType::Rook,
        PieceType::Queen,
        PieceType::King,
    ] {
        white_union |= bb(&board, kind, Color::White);
        black_union |= bb(&board, kind, Color::Black);
    }
    assert_eq!(pawns, 16);
    assert_eq!(knights, 4);
    assert_eq!(bishops, 4);
    assert_eq!(rooks, 4);
    assert_eq!(queens, 2);
    assert_eq!(kings, 2);
    // White occupies the two lowest ranks, Black the two highest.
    assert_eq!(white_union, 0xFFFF);
    assert_eq!(black_union, 0xFFFF_0000_0000_0000);
}

#[test]
fn start_position_no_square_held_twice() {
    let board = Board::from_fen(START).unwrap();
    let mut total = 0;
    let mut union: u64 = 0;
    for kind in [
        PieceType::Pawn,
        PieceType::Knight,
        PieceType::Bishop,
        PieceType::Rook,
        PieceType::Queen,
        PieceType::King,
    ] {
        for color in [Color::White, Color::Black] {
            let data = bb(&board, kind, color);
            total += data.count_ones();
            union |= data;
        }
    }
    // Disjoint sets: the union has as many squares as the sets together.
    assert_eq!(total, union.count_ones());
    assert_eq!(total, 32);
}

#[test]
fn new_decodes_the_starting_string() {
    let by_new = Board::new();
    let by_fen = Board::from_fen(START).unwrap();
    assert_eq!(by_new, by_fen);
    assert_eq!(by_new.current_turn(), Color::White);
    assert!(by_new.castling_rights().get(Color::White, BoardSide::KingSide));
    let king = by_new.get(Position::new(Axis::A, Axis::E)).unwrap();
    assert_eq!(king.ptype(), PieceType::King);
    assert_eq!(king.color(), Color::White);
    let black_rook = by_new.get(Position::new(Axis::H, Axis::A)).unwrap();
    assert_eq!(black_rook.ptype(), PieceType::Rook);
    assert_eq!(black_rook.color(), Color::Black);
}

#[test]
fn castling_field_grants_lowercase_to_white() {
    let board = Board::from_fen("8/8/8/8/8/8/8/8 w kq - 0 1").unwrap();
    let rights = board.castling_rights();
    assert!(rights.get(Color::White, BoardSide::KingSide));
    assert!(rights.get(Color::White, BoardSide::QueenSide));
    assert!(!rights.get(Color::Black, BoardSide::KingSide));
    assert!(!rights.get(Color::Black, BoardSide::QueenSide));

    let board = Board::from_fen("8/8/8/8/8/8/8/8 w KQ - 0 1").unwrap();
    let rights = board.castling_rights();
    assert!(!rights.get(Color::White, BoardSide::KingSide));
    assert!(!rights.get(Color::White, BoardSide::QueenSide));
    assert!(rights.get(Color::Black, BoardSide::KingSide));
    assert!(rights.get(Color::Black, BoardSide::QueenSide));
}

#[test]
fn castling_field_dash_stops_and_bad_token_fails() {
    let rights = parse_castling_rights_fen_field("k-Q").unwrap();
    assert!(rights.get(Color::White, BoardSide::KingSide));
    assert!(!rights.get(Color::Black, BoardSide::QueenSide));
    assert!(parse_castling_rights_fen_field("x").is_err());
    assert!(parse_castling_rights_fen_field("k1").is_err());
    let cleared = parse_castling_rights_fen_field("-").unwrap();
    assert_eq!(cleared, CastlingRights::none());
}

#[test]
fn en_passant_field_decode() {
    assert_eq!(parse_en_passant_fen_field("-").unwrap(), None);
    let target = parse_en_passant_fen_field("C4").unwrap().unwrap();
    assert_eq!(*target.rank(), Axis::C);
    assert_eq!(*target.file(), Axis::E);
    assert!(parse_en_passant_fen_field("C44").is_err());
    assert!(parse_en_passant_fen_field("").is_err());
    assert!(parse_en_passant_fen_field("C").is_err());
    assert!(parse_en_passant_fen_field("c4").is_err());
    assert_eq!(parse_en_passant_fen_field("-x").unwrap(), None);
}

#[test]
fn turn_field_decode() {
    assert_eq!(parse_current_turn_fen_field("w").unwrap(), Color::White);
    assert_eq!(parse_current_turn_fen_field("b").unwrap(), Color::Black);
    assert!(parse_current_turn_fen_field("x").is_err());
    assert!(parse_current_turn_fen_field("").is_err());
    let board = Board::from_fen("8/8/8/8/8/8/8/8 b - - 0 1").unwrap();
    assert_eq!(board.current_turn(), Color::Black);
}

#[test]
fn clock_field_decode() {
    assert_eq!(parse_move_clock_fen_field("0").unwrap(), 0);
    assert_eq!(parse_move_clock_fen_field("0042").unwrap(), 42);
    assert_eq!(parse_move_clock_fen_field("4294967295").unwrap(), u32::MAX);
    assert!(parse_move_clock_fen_field("4294967296").is_err());
    assert!(parse_move_clock_fen_field("x").is_err());
    assert!(parse_move_clock_fen_field("+5").is_err());
    assert!(parse_move_clock_fen_field("").is_err());
    assert!(Board::from_fen("8/8/8/8/8/8/8/8 w - - x 1").is_err());
}

#[test]
fn wrong_field_count_fails() {
    assert!(Board::from_fen("8/8/8/8/8/8/8/8 w - -").is_err());
    assert!(Board::from_fen("").is_err());
    assert!(Board::from_fen("8/8/8/8/8/8/8/8 w - - 0 1 extra").is_err());
}

#[test]
fn bad_placement_letter_fails() {
    assert!(Board::from_fen("x7/8/8/8/8/8/8/8 w - - 0 1").is_err());
    assert!(Board::from_fen("rnbqkbnr/pppppppp/8/8/8/8/PPPPPPPP/RNBQKBNX w KQkq - 0 1").is_err());
}

#[test]
fn placement_digits_skip_files() {
    let board = Board::from_fen("p7/8/8/8/8/8/8/3P4 w - - 0 1").unwrap();
    // Line 0 fills the top rank, so the black pawn sits at rank 7, file 0.
    let black_pawn = board.get(Position::new(Axis::H, Axis::A)).unwrap();
    assert_eq!(black_pawn.ptype(), PieceType::Pawn);
    assert_eq!(black_pawn.color(), Color::Black);
    // The last line is the bottom rank; "3P4" puts a white pawn on file 3.
    let white_pawn = board.get(Position::new(Axis::A, Axis::D)).unwrap();
    assert_eq!(white_pawn.ptype(), PieceType::Pawn);
    assert_eq!(white_pawn.color(), Color::White);
    assert!(board.get(Position::new(Axis::A, Axis::A)).is_none());
}

#[test]
fn split_str_cuts_at_every_separator() {
    assert_eq!(split_str("a b c", ' '), vec!["a", "b", "c"]);
    assert_eq!(split_str("", ' '), vec![""]);
    assert_eq!(split_str("ab", ' '), vec!["ab"]);
    assert_eq!(split_str("a//b", '/'), vec!["a", "", "b"]);
    assert_eq!(split_str("a/", '/'), vec!["a", ""]);
}

#[test]
fn display_grid_renders_glyphs() {
    let board = Board::new();
    assert_eq!(board.rank_to_string(Axis::H), "r n b q k b n r");
    assert_eq!(board.rank_to_string(Axis::A), "R N B Q K B N R");
    assert_eq!(board.rank_to_string(Axis::E), "- - - - - - - -");
    let grid = board.to_display_string();
    let lines: Vec<&str> = grid.split('\n').collect();
    assert_eq!(lines.len(), 8);
    assert_eq!(lines[0], "r n b q k b n r");
    assert_eq!(lines[6], "P P P P P P P P");
    assert_eq!(lines[7], "R N B Q K B N R");
}
