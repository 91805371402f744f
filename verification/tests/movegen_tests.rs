use chess_core::board::Board;
use chess_core::half_move::HalfMove;
use chess_core::piece::{Color, Piece};
use chess_core::pieces::PieceType;
use chess_core::position::{Axis, Position};

fn axis(i: usize) -> Axis {
    Axis::from_index(i).unwrap()
}

fn at(rank: usize, file: usize) -> Position {
    Position::new(axis(rank), axis(file))
}

fn moves_of(board: &Board, kind: PieceType, color: Color, from: Position) -> Vec<HalfMove> {
    Piece::new(kind, color).get_pseudo_legal_moves(board, from)
}

fn goes_to(moves: &[HalfMove], to: Position) -> bool {
    moves.iter().any(|m| *m.to() == to)
}

#[test]
fn knight_center_has_eight_corner_has_two() {
    let board = Board::empty();
    let central = moves_of(&board, PieceType::Knight, Color::White, at(3, 3));
    assert_eq!(central.len(), 8);
    for m in &central {
        assert_eq!(*m.from(), at(3, 3));
    }
    assert!(goes_to(&central, at(4, 5)));
    assert!(goes_to(&central, at(1, 2)));
    let corner = moves_of(&board, PieceType::Knight, Color::White, at(0, 0));
    assert_eq!(corner.len(), 2);
    assert!(goes_to(&corner, at(1, 2)));
    assert!(goes_to(&corner, at(2, 1)));
}

#[test]
fn knight_excludes_own_includes_enemy() {
    let mut board = Board::empty();
    board.set(&Piece::new(PieceType::Pawn, Color::White), at(4, 5));
    board.set(&Piece::new(PieceType::Pawn, Color::Black), at(5, 4));
    let moves = moves_of(&board, PieceType::Knight, Color::White, at(3, 3));
    assert_eq!(moves.len(), 7);
    assert!(!goes_to(&moves, at(4, 5)));
    assert!(goes_to(&moves, at(5, 4)));
}

#[test]
fn rook_has_fourteen_from_every_square_of_an_open_board() {
    let board = Board::empty();
    for sq in 0..64 {
        let from = Position::from_linear(sq).unwrap();
        let moves = moves_of(&board, PieceType::Rook, Color::White, from);
        assert_eq!(moves.len(), 14);
    }
}

#[test]
fn rook_stops_at_blockers() {
    let mut board = Board::empty();
    board.set(&Piece::new(PieceType::Pawn, Color::White), at(3, 6));
    board.set(&Piece::new(PieceType::Pawn, Color::Black), at(6, 3));
    let moves = moves_of(&board, PieceType::Rook, Color::White, at(3, 3));
    // Up the rank: 4,5 free, 6 enemy (capture), 7 unreachable.
    assert!(goes_to(&moves, at(5, 3)));
    assert!(goes_to(&moves, at(6, 3)));
    assert!(!goes_to(&moves, at(7, 3)));
    // Along the file: 4,5 free, own pawn at 6 blocks.
    assert!(goes_to(&moves, at(3, 5)));
    assert!(!goes_to(&moves, at(3, 6)));
    assert!(!goes_to(&moves, at(3, 7)));
    assert_eq!(moves.len(), 3 + 3 + 3 + 2);
}

#[test]
fn bishop_blocked_by_adjacent_own_piece_excludes_the_ray() {
    let mut board = Board::empty();
    board.set(&Piece::new(PieceType::Pawn, Color::White), at(4, 4));
    let moves = moves_of(&board, PieceType::Bishop, Color::White, at(3, 3));
    assert!(!goes_to(&moves, at(4, 4)));
    assert!(!goes_to(&moves, at(5, 5)));
    assert!(!goes_to(&moves, at(6, 6)));
    assert!(!goes_to(&moves, at(7, 7)));
    // The other three diagonals are open.
    assert!(goes_to(&moves, at(0, 0)));
    assert!(goes_to(&moves, at(0, 6)));
    assert!(goes_to(&moves, at(6, 0)));
    assert_eq!(moves.len(), 3 + 3 + 3);
}

#[test]
fn bishop_captures_adjacent_enemy_and_stops() {
    let mut board = Board::empty();
    board.set(&Piece::new(PieceType::Pawn, Color::Black), at(4, 4));
    let moves = moves_of(&board, PieceType::Bishop, Color::White, at(3, 3));
    assert!(goes_to(&moves, at(4, 4)));
    assert!(!goes_to(&moves, at(5, 5)));
    assert!(!goes_to(&moves, at(6, 6)));
    assert_eq!(moves.len(), 1 + 3 + 3 + 3);
}

#[test]
fn king_center_has_eight_corner_has_three() {
    let board = Board::empty();
    assert_eq!(moves_of(&board, PieceType::King, Color::Black, at(4, 4)).len(), 8);
    let corner = moves_of(&board, PieceType::King, Color::Black, at(7, 7));
    assert_eq!(corner.len(), 3);
    assert!(goes_to(&corner, at(6, 6)));
    assert!(goes_to(&corner, at(6, 7)));
    assert!(goes_to(&corner, at(7, 6)));
}

#[test]
fn queen_unites_rook_and_bishop_patterns() {
    let board = Board::empty();
    let moves = moves_of(&board, PieceType::Queen, Color::White, at(3, 3));
    assert_eq!(moves.len(), 14 + 13);
    assert!(goes_to(&moves, at(3, 7)));
    assert!(goes_to(&moves, at(7, 7)));
    assert!(goes_to(&moves, at(0, 0)));
    assert!(goes_to(&moves, at(0, 6)));
}

#[test]
fn pawn_pushes_from_start_rank() {
    let board = Board::empty();
    let white = moves_of(&board, PieceType::Pawn, Color::White, at(1, 4));
    assert_eq!(white.len(), 2);
    assert!(goes_to(&white, at(2, 4)));
    assert!(goes_to(&white, at(3, 4)));
    let black = moves_of(&board, PieceType::Pawn, Color::Black, at(6, 4));
    assert_eq!(black.len(), 2);
    assert!(goes_to(&black, at(5, 4)));
    assert!(goes_to(&black, at(4, 4)));
    // Off the start rank only the single push remains.
    let advanced = moves_of(&board, PieceType::Pawn, Color::White, at(3, 4));
    assert_eq!(advanced.len(), 1);
    assert!(goes_to(&advanced, at(4, 4)));
}

#[test]
fn pawn_blocked_pushes() {
    let mut board = Board::empty();
    board.set(&Piece::new(PieceType::Knight, Color::Black), at(3, 4));
    let double_blocked = moves_of(&board, PieceType::Pawn, Color::White, at(1, 4));
    assert_eq!(double_blocked.len(), 1);
    assert!(goes_to(&double_blocked, at(2, 4)));

    let mut board = Board::empty();
    board.set(&Piece::new(PieceType::Knight, Color::Black), at(2, 4));
    let fully_blocked = moves_of(&board, PieceType::Pawn, Color::White, at(1, 4));
    assert_eq!(fully_blocked.len(), 0);
}

#[test]
fn pawn_captures_diagonally_only_enemies() {
    let mut board = Board::empty();
    board.set(&Piece::new(PieceType::Rook, Color::Black), at(2, 3));
    board.set(&Piece::new(PieceType::Rook, Color::White), at(2, 5));
    board.set(&Piece::new(PieceType::Knight, Color::Black), at(2, 4));
    let moves = moves_of(&board, PieceType::Pawn, Color::White, at(1, 4));
    // Forward is blocked; only the enemy on the lower file is capturable.
    assert_eq!(moves.len(), 1);
    assert!(goes_to(&moves, at(2, 3)));
}

#[test]
fn pawn_en_passant_capture() {
    let board = Board::from_fen("8/8/8/4P3/8/8/8/8 w - F3 0 1").unwrap();
    assert_eq!(board.en_passant_target(), Some(at(5, 3)));
    let moves = moves_of(&board, PieceType::Pawn, Color::White, at(4, 4));
    assert_eq!(moves.len(), 2);
    assert!(goes_to(&moves, at(5, 4)));
    assert!(goes_to(&moves, at(5, 3)));
}

#[test]
fn pawn_on_last_rank_generates_nothing_forward() {
    let board = Board::empty();
    let moves = moves_of(&board, PieceType::Pawn, Color::White, at(7, 4));
    assert_eq!(moves.len(), 0);
}

#[test]
fn dispatch_agrees_with_kind_generators() {
    let board = Board::new();
    let from = at(0, 1);
    let by_kind = PieceType::Knight.generate_pseudo_legal_moves(&board, Color::White, from);
    let by_piece = Piece::new(PieceType::Knight, Color::White).get_pseudo_legal_moves(&board, from);
    assert_eq!(by_kind, by_piece);
    assert_eq!(by_kind.len(), 2);
}
