use chess_engine::bitboard::BitBoard;
use chess_engine::board::Board;
use chess_engine::log::MoveLog;
use chess_engine::piece::{Color, MoveKind, Piece, PieceMove, PieceType};
use chess_engine::square::Square;

#[test]
fn square_names() {
    assert_eq!(Square::A1.to_string(), "a1");
    assert_eq!(Square::E4.to_string(), "e4");
    assert_eq!(Square::H8.to_string(), "h8");
}

#[test]
fn piece_and_move_names() {
    assert_eq!(Color::White.to_string(), "w");
    assert_eq!(Color::Black.to_string(), "b");
    assert_eq!(PieceType::Knight.to_string(), "N");
    assert_eq!(Piece::new(PieceType::King, Color::White).to_string(), "wK");
    assert_eq!(Piece::new(PieceType::Queen, Color::Black).to_string(), "bQ");
    assert_eq!(PieceMove::new(Square::E2, Square::E4, MoveKind::DoublePawnPush).to_string(), "e2e4");
}

#[test]
fn debug_grid_marks_set_squares() {
    let grid = BitBoard(1).debug_grid();
    let mut expected = String::from("    A B C D E F G H\n\n");
    for rank in (2..=8).rev() {
        expected.push_str(&format!("{}   □ □ □ □ □ □ □ □\n\n", rank));
    }
    expected.push_str("1   ■ □ □ □ □ □ □ □");
    assert_eq!(grid, expected);

    let h8 = BitBoard::from_square(Square::H8).debug_grid();
    assert!(h8.starts_with("    A B C D E F G H\n\n8   □ □ □ □ □ □ □ ■\n\n7   "));
}

#[test]
fn empty_log_prints_nothing() {
    assert_eq!(MoveLog::new().print_entries(), "");
    assert_eq!(Board::default().print_log(), "");
}

#[test]
fn log_lines_name_moves_and_captures() {
    let mut board = Board::from_fen("rnbqkbnr/ppp1pppp/8/3p4/4P3/8/PPPP1PPP/RNBQKBNR w KQkq d6 0 2");
    board.move_piece(PieceMove::new(Square::E4, Square::D5, MoveKind::Capture));
    board.move_piece(PieceMove::new(Square::G8, Square::F6, MoveKind::Quiet));
    assert_eq!(board.print_log(), "e4d5, captured bP\ng8f6\n");
    assert_eq!(board.move_log.print_entries(), "e4d5, captured bP\ng8f6\n");
}
