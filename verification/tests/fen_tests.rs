use chess_engine::board::Board;
use chess_engine::square::Square;

#[test]
fn test_fen() {
    let board = Board::from_fen(&"rnbqkbnr/pppppppp/8/8/8/8/PPPPPPPP/RNBQKBNR w KQkq - 0 1");
    let board_2 = Board::default();
    assert_eq!(board, board_2);
}

#[test]
fn fen_reads_every_field() {
    let board = Board::from_fen("r3k2r/8/8/8/3P4/8/8/R3K2R b Kq d3 12 40");
    assert_eq!(board.turn, chess_engine::piece::Color::Black);
    assert!(board.castling_rights.white_kingside);
    assert!(!board.castling_rights.white_queenside);
    assert!(!board.castling_rights.black_kingside);
    assert!(board.castling_rights.black_queenside);
    assert_eq!(board.enpassant, Some(Square::D3));
    assert_eq!(board.half_move, 12);
    assert_eq!(board.full_move, 40);
    assert_eq!(board.move_log.len(), 0);
}

#[test]
fn fen_refuses_malformed_strings() {
    let start = "rnbqkbnr/pppppppp/8/8/8/8/PPPPPPPP/RNBQKBNR w KQkq - 0 1";
    assert!(Board::try_from_fen(start).is_some());
    // Too few fields.
    assert!(Board::try_from_fen("rnbqkbnr/pppppppp/8/8/8/8/PPPPPPPP/RNBQKBNR w KQkq - 0").is_none());
    // A rank with nine squares.
    assert!(Board::try_from_fen("rnbqkbnr/ppppppppp/8/8/8/8/PPPPPPPP/RNBQKBNR w KQkq - 0 1").is_none());
    // A letter that names no piece.
    assert!(Board::try_from_fen("rnbqkbnr/ppppxppp/8/8/8/8/PPPPPPPP/RNBQKBNR w KQkq - 0 1").is_none());
    // Nine ranks.
    assert!(Board::try_from_fen("8/8/8/8/8/8/8/8/8 w - - 0 1").is_none());
    // A side that is neither w nor b.
    assert!(Board::try_from_fen("rnbqkbnr/pppppppp/8/8/8/8/PPPPPPPP/RNBQKBNR x KQkq - 0 1").is_none());
    // A castling letter that is not one of KQkq.
    assert!(Board::try_from_fen("rnbqkbnr/pppppppp/8/8/8/8/PPPPPPPP/RNBQKBNR w KQxq - 0 1").is_none());
    // An en passant field that is not a square.
    assert!(Board::try_from_fen("rnbqkbnr/pppppppp/8/8/8/8/PPPPPPPP/RNBQKBNR w KQkq e9 0 1").is_none());
    // Counters that are not numbers, or do not fit in a byte.
    assert!(Board::try_from_fen("rnbqkbnr/pppppppp/8/8/8/8/PPPPPPPP/RNBQKBNR w KQkq - x 1").is_none());
    assert!(Board::try_from_fen("rnbqkbnr/pppppppp/8/8/8/8/PPPPPPPP/RNBQKBNR w KQkq - 0 256").is_none());
}

#[test]
fn algebraic_squares() {
    assert_eq!(Square::from_algebraic("e4"), Some(Square::E4));
    assert_eq!(Square::from_algebraic("a1"), Some(Square::A1));
    assert_eq!(Square::from_algebraic("h8"), Some(Square::H8));
    assert_eq!(Square::from_algebraic("i1"), None);
    assert_eq!(Square::from_algebraic("a9"), None);
    assert_eq!(Square::from_algebraic("e"), None);
    assert_eq!(Square::from_algebraic("e44"), None);
}

#[test]
fn fen_splits_on_unicode_white_space() {
    let start = Board::default();
    let with_nbsp = "rnbqkbnr/pppppppp/8/8/8/8/PPPPPPPP/RNBQKBNR\u{a0}w\u{3000}KQkq\u{2003}-\u{85}0\u{205f}1";
    assert_eq!(Board::from_fen(with_nbsp), start);
    let with_ascii = "  rnbqkbnr/pppppppp/8/8/8/8/PPPPPPPP/RNBQKBNR\tw\nKQkq \r- 0\x0b1\x0c";
    assert_eq!(Board::from_fen(with_ascii), start);
    // A non-space character glued to a field is part of it.
    assert!(Board::try_from_fen("rnbqkbnr/pppppppp/8/8/8/8/PPPPPPPP/RNBQKBNR w KQkq - 0 1\u{e9}").is_none());
}

#[test]
fn fen_reads_inconsistent_positions() {
    // A castling right whose rook is missing.
    let b = Board::from_fen("4k3/8/8/8/8/8/8/4K3 w K - 0 1");
    assert!(b.castling_rights.white_kingside);
    assert!(!b.is_consistent());
    // A castling right whose king is not on its square.
    assert!(!Board::from_fen("r4k2/8/8/8/8/8/8/4K3 b q - 0 1").is_consistent());
    // An en passant square with no pawn behind it.
    let b = Board::from_fen("4k3/8/8/4P3/8/8/8/4K3 w - d6 0 1");
    assert_eq!(b.enpassant, Some(Square::D6));
    assert!(!b.is_consistent());
    // An occupied en passant square.
    assert!(!Board::from_fen("4k3/8/3n4/3pP3/8/8/8/4K3 w - d6 0 1").is_consistent());
    // Consistent ones.
    assert!(Board::from_fen("4k3/8/8/8/8/8/8/4K3 w - - 0 1").is_consistent());
    assert!(Board::from_fen("4k3/8/8/3pP3/8/8/8/4K3 w - d6 0 1").is_consistent());
    assert!(Board::from_fen("r3k3/8/8/8/8/8/8/4K3 b q - 0 1").is_consistent());
}
