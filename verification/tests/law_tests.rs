use chess_engine::bitboard::BitBoard;
use chess_engine::board::{Board, GameState};
use chess_engine::eval::{BoardEvaluation, Evaluator};
use chess_engine::log::{LogEntry, MoveLog};
use chess_engine::move_gen::MoveGenerator;
use chess_engine::piece::{Color, MoveKind, Piece, PieceMove, PieceType};
use chess_engine::search::Search;
use chess_engine::square::Square;
use chess_engine::castling::CastlingRights;

const CHECKMATE_SCORE: i32 = 30_000;

/// Plain minimax over the engine's evaluation, White maximizing.
fn plain_minimax(board: &mut Board, depth: u8) -> i32 {
    if depth == 0 || board.king_square(board.turn).is_none() {
        return BoardEvaluation {}.evaluate(board);
    }
    match board.game_state() {
        GameState::Checkmate => {
            return match board.turn {
                Color::White => -CHECKMATE_SCORE,
                Color::Black => CHECKMATE_SCORE,
            }
        }
        GameState::Stalemate => return 0,
        _ => {}
    }
    let moves = MoveGenerator::generate_valid_moves(board);
    let white = board.turn == Color::White;
    let mut best = if white { i32::MIN } else { i32::MAX };
    for mv in moves.iter() {
        board.move_piece(*mv);
        let score = plain_minimax(board, depth - 1);
        board.undo();
        best = if white { best.max(score) } else { best.min(score) };
    }
    best
}

#[test]
fn alpha_beta_with_full_window_is_minimax() {
    let fens = [
        "rnbqkbnr/pppppppp/8/8/8/8/PPPPPPPP/RNBQKBNR w KQkq - 0 1",
        "r3k2r/p1ppqpb1/bn2pnp1/3PN3/1p2P3/2N2Q1p/PPPBBPPP/R3K2R w KQkq - 0 1",
        "8/8/1k6/2b5/2pP4/8/5K2/8 b - d3 0 1",
        "rnb1kbnr/pppp1ppp/8/4p3/6Pq/5P2/PPPPP2P/RNBQKBNR w KQkq - 1 3",
    ];
    for fen in fens {
        for depth in 0..3u8 {
            let mut board = Board::from_fen(fen);
            let expected = plain_minimax(&mut board, depth);
            let got = Search::minimax_alpha_beta(&mut board, depth, i32::MIN, i32::MAX);
            assert_eq!(got, expected, "{} at depth {}", fen, depth);
            assert_eq!(board, Board::from_fen(fen));
        }
    }
}

/// Checks that every pseudo-legal move can be made, over every position
/// reached by valid moves `depth` plies deep.
fn all_pseudo_moves_makeable(board: &mut Board, depth: u32) {
    let color = board.turn;
    if board.king_square(color).is_none() {
        return;
    }
    for mv in MoveGenerator::generate_all_moves(board, color).iter() {
        assert!(board.can_make_move(*mv), "cannot make {:?}", mv);
    }
    if depth == 0 {
        return;
    }
    for mv in MoveGenerator::generate_valid_moves(board).iter() {
        board.move_piece(*mv);
        all_pseudo_moves_makeable(board, depth - 1);
        board.undo();
    }
}

#[test]
fn consistent_positions_make_every_pseudo_legal_move() {
    assert!(Board::default().is_consistent());
    all_pseudo_moves_makeable(&mut Board::default(), 3);
    all_pseudo_moves_makeable(
        &mut Board::from_fen("r3k2r/p1ppqpb1/bn2pnp1/3PN3/1p2P3/2N2Q1p/PPPBBPPP/R3K2R w KQkq - 0 1"),
        2,
    );
    all_pseudo_moves_makeable(&mut Board::from_fen("8/8/1k6/2b5/2pP4/8/5K2/8 b - d3 0 1"), 3);
}

#[test]
fn inconsistent_en_passant_square_drops_the_capture() {
    // The en passant square d6 is set by hand: no black pawn stands on d5.
    let mut board = Board::from_fen("4k3/8/8/4P3/8/8/8/4K3 w - - 0 1");
    board.enpassant = Some(Square::D6);
    assert!(!board.is_consistent());
    let pseudo = MoveGenerator::generate_all_moves(&board, Color::White);
    let en_passant = pseudo.iter().iter().find(|m| m.kind == MoveKind::EnPassant).copied();
    let en_passant = en_passant.expect("the generator lists the capture");
    assert!(!board.can_make_move(en_passant));
    let valid = MoveGenerator::generate_valid_moves(&mut board);
    assert!(valid.iter().iter().all(|m| m.kind != MoveKind::EnPassant));
}

#[test]
fn opposite_twice_is_the_same_color() {
    for c in [Color::White, Color::Black] {
        assert_ne!(c.opposite(), c);
        assert_eq!(c.opposite().opposite(), c);
    }
}

#[test]
fn flip_twice_is_the_same_square() {
    for i in 0..64u8 {
        let s = Square::from_index(i);
        assert_eq!(s.flip().flip(), s);
        assert_eq!(s.flip().file(), s.file());
        assert_eq!(s.flip().rank(), 7 - s.rank());
    }
    assert_eq!(Square::E2.flip(), Square::E7);
}

#[test]
fn log_remove_after_add_gives_the_entry_back() {
    let mut log = MoveLog::new();
    let entry = LogEntry::new(
        Square::E2,
        Square::E4,
        None,
        None,
        CastlingRights::new(),
        MoveKind::DoublePawnPush,
        0,
        1,
    );
    log.add(entry);
    assert_eq!(log.len(), 1);
    assert_eq!(log.remove(), Some(entry));
    assert_eq!(log, MoveLog::new());
    assert_eq!(log.remove(), None);
}

#[test]
fn count_is_number_of_squares() {
    for x in [0u64, 1, 0x8000_0000_0000_0001, 0xFFFF, u64::MAX, 0x0108_4100_0000_0010] {
        let b = BitBoard(x);
        assert_eq!(b.count() as usize, b.squares().len());
    }
}

/// The placement field of a FEN string seen from the other side: ranks in
/// reverse order and colors swapped.
fn mirror_placement(placement: &str) -> String {
    let ranks: Vec<String> = placement
        .split('/')
        .rev()
        .map(|r| {
            r.chars()
                .map(|c| {
                    if c.is_ascii_uppercase() {
                        c.to_ascii_lowercase()
                    } else {
                        c.to_ascii_uppercase()
                    }
                })
                .collect()
        })
        .collect();
    ranks.join("/")
}

#[test]
fn mirrored_positions_have_opposite_scores() {
    let placements = [
        "rnbqkbnr/pppppppp/8/8/4P3/8/PPPP1PPP/RNBQKBNR",
        "r3k2r/p1ppqpb1/bn2pnp1/3PN3/1p2P3/2N2Q1p/PPPBBPPP/R3K2R",
        "8/8/1k6/2b5/2pP4/8/5K2/8",
        "r3k2r/Pppp1ppp/1b3nbN/nP6/BBP1P3/q4N2/Pp1P2PP/R2Q1RK1",
    ];
    let tempo = 10;
    for p in placements {
        let board = Board::from_fen(&format!("{} w - - 0 1", p));
        let mirror = Board::from_fen(&format!("{} w - - 0 1", mirror_placement(p)));
        let a = BoardEvaluation {}.evaluate(&board) - tempo;
        let b = BoardEvaluation {}.evaluate(&mirror) - tempo;
        assert_eq!(a, -b, "{}", p);
    }
    assert_eq!(BoardEvaluation {}.evaluate(&Board::default()), tempo);
}

#[test]
fn count_of_union_intersection_and_complement() {
    let values = [0u64, 1, 0xF0F0, 0x8000_0000_0000_0001, u64::MAX, 0x0123_4567_89AB_CDEF];
    for a in values {
        for b in values {
            let (x, y) = (BitBoard(a), BitBoard(b));
            assert_eq!(x.or(y).count() + x.and(y).count(), x.count() + y.count());
        }
        assert_eq!(BitBoard(a).not().count(), 64 - BitBoard(a).count());
    }
    assert_eq!(BitBoard(0).count(), 0);
}

#[test]
fn best_move_is_the_first_with_the_best_score() {
    let fens = [
        "rnbqkbnr/pppppppp/8/8/8/8/PPPPPPPP/RNBQKBNR w KQkq - 0 1",
        "rnbqkbnr/pppppppp/8/8/4P3/8/PPPP1PPP/RNBQKBNR b KQkq - 0 1",
        "r3k2r/p1ppqpb1/bn2pnp1/3PN3/1p2P3/2N2Q1p/PPPBBPPP/R3K2R w KQkq - 0 1",
    ];
    for fen in fens {
        for depth in 1..3u8 {
            let mut board = Board::from_fen(fen);
            let white = board.turn == Color::White;
            let moves = MoveGenerator::generate_valid_moves(&mut board);
            let mut scores = Vec::new();
            for mv in moves.iter() {
                board.move_piece(*mv);
                scores.push(Search::minimax_alpha_beta(&mut board, depth - 1, i32::MIN, i32::MAX));
                board.undo();
            }
            let best = if white { *scores.iter().max().unwrap() } else { *scores.iter().min().unwrap() };
            let first = scores.iter().position(|s| *s == best).unwrap();
            assert_eq!(Search::best_move(&mut board, depth), moves.iter()[first], "{} {}", fen, depth);
        }
    }
}

#[test]
fn castling_without_a_rook_is_played_but_not_listed() {
    let mut board = Board::from_fen("4k3/8/8/8/8/8/8/4K3 w K - 0 1");
    let castle = PieceMove::new(Square::E1, Square::G1, MoveKind::KingCastle);
    assert!(!board.can_make_move(castle));
    let valid = MoveGenerator::generate_valid_moves(&mut board);
    assert!(valid.iter().iter().all(|m| m.kind != MoveKind::KingCastle));
    board.move_piece(castle);
    assert_eq!(board.piece_on_square.get(Square::G1), Some(Piece::new(PieceType::King, Color::White)));
    assert_eq!(board.piece_on_square.get(Square::F1), Some(Piece::new(PieceType::Rook, Color::White)));
    assert_eq!(board.piece_on_square.get(Square::E1), None);
    assert_eq!(board.piece_on_square.get(Square::H1), None);
    assert!(!board.castling_rights.white_kingside);
}

fn king_count(board: &Board, color: Color) -> usize {
    (0..64u8)
        .filter(|i| {
            board.piece_on_square.get(Square::from_index(*i))
                == Some(Piece::new(PieceType::King, color))
        })
        .count()
}

fn check_sound_play(board: &mut Board, depth: u32) {
    assert!(board.is_consistent());
    assert_eq!(king_count(board, Color::White), 1);
    assert_eq!(king_count(board, Color::Black), 1);
    if depth == 0 {
        return;
    }
    let mover = board.turn;
    for mv in MoveGenerator::generate_valid_moves(board).iter() {
        board.move_piece(*mv);
        assert!(!board.is_in_check(mover), "{:?}", mv);
        check_sound_play(board, depth - 1);
        board.undo();
    }
}

#[test]
fn valid_moves_keep_one_king_each_and_the_movers_king_safe() {
    check_sound_play(&mut Board::default(), 3);
    check_sound_play(
        &mut Board::from_fen("r3k2r/p1ppqpb1/bn2pnp1/3PN3/1p2P3/2N2Q1p/PPPBBPPP/R3K2R w KQkq - 0 1"),
        2,
    );
}
