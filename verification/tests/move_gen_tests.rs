use chess_engine::board::Board;
use chess_engine::move_gen::MoveGenerator;

fn perft(board: &mut Board, depth: u32) -> u64 {
    if depth == 0 {
        return 1;
    }

    let moves = MoveGenerator::generate_valid_moves(board);

    let mut nodes = 0;

    for mv in moves.iter() {
        board.move_piece(*mv);
        nodes += perft(board, depth - 1);
        board.undo();
    }

    nodes
}

#[test]
fn perft_start_position() {
    let cases = [
        (0, 1),
        (1, 20),
        (2, 400),
        (3, 8_902),
        (4, 197_281),
        (5, 4_865_609),
    ];

    for (depth, expected) in cases {
        let mut board = Board::default();
        assert_eq!(
            perft(&mut board, depth),
            expected,
            "failed at depth {}",
            depth
        );
    }
}

#[test]
fn perft_kiwipete() {
    let mut board =
        Board::from_fen("r3k2r/p1ppqpb1/bn2pnp1/3PN3/1p2P3/2N2Q1p/PPPBBPPP/R3K2R w KQkq - 0 1");

    assert_eq!(perft(&mut board, 1), 48);
    assert_eq!(perft(&mut board, 2), 2_039);
    assert_eq!(perft(&mut board, 3), 97_862);
    assert_eq!(perft(&mut board, 4), 4_085_603);
}

#[test]
fn perft_en_passant() {
    let mut board = Board::from_fen("8/8/1k6/2b5/2pP4/8/5K2/8 b - d3 0 1");

    assert_eq!(perft(&mut board, 6), 1_440_467);
}

#[test]
fn make_undo_restores_board() {
    let mut board = Board::from_fen("8/8/1k6/2b5/2pP4/8/5K2/8 b - d3 0 1");

    let before = Board::from_fen("8/8/1k6/2b5/2pP4/8/5K2/8 b - d3 0 1");
    for mv in MoveGenerator::generate_valid_moves(&mut board).iter() {
        board.move_piece(*mv);
        board.undo();
        assert_eq!(board, before, "Board differs after {:?}", *mv);
    }
}

#[test]
fn perft_promotion_heavy() {
    let mut board =
        Board::from_fen("r3k2r/Pppp1ppp/1b3nbN/nP6/BBP1P3/q4N2/Pp1P2PP/R2Q1RK1 w kq - 0 1");

    assert_eq!(perft(&mut board, 1), 6);
    assert_eq!(perft(&mut board, 2), 264);
    assert_eq!(perft(&mut board, 3), 9467);
    assert_eq!(perft(&mut board, 4), 422333);
}
