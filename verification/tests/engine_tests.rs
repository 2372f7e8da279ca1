use chess_engine::board::{Board, GameState};
use chess_engine::engine::Engine;
use chess_engine::eval::{BoardEvaluation, Evaluator};
use chess_engine::game::Game;
use chess_engine::nega_max::NegaMaxAlphaBetaSearcher;
use chess_engine::piece::Color;
use chess_engine::player::{Computer, PlayerType};
use chess_engine::square::Square;

#[test]
fn test_eval_start_position() {
    let board = Board::default();
    let evaluator = BoardEvaluation {};
    assert_eq!(evaluator.evaluate(&board), 10);
}

#[test]
fn engine_starts_ongoing_with_white_to_move() {
    let engine = Engine::new(PlayerType::Human, PlayerType::Human);
    assert_eq!(engine.game_state, GameState::Ongoing);
    assert!(!engine.is_game_over());
    assert_eq!(engine.turn(), Color::White);
    assert_eq!(engine.board, Board::default());
}

#[test]
fn engine_make_move_accepts_valid_and_refuses_invalid() {
    let mut engine = Engine::default();
    assert!(!engine.make_move(Square::E2, Square::E5));
    assert_eq!(engine.turn(), Color::White);
    assert!(engine.make_move(Square::E2, Square::E4));
    assert_eq!(engine.turn(), Color::Black);
    assert!(engine.board.piece_on_square.get(Square::E4).is_some());
    assert!(engine.board.piece_on_square.get(Square::E2).is_none());
    // The same move is not Black's to make.
    assert!(!engine.make_move(Square::E2, Square::E4));
    assert_eq!(engine.turn(), Color::Black);
}

#[test]
fn engine_attacked_squares_lists_targets_in_order() {
    let mut engine = Engine::default();
    assert_eq!(engine.attacked_squares(Square::E2), vec![Square::E3, Square::E4]);
    assert_eq!(engine.attacked_squares(Square::G1), vec![Square::F3, Square::H3]);
    assert_eq!(engine.attacked_squares(Square::E7), Vec::<Square>::new());
    assert_eq!(engine.attacked_squares(Square::E4), Vec::<Square>::new());
    assert_eq!(engine.board, Board::default());
}

#[test]
fn engine_detects_fools_mate() {
    let mut engine = Engine::default();
    assert!(engine.make_move(Square::F2, Square::F3));
    assert!(engine.make_move(Square::E7, Square::E5));
    assert!(engine.make_move(Square::G2, Square::G4));
    assert_eq!(engine.game_state, GameState::Ongoing);
    assert!(engine.make_move(Square::D8, Square::H4));
    assert_eq!(engine.game_state, GameState::Checkmate);
    assert!(engine.is_game_over());
}

#[test]
fn engine_reports_check() {
    let mut engine = Engine::default();
    assert!(engine.make_move(Square::E2, Square::E4));
    assert!(engine.make_move(Square::F7, Square::F6));
    assert!(engine.make_move(Square::D1, Square::H5));
    assert_eq!(engine.game_state, GameState::Check);
    assert!(!engine.is_game_over());
}

#[test]
fn engine_update_lets_the_computer_move() {
    let black = PlayerType::AI(Box::new(Computer::new(
        NegaMaxAlphaBetaSearcher::new(BoardEvaluation {}),
        1,
    )));
    let mut engine = Engine::new(PlayerType::Human, black);
    // A person is to move: nothing happens.
    engine.update();
    assert_eq!(engine.turn(), Color::White);
    assert_eq!(engine.board, Board::default());
    assert!(engine.make_move(Square::E2, Square::E4));
    engine.update();
    assert_eq!(engine.turn(), Color::White);
    assert_eq!(engine.board.move_log.len(), 2);
}

#[test]
fn engine_update_does_nothing_after_mate() {
    let white = PlayerType::AI(Box::new(Computer::new(
        NegaMaxAlphaBetaSearcher::new(BoardEvaluation {}),
        1,
    )));
    let mut engine = Engine::new(white, PlayerType::Human);
    engine.board = Board::from_fen("rnb1kbnr/pppp1ppp/8/4p3/6Pq/5P2/PPPPP2P/RNBQKBNR w KQkq - 1 3");
    engine.game_state = GameState::Checkmate;
    engine.update();
    assert_eq!(engine.board.move_log.len(), 0);
}

#[test]
fn engine_show_draws_the_board() {
    let engine = Engine::default();
    let expected = "8 bR bN bB bQ bK bB bN bR \n\
                    7 bP bP bP bP bP bP bP bP \n\
                    6 .. .. .. .. .. .. .. .. \n\
                    5 .. .. .. .. .. .. .. .. \n\
                    4 .. .. .. .. .. .. .. .. \n\
                    3 .. .. .. .. .. .. .. .. \n\
                    2 wP wP wP wP wP wP wP wP \n\
                    1 wR wN wB wQ wK wB wN wR \n  A  B  C  D  E  F  G  H\n";
    assert_eq!(engine.show(), expected);
}

#[test]
fn game_plays_and_switches_turn() {
    let mut game = Game::new();
    assert_eq!(game.turn, Color::White);
    assert!(game.make_move(Square::G1, Square::F3));
    assert_eq!(game.turn, Color::Black);
    assert!(!game.make_move(Square::G1, Square::F3));
    assert_eq!(game.turn, Color::Black);
    assert!(game.make_move(Square::G8, Square::F6));
    assert_eq!(game.turn, Color::White);
    assert!(game.show().starts_with("8 bR bN bB bQ bK bB .. bR \n"));
}
