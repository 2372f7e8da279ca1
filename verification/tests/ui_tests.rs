use chess_engine::attack_table::{
    generate_king_bitboards, generate_knight_bitboards, generate_pawn_attack_bitboards, AttackTable,
};
use chess_engine::bitboard::BitBoard;
use chess_engine::engine::Engine;
use chess_engine::piece::{Color, MoveKind, PieceMove, PieceMoveList};
use chess_engine::square::Square;
use chess_engine::tui::Tui;
use chess_engine::ui::{ChessUI, Click, Shade};

#[test]
fn ui_geometry() {
    let mut ui = ChessUI::new(Engine::default());
    assert_eq!(ui.get_board_rect(), (0, 0, 800, 800));
    assert_eq!(ui.tile_size(), 100);
    assert_eq!(ui.get_clicked_square(450, 50), Some(Square::E8));
    assert_eq!(ui.get_clicked_square(0, 799), Some(Square::A1));
    assert_eq!(ui.get_clicked_square(800, 10), None);
    assert_eq!(ui.get_clicked_square(-1, 10), None);
    ui.resize(1000, 404);
    assert_eq!(ui.get_board_rect(), (0, 0, 404, 404));
    assert_eq!(ui.tile_size(), 50);
    // The last four pixels are not on a square.
    assert_eq!(ui.get_clicked_square(401, 10), None);
    assert_eq!(ui.get_clicked_square(399, 399), Some(Square::H1));
}

#[test]
fn ui_select_then_move() {
    let mut ui = ChessUI::new(Engine::default());
    assert_eq!(ui.handle_click(900, 10), Click::Outside);
    // Nothing selected and an empty square: ignored.
    assert_eq!(ui.handle_click(450, 450), Click::Ignored);
    // Select the e2 pawn.
    assert_eq!(ui.handle_click(450, 650), Click::Selected(Square::E2));
    assert!(ui.selected_square(Square::E2));
    assert!(ui.legal_destinations.is_set(Square::E3));
    assert!(ui.legal_destinations.is_set(Square::E4));
    assert_eq!(ui.legal_destinations.count(), 2);
    assert_eq!(ui.shade(6, 4), Shade::Highlighted);
    assert_eq!(ui.shade(4, 4), Shade::MoveTarget);
    assert_eq!(ui.shade(0, 0), Shade::Light);
    assert_eq!(ui.shade(0, 1), Shade::Dark);
    // e5 is too far.
    assert_eq!(ui.handle_click(450, 350), Click::Refused(Square::E2, Square::E5));
    assert!(ui.selected_square(Square::E2));
    assert_eq!(ui.legal_destinations, BitBoard(0));
    // e4.
    assert_eq!(ui.handle_click(450, 450), Click::Moved(Square::E2, Square::E4));
    assert_eq!(ui.selected_square, None);
    assert_eq!(ui.engine.turn(), Color::Black);
    // White's pieces are no longer the side to move's.
    assert_eq!(ui.handle_click(50, 750), Click::Ignored);
}

#[test]
fn tui_quits_on_q() {
    let mut tui = Tui::new();
    assert!(!tui.should_exit());
    tui.handle_key_event(false, Some('q'));
    assert!(!tui.should_exit());
    tui.handle_key_event(true, Some('x'));
    assert!(!tui.should_exit());
    tui.handle_key_event(true, None);
    assert!(!tui.should_exit());
    tui.handle_key_event(true, Some('q'));
    assert!(tui.should_exit());
}

#[test]
fn tui_shows_its_squares() {
    let tui = Tui::new();
    let text = tui.screen_text();
    let expected_bits = BitBoard::from_square(Square::A8)
        .or_square(Square::D7)
        .or_square(Square::A6)
        .or_square(Square::G6)
        .or_square(Square::E1);
    assert_eq!(text, format!("{}\n\nPress q to quit.", expected_bits.debug_grid()));
    assert!(text.contains("8   ■ □ □ □ □ □ □ □"));
    assert!(text.contains("1   □ □ □ □ ■ □ □ □"));
}

#[test]
fn attack_tables() {
    let knights = generate_knight_bitboards();
    assert_eq!(knights.get(Square::A1), BitBoard((1 << 17) | (1 << 10)));
    assert_eq!(knights.get(Square::D4).count(), 8);
    let kings = generate_king_bitboards();
    assert_eq!(kings.get(Square::A1), BitBoard((1 << 1) | (1 << 8) | (1 << 9)));
    assert_eq!(kings.get(Square::E4).count(), 8);
    let white_pawns = generate_pawn_attack_bitboards(Color::White);
    assert_eq!(white_pawns.get(Square::E4), BitBoard((1 << 35) | (1 << 37)));
    assert_eq!(white_pawns.get(Square::A2), BitBoard(1 << 17));
    let black_pawns = generate_pawn_attack_bitboards(Color::Black);
    assert_eq!(black_pawns.get(Square::E4), BitBoard((1 << 19) | (1 << 21)));
    assert_eq!(black_pawns.get(Square::E1), BitBoard(0));
    let table = AttackTable::new([BitBoard(7); 64]);
    assert_eq!(table.get(Square::H8), BitBoard(7));
}

#[test]
fn move_list_iterator_hands_out_moves_in_order() {
    let mut list = PieceMoveList::new();
    let a = PieceMove::new(Square::E2, Square::E4, MoveKind::DoublePawnPush);
    let b = PieceMove::new(Square::G1, Square::F3, MoveKind::Quiet);
    list.push(a);
    list.push(b);
    let mut it = list.into_iter();
    assert_eq!(it.next(), Some(a));
    assert_eq!(it.next(), Some(b));
    assert_eq!(it.next(), None);
    assert_eq!(it.next(), None);
}
