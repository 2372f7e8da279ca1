//! A bitboard chess engine: board representation, move generation, make and
//! undo of moves, evaluation and game-tree search.
pub mod bits;
pub mod square;
pub mod piece;
pub mod bitboard;
pub mod castling;
pub mod log;
pub mod board;
pub mod make_move;
pub mod undo_move;
pub mod fen;
pub mod rules;
pub mod move_gen;
pub mod attacks;
pub mod attack_table;
pub mod pawn_moves;
pub mod piece_moves;
pub mod consistency;
pub mod positions;
pub mod eval;
pub mod searcher;
pub mod minimax_a_b;
pub mod nega_max;
pub mod search;
pub mod player;
pub mod display;
pub mod engine;
pub mod game;
pub mod ui;
pub mod tui;
