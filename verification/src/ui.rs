//! What the graphical board decides: the size of its squares, which square a
//! click lands on, what a click does, and how each square is shaded.
use crate::bitboard::BitBoard;
use crate::bits::{bit, group_bits};
use crate::board::{has_king, Position};
use crate::engine::{destinations, first_matching, lemma_destinations, Engine};
use crate::make_move::position_after;
use crate::move_gen::valid_moves;
use crate::piece::PieceMove;
use crate::square::{group_square, sq_of, Square};
use vstd::prelude::*;

verus! {

broadcast use {group_bits, group_square};

/// The side of the board in pixels: the shorter side of a window of
/// `width` by `height`.
pub open spec fn board_side(width: u32, height: u32) -> u32 {
    if width <= height {
        width
    } else {
        height
    }
}

/// Whether a valid move of the side to move in `v` goes from `from` to the
/// square with index `i`.
pub open spec fn move_target(v: Position, from: Square, i: int) -> bool {
    has_king(v.pieces, v.turn) && exists|m: PieceMove|
        #[trigger] valid_moves(v).contains(m) && m.from == from && m.to.spec_index() == i
}

/// Whether the square `sq` holds a piece of the side to move in `v`.
pub open spec fn own_piece(v: Position, sq: Square) -> bool {
    v.pieces[sq.spec_index() as int] matches Some(p) && p.color == v.turn
}

/// Whether the engine makes a move from `from` to `to` in `v`.
pub open spec fn can_move(v: Position, from: Square, to: Square) -> bool {
    has_king(v.pieces, v.turn) && first_matching(valid_moves(v), from, to) is Some
}

/// What a click on the window did.
#[derive(Clone, Copy, PartialEq, Eq, Debug, Structural)]
pub enum Click {
    /// The click was not on a square of the board; nothing changed.
    Outside,
    /// A piece of the side to move was selected on this square.
    Selected(Square),
    /// The selected piece moved between these squares.
    Moved(Square, Square),
    /// There is no valid move between these squares; the selection stays.
    Refused(Square, Square),
    /// Nothing was selected and the square holds no piece of the side to move.
    Ignored,
}

/// How a square of the board is drawn.
#[derive(Clone, Copy, PartialEq, Eq, Debug, Structural)]
pub enum Shade {
    /// The square of the selected piece.
    Highlighted,
    /// A square the selected piece can move to.
    MoveTarget,
    /// A light square.
    Light,
    /// A dark square.
    Dark,
}

/// The game in a window: the engine, the window's size (width, height), the
/// selected square, and the squares the selected piece can move to.
pub struct ChessUI {
    pub engine: Engine,
    pub window_size: (u32, u32),
    pub selected_square: Option<Square>,
    pub legal_destinations: BitBoard,
}

impl ChessUI {
    /// The square under the pixel (`x`, `y`) of the window, if the pixel is on
    /// one of the 64 squares; the board is a square in the top-left corner
    /// with the eighth rank at the top.
    pub open spec fn square_at(self, x: int, y: int) -> Option<Square> {
        let side: int = board_side(self.window_size.0, self.window_size.1) as int;
        let tile: int = side / 8;
        if 0 <= x < side && 0 <= y < side && tile > 0 && x / tile < 8 && y / tile < 8 {
            Some(sq_of((7 - y / tile) * 8 + x / tile))
        } else {
            None
        }
    }

    /// A window of 800 by 800 pixels on the game, with nothing selected.
    pub fn new(engine: Engine) -> (r: Self)
        ensures
            r.engine == engine,
            r.window_size == (800u32, 800u32),
            r.selected_square is None,
            r.legal_destinations.0 == 0,
    {
        Self { engine: engine, window_size: (800, 800), selected_square: None, legal_destinations: BitBoard(0) }
    }

    /// The board's rectangle in the window: left, top, width and height.
    pub fn get_board_rect(&self) -> (r: (i32, i32, u32, u32))
        ensures
            r == (0i32, 0i32, board_side(self.window_size.0, self.window_size.1), board_side(
                self.window_size.0,
                self.window_size.1,
            )),
    {
        let side: u32 = if self.window_size.0 <= self.window_size.1 {
            self.window_size.0
        } else {
            self.window_size.1
        };
        (0, 0, side, side)
    }

    /// The side of one square in pixels: an eighth of the board's side,
    /// rounded down.
    pub fn tile_size(&self) -> (r: u32)
        ensures
            r == board_side(self.window_size.0, self.window_size.1) / 8,
    {
        let rect: (i32, i32, u32, u32) = self.get_board_rect();
        rect.2 / 8
    }

    /// The square under the pixel (`x`, `y`), if any.
    pub fn get_clicked_square(&self, x: i32, y: i32) -> (r: Option<Square>)
        ensures
            r == self.square_at(x as int, y as int),
    {
        let rect: (i32, i32, u32, u32) = self.get_board_rect();
        let side: u32 = rect.2;
        let tile: u32 = self.tile_size();
        if x < 0 || y < 0 || x as u32 >= side || y as u32 >= side || tile == 0 {
            return None;
        }
        let file: u32 = x as u32 / tile;
        let screen_rank: u32 = y as u32 / tile;
        if file >= 8 || screen_rank >= 8 {
            return None;
        }
        Some(Square::from_rank_file((7 - screen_rank) as u8, file as u8))
    }

    /// Whether `square` is the selected one.
    pub fn selected_square(&self, square: Square) -> (r: bool)
        ensures
            r == (self.selected_square == Some(square)),
    {
        match self.selected_square {
            Some(selected_square) => square == selected_square,
            None => false,
        }
    }

    /// Adds to `legal_destinations` every square that the piece on `square`
    /// can move to.
    pub fn set_legal_destinations(&mut self, square: Square)
        requires
            old(self).engine.wf(),
        ensures
            final(self).engine.wf(),
            final(self).engine.board@ == old(self).engine.board@,
            final(self).engine.game_state == old(self).engine.game_state,
            final(self).engine.white_player == old(self).engine.white_player,
            final(self).engine.black_player == old(self).engine.black_player,
            final(self).window_size == old(self).window_size,
            final(self).selected_square == old(self).selected_square,
            forall|i: int|
                0 <= i < 64 ==> (#[trigger] final(self).legal_destinations.has(i) <==> (old(self).legal_destinations.has(i) || move_target(old(self).engine.board@, square, i))),
    {
        let ghost v = self.engine.board@;
        let ghost before = self.legal_destinations;
        let targets = self.engine.attacked_squares(square);
        let mut j: usize = 0;
        while j < targets.len()
            invariant
                j <= targets@.len(),
                self.engine.wf(),
                self.engine.board@ == old(self).engine.board@,
                self.engine.game_state == old(self).engine.game_state,
                self.engine.white_player == old(self).engine.white_player,
                self.engine.black_player == old(self).engine.black_player,
                self.window_size == old(self).window_size,
                self.selected_square == old(self).selected_square,
                forall|i: int|
                    0 <= i < 64 ==> (#[trigger] self.legal_destinations.has(i) <==> (before.has(i)
                        || exists|k: int| 0 <= k < j && (#[trigger] targets@[k]).spec_index() == i)),
            decreases targets@.len() - j,
        {
            let target = targets[j];
            self.legal_destinations.set(target);
            proof {
                assert forall|i: int| 0 <= i < 64 implies (#[trigger] self.legal_destinations.has(i)
                    <==> (before.has(i) || exists|k: int|
                    0 <= k < j + 1 && (#[trigger] targets@[k]).spec_index() == i)) by {
                    if i == target.spec_index() {
                        assert(targets@[j as int] == target);
                    }
                }
            }
            j = j + 1;
        }
        proof {
            let p = |m: PieceMove| m.from == square;
            let ms = valid_moves(v).filter(p);
            assert forall|i: int| 0 <= i < 64 implies (#[trigger] self.legal_destinations.has(i)
                <==> (before.has(i) || move_target(v, square, i))) by {
                let s = sq_of(i);
                if has_king(v.pieces, v.turn) {
                    lemma_destinations(ms, s);
                    if exists|k: int| 0 <= k < targets@.len() && (#[trigger] targets@[k]).spec_index() == i {
                        let k = choose|k: int| 0 <= k < targets@.len() && (#[trigger] targets@[k]).spec_index() == i;
                        assert(targets@[k] == s);
                        assert(destinations(ms).contains(s));
                        let a = choose|a: int| 0 <= a < ms.len() && (#[trigger] ms[a]).to == s;
                        valid_moves(v).lemma_filter_pred(p, a);
                        valid_moves(v).lemma_filter_contains_rev(p, ms[a]);
                        assert(ms.contains(ms[a]));
                    }
                    if move_target(v, square, i) {
                        let m = choose|m: PieceMove|
                            #[trigger] valid_moves(v).contains(m) && m.from == square && m.to.spec_index() == i;
                        let b = choose|b: int| 0 <= b < valid_moves(v).len() && valid_moves(v)[b] == m;
                        valid_moves(v).lemma_filter_contains(p, b);
                        let a = choose|a: int| 0 <= a < ms.len() && ms[a] == m;
                        assert(ms[a].to == s);
                        assert(destinations(ms).contains(s));
                        let k = choose|k: int| 0 <= k < targets@.len() && targets@[k] == s;
                        assert((targets@[k]).spec_index() == i);
                    }
                }
            }
        }
    }

    /// What a click on the pixel (`x`, `y`) does: nothing off the board; on
    /// a piece of the side to move, select it; otherwise move the selected
    /// piece there if that is a valid move.
    pub open spec fn click_result(self, x: int, y: int) -> Click {
        match self.square_at(x, y) {
            None => Click::Outside,
            Some(sq) => if own_piece(self.engine.board@, sq) {
                Click::Selected(sq)
            } else {
                match self.selected_square {
                    Some(from) => if can_move(self.engine.board@, from, sq) {
                        Click::Moved(from, sq)
                    } else {
                        Click::Refused(from, sq)
                    },
                    None => Click::Ignored,
                }
            },
        }
    }

    /// A left click on the pixel (`x`, `y`). Off the board nothing changes.
    /// On the board the move targets are cleared first; a piece of the side
    /// to move is then selected and its targets marked; otherwise the selected
    /// piece, if any, moves there when that is a valid move, which clears the
    /// selection.
    pub fn handle_click(&mut self, x: i32, y: i32) -> (r: Click)
        requires
            old(self).engine.wf(),
        ensures
            r == old(self).click_result(x as int, y as int),
            final(self).engine.wf(),
            final(self).window_size == old(self).window_size,
            r is Outside ==> final(self).engine == old(self).engine && final(self).selected_square
                == old(self).selected_square && final(self).legal_destinations == old(self).legal_destinations,
            r matches Click::Selected(sq) ==> final(self).selected_square == Some(sq) && final(self).engine.board@ == old(self).engine.board@ && forall|i: int|
                0 <= i < 64 ==> (#[trigger] final(self).legal_destinations.has(i) <==> move_target(
                    old(self).engine.board@,
                    sq,
                    i,
                )),
            r matches Click::Moved(from, to) ==> final(self).selected_square is None
                && final(self).legal_destinations.0 == 0 && final(self).engine.board@
                == position_after(
                old(self).engine.board@,
                first_matching(valid_moves(old(self).engine.board@), from, to)->0,
            ),
            r is Refused || r is Ignored ==> final(self).selected_square == old(self).selected_square && final(self).legal_destinations.0 == 0 && final(self).engine.board@
                == old(self).engine.board@,
    {
        let square = match self.get_clicked_square(x, y) {
            Some(sq) => sq,
            None => {
                return Click::Outside;
            },
        };
        self.legal_destinations = BitBoard(0);
        assert forall|i: int| 0 <= i < 64 implies !#[trigger] self.legal_destinations.has(i) by {
            assert(!bit(0u64, i));
        }
        if let Some(piece) = self.engine.board.piece_on_square.get(square) {
            if piece.color == self.engine.board.turn {
                self.selected_square = Some(square);
                self.set_legal_destinations(square);
                return Click::Selected(square);
            }
        }
        if let Some(from) = self.selected_square {
            if self.engine.make_move(from, square) {
                self.selected_square = None;
                self.legal_destinations = BitBoard(0);
                return Click::Moved(from, square);
            }
            return Click::Refused(from, square);
        }
        Click::Ignored
    }

    /// The window was resized to `width` by `height`.
    pub fn resize(&mut self, width: u32, height: u32)
        ensures
            final(self).window_size == (width, height),
            final(self).engine == old(self).engine,
            final(self).selected_square == old(self).selected_square,
            final(self).legal_destinations == old(self).legal_destinations,
    {
        self.window_size = (width, height);
    }

    /// How to draw the square in screen row `row` (0 at the top) and column
    /// `file`: highlighted when selected, marked when the selected piece can
    /// move there, otherwise light or dark in a checkered pattern with a light
    /// top-left corner.
    pub fn shade(&self, row: u8, file: u8) -> (r: Shade)
        requires
            row < 8,
            file < 8,
        ensures
            r == if self.selected_square == Some(sq_of((7 - row) * 8 + file)) {
                Shade::Highlighted
            } else if self.legal_destinations.has((7 - row) * 8 + file) {
                Shade::MoveTarget
            } else if (row + file) % 2 == 0 {
                Shade::Light
            } else {
                Shade::Dark
            },
    {
        let square = Square::from_rank_file(7 - row, file);
        if self.selected_square(square) {
            Shade::Highlighted
        } else if self.legal_destinations.is_set(square) {
            Shade::MoveTarget
        } else if (row + file) % 2 == 0 {
            Shade::Light
        } else {
            Shade::Dark
        }
    }
}

} // verus!
