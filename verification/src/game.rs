//! A game between two people on one board.
use crate::board::{has_king, Board};
use crate::display::board_text;
use crate::engine::{first_matching, lemma_first_matching};
use crate::fen::starting_position;
use crate::make_move::position_after;
use crate::move_gen::{lemma_valid_moves_are_valid, valid_moves, MoveGenerator};
use crate::piece::{Color, PieceMove};
use crate::square::Square;
use vstd::prelude::*;

verus! {

/// A board and the side to move.
pub struct Game {
    pub board: Board,
    pub turn: Color,
}

impl Game {
    /// The board is well formed and `turn` is the board's side to move.
    pub open spec fn wf(&self) -> bool {
        &&& self.board.wf()
        &&& self.turn == self.board.turn
    }

    /// A game from the starting position, White to move.
    pub fn new() -> (r: Self)
        ensures
            r.wf(),
            r.board@ == starting_position(),
            r.turn == Color::White,
    {
        Game { board: Board::default(), turn: Color::White }
    }

    /// Makes the first valid move from `from` to `to` and hands the turn to
    /// the other side; tells whether there was such a move. Nothing changes
    /// when there is none (or when the side to move has no king).
    pub fn make_move(&mut self, from: Square, to: Square) -> (r: bool)
        requires
            old(self).wf(),
        ensures
            final(self).wf(),
            r == (has_king(old(self).board@.pieces, old(self).turn) && first_matching(
                valid_moves(old(self).board@),
                from,
                to,
            ) is Some),
            r ==> final(self).board@ == position_after(
                old(self).board@,
                first_matching(valid_moves(old(self).board@), from, to)->0,
            ),
            r ==> final(self).turn == old(self).turn.spec_opposite(),
            !r ==> final(self).board@ == old(self).board@ && final(self).turn == old(self).turn,
    {
        if self.board.king_square(self.turn).is_none() {
            return false;
        }
        let ghost v = self.board@;
        let all_moves = MoveGenerator::generate_valid_moves(&mut self.board);
        assert(all_moves@.skip(0) =~= all_moves@);
        let mut i: usize = 0;
        while i < all_moves.len()
            invariant
                i <= all_moves@.len(),
                all_moves@ == valid_moves(v),
                v == old(self).board@,
                has_king(v.pieces, v.turn),
                self.board@ == v,
                self.wf(),
                self.turn == old(self).turn,
                first_matching(all_moves@, from, to) == first_matching(
                    all_moves@.skip(i as int),
                    from,
                    to,
                ),
            decreases all_moves@.len() - i,
        {
            let mv = all_moves.get(i);
            let ghost rest = all_moves@.skip(i as int);
            assert(rest[0] == mv);
            if mv.from == from && mv.to == to {
                assert(first_matching(rest, from, to) == Some(mv));
                proof {
                    lemma_first_matching(all_moves@, from, to);
                    let k = choose|k: int| 0 <= k < valid_moves(v).len() && valid_moves(v)[k] == mv;
                    lemma_valid_moves_are_valid(v, k);
                }
                self.board.move_piece(mv);
                self.switch_turn();
                proof {
                    reveal(position_after);
                }
                return true;
            }
            assert(all_moves@.skip(i + 1) =~= rest.drop_first());
            i = i + 1;
        }
        assert(all_moves@.skip(i as int) =~= Seq::<PieceMove>::empty());
        false
    }

    /// A picture of the board.
    pub fn show(&self) -> (r: String)
        ensures
            r@ == board_text(self.board@.pieces),
    {
        self.board.show()
    }

    /// Hands the turn to the other side.
    fn switch_turn(&mut self)
        ensures
            final(self).turn == old(self).turn.spec_opposite(),
            final(self).board == old(self).board,
    {
        match self.turn {
            Color::White => self.turn = Color::Black,
            Color::Black => self.turn = Color::White,
        }
    }
}

} // verus!
