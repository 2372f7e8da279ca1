//! Players: people at the board, or the computer.
use crate::board::{has_king, Board};
use crate::move_gen::valid_moves;
use crate::piece::PieceMove;
use crate::searcher::Searcher;
use vstd::prelude::*;

verus! {

/// A computer player: something that picks a move on a board.
pub trait AI {
    /// A valid move for the side to move. The board ends as it began.
    fn choose_move(&mut self, board: &mut Board) -> (r: PieceMove)
        requires
            old(board).wf(),
            has_king(old(board)@.pieces, old(board).turn),
            valid_moves(old(board)@).len() > 0,
        ensures
            final(board).wf(),
            final(board)@ == old(board)@,
            valid_moves(old(board)@).contains(r),
    ;
}

/// A computer player that searches `depth` plies deep with `searcher`.
pub struct Computer<S: Searcher> {
    searcher: S,
    depth: u8,
}

impl<S: Searcher> Computer<S> {
    /// The search depth of this player.
    pub closed spec fn search_depth(self) -> u8 {
        self.depth
    }

    /// A player that searches `depth` plies deep (at least one).
    pub fn new(searcher: S, depth: u8) -> (r: Self)
        requires
            depth > 0,
        ensures
            r.search_depth() == depth,
    {
        Self { searcher, depth }
    }
}

impl<S: Searcher> AI for Computer<S> {
    /// The move the searcher finds at this player's depth (`new` makes the
    /// depth at least one; a depth of zero would search one ply).
    fn choose_move(&mut self, board: &mut Board) -> (r: PieceMove) {
        let depth = if self.depth > 0 {
            self.depth
        } else {
            1
        };
        self.searcher.best_move(board, depth)
    }
}

/// Who plays a side: a person, or the computer.
pub enum PlayerType {
    Human,
    AI(Box<dyn AI>),
}

} // verus!
