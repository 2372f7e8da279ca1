//! What every searcher offers: the choice of a move on a board.
use crate::board::{has_king, Board};
use crate::move_gen::valid_moves;
use crate::piece::PieceMove;
use vstd::prelude::*;

verus! {

/// The score of a won position (for White; its negation for Black).
pub const CHECKMATE_SCORE: i32 = 30_000;

/// `-x`, wrapping `i32::MIN` to itself as two's complement arithmetic does.
pub open spec fn neg_wrap(x: i32) -> i32 {
    if x == i32::MIN {
        i32::MIN
    } else {
        (-x) as i32
    }
}

/// `-x`, wrapping `i32::MIN` to itself as two's complement arithmetic does.
pub fn wrapping_neg(x: i32) -> (r: i32)
    ensures
        r == neg_wrap(x),
{
    if x == i32::MIN {
        i32::MIN
    } else {
        -x
    }
}

/// The larger of two scores.
pub open spec fn max_score(a: i32, b: i32) -> i32 {
    if a >= b {
        a
    } else {
        b
    }
}

/// The smaller of two scores.
pub open spec fn min_score(a: i32, b: i32) -> i32 {
    if a <= b {
        a
    } else {
        b
    }
}

/// A way to pick a move for the side to move.
pub trait Searcher {
    /// A valid move for the side to move, found by a search `depth` plies
    /// deep. The board ends as it began.
    fn best_move(&mut self, board: &mut Board, depth: u8) -> (r: PieceMove)
        requires
            old(board).wf(),
            has_king(old(board)@.pieces, old(board).turn),
            depth > 0,
            valid_moves(old(board)@).len() > 0,
        ensures
            final(board).wf(),
            final(board)@ == old(board)@,
            valid_moves(old(board)@).contains(r),
    ;
}

} // verus!
