//! Minimax search with alpha-beta pruning, White maximizing and Black
//! minimizing.
use crate::board::{has_king, Board, GameState, Position};
use crate::eval::Evaluator;
use crate::make_move::position_after;
use crate::move_gen::{game_state_of, lemma_valid_moves_are_valid, valid_moves, MoveGenerator};
use crate::piece::{Color, PieceMove};
use crate::searcher::{max_score, min_score, Searcher, CHECKMATE_SCORE};
use crate::undo_move::lemma_undo_restores;
use vstd::prelude::*;

verus! {

/// The value that the alpha-beta minimax search gives to `v`, `depth` plies
/// deep, within the window `(alpha, beta)`: the evaluation at depth 0 (or when
/// the side to move has no king), the checkmate score against the side to
/// move, 0 for stalemate, otherwise the best of the children for White (the
/// highest) or Black (the lowest), cutting off once a child reaches the
/// bound.
pub open spec fn alpha_beta_value(
    ev: spec_fn(Position) -> i32,
    v: Position,
    depth: nat,
    alpha: i32,
    beta: i32,
) -> i32
    decreases depth, 1int, 0int,
{
    if depth == 0 || !has_king(v.pieces, v.turn) {
        ev(v)
    } else if game_state_of(v) == GameState::Checkmate {
        if v.turn == Color::White {
            (-CHECKMATE_SCORE) as i32
        } else {
            CHECKMATE_SCORE
        }
    } else if game_state_of(v) == GameState::Stalemate {
        0
    } else if v.turn == Color::White {
        max_children(ev, v, valid_moves(v), 0, (depth - 1) as nat, alpha, beta, i32::MIN)
    } else {
        min_children(ev, v, valid_moves(v), 0, (depth - 1) as nat, alpha, beta, i32::MAX)
    }
}

/// White's loop over the children from the `k`-th on, with the current
/// `alpha` and best score.
pub open spec fn max_children(
    ev: spec_fn(Position) -> i32,
    v: Position,
    moves: Seq<PieceMove>,
    k: int,
    depth: nat,
    alpha: i32,
    beta: i32,
    best: i32,
) -> i32
    decreases depth + 1, 0int, moves.len() - k,
{
    if k < 0 || k >= moves.len() {
        best
    } else {
        let score = alpha_beta_value(ev, position_after(v, moves[k]), depth, alpha, beta);
        if score >= beta {
            beta
        } else {
            max_children(
                ev,
                v,
                moves,
                k + 1,
                depth,
                max_score(alpha, score),
                beta,
                max_score(best, score),
            )
        }
    }
}

/// Black's loop over the children from the `k`-th on, with the current
/// `beta` and best score.
pub open spec fn min_children(
    ev: spec_fn(Position) -> i32,
    v: Position,
    moves: Seq<PieceMove>,
    k: int,
    depth: nat,
    alpha: i32,
    beta: i32,
    best: i32,
) -> i32
    decreases depth + 1, 0int, moves.len() - k,
{
    if k < 0 || k >= moves.len() {
        best
    } else {
        let score = alpha_beta_value(ev, position_after(v, moves[k]), depth, alpha, beta);
        if score <= alpha {
            alpha
        } else {
            min_children(
                ev,
                v,
                moves,
                k + 1,
                depth,
                alpha,
                min_score(beta, score),
                min_score(best, score),
            )
        }
    }
}

/// The score of the root move `m` in a search `depth` plies deep with the
/// full window.
pub open spec fn minimax_root_score(
    ev: spec_fn(Position) -> i32,
    v: Position,
    m: PieceMove,
    depth: nat,
) -> i32 {
    alpha_beta_value(ev, position_after(v, m), (depth - 1) as nat, i32::MIN, i32::MAX)
}

/// The move the searcher picks among `moves` from the `k`-th on, given the
/// best so far: the first one whose score beats all before it.
pub open spec fn minimax_pick(
    ev: spec_fn(Position) -> i32,
    v: Position,
    moves: Seq<PieceMove>,
    k: int,
    depth: nat,
    best_score: i32,
    best: Option<PieceMove>,
) -> Option<PieceMove>
    decreases moves.len() - k,
{
    if k < 0 || k >= moves.len() {
        best
    } else {
        let score = minimax_root_score(ev, v, moves[k], depth);
        if score > best_score {
            minimax_pick(ev, v, moves, k + 1, depth, score, Some(moves[k]))
        } else {
            minimax_pick(ev, v, moves, k + 1, depth, best_score, best)
        }
    }
}

/// A minimax searcher with alpha-beta pruning that scores leaves with `E`.
pub struct MiniMaxAlphaBetaSercher<E: Evaluator> {
    evaluator: E,
}

impl<E: Evaluator> MiniMaxAlphaBetaSercher<E> {
    /// The evaluation function of this searcher.
    pub closed spec fn ev(&self) -> spec_fn(Position) -> i32 {
        |v: Position| self.evaluator.evaluation(v)
    }

    pub fn new(evaluator: E) -> (r: Self)
        ensures
            r.ev() == (|v: Position| evaluator.evaluation(v)),
    {
        Self { evaluator }
    }

    /// The alpha-beta minimax value of the board `depth` plies deep within the
    /// window `(alpha, beta)` (see `alpha_beta_value`). The board ends as it
    /// began.
    pub fn minimax_alpha_beta(&self, board: &mut Board, depth: u8, alpha: i32, beta: i32) -> (r: i32)
        requires
            old(board).wf(),
        ensures
            final(board).wf(),
            final(board)@ == old(board)@,
            r == alpha_beta_value(self.ev(), old(board)@, depth as nat, alpha, beta),
        decreases depth,
    {
        let ghost v = board@;
        if depth == 0 || board.king_square(board.turn).is_none() {
            return self.evaluator.evaluate(board);
        }
        match board.game_state() {
            GameState::Checkmate => match board.turn {
                Color::White => {
                    return -CHECKMATE_SCORE;
                },
                Color::Black => {
                    return CHECKMATE_SCORE;
                },
            },
            GameState::Stalemate => {
                return 0;
            },
            _ => {},
        }
        let moves = MoveGenerator::generate_valid_moves(board);
        let ghost d = (depth - 1) as nat;
        let mut a = alpha;
        let mut b = beta;
        let mut i: usize = 0;
        match board.turn {
            Color::White => {
                let mut best = i32::MIN;
                while i < moves.len()
                    invariant
                        i <= moves@.len(),
                        board.wf(),
                        board@ == v,
                        v.turn == Color::White,
                        depth > 0,
                        d == depth - 1,
                        moves@ == valid_moves(v),
                        alpha_beta_value(self.ev(), v, depth as nat, alpha, beta)
                            == max_children(self.ev(), v, moves@, i as int, d, a, b, best),
                        v == old(board)@,
                    decreases moves@.len() - i,
                {
                    let mv = moves.get(i);
                    proof {
                        lemma_valid_moves_are_valid(v, i as int);
                        lemma_undo_restores(v, mv);
                    }
                    board.move_piece(mv);
                    let score = self.minimax_alpha_beta(board, depth - 1, a, b);
                    board.undo();
                    if score >= b {
                        return b;
                    }
                    if score > a {
                        a = score;
                    }
                    if score > best {
                        best = score;
                    }
                    i = i + 1;
                }
                best
            },
            Color::Black => {
                let mut best = i32::MAX;
                while i < moves.len()
                    invariant
                        i <= moves@.len(),
                        board.wf(),
                        board@ == v,
                        v.turn == Color::Black,
                        depth > 0,
                        d == depth - 1,
                        moves@ == valid_moves(v),
                        alpha_beta_value(self.ev(), v, depth as nat, alpha, beta)
                            == min_children(self.ev(), v, moves@, i as int, d, a, b, best),
                        v == old(board)@,
                    decreases moves@.len() - i,
                {
                    let mv = moves.get(i);
                    proof {
                        lemma_valid_moves_are_valid(v, i as int);
                        lemma_undo_restores(v, mv);
                    }
                    board.move_piece(mv);
                    let score = self.minimax_alpha_beta(board, depth - 1, a, b);
                    board.undo();
                    if score <= a {
                        return a;
                    }
                    if score < b {
                        b = score;
                    }
                    if score < best {
                        best = score;
                    }
                    i = i + 1;
                }
                best
            },
        }
    }
}

impl<E: Evaluator> Searcher for MiniMaxAlphaBetaSercher<E> {
    /// The first valid move whose full-window score (see
    /// `minimax_root_score`) is the highest and above `i32::MIN`: the searcher
    /// maximizes for whichever side is to move. When every score is
    /// `i32::MIN`, the first valid move.
    fn best_move(&mut self, board: &mut Board, depth: u8) -> (r: PieceMove)
        ensures
            Some(r) == minimax_pick(old(self).ev(), old(board)@, valid_moves(old(board)@), 0, depth as nat, i32::MIN, None)
                || (minimax_pick(old(self).ev(), old(board)@, valid_moves(old(board)@), 0, depth as nat, i32::MIN, None) is None
                && r == valid_moves(old(board)@)[0]),
    {
        let ghost v = board@;
        let mut best_move: Option<PieceMove> = None;
        let mut best_score = i32::MIN;
        let moves = MoveGenerator::generate_valid_moves(board);
        let mut i: usize = 0;
        while i < moves.len()
            invariant
                i <= moves@.len(),
                board.wf(),
                board@ == v,
                depth > 0,
                moves@ == valid_moves(v),
                moves@.len() > 0,
                self.ev() == old(self).ev(),
                minimax_pick(old(self).ev(), v, moves@, 0, depth as nat, i32::MIN, None) == minimax_pick(
                    self.ev(),
                    v,
                    moves@,
                    i as int,
                    depth as nat,
                    best_score,
                    best_move,
                ),
                v == old(board)@,
                best_move matches Some(m) ==> moves@.contains(m),
            decreases moves@.len() - i,
        {
            let mv = moves.get(i);
            proof {
                lemma_valid_moves_are_valid(v, i as int);
                lemma_undo_restores(v, mv);
            }
            board.move_piece(mv);
            let score = self.minimax_alpha_beta(board, depth - 1, i32::MIN, i32::MAX);
            board.undo();
            if score > best_score {
                best_score = score;
                best_move = Some(mv);
                proof {
                    assert(moves@[i as int] == mv);
                }
            }
            i = i + 1;
        }
        match best_move {
            Some(m) => m,
            None => {
                proof {
                    assert(moves@[0] == moves@[0]);
                    assert(moves@.contains(moves@[0]));
                }
                moves.get(0)
            },
        }
    }
}

} // verus!
