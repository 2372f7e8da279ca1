//! A stand-alone searcher over the engine's own evaluation: plain minimax,
//! minimax with alpha-beta pruning, and negamax.
use crate::board::{has_king, Board, GameState, Position};
use crate::eval::{BoardEvaluation, Evaluator};
use crate::make_move::position_after;
use crate::minimax_a_b::{alpha_beta_value, max_children, min_children};
use crate::move_gen::{
    game_state_of, in_check, lemma_game_state_meaning, lemma_valid_moves_are_valid, valid_moves,
    MoveGenerator,
};
use crate::piece::{Color, PieceMove};
use crate::searcher::{max_score, min_score, neg_wrap, wrapping_neg, CHECKMATE_SCORE};
use crate::undo_move::lemma_undo_restores;
use vstd::prelude::*;

verus! {

/// The engine's own evaluation, as a function of positions.
pub open spec fn board_eval() -> spec_fn(Position) -> i32 {
    |v: Position| BoardEvaluation.evaluation(v)
}

/// The plain minimax value of `v` over the evaluation `ev`, `depth` plies
/// deep: the evaluation at depth 0 (or when the side to move has no king), the
/// checkmate score against the side to move, 0 for stalemate, otherwise the
/// highest child value for White and the lowest for Black.
pub open spec fn minimax_value(ev: spec_fn(Position) -> i32, v: Position, depth: nat) -> i32
    decreases depth, 1int, 0int,
{
    if depth == 0 || !has_king(v.pieces, v.turn) {
        ev(v)
    } else if game_state_of(v) == GameState::Checkmate {
        if v.turn == Color::White {
            (-CHECKMATE_SCORE) as i32
        } else {
            CHECKMATE_SCORE
        }
    } else if game_state_of(v) == GameState::Stalemate {
        0
    } else if v.turn == Color::White {
        best_child(ev, v, valid_moves(v), 0, (depth - 1) as nat, true, i32::MIN)
    } else {
        best_child(ev, v, valid_moves(v), 0, (depth - 1) as nat, false, i32::MAX)
    }
}

/// The highest (`maximize`) or lowest child value from the `k`-th child on,
/// starting from `best`.
pub open spec fn best_child(
    ev: spec_fn(Position) -> i32,
    v: Position,
    moves: Seq<PieceMove>,
    k: int,
    depth: nat,
    maximize: bool,
    best: i32,
) -> i32
    decreases depth + 1, 0int, moves.len() - k,
{
    if k < 0 || k >= moves.len() {
        best
    } else {
        let score = minimax_value(ev, position_after(v, moves[k]), depth);
        best_child(
            ev,
            v,
            moves,
            k + 1,
            depth,
            maximize,
            if maximize {
                max_score(best, score)
            } else {
                min_score(best, score)
            },
        )
    }
}

/// The negamax value that `Search` gives to `v`, `depth` plies deep, within
/// the window `(alpha, beta)`, from the side to move's point of view: the
/// negated checkmate score when the side to move is mated, 0 for stalemate,
/// the evaluation (negated for Black) at depth 0 or when the side to move has
/// no king, otherwise the best of the children's negated values, stopping once
/// alpha reaches beta. Negation wraps `i32::MIN` to itself.
pub open spec fn search_negamax_value(v: Position, depth: nat, alpha: i32, beta: i32) -> i32
    decreases depth, 1int, 0int,
{
    if !has_king(v.pieces, v.turn) {
        if v.turn == Color::White {
            board_eval()(v)
        } else {
            neg_wrap(board_eval()(v))
        }
    } else if game_state_of(v) == GameState::Checkmate {
        (-CHECKMATE_SCORE) as i32
    } else if game_state_of(v) == GameState::Stalemate {
        0
    } else if depth == 0 {
        if v.turn == Color::White {
            board_eval()(v)
        } else {
            neg_wrap(board_eval()(v))
        }
    } else {
        search_negamax_children(v, valid_moves(v), 0, (depth - 1) as nat, alpha, beta, i32::MIN)
    }
}

/// The loop over the children from the `k`-th on, with the current `alpha`
/// and best score.
pub open spec fn search_negamax_children(
    v: Position,
    moves: Seq<PieceMove>,
    k: int,
    depth: nat,
    alpha: i32,
    beta: i32,
    best: i32,
) -> i32
    decreases depth + 1, 0int, moves.len() - k,
{
    if k < 0 || k >= moves.len() {
        best
    } else {
        let score = neg_wrap(
            search_negamax_value(position_after(v, moves[k]), depth, neg_wrap(beta), neg_wrap(alpha)),
        );
        let b = max_score(best, score);
        let a = max_score(alpha, score);
        if a >= beta {
            b
        } else {
            search_negamax_children(v, moves, k + 1, depth, a, beta, b)
        }
    }
}

/// The move `Search::best_move` picks among `moves` from the `k`-th on: the
/// first one whose alpha-beta value beats all before it, highest for White
/// and lowest for Black.
pub open spec fn search_pick(
    v: Position,
    moves: Seq<PieceMove>,
    k: int,
    depth: nat,
    best_score: i32,
    best: Option<PieceMove>,
) -> Option<PieceMove>
    decreases moves.len() - k,
{
    if k < 0 || k >= moves.len() {
        best
    } else {
        let score = alpha_beta_value(
            board_eval(),
            position_after(v, moves[k]),
            (depth - 1) as nat,
            i32::MIN,
            i32::MAX,
        );
        let better = if v.turn == Color::White {
            score > best_score
        } else {
            score < best_score
        };
        if better {
            search_pick(v, moves, k + 1, depth, score, Some(moves[k]))
        } else {
            search_pick(v, moves, k + 1, depth, best_score, best)
        }
    }
}

/// What alpha-beta pruning keeps of a node's value: a value `r` found with
/// the window `(alpha, beta)` equals the true value `m` when `m` lies inside
/// the window, and lies on the same side of the window as `m` otherwise.
pub open spec fn within_window(r: i32, m: i32, alpha: i32, beta: i32) -> bool {
    &&& (alpha < m < beta ==> r == m)
    &&& (m <= alpha ==> r <= alpha)
    &&& (m >= beta ==> r >= beta)
}

/// The best child value never falls behind the starting best: at least it
/// for White, at most it for Black.
pub proof fn lemma_best_child_bound(
    ev: spec_fn(Position) -> i32,
    v: Position,
    moves: Seq<PieceMove>,
    k: int,
    depth: nat,
    maximize: bool,
    best: i32,
)
    ensures
        maximize ==> best_child(ev, v, moves, k, depth, maximize, best) >= best,
        !maximize ==> best_child(ev, v, moves, k, depth, maximize, best) <= best,
    decreases moves.len() - k,
{
    if 0 <= k < moves.len() {
        let score = minimax_value(ev, position_after(v, moves[k]), depth);
        let next = if maximize {
            max_score(best, score)
        } else {
            min_score(best, score)
        };
        lemma_best_child_bound(ev, v, moves, k + 1, depth, maximize, next);
    }
}

/// The alpha-beta value of a node over any evaluation `ev`, found with any
/// window `(alpha, beta)` where `alpha < beta`, keeps the window's promise
/// about the node's plain minimax value over `ev`.
pub proof fn lemma_alpha_beta_window(
    ev: spec_fn(Position) -> i32,
    v: Position,
    depth: nat,
    alpha: i32,
    beta: i32,
)
    requires
        alpha < beta,
    ensures
        within_window(
            alpha_beta_value(ev, v, depth, alpha, beta),
            minimax_value(ev, v, depth),
            alpha,
            beta,
        ),
    decreases depth, 1int, 0int,
{
    if depth == 0 || !has_king(v.pieces, v.turn) {
    } else if game_state_of(v) == GameState::Checkmate {
    } else if game_state_of(v) == GameState::Stalemate {
    } else if v.turn == Color::White {
        lemma_max_children_window(
            ev,
            v,
            valid_moves(v),
            0,
            (depth - 1) as nat,
            alpha,
            alpha,
            beta,
            i32::MIN,
            i32::MIN,
        );
    } else {
        lemma_min_children_window(
            ev,
            v,
            valid_moves(v),
            0,
            (depth - 1) as nat,
            alpha,
            beta,
            beta,
            i32::MAX,
            i32::MAX,
        );
    }
}

/// White's pruned loop from the `k`-th child on, entered with the window
/// `(a, beta)` and best `b`, keeps the promise of the window `(alpha, beta)`
/// about the unpruned loop entered with best `bm`, as long as `a` is the
/// larger of `alpha` and `bm`, and `b` is `bm` once `bm` is above `alpha`.
proof fn lemma_max_children_window(
    ev: spec_fn(Position) -> i32,
    v: Position,
    moves: Seq<PieceMove>,
    k: int,
    depth: nat,
    alpha: i32,
    a: i32,
    beta: i32,
    b: i32,
    bm: i32,
)
    requires
        0 <= k,
        alpha < beta,
        bm < beta,
        a == max_score(alpha, bm),
        bm > alpha ==> b == bm,
        bm <= alpha ==> b <= alpha,
    ensures
        within_window(
            max_children(ev, v, moves, k, depth, a, beta, b),
            best_child(ev, v, moves, k, depth, true, bm),
            alpha,
            beta,
        ),
    decreases depth + 1, 0int, moves.len() - k,
{
    if k < moves.len() {
        let child = position_after(v, moves[k]);
        lemma_alpha_beta_window(ev, child, depth, a, beta);
        let t = minimax_value(ev, child, depth);
        let s = alpha_beta_value(ev, child, depth, a, beta);
        if s >= beta {
            lemma_best_child_bound(ev, v, moves, k + 1, depth, true, max_score(bm, t));
        } else {
            lemma_max_children_window(
                ev,
                v,
                moves,
                k + 1,
                depth,
                alpha,
                max_score(a, s),
                beta,
                max_score(b, s),
                max_score(bm, t),
            );
        }
    }
}

/// Black's pruned loop from the `k`-th child on, entered with the window
/// `(alpha, bt)` and best `b`, keeps the promise of the window `(alpha, beta)`
/// about the unpruned loop entered with best `bm`, as long as `bt` is the
/// smaller of `beta` and `bm`, and `b` is `bm` once `bm` is below `beta`.
proof fn lemma_min_children_window(
    ev: spec_fn(Position) -> i32,
    v: Position,
    moves: Seq<PieceMove>,
    k: int,
    depth: nat,
    alpha: i32,
    beta: i32,
    bt: i32,
    b: i32,
    bm: i32,
)
    requires
        0 <= k,
        alpha < beta,
        bm > alpha,
        bt == min_score(beta, bm),
        bm < beta ==> b == bm,
        bm >= beta ==> b >= beta,
    ensures
        within_window(
            min_children(ev, v, moves, k, depth, alpha, bt, b),
            best_child(ev, v, moves, k, depth, false, bm),
            alpha,
            beta,
        ),
    decreases depth + 1, 0int, moves.len() - k,
{
    if k < moves.len() {
        let child = position_after(v, moves[k]);
        lemma_alpha_beta_window(ev, child, depth, alpha, bt);
        let t = minimax_value(ev, child, depth);
        let s = alpha_beta_value(ev, child, depth, alpha, bt);
        if s <= alpha {
            lemma_best_child_bound(ev, v, moves, k + 1, depth, false, min_score(bm, t));
        } else {
            lemma_min_children_window(
                ev,
                v,
                moves,
                k + 1,
                depth,
                alpha,
                beta,
                min_score(bt, s),
                min_score(b, s),
                min_score(bm, t),
            );
        }
    }
}

/// Alpha-beta pruning changes nothing: over any evaluation `ev`, searched
/// with the full window, a position gets its plain minimax value.
pub proof fn lemma_alpha_beta_is_minimax(ev: spec_fn(Position) -> i32, v: Position, depth: nat)
    ensures
        alpha_beta_value(ev, v, depth, i32::MIN, i32::MAX) == minimax_value(ev, v, depth),
{
    lemma_alpha_beta_window(ev, v, depth, i32::MIN, i32::MAX);
}

/// The move a plain minimax search picks among `moves` from the `k`-th on:
/// the first one whose minimax value beats all before it, highest for White
/// and lowest for Black.
pub open spec fn plain_pick(
    v: Position,
    moves: Seq<PieceMove>,
    k: int,
    depth: nat,
    best_score: i32,
    best: Option<PieceMove>,
) -> Option<PieceMove>
    decreases moves.len() - k,
{
    if k < 0 || k >= moves.len() {
        best
    } else {
        let score = minimax_value(board_eval(), position_after(v, moves[k]), (depth - 1) as nat);
        let better = if v.turn == Color::White {
            score > best_score
        } else {
            score < best_score
        };
        if better {
            plain_pick(v, moves, k + 1, depth, score, Some(moves[k]))
        } else {
            plain_pick(v, moves, k + 1, depth, best_score, best)
        }
    }
}

/// Searching the moves with alpha-beta pruning picks the move that a plain
/// minimax search picks.
pub proof fn lemma_search_pick_is_plain_pick(
    v: Position,
    moves: Seq<PieceMove>,
    k: int,
    depth: nat,
    best_score: i32,
    best: Option<PieceMove>,
)
    ensures
        search_pick(v, moves, k, depth, best_score, best) == plain_pick(
            v,
            moves,
            k,
            depth,
            best_score,
            best,
        ),
    decreases moves.len() - k,
{
    if 0 <= k < moves.len() {
        let child = position_after(v, moves[k]);
        lemma_alpha_beta_is_minimax(board_eval(), child, (depth - 1) as nat);
        let score = minimax_value(board_eval(), child, (depth - 1) as nat);
        lemma_search_pick_is_plain_pick(v, moves, k + 1, depth, score, Some(moves[k]));
        lemma_search_pick_is_plain_pick(v, moves, k + 1, depth, best_score, best);
    }
}

/// The full-window alpha-beta score of the root move `m`, `depth` plies deep.
pub open spec fn root_score(v: Position, m: PieceMove, depth: nat) -> i32 {
    alpha_beta_value(board_eval(), position_after(v, m), (depth - 1) as nat, i32::MIN, i32::MAX)
}

/// Whether score `a` is strictly better than `b` for the side to move of `v`:
/// higher for White, lower for Black.
pub open spec fn beats(v: Position, a: i32, b: i32) -> bool {
    if v.turn == Color::White {
        a > b
    } else {
        a < b
    }
}

/// Whether `moves[k]` is the first of `moves` with the best root score for
/// the side to move of `v`: no move scores better, and every move before it
/// scores worse.
pub open spec fn first_best(v: Position, moves: Seq<PieceMove>, k: int, depth: nat) -> bool {
    &&& 0 <= k < moves.len()
    &&& forall|j: int|
        0 <= j < moves.len() ==> !beats(
            v,
            #[trigger] root_score(v, moves[j], depth),
            root_score(v, moves[k], depth),
        )
    &&& forall|j: int|
        0 <= j < k ==> beats(
            v,
            root_score(v, moves[k], depth),
            #[trigger] root_score(v, moves[j], depth),
        )
}

proof fn lemma_search_pick_best_from(
    v: Position,
    moves: Seq<PieceMove>,
    i: int,
    depth: nat,
    bs: i32,
    best: Option<PieceMove>,
    start: i32,
)
    requires
        0 <= i <= moves.len(),
        start == (if v.turn == Color::White { i32::MIN } else { i32::MAX }),
        best is None ==> bs == start && forall|j: int|
            0 <= j < i ==> !beats(v, #[trigger] root_score(v, moves[j], depth), start),
        best is Some ==> exists|b: int|
            0 <= b < i && moves[b] == best->0 && root_score(v, moves[b], depth) == bs && (forall|
                j: int,
            | 0 <= j < i ==> !beats(v, #[trigger] root_score(v, moves[j], depth), bs)) && (forall|
                j: int,
            | 0 <= j < b ==> beats(v, bs, #[trigger] root_score(v, moves[j], depth))),
    ensures
        search_pick(v, moves, i, depth, bs, best) is None ==> forall|j: int|
            0 <= j < moves.len() ==> !beats(v, #[trigger] root_score(v, moves[j], depth), start),
        search_pick(v, moves, i, depth, bs, best) is Some ==> exists|k: int|
            first_best(v, moves, k, depth) && moves[k] == search_pick(
                v,
                moves,
                i,
                depth,
                bs,
                best,
            )->0,
    decreases moves.len() - i,
{
    if i < moves.len() {
        let score = root_score(v, moves[i], depth);
        if beats(v, score, bs) {
            assert forall|j: int| 0 <= j < i + 1 implies !beats(
                v,
                #[trigger] root_score(v, moves[j], depth),
                score,
            ) by {
                if j < i && best is Some {
                    let b = choose|b: int|
                        0 <= b < i && moves[b] == best->0 && root_score(v, moves[b], depth) == bs
                            && (forall|j: int|
                            0 <= j < i ==> !beats(v, #[trigger] root_score(v, moves[j], depth), bs))
                            && (forall|j: int|
                            0 <= j < b ==> beats(v, bs, #[trigger] root_score(v, moves[j], depth)));
                    assert(!beats(v, root_score(v, moves[j], depth), bs));
                }
            }
            assert forall|j: int| 0 <= j < i implies beats(
                v,
                score,
                #[trigger] root_score(v, moves[j], depth),
            ) by {
                if best is Some {
                    let b = choose|b: int|
                        0 <= b < i && moves[b] == best->0 && root_score(v, moves[b], depth) == bs
                            && (forall|j: int|
                            0 <= j < i ==> !beats(v, #[trigger] root_score(v, moves[j], depth), bs))
                            && (forall|j: int|
                            0 <= j < b ==> beats(v, bs, #[trigger] root_score(v, moves[j], depth)));
                    assert(!beats(v, root_score(v, moves[j], depth), bs));
                } else {
                    assert(!beats(v, root_score(v, moves[j], depth), start));
                }
            }
            lemma_search_pick_best_from(v, moves, i + 1, depth, score, Some(moves[i]), start);
        } else {
            if best is Some {
                let b = choose|b: int|
                    0 <= b < i && moves[b] == best->0 && root_score(v, moves[b], depth) == bs && (
                    forall|j: int|
                        0 <= j < i ==> !beats(v, #[trigger] root_score(v, moves[j], depth), bs)) && (
                    forall|j: int|
                        0 <= j < b ==> beats(v, bs, #[trigger] root_score(v, moves[j], depth)));
                assert forall|j: int| 0 <= j < i + 1 implies !beats(
                    v,
                    #[trigger] root_score(v, moves[j], depth),
                    bs,
                ) by {}
                assert(exists|b2: int|
                    0 <= b2 < i + 1 && moves[b2] == best->0 && root_score(v, moves[b2], depth) == bs
                        && (forall|j: int|
                        0 <= j < i + 1 ==> !beats(v, #[trigger] root_score(v, moves[j], depth), bs))
                        && (forall|j: int|
                        0 <= j < b2 ==> beats(v, bs, #[trigger] root_score(v, moves[j], depth)))) by {
                    assert(0 <= b < i + 1);
                }
            }
            lemma_search_pick_best_from(v, moves, i + 1, depth, bs, best, start);
        }
    } else {
        if best is Some {
            let b = choose|b: int|
                0 <= b < i && moves[b] == best->0 && root_score(v, moves[b], depth) == bs && (forall|
                    j: int,
                | 0 <= j < i ==> !beats(v, #[trigger] root_score(v, moves[j], depth), bs)) && (forall|
                    j: int,
                | 0 <= j < b ==> beats(v, bs, #[trigger] root_score(v, moves[j], depth)));
            assert(first_best(v, moves, b, depth));
        }
    }
}

/// The move that searching with alpha-beta picks, when it picks one, is the
/// first move with the best root score for the side to move (the highest for
/// White, the lowest for Black); when it picks none, every move scores the
/// starting bound, so the first move is the first best one.
pub proof fn lemma_search_pick_first_best(v: Position, moves: Seq<PieceMove>, depth: nat)
    requires
        moves.len() > 0,
    ensures
        ({
            let start = if v.turn == Color::White {
                i32::MIN
            } else {
                i32::MAX
            };
            let pick = search_pick(v, moves, 0, depth, start, None);
            &&& pick is Some ==> exists|k: int| first_best(v, moves, k, depth) && moves[k] == pick->0
            &&& pick is None ==> first_best(v, moves, 0, depth)
        }),
{
    let start = if v.turn == Color::White {
        i32::MIN
    } else {
        i32::MAX
    };
    lemma_search_pick_best_from(v, moves, 0, depth, start, None, start);
    if search_pick(v, moves, 0, depth, start, None) is None {
        assert forall|j: int| 0 <= j < moves.len() implies !beats(
            v,
            #[trigger] root_score(v, moves[j], depth),
            root_score(v, moves[0], depth),
        ) by {
            assert(!beats(v, root_score(v, moves[j], depth), start));
            assert(!beats(v, root_score(v, moves[0], depth), start));
        }
    }
}

/// The stand-alone negamax search scores a position from the side to move's
/// point of view. A side that is checkmated scores the loss
/// `-CHECKMATE_SCORE`, a stalemated one 0; both are its minimax value signed
/// for the side to move (at any depth from one on). A leaf that is neither
/// scores the evaluation, negated when Black is to move: again its minimax
/// value signed for the side to move.
pub proof fn lemma_search_negamax_point_of_view(v: Position, depth: nat, alpha: i32, beta: i32)
    requires
        has_king(v.pieces, v.turn),
    ensures
        valid_moves(v).len() == 0 && in_check(v, v.turn) ==> search_negamax_value(
            v,
            depth,
            alpha,
            beta,
        ) == -CHECKMATE_SCORE,
        valid_moves(v).len() == 0 && !in_check(v, v.turn) ==> search_negamax_value(
            v,
            depth,
            alpha,
            beta,
        ) == 0,
        valid_moves(v).len() == 0 && depth >= 1 ==> search_negamax_value(v, depth, alpha, beta) == (
        if v.turn == Color::White {
            minimax_value(board_eval(), v, depth) as int
        } else {
            -minimax_value(board_eval(), v, depth)
        }),
        valid_moves(v).len() > 0 && depth == 0 ==> search_negamax_value(v, depth, alpha, beta) == (
        if v.turn == Color::White {
            minimax_value(board_eval(), v, depth)
        } else {
            neg_wrap(minimax_value(board_eval(), v, depth))
        }),
        valid_moves(v).len() > 0 && depth == 0 && v.turn == Color::Black && board_eval()(v)
            != i32::MIN ==> search_negamax_value(v, depth, alpha, beta) == -board_eval()(v),
{
    lemma_game_state_meaning(v);
}

/// Searches over the engine's own evaluation.
pub struct Search;

impl Search {
    /// The first valid move with the best alpha-beta value `depth` plies deep
    /// (the highest for White, the lowest for Black); the first valid move
    /// when no value beats the starting bound. The board ends as it began.
    pub fn best_move(board: &mut Board, depth: u8) -> (r: PieceMove)
        requires
            old(board).wf(),
            has_king(old(board)@.pieces, old(board).turn),
            depth > 0,
            valid_moves(old(board)@).len() > 0,
        ensures
            final(board).wf(),
            final(board)@ == old(board)@,
            ({
                let v = old(board)@;
                let start = if v.turn == Color::White {
                    i32::MIN
                } else {
                    i32::MAX
                };
                let pick = search_pick(v, valid_moves(v), 0, depth as nat, start, None);
                Some(r) == pick || (pick is None && r == valid_moves(v)[0])
            }),
            exists|k: int|
                first_best(old(board)@, valid_moves(old(board)@), k, depth as nat) && valid_moves(
                    old(board)@,
                )[k] == r,
    {
        let ghost v = board@;
        let turn = board.turn;
        let mut best_move: Option<PieceMove> = None;
        let mut best_score = match turn {
            Color::White => i32::MIN,
            Color::Black => i32::MAX,
        };
        let ghost start = best_score;
        let moves = MoveGenerator::generate_valid_moves(board);
        let mut i: usize = 0;
        while i < moves.len()
            invariant
                i <= moves@.len(),
                board.wf(),
                board@ == v,
                v == old(board)@,
                turn == v.turn,
                start == (if v.turn == Color::White { i32::MIN } else { i32::MAX }),
                depth > 0,
                moves@ == valid_moves(v),
                moves@.len() > 0,
                search_pick(v, moves@, 0, depth as nat, start, None) == search_pick(
                    v,
                    moves@,
                    i as int,
                    depth as nat,
                    best_score,
                    best_move,
                ),
            decreases moves@.len() - i,
        {
            let mv = moves.get(i);
            proof {
                lemma_valid_moves_are_valid(v, i as int);
                lemma_undo_restores(v, mv);
            }
            board.move_piece(mv);
            let score = Search::minimax_alpha_beta(board, depth - 1, i32::MIN, i32::MAX);
            board.undo();
            let better = match turn {
                Color::White => score > best_score,
                Color::Black => score < best_score,
            };
            if better {
                best_score = score;
                best_move = Some(mv);
            }
            i = i + 1;
        }
        proof {
            lemma_search_pick_first_best(v, moves@, depth as nat);
        }
        match best_move {
            Some(m) => m,
            None => moves.get(0),
        }
    }

    /// The plain minimax value of the board (see `minimax_value`). The board
    /// ends as it began.
    fn minimax(board: &mut Board, depth: u8) -> (r: i32)
        requires
            old(board).wf(),
        ensures
            final(board).wf(),
            final(board)@ == old(board)@,
            r == minimax_value(board_eval(), old(board)@, depth as nat),
        decreases depth,
    {
        let ghost v = board@;
        if depth == 0 || board.king_square(board.turn).is_none() {
            return BoardEvaluation.evaluate(board);
        }
        match board.game_state() {
            GameState::Checkmate => match board.turn {
                Color::White => {
                    return -CHECKMATE_SCORE;
                },
                Color::Black => {
                    return CHECKMATE_SCORE;
                },
            },
            GameState::Stalemate => {
                return 0;
            },
            _ => {},
        }
        let moves = MoveGenerator::generate_valid_moves(board);
        let maximize = match board.turn {
            Color::White => true,
            Color::Black => false,
        };
        let mut best = if maximize {
            i32::MIN
        } else {
            i32::MAX
        };
        let mut i: usize = 0;
        while i < moves.len()
            invariant
                i <= moves@.len(),
                board.wf(),
                board@ == v,
                v == old(board)@,
                depth > 0,
                maximize == (v.turn == Color::White),
                moves@ == valid_moves(v),
                minimax_value(board_eval(), v, depth as nat) == best_child(
                    board_eval(),
                    v,
                    moves@,
                    i as int,
                    (depth - 1) as nat,
                    maximize,
                    best,
                ),
            decreases moves@.len() - i,
        {
            let mv = moves.get(i);
            proof {
                lemma_valid_moves_are_valid(v, i as int);
                lemma_undo_restores(v, mv);
            }
            board.move_piece(mv);
            let score = Search::minimax(board, depth - 1);
            board.undo();
            if maximize {
                if score > best {
                    best = score;
                }
            } else {
                if score < best {
                    best = score;
                }
            }
            i = i + 1;
        }
        best
    }

    /// The alpha-beta minimax value of the board over the engine's own
    /// evaluation (see `alpha_beta_value`). The board ends as it began.
    pub fn minimax_alpha_beta(board: &mut Board, depth: u8, alpha: i32, beta: i32) -> (r: i32)
        requires
            old(board).wf(),
        ensures
            final(board).wf(),
            final(board)@ == old(board)@,
            r == alpha_beta_value(board_eval(), old(board)@, depth as nat, alpha, beta),
        decreases depth,
    {
        let ghost v = board@;
        if depth == 0 || board.king_square(board.turn).is_none() {
            return BoardEvaluation.evaluate(board);
        }
        match board.game_state() {
            GameState::Checkmate => match board.turn {
                Color::White => {
                    return -CHECKMATE_SCORE;
                },
                Color::Black => {
                    return CHECKMATE_SCORE;
                },
            },
            GameState::Stalemate => {
                return 0;
            },
            _ => {},
        }
        let moves = MoveGenerator::generate_valid_moves(board);
        let ghost d = (depth - 1) as nat;
        let mut a = alpha;
        let mut b = beta;
        let mut i: usize = 0;
        match board.turn {
            Color::White => {
                let mut best = i32::MIN;
                while i < moves.len()
                    invariant
                        i <= moves@.len(),
                        board.wf(),
                        board@ == v,
                        v == old(board)@,
                        v.turn == Color::White,
                        depth > 0,
                        d == depth - 1,
                        moves@ == valid_moves(v),
                        alpha_beta_value(board_eval(), v, depth as nat, alpha, beta)
                            == crate::minimax_a_b::max_children(board_eval(), v, moves@, i as int, d, a, b, best),
                    decreases moves@.len() - i,
                {
                    let mv = moves.get(i);
                    proof {
                        lemma_valid_moves_are_valid(v, i as int);
                        lemma_undo_restores(v, mv);
                    }
                    board.move_piece(mv);
                    let score = Search::minimax_alpha_beta(board, depth - 1, a, b);
                    board.undo();
                    if score >= b {
                        return b;
                    }
                    if score > a {
                        a = score;
                    }
                    if score > best {
                        best = score;
                    }
                    i = i + 1;
                }
                best
            },
            Color::Black => {
                let mut best = i32::MAX;
                while i < moves.len()
                    invariant
                        i <= moves@.len(),
                        board.wf(),
                        board@ == v,
                        v == old(board)@,
                        v.turn == Color::Black,
                        depth > 0,
                        d == depth - 1,
                        moves@ == valid_moves(v),
                        alpha_beta_value(board_eval(), v, depth as nat, alpha, beta)
                            == crate::minimax_a_b::min_children(board_eval(), v, moves@, i as int, d, a, b, best),
                    decreases moves@.len() - i,
                {
                    let mv = moves.get(i);
                    proof {
                        lemma_valid_moves_are_valid(v, i as int);
                        lemma_undo_restores(v, mv);
                    }
                    board.move_piece(mv);
                    let score = Search::minimax_alpha_beta(board, depth - 1, a, b);
                    board.undo();
                    if score <= a {
                        return a;
                    }
                    if score < b {
                        b = score;
                    }
                    if score < best {
                        best = score;
                    }
                    i = i + 1;
                }
                best
            },
        }
    }

    /// The negamax value of the board over the engine's own evaluation (see
    /// `search_negamax_value`). The board ends as it began.
    pub fn negamax_alpha_beta(board: &mut Board, depth: u8, alpha: i32, beta: i32) -> (r: i32)
        requires
            old(board).wf(),
        ensures
            final(board).wf(),
            final(board)@ == old(board)@,
            r == search_negamax_value(old(board)@, depth as nat, alpha, beta),
        decreases depth,
    {
        let ghost v = board@;
        if board.king_square(board.turn).is_none() {
            let e = BoardEvaluation.evaluate(board);
            return match board.turn {
                Color::White => e,
                Color::Black => wrapping_neg(e),
            };
        }
        match board.game_state() {
            GameState::Checkmate => {
                return -CHECKMATE_SCORE;
            },
            GameState::Stalemate => {
                return 0;
            },
            _ => {},
        }
        if depth == 0 {
            let e = BoardEvaluation.evaluate(board);
            return match board.turn {
                Color::White => e,
                Color::Black => wrapping_neg(e),
            };
        }
        let moves = MoveGenerator::generate_valid_moves(board);
        let ghost d = (depth - 1) as nat;
        let mut best = i32::MIN;
        let mut a = alpha;
        let mut i: usize = 0;
        while i < moves.len()
            invariant
                i <= moves@.len(),
                board.wf(),
                board@ == v,
                v == old(board)@,
                depth > 0,
                d == depth - 1,
                moves@ == valid_moves(v),
                search_negamax_value(v, depth as nat, alpha, beta) == search_negamax_children(
                    v,
                    moves@,
                    i as int,
                    d,
                    a,
                    beta,
                    best,
                ),
            decreases moves@.len() - i,
        {
            let mv = moves.get(i);
            proof {
                lemma_valid_moves_are_valid(v, i as int);
                lemma_undo_restores(v, mv);
            }
            board.move_piece(mv);
            let child = Search::negamax_alpha_beta(board, depth - 1, wrapping_neg(beta), wrapping_neg(a));
            let score = wrapping_neg(child);
            board.undo();
            if score > best {
                best = score;
            }
            if score > a {
                a = score;
            }
            if a >= beta {
                return best;
            }
            i = i + 1;
        }
        best
    }
}

} // verus!
