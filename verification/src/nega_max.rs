//! Negamax search with alpha-beta pruning and move ordering.
use crate::board::{has_king, Board, Position};
use crate::eval::Evaluator;
use crate::make_move::{ix, position_after};
use crate::move_gen::{in_check, lemma_valid_moves_are_valid, valid_move, valid_moves, MoveGenerator};
use crate::piece::{Color, MoveKind, PieceMove, PieceType};
use crate::search::minimax_value;
use crate::searcher::{max_score, neg_wrap, wrapping_neg, Searcher, CHECKMATE_SCORE};
use crate::undo_move::lemma_undo_restores;
use vstd::prelude::*;

verus! {

/// The score of a position where the side to move has no move but is not in
/// check.
pub const DRAW_SCORE: i32 = -50;

/// A move with the score that orders it.
#[derive(Clone, Copy)]
struct ScoredMove {
    mv: PieceMove,
    score: i32,
}

/// The ordering score of `m` on `v`: 10000 for a promotion, ten times the
/// value of the victim less the value of the attacker for a capture, 0
/// otherwise.
pub open spec fn move_score(v: Position, m: PieceMove) -> i32 {
    match m.kind {
        MoveKind::Promotion(_) => 10_000,
        MoveKind::Capture => (10 * v.pieces[ix(m.to)]->0.piece_type.spec_value()
            - v.pieces[ix(m.from)]->0.piece_type.spec_value()) as i32,
        _ => 0,
    }
}

/// `s` with `x` inserted after every element whose score is at least that of
/// `x`, walking from the end.
pub open spec fn insert_by_score(s: Seq<(i32, PieceMove)>, x: (i32, PieceMove)) -> Seq<
    (i32, PieceMove),
>
    decreases s.len(),
{
    if s.len() == 0 {
        seq![x]
    } else if s.last().0 >= x.0 {
        s.push(x)
    } else {
        insert_by_score(s.drop_last(), x).push(s.last())
    }
}

/// `s` sorted by decreasing score, keeping the order of equal scores (an
/// insertion sort).
pub open spec fn sort_by_score(s: Seq<(i32, PieceMove)>) -> Seq<(i32, PieceMove)>
    decreases s.len(),
{
    if s.len() == 0 {
        s
    } else {
        insert_by_score(sort_by_score(s.drop_last()), s.last())
    }
}

/// The valid moves of `v` with their ordering scores.
pub open spec fn scored_moves(v: Position) -> Seq<(i32, PieceMove)> {
    valid_moves(v).map_values(|m: PieceMove| (move_score(v, m), m))
}

/// The valid moves of `v` in search order: by decreasing ordering score,
/// equal scores in generation order.
pub open spec fn ordered(v: Position) -> Seq<PieceMove> {
    sort_by_score(scored_moves(v)).map_values(|p: (i32, PieceMove)| p.1)
}

/// Inserting keeps every element and adds `x`.
proof fn lemma_insert_contains(s: Seq<(i32, PieceMove)>, x: (i32, PieceMove))
    ensures
        insert_by_score(s, x).len() == s.len() + 1,
        forall|y: (i32, PieceMove)| #[trigger]
            insert_by_score(s, x).contains(y) <==> (s.contains(y) || y == x),
    decreases s.len(),
{
    if s.len() > 0 && s.last().0 < x.0 {
        lemma_insert_contains(s.drop_last(), x);
        let r = insert_by_score(s.drop_last(), x);
        assert forall|y: (i32, PieceMove)|
            r.push(s.last()).contains(y) <==> (s.contains(y) || y == x) by {
            if s.contains(y) {
                let k = choose|k: int| 0 <= k < s.len() && s[k] == y;
                if k < s.len() - 1 {
                    assert(s.drop_last()[k] == y);
                    assert(r.contains(y));
                    let j = choose|j: int| 0 <= j < r.len() && r[j] == y;
                    assert(r.push(s.last())[j] == y);
                } else {
                    assert(r.push(s.last())[r.len() as int] == y);
                }
            }
            if r.push(s.last()).contains(y) {
                let j = choose|j: int| 0 <= j < r.len() + 1 && r.push(s.last())[j] == y;
                if j < r.len() {
                    assert(r.contains(y));
                    if s.drop_last().contains(y) {
                        let k = choose|k: int| 0 <= k < s.drop_last().len() && s.drop_last()[k] == y;
                        assert(s[k] == y);
                    }
                } else {
                    assert(s[s.len() - 1] == y);
                }
            }
            if y == x {
                assert(r.contains(x));
                let j = choose|j: int| 0 <= j < r.len() && r[j] == x;
                assert(r.push(s.last())[j] == x);
            }
        }
    } else if s.len() > 0 {
        assert forall|y: (i32, PieceMove)| s.push(x).contains(y) <==> (s.contains(y) || y == x) by {
            if s.contains(y) {
                let k = choose|k: int| 0 <= k < s.len() && s[k] == y;
                assert(s.push(x)[k] == y);
            }
            if s.push(x).contains(y) {
                let j = choose|j: int| 0 <= j < s.len() + 1 && s.push(x)[j] == y;
                if j < s.len() {
                    assert(s[j] == y);
                }
            }
            if y == x {
                assert(s.push(x)[s.len() as int] == x);
            }
        }
    } else {
        assert forall|y: (i32, PieceMove)| seq![x].contains(y) <==> (s.contains(y) || y == x) by {
            if y == x {
                assert(seq![x][0] == x);
            }
        }
    }
}

/// Sorting keeps the elements.
proof fn lemma_sort_contains(s: Seq<(i32, PieceMove)>)
    ensures
        sort_by_score(s).len() == s.len(),
        forall|y: (i32, PieceMove)| #[trigger] sort_by_score(s).contains(y) <==> s.contains(y),
    decreases s.len(),
{
    if s.len() > 0 {
        lemma_sort_contains(s.drop_last());
        lemma_insert_contains(sort_by_score(s.drop_last()), s.last());
        assert forall|y: (i32, PieceMove)| #[trigger] sort_by_score(s).contains(y) <==> s.contains(y) by {
            if s.contains(y) {
                let k = choose|k: int| 0 <= k < s.len() && s[k] == y;
                if k < s.len() - 1 {
                    assert(s.drop_last()[k] == y);
                }
            }
            if s.drop_last().contains(y) {
                let k = choose|k: int| 0 <= k < s.drop_last().len() && s.drop_last()[k] == y;
                assert(s[k] == y);
            }
            if y == s.last() {
                assert(s[s.len() - 1] == y);
            }
        }
    }
}

/// Every move of the search order is a valid move.
pub proof fn lemma_ordered_valid(v: Position, k: int)
    requires
        0 <= k < ordered(v).len(),
    ensures
        ordered(v).len() == valid_moves(v).len(),
        valid_moves(v).contains(ordered(v)[k]),
{
    lemma_sort_contains(scored_moves(v));
    let p = sort_by_score(scored_moves(v))[k];
    assert(sort_by_score(scored_moves(v)).contains(p));
    let j = choose|j: int| 0 <= j < scored_moves(v).len() && scored_moves(v)[j] == p;
    assert(valid_moves(v)[j] == p.1);
}

/// The negamax value of `v`, `depth` plies deep, `ply` plies from the root,
/// within the window `(alpha, beta)`, from the side to move's point of view:
/// the evaluation (negated for Black) at depth 0 or when the side to move has
/// no king; when it has no valid move, the checkmate score less the distance
/// from the root if it is in check, the draw score if not; otherwise the
/// best of the children's negated values in search order, cutting off once
/// alpha reaches beta. Negation wraps `i32::MIN` to itself.
pub open spec fn negamax_value(
    ev: spec_fn(Position) -> i32,
    v: Position,
    depth: nat,
    ply: int,
    alpha: i32,
    beta: i32,
) -> i32
    decreases depth, 1int, 0int,
{
    if depth == 0 || !has_king(v.pieces, v.turn) {
        if v.turn == Color::White {
            ev(v)
        } else {
            neg_wrap(ev(v))
        }
    } else if ordered(v).len() == 0 {
        if in_check(v, v.turn) {
            (-CHECKMATE_SCORE + ply) as i32
        } else {
            DRAW_SCORE
        }
    } else {
        negamax_children(ev, v, ordered(v), 0, (depth - 1) as nat, ply, alpha, beta)
    }
}

/// The loop over the children from the `k`-th on, with the current `alpha`.
pub open spec fn negamax_children(
    ev: spec_fn(Position) -> i32,
    v: Position,
    moves: Seq<PieceMove>,
    k: int,
    depth: nat,
    ply: int,
    alpha: i32,
    beta: i32,
) -> i32
    decreases depth + 1, 0int, moves.len() - k,
{
    if k < 0 || k >= moves.len() {
        alpha
    } else {
        let score = neg_wrap(
            negamax_value(ev, position_after(v, moves[k]), depth, ply + 1, neg_wrap(beta), neg_wrap(alpha)),
        );
        let a = max_score(alpha, score);
        if a >= beta {
            a
        } else {
            negamax_children(ev, v, moves, k + 1, depth, ply, a, beta)
        }
    }
}

/// The score of the root move `m` in a search `depth` plies deep.
pub open spec fn negamax_root_score(
    ev: spec_fn(Position) -> i32,
    v: Position,
    m: PieceMove,
    depth: nat,
) -> i32 {
    neg_wrap(negamax_value(ev, position_after(v, m), (depth - 1) as nat, 0, i32::MIN, i32::MAX))
}

/// Inserts `item` after every element whose score is at least its own,
/// walking from the end (one step of an insertion sort).
fn insert_sorted(sorted: &mut Vec<ScoredMove>, item: ScoredMove)
    ensures
        final(sorted)@.map_values(|s: ScoredMove| (s.score, s.mv)) == insert_by_score(
            old(sorted)@.map_values(|s: ScoredMove| (s.score, s.mv)),
            (item.score, item.mv),
        ),
{
    let ghost s = sorted@.map_values(|s: ScoredMove| (s.score, s.mv));
    let ghost x = (item.score, item.mv);
    let mut j: usize = sorted.len();
    proof {
        assert(s.take(j as int) =~= s);
        assert(s.skip(j as int) =~= Seq::<(i32, PieceMove)>::empty());
        assert(insert_by_score(s, x) + Seq::<(i32, PieceMove)>::empty() =~= insert_by_score(s, x));
    }
    while j > 0 && sorted[j - 1].score < item.score
        invariant
            j <= sorted@.len(),
            sorted@.map_values(|s: ScoredMove| (s.score, s.mv)) == s,
            x == (item.score, item.mv),
            insert_by_score(s, x) == insert_by_score(s.take(j as int), x) + s.skip(j as int),
        decreases j,
    {
        proof {
            let t = s.take(j as int);
            assert(s[j - 1].0 == sorted@[j - 1].score);
            assert(t.drop_last() =~= s.take(j - 1));
            assert(t.last() == s[j - 1]);
            assert(insert_by_score(t, x) == insert_by_score(t.drop_last(), x).push(t.last()));
            assert(s.skip(j - 1) =~= seq![s[j - 1]] + s.skip(j as int));
            assert(insert_by_score(s.take(j - 1), x).push(s[j - 1]) + s.skip(j as int)
                =~= insert_by_score(s.take(j - 1), x) + s.skip(j - 1));
        }
        j = j - 1;
    }
    proof {
        if j > 0 {
            assert(s[j - 1].0 == sorted@[j - 1].score);
            assert(s.take(j as int).last() == s[j - 1]);
        }
        assert(insert_by_score(s.take(j as int), x) == s.take(j as int).push(x));
    }
    sorted.insert(j, item);
    proof {
        assert(sorted@.map_values(|s: ScoredMove| (s.score, s.mv)) =~= s.take(j as int).push(x) + s.skip(
            j as int,
        ));
    }
}

/// A coin toss: calls `rand::random::<bool>()`, which draws from the thread's
/// random generator. The result rests on chance, so nothing is stated of it.
#[verifier::external_body]
fn random_coin() -> bool {
    rand::random::<bool>()
}

/// A negamax searcher with alpha-beta pruning and move ordering that scores
/// leaves with `E`.
pub struct NegaMaxAlphaBetaSearcher<E: Evaluator> {
    evaluator: E,
}

impl<E: Evaluator> NegaMaxAlphaBetaSearcher<E> {
    /// The evaluation function of this searcher.
    pub closed spec fn ev(&self) -> spec_fn(Position) -> i32 {
        |v: Position| self.evaluator.evaluation(v)
    }

    pub fn new(evaluator: E) -> (r: Self)
        ensures
            r.ev() == (|v: Position| evaluator.evaluation(v)),
    {
        Self { evaluator }
    }

    /// The negamax value of the board (see `negamax_value`). The board ends
    /// as it began.
    pub fn negamax_alpha_beta(&self, board: &mut Board, depth: u8, ply: u8, alpha: i32, beta: i32) -> (r:
        i32)
        requires
            old(board).wf(),
            depth == 0 || ply + depth <= 255,
        ensures
            final(board).wf(),
            final(board)@ == old(board)@,
            r == negamax_value(self.ev(), old(board)@, depth as nat, ply as int, alpha, beta),
        decreases depth,
    {
        let ghost v = board@;
        if depth == 0 || board.king_square(board.turn).is_none() {
            let e = self.evaluator.evaluate(board);
            return match board.turn {
                Color::White => e,
                Color::Black => wrapping_neg(e),
            };
        }
        let moves = self.ordered_moves(board);
        if moves.len() == 0 {
            if board.is_in_check(board.turn) {
                return -CHECKMATE_SCORE + ply as i32;
            }
            return DRAW_SCORE;
        }
        let ghost d = (depth - 1) as nat;
        let mut a = alpha;
        let mut i: usize = 0;
        while i < moves.len()
            invariant
                i <= moves@.len(),
                board.wf(),
                board@ == v,
                v == old(board)@,
                depth > 0,
                ply + depth <= 255,
                d == depth - 1,
                moves@ == ordered(v),
                moves@.len() > 0,
                negamax_value(self.ev(), v, depth as nat, ply as int, alpha, beta) == negamax_children(
                    self.ev(),
                    v,
                    moves@,
                    i as int,
                    d,
                    ply as int,
                    a,
                    beta,
                ),
            decreases moves@.len() - i,
        {
            let mv = moves[i];
            proof {
                lemma_ordered_valid(v, i as int);
                let k = choose|k: int| 0 <= k < valid_moves(v).len() && valid_moves(v)[k] == mv;
                lemma_valid_moves_are_valid(v, k);
                lemma_undo_restores(v, mv);
            }
            board.move_piece(mv);
            let child = self.negamax_alpha_beta(board, depth - 1, ply + 1, wrapping_neg(beta), wrapping_neg(a));
            let score = wrapping_neg(child);
            board.undo();
            if score > a {
                a = score;
            }
            if a >= beta {
                return a;
            }
            i = i + 1;
        }
        a
    }

    /// The valid moves of the board with their ordering scores, sorted by
    /// decreasing score (equal scores in generation order). The board ends as
    /// it began.
    fn scored_ordered_moves(&self, board: &mut Board) -> (r: Vec<ScoredMove>)
        requires
            old(board).wf(),
            has_king(old(board)@.pieces, old(board).turn),
        ensures
            final(board).wf(),
            final(board)@ == old(board)@,
            r@.map_values(|s: ScoredMove| (s.score, s.mv)) == sort_by_score(scored_moves(old(board)@)),
    {
        let ghost v = board@;
        let valid = MoveGenerator::generate_valid_moves(board);
        let ghost input = scored_moves(v);
        let mut sorted: Vec<ScoredMove> = Vec::new();
        let mut i: usize = 0;
        while i < valid.len()
            invariant
                i <= valid@.len(),
                board.wf(),
                board@ == v,
                valid@ == valid_moves(v),
                input == scored_moves(v),
                sorted@.map_values(|s: ScoredMove| (s.score, s.mv)) == sort_by_score(
                    input.take(i as int),
                ),
            decreases valid@.len() - i,
        {
            let mv = valid.get(i);
            proof {
                lemma_valid_moves_are_valid(v, i as int);
            }
            let score = NegaMaxAlphaBetaSearcher::<E>::score_move(board, mv);
            let item = ScoredMove { mv, score };
            insert_sorted(&mut sorted, item);
            proof {
                assert(input.take(i + 1).drop_last() =~= input.take(i as int));
                assert(input.take(i + 1).last() == (score, mv));
            }
            i = i + 1;
        }
        proof {
            assert(input.take(i as int) =~= input);
        }
        sorted
    }

    /// The valid moves of the board in search order (see `ordered`). The board
    /// ends as it began.
    fn ordered_moves(&self, board: &mut Board) -> (r: Vec<PieceMove>)
        requires
            old(board).wf(),
            has_king(old(board)@.pieces, old(board).turn),
        ensures
            final(board).wf(),
            final(board)@ == old(board)@,
            r@ == ordered(old(board)@),
    {
        let ghost v = board@;
        let scored = self.scored_ordered_moves(board);
        let mut moves: Vec<PieceMove> = Vec::new();
        let mut i: usize = 0;
        while i < scored.len()
            invariant
                i <= scored@.len(),
                moves@ == scored@.take(i as int).map_values(|s: ScoredMove| s.mv),
            decreases scored@.len() - i,
        {
            moves.push(scored[i].mv);
            proof {
                assert(scored@.take(i + 1).map_values(|s: ScoredMove| s.mv) =~= scored@.take(
                    i as int,
                ).map_values(|s: ScoredMove| s.mv).push(scored@[i as int].mv));
            }
            i = i + 1;
        }
        proof {
            assert(scored@.take(i as int) =~= scored@);
            assert(moves@ =~= ordered(v));
        }
        moves
    }

    /// The ordering score of a valid move (see `move_score`).
    fn score_move(board: &Board, mv: PieceMove) -> (r: i32)
        requires
            board.wf(),
            valid_move(board@, mv),
        ensures
            r == move_score(board@, mv),
    {
        match mv.kind {
            MoveKind::Promotion(_) => 10_000,
            MoveKind::Capture => {
                let victim = match board.piece_on_square.get(mv.to) {
                    Some(p) => p,
                    None => {
                        return 0;
                    },
                };
                let attacker = match board.piece_on_square.get(mv.from) {
                    Some(p) => p,
                    None => {
                        return 0;
                    },
                };
                10 * victim.piece_type.value() - attacker.piece_type.value()
            },
            _ => 0,
        }
    }
}

impl<E: Evaluator> Searcher for NegaMaxAlphaBetaSearcher<E> {
    /// A move of the search order whose score (see `negamax_root_score`) is
    /// the highest, whenever some score is above `i32::MIN`; among moves of
    /// equal highest score a coin decides.
    fn best_move(&mut self, board: &mut Board, depth: u8) -> (r: PieceMove)
        ensures
            ordered(old(board)@).contains(r),
            (exists|k: int|
                0 <= k < ordered(old(board)@).len() && negamax_root_score(
                    old(self).ev(),
                    old(board)@,
                    ordered(old(board)@)[k],
                    depth as nat,
                ) > i32::MIN) ==> forall|k: int|
                0 <= k < ordered(old(board)@).len() ==> negamax_root_score(
                    old(self).ev(),
                    old(board)@,
                    #[trigger] ordered(old(board)@)[k],
                    depth as nat,
                ) <= negamax_root_score(old(self).ev(), old(board)@, r, depth as nat),
    {
        let ghost v = board@;
        let ghost ev = self.ev();
        let mut best_move: Option<PieceMove> = None;
        let mut best_score = i32::MIN;
        let moves = self.ordered_moves(board);
        let mut i: usize = 0;
        proof {
            lemma_ordered_valid(v, 0);
        }
        while i < moves.len()
            invariant
                i <= moves@.len(),
                board.wf(),
                board@ == v,
                v == old(board)@,
                ev == self.ev(),
                ev == old(self).ev(),
                depth > 0,
                moves@ == ordered(v),
                moves@.len() > 0,
                best_move matches Some(m) ==> moves@.contains(m) && negamax_root_score(ev, v, m, depth as nat)
                    == best_score,
                best_move is None ==> best_score == i32::MIN,
                forall|k: int|
                    0 <= k < i ==> negamax_root_score(ev, v, #[trigger] moves@[k], depth as nat)
                        <= best_score,
            decreases moves@.len() - i,
        {
            let mv = moves[i];
            proof {
                lemma_ordered_valid(v, i as int);
                let k = choose|k: int| 0 <= k < valid_moves(v).len() && valid_moves(v)[k] == mv;
                lemma_valid_moves_are_valid(v, k);
                lemma_undo_restores(v, mv);
            }
            board.move_piece(mv);
            let child = self.negamax_alpha_beta(board, depth - 1, 0, i32::MIN, i32::MAX);
            let score = wrapping_neg(child);
            board.undo();
            if score > best_score {
                best_score = score;
                best_move = Some(mv);
            } else if score == best_score && random_coin() {
                best_move = Some(mv);
                best_score = score;
            }
            proof {
                assert(moves@[i as int] == mv);
                if best_move == Some(mv) {
                    assert(moves@.contains(mv));
                }
            }
            i = i + 1;
        }
        match best_move {
            Some(m) => {
                proof {
                    let k = choose|k: int| 0 <= k < moves@.len() && moves@[k] == m;
                    lemma_ordered_valid(v, k);
                }
                m
            },
            None => {
                proof {
                    assert(moves@.contains(moves@[0]));
                    lemma_ordered_valid(v, 0);
                }
                moves[0]
            },
        }
    }
}

/// The search order holds as many moves as there are valid moves.
proof fn lemma_ordered_len(v: Position)
    ensures
        ordered(v).len() == valid_moves(v).len(),
{
    lemma_sort_contains(scored_moves(v));
}

/// The negamax searcher scores a position from the side to move's point of
/// view. A leaf (depth 0) scores the evaluation for White to move and its
/// negation for Black to move, which is the leaf's minimax value signed for
/// the side to move. A side with a king but no valid move scores, one ply or
/// more deep, a loss of `CHECKMATE_SCORE` less the plies already played when
/// it is in check (a negative score), and the draw score otherwise.
pub proof fn lemma_negamax_point_of_view(
    ev: spec_fn(Position) -> i32,
    v: Position,
    depth: nat,
    ply: int,
    alpha: i32,
    beta: i32,
)
    ensures
        depth == 0 && v.turn == Color::White ==> negamax_value(ev, v, depth, ply, alpha, beta)
            == minimax_value(ev, v, 0),
        depth == 0 && v.turn == Color::Black && ev(v) != i32::MIN ==> negamax_value(
            ev,
            v,
            depth,
            ply,
            alpha,
            beta,
        ) == -minimax_value(ev, v, 0),
        depth == 0 && v.turn == Color::Black && ev(v) != i32::MIN ==> negamax_value(
            ev,
            v,
            depth,
            ply,
            alpha,
            beta,
        ) == -ev(v),
        depth >= 1 && has_king(v.pieces, v.turn) && valid_moves(v).len() == 0 && in_check(v, v.turn)
            && 0 <= ply <= 255 ==> negamax_value(ev, v, depth, ply, alpha, beta) == -CHECKMATE_SCORE
            + ply && negamax_value(ev, v, depth, ply, alpha, beta) < 0,
        depth >= 1 && has_king(v.pieces, v.turn) && valid_moves(v).len() == 0 && !in_check(
            v,
            v.turn,
        ) ==> negamax_value(ev, v, depth, ply, alpha, beta) == DRAW_SCORE,
{
    lemma_ordered_len(v);
}

} // verus!
