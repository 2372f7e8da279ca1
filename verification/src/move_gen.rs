//! Move generation: the pseudo-legal moves of a side, and the legal ones.
use crate::bitboard::{set_bits, squares_of, BitBoard};
use crate::attacks::attacked;
use crate::board::{color_at, has_king, king_index, Board, GameState, Position};
use crate::make_move::{can_make, position_after};
use crate::pawn_moves::pawn_moves;
use crate::piece_moves::{castling_moves, diagonal_moves, king_moves, knight_moves, straight_moves};
use crate::undo_move::{lemma_undo_restores, restores_mover};
use crate::bits::group_bits;
use crate::piece::{Color, MoveKind, PieceMove, PieceMoveList, PieceType};
use crate::square::{group_square, sq_of, Square};
use vstd::prelude::*;

verus! {

broadcast use {group_bits, group_square};

/// The width of the board, in squares.
pub const BOARDWIDTH: u8 = 8;

/// The squares of the second rank.
pub const RANK2: u64 = 0xff00;

/// The squares of the seventh rank.
pub const RANK7: u64 = 0x00ff_0000_0000_0000;

/// The squares of the a-file.
pub const FILEA: u64 = 0x0101_0101_0101_0101;

/// The squares of the h-file.
pub const FILEH: u64 = 0x8080_8080_8080_8080;

/// The move generator. Its functions take the board they work on.
pub struct MoveGenerator {}

/// Moves of `kind` from `from` to each of `targets`, in order.
pub open spec fn moves_to(from: Square, targets: Seq<int>, kind: MoveKind) -> Seq<PieceMove> {
    targets.map_values(|t: int| PieceMove { from, to: sq_of(t), kind })
}

/// The quiet moves from `from` to the squares of `quiet`, then the captures
/// to the squares of `capture`, each in increasing order of target.
pub open spec fn step_moves(from: Square, quiet: Seq<int>, capture: Seq<int>) -> Seq<PieceMove> {
    moves_to(from, quiet, MoveKind::Quiet) + moves_to(from, capture, MoveKind::Capture)
}

impl MoveGenerator {
    /// The pieces of the side opposing `color`.
    pub(crate) fn enemy_pieces(board: &Board, color: Color) -> (r: BitBoard)
        requires
            board.wf(),
        ensures
            forall|t: int| #[trigger]
                r.has(t) <==> (0 <= t < 64 && color_at(board@.pieces, t, color.spec_opposite())),
    {
        match color {
            Color::White => board.black,
            Color::Black => board.white,
        }
    }

    /// Appends the moves of `kind` from `from` to each square of `targets`.
    pub(crate) fn push_targets(moves: &mut PieceMoveList, from: Square, targets: BitBoard, kind: MoveKind)
        ensures
            final(moves)@ == old(moves)@ + moves_to(from, set_bits(targets.0), kind),
    {
        let squares = targets.squares();
        let ghost bits = set_bits(targets.0);
        let mut i: usize = 0;
        while i < squares.len()
            invariant
                i <= squares@.len(),
                squares@ == squares_of(targets.0),
                bits == set_bits(targets.0),
                moves@ == old(moves)@ + moves_to(from, bits.take(i as int), kind),
            decreases squares.len() - i,
        {
            let to = squares[i];
            moves.push(PieceMove::new(from, to, kind));
            proof {
                assert(bits.take(i + 1) =~= bits.take(i as int).push(bits[i as int]));
                assert(moves_to(from, bits.take(i + 1), kind) =~= moves_to(from, bits.take(i as int), kind).push(
                    PieceMove { from, to, kind },
                ));
            }
            i = i + 1;
        }
        proof {
            assert(bits.take(i as int) =~= bits);
        }
    }

    /// Appends the quiet moves from `from` to the empty squares it attacks,
    /// then the captures of the enemy pieces it attacks.
    pub(crate) fn push_moves(
        moves: &mut PieceMoveList,
        from: Square,
        attacks: BitBoard,
        empty: BitBoard,
        enemies: BitBoard,
    )
        ensures
            final(moves)@ == old(moves)@ + step_moves(
                from,
                set_bits(attacks.0 & empty.0),
                set_bits(attacks.0 & enemies.0),
            ),
    {
        let quiets = attacks.and(empty);
        MoveGenerator::push_targets(moves, from, quiets, MoveKind::Quiet);
        let captures = attacks.and(enemies);
        MoveGenerator::push_targets(moves, from, captures, MoveKind::Capture);
        proof {
            assert(final(moves)@ =~= old(moves)@ + step_moves(
                from,
                set_bits(attacks.0 & empty.0),
                set_bits(attacks.0 & enemies.0),
            ));
        }
    }
}

/// The pseudo-legal moves of `color` in the order the generator lists them:
/// pawn moves, knight moves, king moves, diagonal then straight slider moves,
/// and castling.
#[verifier::opaque]
pub open spec fn pseudo_moves(v: Position, color: Color) -> Seq<PieceMove> {
    pawn_moves(v, color) + knight_moves(v, color) + king_moves(v, color) + diagonal_moves(v, color)
        + straight_moves(v, color) + castling_moves(v, color)
}

/// Whether `color` has a king on `v` that no piece of the other side attacks.
pub open spec fn king_safe(v: Position, color: Color) -> bool {
    has_king(v.pieces, color) && !attacked(v, king_index(v.pieces, color), color.spec_opposite())
}

/// Whether castling on the given wing passes the safety test: neither the
/// square the king crosses, nor the one it lands on, nor the king's own square
/// is attacked.
pub open spec fn castle_safe(v: Position, color: Color, kingside: bool) -> bool {
    let base = if color == Color::White {
        0int
    } else {
        56int
    };
    let (through, destination) = if kingside {
        (base + 5, base + 6)
    } else {
        (base + 3, base + 2)
    };
    let by = color.spec_opposite();
    &&& !attacked(v, through, by)
    &&& !attacked(v, destination, by)
    &&& !attacked(v, king_index(v.pieces, color), by)
}

/// Whether the move `m` of `color` is legal on `v`: a castling move passes
/// the castling safety test, and any other move leaves `color` with a king
/// that is not attacked.
pub open spec fn is_legal(v: Position, m: PieceMove, color: Color) -> bool {
    match m.kind {
        MoveKind::KingCastle => castle_safe(v, color, true),
        MoveKind::QueenCastle => castle_safe(v, color, false),
        _ => king_safe(position_after(v, m), color),
    }
}

/// Whether the pseudo-legal move `m` of the side to move is kept as a valid
/// move: it can be made and taken back, and it is legal.
pub open spec fn valid_move(v: Position, m: PieceMove) -> bool {
    can_make(v, m) && restores_mover(v, m) && is_legal(v, m, v.turn)
}

/// The valid moves of the side to move, in the order of the pseudo-legal ones.
#[verifier::opaque]
pub open spec fn valid_moves(v: Position) -> Seq<PieceMove> {
    pseudo_moves(v, v.turn).filter(|m: PieceMove| valid_move(v, m))
}

impl MoveGenerator {
    /// The pseudo-legal moves of `color`: every move its pieces can make by
    /// the way they move, without regard to the safety of its king.
    pub fn generate_all_moves(board: &Board, color: Color) -> (r: PieceMoveList)
        requires
            board.wf(),
            has_king(board@.pieces, color),
        ensures
            r@ == pseudo_moves(board@, color),
    {
        reveal(pseudo_moves);
        let mut possible_moves = PieceMoveList::new();
        MoveGenerator::generate_pawn_moves(&mut possible_moves, board, color);
        MoveGenerator::generate_knight_moves(&mut possible_moves, board, color);
        MoveGenerator::generate_king_moves(&mut possible_moves, board, color);
        MoveGenerator::generate_diag_slider_moves(&mut possible_moves, board, color);
        MoveGenerator::generate_ortogonal_slider_moves(&mut possible_moves, board, color);
        MoveGenerator::generate_castling(&mut possible_moves, board, color);
        proof {
            assert(possible_moves@ =~= pseudo_moves(board@, color));
        }
        possible_moves
    }

    /// Whether the move `psuedo_legal_move` of `color` is legal. A castling
    /// move is judged on the board as it stands; any other move is made, the
    /// safety of the king checked, and the move taken back, so that the board
    /// ends as it began. A move after which `color` has no king is not legal.
    pub fn legal_move(psuedo_legal_move: PieceMove, board: &mut Board, color: Color) -> (r: bool)
        requires
            old(board).wf(),
            has_king(old(board)@.pieces, color),
            can_make(old(board)@, psuedo_legal_move),
            restores_mover(old(board)@, psuedo_legal_move),
        ensures
            final(board).wf(),
            final(board)@ == old(board)@,
            r == is_legal(old(board)@, psuedo_legal_move, color),
    {
        let opposite_color = color.opposite();
        if psuedo_legal_move.kind == MoveKind::KingCastle {
            let (through, destination) = match color {
                Color::White => (Square::F1, Square::G1),
                Color::Black => (Square::F8, Square::G8),
            };
            let king = board.king(color);
            let legal = !MoveGenerator::is_square_attacked(board, through, opposite_color)
                && !MoveGenerator::is_square_attacked(board, destination, opposite_color)
                && !MoveGenerator::is_square_attacked(board, king, opposite_color);
            return legal;
        }
        if psuedo_legal_move.kind == MoveKind::QueenCastle {
            let (through, destination) = match color {
                Color::White => (Square::D1, Square::C1),
                Color::Black => (Square::D8, Square::C8),
            };
            let king = board.king(color);
            let legal = !MoveGenerator::is_square_attacked(board, through, opposite_color)
                && !MoveGenerator::is_square_attacked(board, destination, opposite_color)
                && !MoveGenerator::is_square_attacked(board, king, opposite_color);
            return legal;
        }
        let ghost v = board@;
        board.move_piece(psuedo_legal_move);
        let legal = match board.king_square(color) {
            Some(king) => !MoveGenerator::is_square_attacked(board, king, opposite_color),
            None => false,
        };
        proof {
            lemma_undo_restores(v, psuedo_legal_move);
        }
        board.undo();
        legal
    }

    /// The valid moves of the side to move, in the order of the pseudo-legal
    /// ones. The board ends as it began.
    pub fn generate_valid_moves(board: &mut Board) -> (r: PieceMoveList)
        requires
            old(board).wf(),
            has_king(old(board)@.pieces, old(board).turn),
        ensures
            final(board).wf(),
            final(board)@ == old(board)@,
            r@ == valid_moves(old(board)@),
    {
        reveal(valid_moves);
        let color = board.turn;
        let ghost v = board@;
        let all = MoveGenerator::generate_all_moves(board, color);
        let ghost p = |m: PieceMove| valid_move(v, m);
        let mut valid = PieceMoveList::new();
        let mut i: usize = 0;
        while i < all.len()
            invariant
                i <= all@.len(),
                board.wf(),
                board@ == v,
                color == v.turn,
                has_king(v.pieces, color),
                all@ == pseudo_moves(v, color),
                p == (|m: PieceMove| valid_move(v, m)),
                valid@ == all@.take(i as int).filter(p),
            decreases all@.len() - i,
        {
            let mv = all.get(i);
            let keep = if board.can_make_move(mv) {
                MoveGenerator::legal_move(mv, board, color)
            } else {
                false
            };
            if keep {
                valid.push(mv);
            }
            proof {
                assert(all@.take(i + 1) =~= all@.take(i as int).push(mv));
                all@.take(i as int).lemma_filter_push(mv, p);
            }
            i = i + 1;
        }
        proof {
            assert(all@.take(i as int) =~= all@);
        }
        valid
    }

    /// The valid moves of the side to move that start on `from`. The board
    /// ends as it began.
    pub fn generate_valid_moves_from(board: &mut Board, from: Square) -> (r: PieceMoveList)
        requires
            old(board).wf(),
            has_king(old(board)@.pieces, old(board).turn),
        ensures
            final(board).wf(),
            final(board)@ == old(board)@,
            r@ == valid_moves(old(board)@).filter(|m: PieceMove| m.from == from),
    {
        let all = MoveGenerator::generate_valid_moves(board);
        let ghost p = |m: PieceMove| m.from == from;
        let mut selected = PieceMoveList::new();
        let mut i: usize = 0;
        while i < all.len()
            invariant
                i <= all@.len(),
                p == (|m: PieceMove| m.from == from),
                selected@ == all@.take(i as int).filter(p),
            decreases all@.len() - i,
        {
            let mv = all.get(i);
            if mv.from == from {
                selected.push(mv);
            }
            proof {
                assert(all@.take(i + 1) =~= all@.take(i as int).push(mv));
                all@.take(i as int).lemma_filter_push(mv, p);
            }
            i = i + 1;
        }
        proof {
            assert(all@.take(i as int) =~= all@);
        }
        selected
    }
}

/// Whether the king of `color` is attacked.
pub open spec fn in_check(v: Position, color: Color) -> bool {
    attacked(v, king_index(v.pieces, color), color.spec_opposite())
}

/// The state of the game for the side to move: checkmate or stalemate when
/// it has no valid move (in check or not), otherwise a draw by the fifty-move
/// rule once the half-move clock reaches 100, otherwise check or an ongoing
/// game.
#[verifier::opaque]
pub open spec fn game_state_of(v: Position) -> GameState {
    if valid_moves(v).len() == 0 {
        if in_check(v, v.turn) {
            GameState::Checkmate
        } else {
            GameState::Stalemate
        }
    } else if v.half_move >= 100 {
        GameState::FiftyMoveRule
    } else if in_check(v, v.turn) {
        GameState::Check
    } else {
        GameState::Ongoing
    }
}

impl Board {
    /// Whether the king of `color` is attacked.
    pub fn is_in_check(&self, color: Color) -> (r: bool)
        requires
            self.wf(),
            has_king(self@.pieces, color),
        ensures
            r == in_check(self@, color),
    {
        let king = self.king(color);
        MoveGenerator::is_square_attacked(self, king, color.opposite())
    }

    /// The state of the game for the side to move. The board ends as it began.
    pub fn game_state(&mut self) -> (r: GameState)
        requires
            old(self).wf(),
            has_king(old(self)@.pieces, old(self).turn),
        ensures
            final(self).wf(),
            final(self)@ == old(self)@,
            r == game_state_of(old(self)@),
            r == GameState::Checkmate <==> (valid_moves(old(self)@).len() == 0 && in_check(
                old(self)@,
                old(self).turn,
            )),
            r == GameState::Stalemate <==> (valid_moves(old(self)@).len() == 0 && !in_check(
                old(self)@,
                old(self).turn,
            )),
    {
        reveal(game_state_of);
        let moves = MoveGenerator::generate_valid_moves(self);
        let check = self.is_in_check(self.turn);
        if moves.is_empty() {
            if check {
                GameState::Checkmate
            } else {
                GameState::Stalemate
            }
        } else if self.half_move >= 100 {
            GameState::FiftyMoveRule
        } else if check {
            GameState::Check
        } else {
            GameState::Ongoing
        }
    }
}

/// Every move that `generate_valid_moves` returns is valid: it can be made,
/// taken back, and is legal.
pub proof fn lemma_valid_moves_are_valid(v: Position, k: int)
    requires
        0 <= k < valid_moves(v).len(),
    ensures
        valid_move(v, valid_moves(v)[k]),
        can_make(v, valid_moves(v)[k]),
        restores_mover(v, valid_moves(v)[k]),
{
    reveal(valid_moves);
    pseudo_moves(v, v.turn).lemma_filter_pred(|m: PieceMove| valid_move(v, m), k);
}

/// What each game state means: the side to move is checkmated exactly when
/// it has no valid move and its king is attacked, and stalemated exactly when
/// it has no valid move and its king is not attacked; the fifty-move draw
/// needs a valid move and a half-move clock of at least 100; check means the
/// king is attacked, an ongoing game that it is not.
pub proof fn lemma_game_state_meaning(v: Position)
    ensures
        (game_state_of(v) == GameState::Checkmate) <==> (valid_moves(v).len() == 0 && in_check(
            v,
            v.turn,
        )),
        (game_state_of(v) == GameState::Stalemate) <==> (valid_moves(v).len() == 0 && !in_check(
            v,
            v.turn,
        )),
        game_state_of(v) == GameState::FiftyMoveRule ==> valid_moves(v).len() > 0 && v.half_move
            >= 100,
        game_state_of(v) == GameState::Check ==> valid_moves(v).len() > 0 && in_check(v, v.turn),
        game_state_of(v) == GameState::Ongoing ==> valid_moves(v).len() > 0 && !in_check(v, v.turn),
        game_state_of(v) == GameState::Checkmate ==> game_state_of(v) != GameState::Stalemate,
{
    reveal(game_state_of);
}

} // verus!
