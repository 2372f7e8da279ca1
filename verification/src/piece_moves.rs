//! Moves of knights, kings, sliding pieces, and castling.
use crate::attacks::{holds, king_attacks_from, knight_attacks_from, occupied_in, ray_attacks_from_sq};
use crate::bitboard::{lemma_set_bits_where, positions_where, set_bits, squares_of, BitBoard};
use crate::board::{color_at, has_king, king_index, Board, Position};
use crate::bits::{bit, group_bits};
use crate::move_gen::{step_moves, MoveGenerator};
use crate::piece::{Color, MoveKind, Piece, PieceMove, PieceMoveList, PieceType};
use crate::rules::{diagonal_reaches, king_step, knight_jump, straight_reaches};
use crate::square::{group_square, sq_of, Square};
use vstd::prelude::*;

verus! {

broadcast use {group_bits, group_square};

/// The empty squares that `reach(t)` selects, in increasing order.
pub open spec fn quiet_targets(v: Position, reach: spec_fn(int) -> bool) -> Seq<int> {
    positions_where(|t: int| reach(t) && 0 <= t < 64 && v.pieces[t] is None)
}

/// The squares holding a piece of the side opposing `color` that `reach(t)`
/// selects, in increasing order.
pub open spec fn capture_targets(v: Position, color: Color, reach: spec_fn(int) -> bool) -> Seq<int> {
    positions_where(|t: int| reach(t) && 0 <= t < 64 && color_at(v.pieces, t, color.spec_opposite()))
}

/// The quiet moves then captures of a piece of `color` on `from` that reaches
/// the squares `reach` selects.
pub open spec fn piece_moves_from(v: Position, color: Color, from: int, reach: spec_fn(int) -> bool) -> Seq<
    PieceMove,
> {
    step_moves(sq_of(from), quiet_targets(v, reach), capture_targets(v, color, reach))
}

/// The knight moves of `color`: for each knight in increasing order of
/// square, its quiet moves then its captures.
pub open spec fn knight_moves(v: Position, color: Color) -> Seq<PieceMove> {
    positions_where(|f: int| holds(v, f, PieceType::Knight, color)).flat_map(
        |f: int| piece_moves_from(v, color, f, |t: int| knight_jump(f, t)),
    )
}

/// The king moves (without castling) of `color`.
pub open spec fn king_moves(v: Position, color: Color) -> Seq<PieceMove> {
    let f = king_index(v.pieces, color);
    piece_moves_from(v, color, f, |t: int| king_step(f, t))
}

/// The diagonal moves of the bishops and queens of `color`.
pub open spec fn diagonal_moves(v: Position, color: Color) -> Seq<PieceMove> {
    positions_where(
        |f: int| holds(v, f, PieceType::Bishop, color) || holds(v, f, PieceType::Queen, color),
    ).flat_map(|f: int| piece_moves_from(v, color, f, |t: int| diagonal_reaches(f, occupied_in(v), t)))
}

/// The straight moves of the rooks and queens of `color`.
pub open spec fn straight_moves(v: Position, color: Color) -> Seq<PieceMove> {
    positions_where(
        |f: int| holds(v, f, PieceType::Rook, color) || holds(v, f, PieceType::Queen, color),
    ).flat_map(|f: int| piece_moves_from(v, color, f, |t: int| straight_reaches(f, occupied_in(v), t)))
}

/// The castling moves of `color`: king-side when that right is kept and the
/// two squares between king and rook are empty, then queen-side when that
/// right is kept and the three squares between are empty.
pub open spec fn castling_moves(v: Position, color: Color) -> Seq<PieceMove> {
    let base = if color == Color::White {
        0int
    } else {
        56int
    };
    let (kingside, queenside) = if color == Color::White {
        (v.castling_rights.white_kingside, v.castling_rights.white_queenside)
    } else {
        (v.castling_rights.black_kingside, v.castling_rights.black_queenside)
    };
    let empty = |i: int| v.pieces[base + i] is None;
    (if kingside && empty(5) && empty(6) {
        seq![PieceMove { from: sq_of(base + 4), to: sq_of(base + 6), kind: MoveKind::KingCastle }]
    } else {
        Seq::empty()
    }) + (if queenside && empty(1) && empty(2) && empty(3) {
        seq![PieceMove { from: sq_of(base + 4), to: sq_of(base + 2), kind: MoveKind::QueenCastle }]
    } else {
        Seq::empty()
    })
}

/// The bitboard of a piece on a well-formed board.
proof fn lemma_piece_bits(board: &Board, piece: Piece, j: int)
    requires
        board.wf(),
    ensures
        0 <= j < 64 ==> board.bitboards.of(piece).has(j) == (board@.pieces[j] == Some(piece)),
{
}

impl MoveGenerator {
    /// Appends the moves of the piece of `color` on `from` that attacks the
    /// squares of `attacks`: quiet moves to the empty ones, then captures.
    fn push_piece_moves(
        moves: &mut PieceMoveList,
        board: &Board,
        color: Color,
        from: Square,
        attacks: BitBoard,
        Ghost(reach): Ghost<spec_fn(int) -> bool>,
    )
        requires
            board.wf(),
            forall|t: int| 0 <= t < 64 ==> #[trigger] attacks.has(t) == reach(t),
        ensures
            final(moves)@ == old(moves)@ + piece_moves_from(board@, color, from.spec_index() as int, reach),
    {
        let enemies = MoveGenerator::enemy_pieces(board, color);
        MoveGenerator::push_moves(moves, from, attacks, board.empty, enemies);
        proof {
            let v = board@;
            let q = |t: int| reach(t) && 0 <= t < 64 && v.pieces[t] is None;
            let c = |t: int| reach(t) && 0 <= t < 64 && color_at(v.pieces, t, color.spec_opposite());
            assert forall|t: int| 0 <= t < 64 implies #[trigger] q(t) == bit(attacks.0 & board.empty.0, t) by {
                assert(board.empty.has(t) == (v.pieces[t] is None));
                assert(attacks.has(t) == reach(t));
            }
            lemma_set_bits_where(attacks.0 & board.empty.0, q);
            assert forall|t: int| 0 <= t < 64 implies #[trigger] c(t) == bit(attacks.0 & enemies.0, t) by {
                assert(attacks.has(t) == reach(t));
                assert(enemies.has(t) == color_at(v.pieces, t, color.spec_opposite()));
            }
            lemma_set_bits_where(attacks.0 & enemies.0, c);
            assert(sq_of(from.spec_index() as int) == from);
        }
    }

    /// Appends the moves of the knights of `color`.
    pub(crate) fn generate_knight_moves(moves: &mut PieceMoveList, board: &Board, color: Color)
        requires
            board.wf(),
        ensures
            final(moves)@ == old(moves)@ + knight_moves(board@, color),
    {
        let knights = board.bitboards.get(color, PieceType::Knight);
        let froms = knights.squares();
        let ghost v = board@;
        let ghost bits = set_bits(knights.0);
        let ghost f = |f: int| piece_moves_from(v, color, f, |t: int| knight_jump(f, t));
        proof {
            crate::bitboard::lemma_positions_from(|j: int| bit(knights.0, j), 0);
        }
        let mut i: usize = 0;
        while i < froms.len()
            invariant
                i <= froms@.len(),
                forall|a: int| 0 <= a < bits.len() ==> 0 <= #[trigger] bits[a] < 64,
                board.wf(),
                v == board@,
                froms@ == squares_of(knights.0),
                bits == set_bits(knights.0),
                f == (|f: int| piece_moves_from(v, color, f, |t: int| knight_jump(f, t))),
                moves@ == old(moves)@ + bits.take(i as int).flat_map(f),
            decreases froms.len() - i,
        {
            let from_sq = froms[i];
            let attacks = knight_attacks_from(from_sq);
            let ghost fi = from_sq.spec_index() as int;
            MoveGenerator::push_piece_moves(moves, board, color, from_sq, attacks, Ghost(|t: int| knight_jump(fi, t)));
            proof {
                assert(fi == bits[i as int]);
                bits.lemma_flat_map_take_append(f, i as int);
            }
            i = i + 1;
        }
        proof {
            assert(bits.take(i as int) =~= bits);
            let p = |f: int| holds(v, f, PieceType::Knight, color);
            assert forall|j: int| 0 <= j < 64 implies #[trigger] p(j) == bit(knights.0, j) by {
                lemma_piece_bits(board, Piece { piece_type: PieceType::Knight, color }, j);
            }
            lemma_set_bits_where(knights.0, p);
        }
    }

    /// Appends the moves (without castling) of the king of `color`.
    pub(crate) fn generate_king_moves(moves: &mut PieceMoveList, board: &Board, color: Color)
        requires
            board.wf(),
            has_king(board@.pieces, color),
        ensures
            final(moves)@ == old(moves)@ + king_moves(board@, color),
    {
        let square = board.king(color);
        let attacks = king_attacks_from(square);
        let ghost f = square.spec_index() as int;
        MoveGenerator::push_piece_moves(moves, board, color, square, attacks, Ghost(|t: int| king_step(f, t)));
    }

    /// Appends the diagonal moves of the bishops and queens of `color`.
    pub(crate) fn generate_diag_slider_moves(moves: &mut PieceMoveList, board: &Board, color: Color)
        requires
            board.wf(),
        ensures
            final(moves)@ == old(moves)@ + diagonal_moves(board@, color),
    {
        let occupied = board.empty.not();
        let sliders = board.bitboards.get(color, PieceType::Queen).or(
            board.bitboards.get(color, PieceType::Bishop),
        );
        let froms = sliders.squares();
        let ghost v = board@;
        let ghost bits = set_bits(sliders.0);
        let ghost f = |f: int| piece_moves_from(v, color, f, |t: int| diagonal_reaches(f, occupied_in(v), t));
        let dirs: [(i8, i8); 4] = [(1, 1), (-1, 1), (1, -1), (-1, -1)];
        proof {
            assert(occupied_in(v) =~= (|i: int| occupied.has(i)));
        }
        proof {
            crate::bitboard::lemma_positions_from(|j: int| bit(sliders.0, j), 0);
        }
        let mut i: usize = 0;
        while i < froms.len()
            invariant
                i <= froms@.len(),
                forall|a: int| 0 <= a < bits.len() ==> 0 <= #[trigger] bits[a] < 64,
                board.wf(),
                v == board@,
                occupied_in(v) == (|i: int| occupied.has(i)),
                dirs@ == seq![(1i8, 1i8), (-1i8, 1i8), (1i8, -1i8), (-1i8, -1i8)],
                froms@ == squares_of(sliders.0),
                bits == set_bits(sliders.0),
                f == (|f: int| piece_moves_from(v, color, f, |t: int| diagonal_reaches(f, occupied_in(v), t))),
                moves@ == old(moves)@ + bits.take(i as int).flat_map(f),
            decreases froms.len() - i,
        {
            let from_sq = froms[i];
            let attacks = ray_attacks_from_sq(from_sq, occupied, &dirs);
            let ghost fi = from_sq.spec_index() as int;
            proof {
                assert forall|t: int| 0 <= t < 64 implies #[trigger] attacks.has(t) == diagonal_reaches(
                    fi,
                    occupied_in(v),
                    t,
                ) by {
                    if attacks.has(t) {
                        let k = choose|k: int|
                            0 <= k < 4 && crate::rules::ray_reaches(
                                fi,
                                dirs@[k].0 as int,
                                dirs@[k].1 as int,
                                |i: int| occupied.has(i),
                                t,
                            );
                    }
                    if diagonal_reaches(fi, occupied_in(v), t) {
                        if crate::rules::ray_reaches(fi, 1, 1, occupied_in(v), t) {
                            assert(crate::rules::ray_reaches(fi, dirs@[0].0 as int, dirs@[0].1 as int, |i: int| occupied.has(i), t));
                        } else if crate::rules::ray_reaches(fi, -1, 1, occupied_in(v), t) {
                            assert(crate::rules::ray_reaches(fi, dirs@[1].0 as int, dirs@[1].1 as int, |i: int| occupied.has(i), t));
                        } else if crate::rules::ray_reaches(fi, 1, -1, occupied_in(v), t) {
                            assert(crate::rules::ray_reaches(fi, dirs@[2].0 as int, dirs@[2].1 as int, |i: int| occupied.has(i), t));
                        } else {
                            assert(crate::rules::ray_reaches(fi, dirs@[3].0 as int, dirs@[3].1 as int, |i: int| occupied.has(i), t));
                        }
                    }
                }
            }
            MoveGenerator::push_piece_moves(
                moves,
                board,
                color,
                from_sq,
                attacks,
                Ghost(|t: int| diagonal_reaches(fi, occupied_in(v), t)),
            );
            proof {
                assert(fi == bits[i as int]);
                bits.lemma_flat_map_take_append(f, i as int);
            }
            i = i + 1;
        }
        proof {
            assert(bits.take(i as int) =~= bits);
            let p = |f: int| holds(v, f, PieceType::Bishop, color) || holds(v, f, PieceType::Queen, color);
            assert forall|j: int| 0 <= j < 64 implies #[trigger] p(j) == bit(sliders.0, j) by {
                lemma_piece_bits(board, Piece { piece_type: PieceType::Bishop, color }, j);
                lemma_piece_bits(board, Piece { piece_type: PieceType::Queen, color }, j);
            }
            lemma_set_bits_where(sliders.0, p);
        }
    }

    /// Appends the straight moves of the rooks and queens of `color`.
    pub(crate) fn generate_ortogonal_slider_moves(moves: &mut PieceMoveList, board: &Board, color: Color)
        requires
            board.wf(),
        ensures
            final(moves)@ == old(moves)@ + straight_moves(board@, color),
    {
        let occupied = board.empty.not();
        let sliders = board.bitboards.get(color, PieceType::Queen).or(
            board.bitboards.get(color, PieceType::Rook),
        );
        let froms = sliders.squares();
        let ghost v = board@;
        let ghost bits = set_bits(sliders.0);
        let ghost f = |f: int| piece_moves_from(v, color, f, |t: int| straight_reaches(f, occupied_in(v), t));
        let dirs: [(i8, i8); 4] = [(1, 0), (-1, 0), (0, 1), (0, -1)];
        proof {
            assert(occupied_in(v) =~= (|i: int| occupied.has(i)));
        }
        proof {
            crate::bitboard::lemma_positions_from(|j: int| bit(sliders.0, j), 0);
        }
        let mut i: usize = 0;
        while i < froms.len()
            invariant
                i <= froms@.len(),
                forall|a: int| 0 <= a < bits.len() ==> 0 <= #[trigger] bits[a] < 64,
                board.wf(),
                v == board@,
                occupied_in(v) == (|i: int| occupied.has(i)),
                dirs@ == seq![(1i8, 0i8), (-1i8, 0i8), (0i8, 1i8), (0i8, -1i8)],
                froms@ == squares_of(sliders.0),
                bits == set_bits(sliders.0),
                f == (|f: int| piece_moves_from(v, color, f, |t: int| straight_reaches(f, occupied_in(v), t))),
                moves@ == old(moves)@ + bits.take(i as int).flat_map(f),
            decreases froms.len() - i,
        {
            let from_sq = froms[i];
            let attacks = ray_attacks_from_sq(from_sq, occupied, &dirs);
            let ghost fi = from_sq.spec_index() as int;
            proof {
                assert forall|t: int| 0 <= t < 64 implies #[trigger] attacks.has(t) == straight_reaches(
                    fi,
                    occupied_in(v),
                    t,
                ) by {
                    if attacks.has(t) {
                        let k = choose|k: int|
                            0 <= k < 4 && crate::rules::ray_reaches(
                                fi,
                                dirs@[k].0 as int,
                                dirs@[k].1 as int,
                                |i: int| occupied.has(i),
                                t,
                            );
                    }
                    if straight_reaches(fi, occupied_in(v), t) {
                        if crate::rules::ray_reaches(fi, 1, 0, occupied_in(v), t) {
                            assert(crate::rules::ray_reaches(fi, dirs@[0].0 as int, dirs@[0].1 as int, |i: int| occupied.has(i), t));
                        } else if crate::rules::ray_reaches(fi, -1, 0, occupied_in(v), t) {
                            assert(crate::rules::ray_reaches(fi, dirs@[1].0 as int, dirs@[1].1 as int, |i: int| occupied.has(i), t));
                        } else if crate::rules::ray_reaches(fi, 0, 1, occupied_in(v), t) {
                            assert(crate::rules::ray_reaches(fi, dirs@[2].0 as int, dirs@[2].1 as int, |i: int| occupied.has(i), t));
                        } else {
                            assert(crate::rules::ray_reaches(fi, dirs@[3].0 as int, dirs@[3].1 as int, |i: int| occupied.has(i), t));
                        }
                    }
                }
            }
            MoveGenerator::push_piece_moves(
                moves,
                board,
                color,
                from_sq,
                attacks,
                Ghost(|t: int| straight_reaches(fi, occupied_in(v), t)),
            );
            proof {
                assert(fi == bits[i as int]);
                bits.lemma_flat_map_take_append(f, i as int);
            }
            i = i + 1;
        }
        proof {
            assert(bits.take(i as int) =~= bits);
            let p = |f: int| holds(v, f, PieceType::Rook, color) || holds(v, f, PieceType::Queen, color);
            assert forall|j: int| 0 <= j < 64 implies #[trigger] p(j) == bit(sliders.0, j) by {
                lemma_piece_bits(board, Piece { piece_type: PieceType::Rook, color }, j);
                lemma_piece_bits(board, Piece { piece_type: PieceType::Queen, color }, j);
            }
            lemma_set_bits_where(sliders.0, p);
        }
    }

    /// Appends the castling moves of `color` whose right is kept and whose
    /// squares between king and rook are empty.
    pub fn generate_castling(moves: &mut PieceMoveList, board: &Board, color: Color)
        requires
            board.wf(),
        ensures
            final(moves)@ == old(moves)@ + castling_moves(board@, color),
    {
        match color {
            Color::White => {
                if board.castling_rights.white_kingside && board.empty.is_set(Square::F1)
                    && board.empty.is_set(Square::G1) {
                    moves.push(PieceMove::new(Square::E1, Square::G1, MoveKind::KingCastle))
                }
                if board.castling_rights.white_queenside && board.empty.is_set(Square::B1)
                    && board.empty.is_set(Square::C1) && board.empty.is_set(Square::D1) {
                    moves.push(PieceMove::new(Square::E1, Square::C1, MoveKind::QueenCastle))
                }
            },
            Color::Black => {
                if board.castling_rights.black_kingside && board.empty.is_set(Square::F8)
                    && board.empty.is_set(Square::G8) {
                    moves.push(PieceMove::new(Square::E8, Square::G8, MoveKind::KingCastle))
                }
                if board.castling_rights.black_queenside && board.empty.is_set(Square::B8)
                    && board.empty.is_set(Square::C8) && board.empty.is_set(Square::D8) {
                    moves.push(PieceMove::new(Square::E8, Square::C8, MoveKind::QueenCastle))
                }
            },
        }
        proof {
            assert(moves@ =~= old(moves)@ + castling_moves(board@, color));
        }
    }
}

} // verus!
