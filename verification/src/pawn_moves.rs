//! Pawn moves: pushes, double pushes, captures, promotions and en passant.
use crate::attacks::holds;
use crate::bitboard::{lemma_set_bits_where, positions_where, set_bits, squares_of, BitBoard};
use crate::board::{color_at, Board, Position};
use crate::bits::{group_bits, group_board_masks};
use crate::make_move::ix;
use crate::move_gen::{MoveGenerator, BOARDWIDTH, FILEA, FILEH, RANK2, RANK7};
use crate::bits::bit;
use crate::piece::{Color, MoveKind, PieceMove, PieceMoveList, PieceType};
use crate::rules::{file_of, rank_of};
use crate::square::{group_square, sq_of, Square};
use vstd::prelude::*;

verus! {

broadcast use {group_bits, group_square, group_board_masks};

/// How many indices a pawn of `color` advances when it moves `offset`
/// indices forward: up the board for White, down for Black.
pub open spec fn pawn_delta(color: Color, offset: int) -> int {
    match color {
        Color::White => offset,
        Color::Black => -offset,
    }
}

/// The rank a pawn of `color` promotes from (the seventh for White, the
/// second for Black).
pub open spec fn last_rank(color: Color) -> int {
    match color {
        Color::White => 6,
        Color::Black => 1,
    }
}

/// The rank a pawn of `color` starts on.
pub open spec fn start_rank(color: Color) -> int {
    match color {
        Color::White => 1,
        Color::Black => 6,
    }
}

/// The file a pawn of `color` cannot capture from when it moves `offset`
/// (7 or 9) indices forward: the edge it would wrap around.
pub open spec fn capture_edge(color: Color, offset: int) -> int {
    if (color == Color::White) == (offset == 7) {
        0
    } else {
        7
    }
}

/// Pawn moves of `kind` to each of `targets`, each from the square `offset`
/// indices behind it (as seen by `color`).
pub open spec fn pawn_moves_to(targets: Seq<int>, color: Color, offset: int, kind: MoveKind) -> Seq<
    PieceMove,
> {
    targets.map_values(
        |t: int| PieceMove { from: sq_of(t - pawn_delta(color, offset)), to: sq_of(t), kind },
    )
}

/// The four promotions, queen first, of a pawn moving from `from` to `to`.
pub open spec fn promotions(from: Square, to: Square, capture: bool) -> Seq<PieceMove> {
    seq![PieceType::Queen, PieceType::Rook, PieceType::Bishop, PieceType::Knight].map_values(
        |pt: PieceType|
            PieceMove {
                from,
                to,
                kind: if capture {
                    MoveKind::PromotionCapture(pt)
                } else {
                    MoveKind::Promotion(pt)
                },
            },
    )
}

/// The promotions onto each of `targets`, from the square `offset` indices
/// behind it.
pub open spec fn promotion_moves_to(targets: Seq<int>, color: Color, offset: int, capture: bool) -> Seq<
    PieceMove,
> {
    targets.flat_map(
        |t: int| promotions(sq_of(t - pawn_delta(color, offset)), sq_of(t), capture),
    )
}

/// The pawn of `color` stands `offset` indices behind `t`.
pub open spec fn pawn_behind(v: Position, color: Color, offset: int, t: int) -> bool {
    let f = t - pawn_delta(color, offset);
    0 <= t < 64 && 0 <= f < 64 && holds(v, f, PieceType::Pawn, color)
}

/// Targets of single pushes: the empty square in front of a pawn that is not
/// about to promote.
pub open spec fn single_push_target(v: Position, color: Color) -> spec_fn(int) -> bool {
    |t: int|
        pawn_behind(v, color, 8, t) && rank_of(t - pawn_delta(color, 8)) != last_rank(color)
            && v.pieces[t] is None
}

/// Targets of double pushes: two empty squares in front of a pawn on its
/// starting rank.
pub open spec fn double_push_target(v: Position, color: Color) -> spec_fn(int) -> bool {
    |t: int|
        pawn_behind(v, color, 16, t) && rank_of(t - pawn_delta(color, 16)) == start_rank(color)
            && v.pieces[t - pawn_delta(color, 8)] is None && v.pieces[t] is None
}

/// Targets of captures without promotion, moving `offset` (7 or 9) indices.
pub open spec fn capture_target(v: Position, color: Color, offset: int) -> spec_fn(int) -> bool {
    |t: int|
        pawn_behind(v, color, offset, t) && file_of(t - pawn_delta(color, offset)) != capture_edge(
            color,
            offset,
        ) && rank_of(t - pawn_delta(color, offset)) != last_rank(color) && color_at(
            v.pieces,
            t,
            color.spec_opposite(),
        )
}

/// Targets of promotions by a push.
pub open spec fn promotion_push_target(v: Position, color: Color) -> spec_fn(int) -> bool {
    |t: int|
        pawn_behind(v, color, 8, t) && rank_of(t - pawn_delta(color, 8)) == last_rank(color)
            && v.pieces[t] is None
}

/// Targets of promotions by a capture, moving `offset` (7 or 9) indices.
pub open spec fn promotion_capture_target(v: Position, color: Color, offset: int) -> spec_fn(
    int,
) -> bool {
    |t: int|
        pawn_behind(v, color, offset, t) && file_of(t - pawn_delta(color, offset)) != capture_edge(
            color,
            offset,
        ) && rank_of(t - pawn_delta(color, offset)) == last_rank(color) && color_at(
            v.pieces,
            t,
            color.spec_opposite(),
        )
}

/// Targets of en passant captures, moving `offset` (7 or 9) indices: the en
/// passant square, diagonally in front of a pawn.
pub open spec fn en_passant_target(v: Position, color: Color, offset: int) -> spec_fn(int) -> bool {
    |t: int|
        pawn_behind(v, color, offset, t) && file_of(t - pawn_delta(color, offset)) != capture_edge(
            color,
            offset,
        ) && (v.enpassant matches Some(e) && t == ix(e))
}

/// All pawn moves of `color`, in the order the generator lists them.
pub open spec fn pawn_moves(v: Position, color: Color) -> Seq<PieceMove> {
    pawn_moves_to(positions_where(single_push_target(v, color)), color, 8, MoveKind::Quiet)
        + pawn_moves_to(
        positions_where(double_push_target(v, color)),
        color,
        16,
        MoveKind::DoublePawnPush,
    ) + pawn_moves_to(positions_where(capture_target(v, color, 7)), color, 7, MoveKind::Capture)
        + pawn_moves_to(positions_where(capture_target(v, color, 9)), color, 9, MoveKind::Capture)
        + promotion_moves_to(positions_where(promotion_push_target(v, color)), color, 8, false)
        + promotion_moves_to(positions_where(promotion_capture_target(v, color, 7)), color, 7, true)
        + promotion_moves_to(positions_where(promotion_capture_target(v, color, 9)), color, 9, true)
        + pawn_moves_to(
        positions_where(en_passant_target(v, color, 7)),
        color,
        7,
        MoveKind::EnPassant,
    ) + pawn_moves_to(positions_where(en_passant_target(v, color, 9)), color, 9, MoveKind::EnPassant)
}

/// The pawns of `color` on a well-formed board.
proof fn lemma_pawn_bits(board: &Board, color: Color, j: int)
    requires
        board.wf(),
    ensures
        0 <= j < 64 ==> board.bitboards.of(crate::piece::Piece { piece_type: PieceType::Pawn, color }).has(j)
            == holds(board@, j, PieceType::Pawn, color),
{
}

impl MoveGenerator {
    /// The square `offset` indices behind `to`, as seen by `color`.
    pub(crate) fn pawn_from_square(to: Square, color: Color, offset: u8) -> (r: Square)
        requires
            0 <= to.spec_index() - pawn_delta(color, offset as int) < 64,
        ensures
            r.spec_index() == to.spec_index() - pawn_delta(color, offset as int),
    {
        match color {
            Color::White => to.minus(offset),
            Color::Black => to.plus(offset),
        }
    }

    /// The pawns moved `offset` indices forward, as seen by `color`.
    pub(crate) fn pawn_step(pawns: BitBoard, color: Color, offset: u8) -> (r: BitBoard)
        requires
            offset < 64,
        ensures
            forall|t: int| #[trigger]
                r.has(t) <==> (0 <= t < 64 && pawns.has(t - pawn_delta(color, offset as int))),
    {
        match color {
            Color::White => pawns.shl(offset),
            Color::Black => pawns.shr(offset),
        }
    }


    /// The pawns of `bb` that are not on the rank they promote from.
    fn off_last_rank(bb: BitBoard, color: Color) -> (r: BitBoard)
        ensures
            forall|j: int| #[trigger] r.has(j) <==> (bb.has(j) && rank_of(j) != last_rank(color)),
    {
        match color {
            Color::White => bb.and(BitBoard(RANK7).not()),
            Color::Black => bb.and(BitBoard(RANK2).not()),
        }
    }

    /// The pawns of `bb` that are on the rank they promote from.
    fn on_last_rank(bb: BitBoard, color: Color) -> (r: BitBoard)
        ensures
            forall|j: int| #[trigger] r.has(j) <==> (bb.has(j) && rank_of(j) == last_rank(color)),
    {
        match color {
            Color::White => bb.and(BitBoard(RANK7)),
            Color::Black => bb.and(BitBoard(RANK2)),
        }
    }

    /// The pawns of `bb` that are on their starting rank.
    fn on_start_rank(bb: BitBoard, color: Color) -> (r: BitBoard)
        ensures
            forall|j: int| #[trigger] r.has(j) <==> (bb.has(j) && rank_of(j) == start_rank(color)),
    {
        match color {
            Color::White => bb.and(BitBoard(RANK2)),
            Color::Black => bb.and(BitBoard(RANK7)),
        }
    }

    /// The pawns of `bb` that can capture `offset` (7 or 9) indices forward
    /// without wrapping around the edge of the board.
    fn off_capture_edge(bb: BitBoard, color: Color, offset: u8) -> (r: BitBoard)
        requires
            offset == 7 || offset == 9,
        ensures
            forall|j: int| #[trigger]
                r.has(j) <==> (bb.has(j) && file_of(j) != capture_edge(color, offset as int)),
    {
        if (color == Color::White) == (offset == 7) {
            bb.and(BitBoard(FILEA).not())
        } else {
            bb.and(BitBoard(FILEH).not())
        }
    }

    fn generate_single_push_pawn_moves(board: &Board, color: Color, moves: &mut PieceMoveList)
        requires
            board.wf(),
        ensures
            final(moves)@ == old(moves)@ + pawn_moves_to(
                positions_where(single_push_target(board@, color)),
                color,
                8,
                MoveKind::Quiet,
            ),
    {
        let bb = board.bitboards.get(color, PieceType::Pawn);
        let movers = MoveGenerator::off_last_rank(bb, color);
        let destinations = MoveGenerator::pawn_step(movers, color, BOARDWIDTH).and(board.empty);
        proof {
            let p = single_push_target(board@, color);
            assert forall|t: int| 0 <= t < 64 implies #[trigger] p(t) == bit(destinations.0, t) by {
                lemma_pawn_bits(board, color, t - pawn_delta(color, 8));
                assert(destinations.has(t) == p(t));
            }
            lemma_set_bits_where(destinations.0, p);
        }
        MoveGenerator::push_pawn_moves(moves, destinations, color, BOARDWIDTH, MoveKind::Quiet);
    }


    fn generate_double_push_pawn_moves(board: &Board, color: Color, moves: &mut PieceMoveList)
        requires
            board.wf(),
        ensures
            final(moves)@ == old(moves)@ + pawn_moves_to(
                positions_where(double_push_target(board@, color)),
                color,
                16,
                MoveKind::DoublePawnPush,
            ),
    {
        let bb = board.bitboards.get(color, PieceType::Pawn);
        let movers = MoveGenerator::on_start_rank(bb, color);
        let single_pushes = MoveGenerator::pawn_step(movers, color, BOARDWIDTH).and(board.empty);
        let destinations = MoveGenerator::pawn_step(single_pushes, color, BOARDWIDTH).and(board.empty);
        proof {
            let p = double_push_target(board@, color);
            assert forall|t: int| 0 <= t < 64 implies #[trigger] p(t) == bit(destinations.0, t) by {
                lemma_pawn_bits(board, color, t - pawn_delta(color, 16));
                assert(single_pushes.has(t - pawn_delta(color, 8)) == (0 <= t - pawn_delta(color, 8)
                    < 64 && movers.has(t - pawn_delta(color, 16)) && board@.pieces[t - pawn_delta(
                    color,
                    8,
                )] is None));
                assert(destinations.has(t) == p(t));
            }
            lemma_set_bits_where(destinations.0, p);
        }
        MoveGenerator::push_pawn_moves(
            moves,
            destinations,
            color,
            BOARDWIDTH * 2,
            MoveKind::DoublePawnPush,
        );
    }

    /// Captures without promotion that move `offset` (7 or 9) indices.
    fn generate_capture_pawn_moves(board: &Board, color: Color, moves: &mut PieceMoveList, offset: u8)
        requires
            board.wf(),
            offset == 7 || offset == 9,
        ensures
            final(moves)@ == old(moves)@ + pawn_moves_to(
                positions_where(capture_target(board@, color, offset as int)),
                color,
                offset as int,
                MoveKind::Capture,
            ),
    {
        let bb = board.bitboards.get(color, PieceType::Pawn);
        let enemies = MoveGenerator::enemy_pieces(board, color);
        let movers = MoveGenerator::off_last_rank(MoveGenerator::off_capture_edge(bb, color, offset), color);
        let destinations = MoveGenerator::pawn_step(movers, color, offset).and(enemies);
        proof {
            let p = capture_target(board@, color, offset as int);
            assert forall|t: int| 0 <= t < 64 implies #[trigger] p(t) == bit(destinations.0, t) by {
                lemma_pawn_bits(board, color, t - pawn_delta(color, offset as int));
                assert(destinations.has(t) == p(t));
            }
            lemma_set_bits_where(destinations.0, p);
        }
        MoveGenerator::push_pawn_moves(moves, destinations, color, offset, MoveKind::Capture);
    }

    fn generate_left_capture_pawn_moves(board: &Board, color: Color, moves: &mut PieceMoveList)
        requires
            board.wf(),
        ensures
            final(moves)@ == old(moves)@ + pawn_moves_to(
                positions_where(capture_target(board@, color, 7)),
                color,
                7,
                MoveKind::Capture,
            ),
    {
        MoveGenerator::generate_capture_pawn_moves(board, color, moves, BOARDWIDTH - 1);
    }

    fn generate_right_capture_pawn_moves(board: &Board, color: Color, moves: &mut PieceMoveList)
        requires
            board.wf(),
        ensures
            final(moves)@ == old(moves)@ + pawn_moves_to(
                positions_where(capture_target(board@, color, 9)),
                color,
                9,
                MoveKind::Capture,
            ),
    {
        MoveGenerator::generate_capture_pawn_moves(board, color, moves, BOARDWIDTH + 1);
    }

    fn generate_promotion_pawn_moves(board: &Board, color: Color, moves: &mut PieceMoveList)
        requires
            board.wf(),
        ensures
            final(moves)@ == old(moves)@ + promotion_moves_to(
                positions_where(promotion_push_target(board@, color)),
                color,
                8,
                false,
            ),
    {
        let bb = board.bitboards.get(color, PieceType::Pawn);
        let movers = MoveGenerator::on_last_rank(bb, color);
        let destinations = MoveGenerator::pawn_step(movers, color, BOARDWIDTH).and(board.empty);
        proof {
            let p = promotion_push_target(board@, color);
            assert forall|t: int| 0 <= t < 64 implies #[trigger] p(t) == bit(destinations.0, t) by {
                lemma_pawn_bits(board, color, t - pawn_delta(color, 8));
                assert(destinations.has(t) == p(t));
            }
            lemma_set_bits_where(destinations.0, p);
        }
        MoveGenerator::push_promotion_moves(moves, destinations, color, BOARDWIDTH, false);
    }

    /// Promotions by a capture that moves `offset` (7 or 9) indices.
    fn generate_promotion_capture_pawn_moves(
        board: &Board,
        color: Color,
        moves: &mut PieceMoveList,
        offset: u8,
    )
        requires
            board.wf(),
            offset == 7 || offset == 9,
        ensures
            final(moves)@ == old(moves)@ + promotion_moves_to(
                positions_where(promotion_capture_target(board@, color, offset as int)),
                color,
                offset as int,
                true,
            ),
    {
        let bb = board.bitboards.get(color, PieceType::Pawn);
        let enemies = MoveGenerator::enemy_pieces(board, color);
        let movers = MoveGenerator::on_last_rank(MoveGenerator::off_capture_edge(bb, color, offset), color);
        let destinations = MoveGenerator::pawn_step(movers, color, offset).and(enemies);
        proof {
            let p = promotion_capture_target(board@, color, offset as int);
            assert forall|t: int| 0 <= t < 64 implies #[trigger] p(t) == bit(destinations.0, t) by {
                lemma_pawn_bits(board, color, t - pawn_delta(color, offset as int));
                assert(destinations.has(t) == p(t));
            }
            lemma_set_bits_where(destinations.0, p);
        }
        MoveGenerator::push_promotion_moves(moves, destinations, color, offset, true);
    }

    fn generate_promotion_left_capture_pawn_moves(
        board: &Board,
        color: Color,
        moves: &mut PieceMoveList,
    )
        requires
            board.wf(),
        ensures
            final(moves)@ == old(moves)@ + promotion_moves_to(
                positions_where(promotion_capture_target(board@, color, 7)),
                color,
                7,
                true,
            ),
    {
        MoveGenerator::generate_promotion_capture_pawn_moves(board, color, moves, BOARDWIDTH - 1);
    }

    fn generate_promotion_right_capture_pawn_moves(
        board: &Board,
        color: Color,
        moves: &mut PieceMoveList,
    )
        requires
            board.wf(),
        ensures
            final(moves)@ == old(moves)@ + promotion_moves_to(
                positions_where(promotion_capture_target(board@, color, 9)),
                color,
                9,
                true,
            ),
    {
        MoveGenerator::generate_promotion_capture_pawn_moves(board, color, moves, BOARDWIDTH + 1);
    }

    /// En passant captures that move `offset` (7 or 9) indices.
    fn generate_enpassant_moves(board: &Board, color: Color, moves: &mut PieceMoveList, offset: u8)
        requires
            board.wf(),
            offset == 7 || offset == 9,
        ensures
            final(moves)@ == old(moves)@ + pawn_moves_to(
                positions_where(en_passant_target(board@, color, offset as int)),
                color,
                offset as int,
                MoveKind::EnPassant,
            ),
    {
        let bb = board.bitboards.get(color, PieceType::Pawn);
        let enpassant_sq = match board.enpassant {
            Some(sq) => sq,
            None => {
                proof {
                    let p = en_passant_target(board@, color, offset as int);
                    assert forall|t: int| 0 <= t < 64 implies #[trigger] p(t) == bit(0u64, t) by {}
                    lemma_set_bits_where(0u64, p);
                    crate::bitboard::lemma_set_bits_zero();
                    assert(old(moves)@ + pawn_moves_to(positions_where(p), color, offset as int, MoveKind::EnPassant)
                        =~= old(moves)@);
                }
                return;
            },
        };
        let movers = MoveGenerator::off_capture_edge(bb, color, offset);
        let destinations = MoveGenerator::pawn_step(movers, color, offset).and_square(enpassant_sq);
        proof {
            let p = en_passant_target(board@, color, offset as int);
            assert forall|t: int| 0 <= t < 64 implies #[trigger] p(t) == bit(destinations.0, t) by {
                lemma_pawn_bits(board, color, t - pawn_delta(color, offset as int));
                assert(destinations.has(t) == p(t));
            }
            lemma_set_bits_where(destinations.0, p);
        }
        MoveGenerator::push_pawn_moves(moves, destinations, color, offset, MoveKind::EnPassant);
    }

    fn generate_enpassant_left_moves(board: &Board, color: Color, moves: &mut PieceMoveList)
        requires
            board.wf(),
        ensures
            final(moves)@ == old(moves)@ + pawn_moves_to(
                positions_where(en_passant_target(board@, color, 7)),
                color,
                7,
                MoveKind::EnPassant,
            ),
    {
        MoveGenerator::generate_enpassant_moves(board, color, moves, BOARDWIDTH - 1);
    }

    fn generate_enpassant_right_moves(board: &Board, color: Color, moves: &mut PieceMoveList)
        requires
            board.wf(),
        ensures
            final(moves)@ == old(moves)@ + pawn_moves_to(
                positions_where(en_passant_target(board@, color, 9)),
                color,
                9,
                MoveKind::EnPassant,
            ),
    {
        MoveGenerator::generate_enpassant_moves(board, color, moves, BOARDWIDTH + 1);
    }

    /// Appends the pawn moves of `color`: pushes, double pushes, captures to
    /// either side, promotions by a push or a capture, then en passant
    /// captures.
    pub(crate) fn generate_pawn_moves(possible_moves: &mut PieceMoveList, board: &Board, color: Color)
        requires
            board.wf(),
        ensures
            final(possible_moves)@ == old(possible_moves)@ + pawn_moves(board@, color),
    {
        MoveGenerator::generate_single_push_pawn_moves(board, color, possible_moves);
        MoveGenerator::generate_double_push_pawn_moves(board, color, possible_moves);
        MoveGenerator::generate_left_capture_pawn_moves(board, color, possible_moves);
        MoveGenerator::generate_right_capture_pawn_moves(board, color, possible_moves);
        MoveGenerator::generate_promotion_pawn_moves(board, color, possible_moves);
        MoveGenerator::generate_promotion_left_capture_pawn_moves(board, color, possible_moves);
        MoveGenerator::generate_promotion_right_capture_pawn_moves(board, color, possible_moves);
        MoveGenerator::generate_enpassant_left_moves(board, color, possible_moves);
        MoveGenerator::generate_enpassant_right_moves(board, color, possible_moves);
        proof {
            assert(possible_moves@ =~= old(possible_moves)@ + pawn_moves(board@, color));
        }
    }

    /// Appends a pawn move of `kind` to each square of `destinations`, from the
    /// square `offset` indices behind it.
    pub(crate) fn push_pawn_moves(
        moves: &mut PieceMoveList,
        destinations: BitBoard,
        color: Color,
        offset: u8,
        kind: MoveKind,
    )
        requires
            forall|t: int| #[trigger]
                destinations.has(t) ==> 0 <= t - pawn_delta(color, offset as int) < 64,
        ensures
            final(moves)@ == old(moves)@ + pawn_moves_to(
                set_bits(destinations.0),
                color,
                offset as int,
                kind,
            ),
    {
        let squares = destinations.squares();
        let ghost bits = set_bits(destinations.0);
        proof {
            crate::bitboard::lemma_positions_from(|j: int| crate::bits::bit(destinations.0, j), 0);
        }
        let mut i: usize = 0;
        while i < squares.len()
            invariant
                i <= squares@.len(),
                squares@ == squares_of(destinations.0),
                bits == set_bits(destinations.0),
                forall|a: int| 0 <= a < bits.len() ==> destinations.has(#[trigger] bits[a]),
                forall|t: int| #[trigger]
                    destinations.has(t) ==> 0 <= t - pawn_delta(color, offset as int) < 64,
                moves@ == old(moves)@ + pawn_moves_to(bits.take(i as int), color, offset as int, kind),
            decreases squares.len() - i,
        {
            let to = squares[i];
            proof {
                assert(destinations.has(bits[i as int]));
            }
            let from = MoveGenerator::pawn_from_square(to, color, offset);
            moves.push(PieceMove::new(from, to, kind));
            proof {
                assert(bits.take(i + 1) =~= bits.take(i as int).push(bits[i as int]));
                assert(pawn_moves_to(bits.take(i + 1), color, offset as int, kind) =~= pawn_moves_to(
                    bits.take(i as int),
                    color,
                    offset as int,
                    kind,
                ).push(PieceMove { from, to, kind }));
            }
            i = i + 1;
        }
        proof {
            assert(bits.take(i as int) =~= bits);
        }
    }

    /// Appends the four promotions onto each square of `destinations`, from
    /// the square `offset` indices behind it.
    pub(crate) fn push_promotion_moves(
        moves: &mut PieceMoveList,
        destinations: BitBoard,
        color: Color,
        offset: u8,
        capture: bool,
    )
        requires
            forall|t: int| #[trigger]
                destinations.has(t) ==> 0 <= t - pawn_delta(color, offset as int) < 64,
        ensures
            final(moves)@ == old(moves)@ + promotion_moves_to(
                set_bits(destinations.0),
                color,
                offset as int,
                capture,
            ),
    {
        let squares = destinations.squares();
        let ghost bits = set_bits(destinations.0);
        let ghost f = |t: int| promotions(sq_of(t - pawn_delta(color, offset as int)), sq_of(t), capture);
        proof {
            crate::bitboard::lemma_positions_from(|j: int| crate::bits::bit(destinations.0, j), 0);
        }
        let pieces: [PieceType; 4] = [PieceType::Queen, PieceType::Rook, PieceType::Bishop, PieceType::Knight];
        let mut i: usize = 0;
        while i < squares.len()
            invariant
                i <= squares@.len(),
                squares@ == squares_of(destinations.0),
                bits == set_bits(destinations.0),
                f == (|t: int| promotions(sq_of(t - pawn_delta(color, offset as int)), sq_of(t), capture)),
                pieces@ == seq![PieceType::Queen, PieceType::Rook, PieceType::Bishop, PieceType::Knight],
                forall|a: int| 0 <= a < bits.len() ==> destinations.has(#[trigger] bits[a]),
                forall|t: int| #[trigger]
                    destinations.has(t) ==> 0 <= t - pawn_delta(color, offset as int) < 64,
                moves@ == old(moves)@ + bits.take(i as int).flat_map(f),
            decreases squares.len() - i,
        {
            let to = squares[i];
            proof {
                assert(destinations.has(bits[i as int]));
            }
            let from = MoveGenerator::pawn_from_square(to, color, offset);
            let ghost before = moves@;
            let mut k: usize = 0;
            while k < 4
                invariant
                    k <= 4,
                    pieces@ == seq![PieceType::Queen, PieceType::Rook, PieceType::Bishop, PieceType::Knight],
                    moves@ == before + promotions(from, to, capture).take(k as int),
                decreases 4 - k,
            {
                let piece_type = pieces[k];
                let kind = if capture {
                    MoveKind::PromotionCapture(piece_type)
                } else {
                    MoveKind::Promotion(piece_type)
                };
                moves.push(PieceMove::new(from, to, kind));
                proof {
                    assert(promotions(from, to, capture).take(k + 1) =~= promotions(from, to, capture).take(
                        k as int,
                    ).push(PieceMove { from, to, kind }));
                }
                k = k + 1;
            }
            proof {
                assert(promotions(from, to, capture).take(4) =~= promotions(from, to, capture));
                assert(f(bits[i as int]) == promotions(from, to, capture));
                bits.lemma_flat_map_take_append(f, i as int);
            }
            i = i + 1;
        }
        proof {
            assert(bits.take(i as int) =~= bits);
        }
    }
}

} // verus!
