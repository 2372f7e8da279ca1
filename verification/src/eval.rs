//! Static evaluation of a board: material, piece placement and tempo, in
//! centipawns from White's point of view.
use crate::bitboard::{lemma_positions_from, lemma_positions_len, lemma_set_bits_where, positions_where, set_bits, squares_of, BitBoard};
use crate::board::{Board, Position};
use crate::fen::starting_position;
use crate::bits::{bit, group_bits};
use crate::piece::{Color, Piece, PieceType};
use crate::positions::{BISHOP_PST, KING_MIDDLE_PST, KNIGHT_PST, PAWN_PST, QUEEN_PST, ROOK_PST};
use crate::square::{group_square, sq_of, Square};
use vstd::prelude::*;

verus! {

broadcast use {group_bits, group_square};

/// A judge of positions: a score in centipawns, positive when White stands
/// better.
pub trait Evaluator {
    /// The score this evaluator gives to `v`.
    spec fn evaluation(&self, v: Position) -> i32;

    /// The score of `board`.
    fn evaluate(&self, board: &Board) -> (r: i32)
        requires
            board.wf(),
        ensures
            r == self.evaluation(board@),
    ;
}

/// The evaluator of this engine: material plus piece-square bonuses plus a
/// tempo bonus.
pub struct BoardEvaluation;

/// +1 for White, -1 for Black.
pub open spec fn sign(color: Color) -> int {
    match color {
        Color::White => 1,
        Color::Black => -1,
    }
}

/// The number of pieces `p` on `v`.
pub open spec fn piece_count(v: Position, p: Piece) -> int {
    positions_where(|i: int| v.pieces[i] == Some(p)).len() as int
}

/// The piece types that count for material, in the order they are summed.
pub open spec fn material_types() -> Seq<PieceType> {
    seq![PieceType::Pawn, PieceType::Knight, PieceType::Bishop, PieceType::Rook, PieceType::Queen]
}

/// All six piece types, in the order they are summed.
pub open spec fn all_types() -> Seq<PieceType> {
    seq![
        PieceType::Pawn,
        PieceType::Knight,
        PieceType::Bishop,
        PieceType::Rook,
        PieceType::Queen,
        PieceType::King,
    ]
}

/// The material of `color` over the first `k` material types, signed.
pub open spec fn material_sum(v: Position, color: Color, k: int) -> int
    decreases k,
{
    if k <= 0 {
        0
    } else {
        let t = material_types()[k - 1];
        material_sum(v, color, k - 1) + sign(color) * piece_count(
            v,
            Piece { piece_type: t, color },
        ) * t.spec_value()
    }
}

/// The material balance: White's material minus Black's.
pub open spec fn material(v: Position) -> int {
    material_sum(v, Color::White, 5) + material_sum(v, Color::Black, 5)
}

/// The piece-square table of `t`.
pub open spec fn table(t: PieceType) -> [i32; 64] {
    match t {
        PieceType::Pawn => PAWN_PST,
        PieceType::Knight => KNIGHT_PST,
        PieceType::Bishop => BISHOP_PST,
        PieceType::Rook => ROOK_PST,
        PieceType::Queen => QUEEN_PST,
        PieceType::King => KING_MIDDLE_PST,
    }
}

/// The table entry for a piece of `color` and type `t` on the square `i`:
/// Black reads the square mirrored across the middle rank.
pub open spec fn square_bonus(color: Color, t: PieceType, i: int) -> int {
    let index = match color {
        Color::White => i,
        Color::Black => (7 - i / 8) * 8 + i % 8,
    };
    table(t)@[index] as int
}

/// The sum of a sequence of integers.
pub open spec fn sum_of(s: Seq<int>) -> int
    decreases s.len(),
{
    if s.len() == 0 {
        0
    } else {
        sum_of(s.drop_last()) + s.last()
    }
}

/// The signed table bonuses of the pieces of `color` and type `t`.
pub open spec fn placement(v: Position, color: Color, t: PieceType) -> int {
    sum_of(
        positions_where(|i: int| v.pieces[i] == Some(Piece { piece_type: t, color })).map_values(
            |i: int| sign(color) * square_bonus(color, t, i),
        ),
    )
}

/// The placement of `color` over the first `k` piece types.
pub open spec fn placement_sum(v: Position, color: Color, k: int) -> int
    decreases k,
{
    if k <= 0 {
        0
    } else {
        placement_sum(v, color, k - 1) + placement(v, color, all_types()[k - 1])
    }
}

/// The placement balance: White's table bonuses minus Black's.
pub open spec fn positional(v: Position) -> int {
    placement_sum(v, Color::White, 6) + placement_sum(v, Color::Black, 6)
}

/// The bonus for the side to move (the same for either side).
pub open spec fn tempo_of(v: Position) -> int {
    10
}

/// The score of `v`: material, plus placement, plus tempo.
pub open spec fn board_score(v: Position) -> int {
    material(v) + positional(v) + tempo_of(v)
}

/// Every table entry is between -50 and 50.
proof fn lemma_table_bounds(t: PieceType, i: int)
    requires
        0 <= i < 64,
    ensures
        -50 <= table(t)@[i] <= 50,
{
    assert(-50 <= table(t)@[i] <= 50) by {
        assert(PAWN_PST@.len() == 64);
        assert forall|j: int| 0 <= j < 64 implies -50 <= #[trigger] table(t)@[j] <= 50 by {}
    }
}

/// Each color's material over the first `k` types stays within `k` times
/// 57600 (64 pieces of value 900) either way.
proof fn lemma_material_sum_bounds(v: Position, color: Color, k: int)
    requires
        0 <= k <= 5,
    ensures
        -k * 57600 <= material_sum(v, color, k) <= k * 57600,
    decreases k,
{
    if k > 0 {
        lemma_material_sum_bounds(v, color, k - 1);
        let t = material_types()[k - 1];
        let n = piece_count(v, Piece { piece_type: t, color });
        lemma_positions_len(|i: int| v.pieces[i] == Some(Piece { piece_type: t, color }));
        assert(-57600 <= sign(color) * n * t.spec_value() <= 57600) by (nonlinear_arith)
            requires
                0 <= n <= 64,
                0 <= t.spec_value() <= 900,
                sign(color) == 1 || sign(color) == -1,
        ;
    }
}

/// A sum of `n` integers each within `[-b, b]` is within `[-n b, n b]`.
proof fn lemma_sum_bounds(s: Seq<int>, b: int)
    requires
        b >= 0,
        forall|i: int| 0 <= i < s.len() ==> -b <= #[trigger] s[i] <= b,
    ensures
        -(s.len() as int) * b <= sum_of(s) <= (s.len() as int) * b,
    decreases s.len(),
{
    if s.len() > 0 {
        lemma_sum_bounds(s.drop_last(), b);
        assert(-(s.len() as int) * b == -((s.len() - 1) as int) * b - b) by (nonlinear_arith);
        assert((s.len() as int) * b == ((s.len() - 1) as int) * b + b) by (nonlinear_arith);
    }
}

/// The placement of one color and type is within 64 times 50 either way.
proof fn lemma_placement_bounds(v: Position, color: Color, t: PieceType)
    ensures
        -3200 <= placement(v, color, t) <= 3200,
{
    let ps = positions_where(|i: int| v.pieces[i] == Some(Piece { piece_type: t, color }));
    lemma_positions_len(|i: int| v.pieces[i] == Some(Piece { piece_type: t, color }));
    lemma_positions_from(|i: int| v.pieces[i] == Some(Piece { piece_type: t, color }), 0);
    let s = ps.map_values(|i: int| sign(color) * square_bonus(color, t, i));
    assert forall|a: int| 0 <= a < s.len() implies -50 <= #[trigger] s[a] <= 50 by {
        let i = ps[a];
        let index = match color {
            Color::White => i,
            Color::Black => (7 - i / 8) * 8 + i % 8,
        };
        lemma_table_bounds(t, index);
    }
    lemma_sum_bounds(s, 50);
    assert((s.len() as int) * 50 <= 3200) by (nonlinear_arith)
        requires
            s.len() <= 64,
    ;
}

/// Each color's placement over the first `k` types stays within `k` times 3200.
proof fn lemma_placement_sum_bounds(v: Position, color: Color, k: int)
    requires
        0 <= k <= 6,
    ensures
        -k * 3200 <= placement_sum(v, color, k) <= k * 3200,
    decreases k,
{
    if k > 0 {
        lemma_placement_sum_bounds(v, color, k - 1);
        lemma_placement_bounds(v, color, all_types()[k - 1]);
    }
}

/// The bitboard of a piece on a well-formed board lists the squares of that piece.
proof fn lemma_piece_squares(board: &Board, p: Piece)
    requires
        board.wf(),
    ensures
        set_bits(board.bitboards.of(p).0) == positions_where(|i: int| board@.pieces[i] == Some(p)),
{
    let q = |i: int| board@.pieces[i] == Some(p);
    assert forall|j: int| 0 <= j < 64 implies #[trigger] q(j) == bit(board.bitboards.of(p).0, j) by {
        assert(board.bitboards.of(p).has(j) == (board.at(j) == Some(p)));
    }
    lemma_set_bits_where(board.bitboards.of(p).0, q);
}

impl BoardEvaluation {
    /// The material balance.
    fn material(board: &Board) -> (r: i32)
        requires
            board.wf(),
        ensures
            r == material(board@),
            -2 * 5 * 57600 <= r <= 2 * 5 * 57600,
    {
        let mut sum: i32 = 0;
        let pieces: [PieceType; 5] = [
            PieceType::Pawn,
            PieceType::Knight,
            PieceType::Bishop,
            PieceType::Rook,
            PieceType::Queen,
        ];
        let colors: [Color; 2] = [Color::White, Color::Black];
        let ghost v = board@;
        proof {
            lemma_material_sum_bounds(v, Color::White, 5);
            lemma_material_sum_bounds(v, Color::Black, 5);
        }
        let mut c: usize = 0;
        while c < 2
            invariant
                c <= 2,
                board.wf(),
                v == board@,
                colors@ == seq![Color::White, Color::Black],
                pieces@ == material_types(),
                sum == (if c == 0 {
                    0
                } else if c == 1 {
                    material_sum(v, Color::White, 5)
                } else {
                    material(v)
                }),
                -2 * 5 * 57600 <= sum <= 2 * 5 * 57600,
                -5 * 57600 <= material_sum(v, Color::White, 5) <= 5 * 57600,
            decreases 2 - c,
        {
            let color = colors[c];
            let modifier: i32 = match color {
                Color::White => 1,
                Color::Black => -1,
            };
            let base = sum;
            let mut k: usize = 0;
            while k < 5
                invariant
                    k <= 5,
                    board.wf(),
                    v == board@,
                    pieces@ == material_types(),
                    modifier == sign(color),
                    modifier == 1 || modifier == -1,
                    -5 * 57600 <= base <= 5 * 57600,
                    sum == base + material_sum(v, color, k as int),
                    -(k as int) * 57600 <= material_sum(v, color, k as int) <= (k as int) * 57600,
                decreases 5 - k,
            {
                let piece_type = pieces[k];
                let bitboard = board.bitboards.get(color, piece_type);
                let piece_count = bitboard.count() as i32;
                proof {
                    lemma_piece_squares(board, Piece { piece_type, color });
                    assert(0 <= piece_count * piece_type.spec_value() <= 57600) by (nonlinear_arith)
                        requires
                            0 <= piece_count <= 64,
                            0 <= piece_type.spec_value() <= 900,
                    ;
                }
                proof {
                    assert(-57600 <= piece_count * modifier * piece_type.spec_value() <= 57600)
                        by (nonlinear_arith)
                        requires
                            0 <= piece_count <= 64,
                            0 <= piece_type.spec_value() <= 900,
                            modifier == 1 || modifier == -1,
                    ;
                    assert(piece_count * modifier * piece_type.spec_value() == sign(color) * piece_count
                        * piece_type.spec_value()) by (nonlinear_arith)
                        requires
                            modifier == sign(color),
                    ;
                    lemma_material_sum_bounds(v, color, k + 1);
                }
                sum = sum + piece_count * modifier * piece_type.value();
                k = k + 1;
            }
            c = c + 1;
        }
        sum
    }

    /// The sum of the signed table bonuses of the pieces on `bitboard`, which
    /// holds the pieces of `color` and type `piece_type`.
    fn placement_of(board: &Board, color: Color, piece_type: PieceType, bitboard: BitBoard) -> (r: i32)
        requires
            board.wf(),
            bitboard == board.bitboards.of(Piece { piece_type, color }),
        ensures
            r == placement(board@, color, piece_type),
            -64 * 50 <= r <= 64 * 50,
    {
        let ghost v = board@;
        let ghost f = |i: int| sign(color) * square_bonus(color, piece_type, i);
        let ghost bits = set_bits(bitboard.0);
        proof {
            lemma_piece_squares(board, Piece { piece_type, color });
            lemma_positions_from(|j: int| bit(bitboard.0, j), 0);
            lemma_positions_len(|j: int| bit(bitboard.0, j));
        }
        let squares = bitboard.squares();
        let modifier: i32 = match color {
            Color::White => 1,
            Color::Black => -1,
        };
        let mut sum: i32 = 0;
        let mut i: usize = 0;
        while i < squares.len()
            invariant
                i <= squares@.len(),
                squares@ == squares_of(bitboard.0),
                bits == set_bits(bitboard.0),
                bits.len() <= 64,
                forall|a: int| 0 <= a < bits.len() ==> 0 <= #[trigger] bits[a] < 64,
                f == (|i: int| sign(color) * square_bonus(color, piece_type, i)),
                modifier == sign(color),
                sum == sum_of(bits.take(i as int).map_values(f)),
                -(i as int) * 50 <= sum <= (i as int) * 50,
            decreases squares.len() - i,
        {
            let square = squares[i];
            let index: usize = match color {
                Color::White => square.index() as usize,
                Color::Black => square.flip().index() as usize,
            };
            let value = match piece_type {
                PieceType::Pawn => PAWN_PST[index],
                PieceType::Knight => KNIGHT_PST[index],
                PieceType::Bishop => BISHOP_PST[index],
                PieceType::Rook => ROOK_PST[index],
                PieceType::Queen => QUEEN_PST[index],
                PieceType::King => KING_MIDDLE_PST[index],
            };
            proof {
                lemma_table_bounds(piece_type, index as int);
                assert(value == table(piece_type)@[index as int]);
                assert(square.spec_index() == bits[i as int]);
                assert(bits.take(i + 1).map_values(f).drop_last() =~= bits.take(i as int).map_values(f));
            }
            sum = sum + modifier * value;
            i = i + 1;
        }
        proof {
            assert(bits.take(i as int) =~= bits);
        }
        sum
    }

    /// The placement balance.
    fn piece_positions(board: &Board) -> (r: i32)
        requires
            board.wf(),
        ensures
            r == positional(board@),
            -2 * 6 * 3200 <= r <= 2 * 6 * 3200,
    {
        let mut sum: i32 = 0;
        let pieces: [PieceType; 6] = [
            PieceType::Pawn,
            PieceType::Knight,
            PieceType::Bishop,
            PieceType::Rook,
            PieceType::Queen,
            PieceType::King,
        ];
        let colors: [Color; 2] = [Color::White, Color::Black];
        let ghost v = board@;
        proof {
            lemma_placement_sum_bounds(v, Color::White, 6);
            lemma_placement_sum_bounds(v, Color::Black, 6);
        }
        let mut c: usize = 0;
        while c < 2
            invariant
                c <= 2,
                board.wf(),
                v == board@,
                colors@ == seq![Color::White, Color::Black],
                pieces@ == all_types(),
                sum == (if c == 0 {
                    0
                } else if c == 1 {
                    placement_sum(v, Color::White, 6)
                } else {
                    positional(v)
                }),
                -2 * 6 * 3200 <= sum <= 2 * 6 * 3200,
                -6 * 3200 <= placement_sum(v, Color::White, 6) <= 6 * 3200,
            decreases 2 - c,
        {
            let color = colors[c];
            let base = sum;
            let mut k: usize = 0;
            while k < 6
                invariant
                    k <= 6,
                    board.wf(),
                    v == board@,
                    pieces@ == all_types(),
                    -6 * 3200 <= base <= 6 * 3200,
                    sum == base + placement_sum(v, color, k as int),
                    -(k as int) * 3200 <= placement_sum(v, color, k as int) <= (k as int) * 3200,
                decreases 6 - k,
            {
                let piece_type = pieces[k];
                let bitboard = board.bitboards.get(color, piece_type);
                let value = BoardEvaluation::placement_of(board, color, piece_type, bitboard);
                proof {
                    lemma_placement_sum_bounds(v, color, k + 1);
                }
                sum = sum + value;
                k = k + 1;
            }
            c = c + 1;
        }
        sum
    }

    /// The bonus for having the move.
    fn tempo(board: &Board) -> (r: i32)
        ensures
            r == tempo_of(board@),
    {
        let score: i32 = match board.turn {
            Color::White => 10,
            Color::Black => 10,
        };
        score
    }
}

impl Evaluator for BoardEvaluation {
    open spec fn evaluation(&self, v: Position) -> i32 {
        board_score(v) as i32
    }

    fn evaluate(&self, board: &Board) -> (r: i32) {
        let m = BoardEvaluation::material(board);
        let p = BoardEvaluation::piece_positions(board);
        let t = BoardEvaluation::tempo(board);
        m + p + t
    }
}

/// The square seen from the other side: same file, rank `7 - rank`.
pub open spec fn mirror_index(i: int) -> int {
    (7 - i / 8) * 8 + i % 8
}

/// The sum of `g(j)` over the squares `j` from `i` to 63.
pub open spec fn sum_from(g: spec_fn(int) -> int, i: int) -> int
    decreases 64 - i,
{
    if i < 0 || i >= 64 {
        0
    } else {
        g(i) + sum_from(g, i + 1)
    }
}

/// Summing over the board seen from the other side gives the same sum.
proof fn lemma_sum_mirror(g: spec_fn(int) -> int)
    ensures
        sum_from(|i: int| g(mirror_index(i)), 0) == sum_from(g, 0),
{
    reveal_with_fuel(sum_from, 65);
}

/// Putting `x` in front of a sequence adds `x` to its sum.
proof fn lemma_sum_of_prepend(x: int, s: Seq<int>)
    ensures
        sum_of(seq![x] + s) == x + sum_of(s),
    decreases s.len(),
{
    if s.len() > 0 {
        lemma_sum_of_prepend(x, s.drop_last());
        assert((seq![x] + s).drop_last() =~= seq![x] + s.drop_last());
        assert((seq![x] + s).last() == s.last());
        assert(sum_of(seq![x] + s) == sum_of((seq![x] + s).drop_last()) + (seq![x] + s).last());
    } else {
        assert(seq![x] + s =~= seq![x]);
        assert(seq![x].drop_last() =~= Seq::<int>::empty());
        assert(sum_of(Seq::<int>::empty()) == 0);
        assert(sum_of(seq![x]) == sum_of(seq![x].drop_last()) + x);
        assert(sum_of(s) == 0);
    }
}

/// The sum of `h` over the positions from `i` on where `p` holds is the sum
/// over the squares from `i` on of `h` where `p` holds and 0 elsewhere.
proof fn lemma_positions_sum(p: spec_fn(int) -> bool, h: spec_fn(int) -> int, i: int)
    requires
        0 <= i <= 64,
    ensures
        sum_of(crate::bitboard::positions_from(p, i).map_values(h)) == sum_from(
            |j: int|
                if p(j) {
                    h(j)
                } else {
                    0
                },
            i,
        ),
    decreases 64 - i,
{
    let g = |j: int|
        if p(j) {
            h(j)
        } else {
            0
        };
    if i == 64 {
        assert(crate::bitboard::positions_from(p, i).map_values(h) =~= Seq::<int>::empty());
    } else {
        lemma_positions_sum(p, h, i + 1);
        let rest = crate::bitboard::positions_from(p, i + 1);
        if p(i) {
            assert(crate::bitboard::positions_from(p, i).map_values(h) =~= seq![h(i)]
                + rest.map_values(h));
            lemma_sum_of_prepend(h(i), rest.map_values(h));
        }
    }
}

/// Sums that agree on every square from `i` on are equal.
proof fn lemma_sum_from_agree(f1: spec_fn(int) -> int, f2: spec_fn(int) -> int, i: int)
    requires
        forall|j: int| i <= j < 64 ==> #[trigger] f1(j) == f2(j),
    ensures
        sum_from(f1, i) == sum_from(f2, i),
    decreases 64 - i,
{
    if 0 <= i < 64 {
        lemma_sum_from_agree(f1, f2, i + 1);
    } else if i < 0 {
        assert(sum_from(f1, i) == 0);
        assert(sum_from(f2, i) == 0);
    }
}

/// The sum of the negations is the negation of the sum.
proof fn lemma_sum_from_neg(f: spec_fn(int) -> int, i: int)
    ensures
        sum_from(|j: int| -f(j), i) == -sum_from(f, i),
    decreases 64 - i,
{
    if 0 <= i < 64 {
        lemma_sum_from_neg(f, i + 1);
    }
}

/// The piece with its color changed.
pub open spec fn swap_color(o: Option<Piece>) -> Option<Piece> {
    match o {
        Some(p) => Some(Piece { piece_type: p.piece_type, color: p.color.spec_opposite() }),
        None => None,
    }
}

/// The position seen from the other side: each piece moves to the square
/// mirrored across the middle of the board and changes color.
pub open spec fn mirrored(v: Position) -> Position {
    Position { pieces: Seq::new(64, |j: int| swap_color(v.pieces[mirror_index(j)])), ..v }
}

/// The placement of one color and type, summed over the whole board.
proof fn lemma_placement_as_sum(v: Position, color: Color, t: PieceType)
    ensures
        placement(v, color, t) == sum_from(
            |i: int|
                if v.pieces[i] == Some(Piece { piece_type: t, color }) {
                    sign(color) * square_bonus(color, t, i)
                } else {
                    0
                },
            0,
        ),
{
    let p = |i: int| v.pieces[i] == Some(Piece { piece_type: t, color });
    let h = |i: int| sign(color) * square_bonus(color, t, i);
    lemma_positions_sum(p, h, 0);
    lemma_sum_from_agree(
        |j: int|
            if p(j) {
                h(j)
            } else {
                0
            },
        |i: int|
            if v.pieces[i] == Some(Piece { piece_type: t, color }) {
                sign(color) * square_bonus(color, t, i)
            } else {
                0
            },
        0,
    );
}

/// In the mirrored position a color's placement of a type is the negation
/// of the other color's placement of that type.
proof fn lemma_placement_mirror(v: Position, color: Color, t: PieceType)
    ensures
        placement(mirrored(v), color, t) == -placement(v, color.spec_opposite(), t),
{
    let m = mirrored(v);
    let c2 = color.spec_opposite();
    let gm = |j: int|
        if m.pieces[j] == Some(Piece { piece_type: t, color }) {
            sign(color) * square_bonus(color, t, j)
        } else {
            0
        };
    let gv = |i: int|
        if v.pieces[i] == Some(Piece { piece_type: t, color: c2 }) {
            sign(c2) * square_bonus(c2, t, i)
        } else {
            0
        };
    lemma_placement_as_sum(m, color, t);
    lemma_placement_as_sum(v, c2, t);
    let back = |j: int| gv(mirror_index(j));
    assert forall|j: int| 0 <= j < 64 implies #[trigger] gm(j) == -back(j) by {
        assert(mirror_index(mirror_index(j)) == j);
        assert(0 <= mirror_index(j) < 64);
    }
    lemma_sum_from_agree(gm, |j: int| -back(j), 0);
    lemma_sum_from_neg(back, 0);
    lemma_sum_mirror(gv);
}

/// The placement sums of the mirrored position, type by type.
proof fn lemma_placement_sum_mirror(v: Position, color: Color, k: int)
    requires
        0 <= k <= 6,
    ensures
        placement_sum(mirrored(v), color, k) == -placement_sum(v, color.spec_opposite(), k),
    decreases k,
{
    if k > 0 {
        lemma_placement_sum_mirror(v, color, k - 1);
        lemma_placement_mirror(v, color, all_types()[k - 1]);
    }
}

/// Seen from the other side, a position's placement balance changes sign:
/// the piece-square tables favor neither color.
pub proof fn lemma_positional_mirror(v: Position)
    ensures
        positional(mirrored(v)) == -positional(v),
{
    lemma_placement_sum_mirror(v, Color::White, 6);
    lemma_placement_sum_mirror(v, Color::Black, 6);
}

/// The starting position is its own mirror image, so its placement balance
/// is zero.
pub proof fn lemma_positional_start()
    ensures
        positional(starting_position()) == 0,
{
    let v = starting_position();
    let m = mirrored(v);
    assert forall|j: int| 0 <= j < 64 implies #[trigger] m.pieces[j] == v.pieces[j] by {
        let i = mirror_index(j);
        assert(i / 8 == 7 - j / 8 && i % 8 == j % 8);
    }
    assert(m.pieces =~= v.pieces);
    assert(m == v);
    lemma_positional_mirror(v);
}

/// Putting a piece on an empty square adds one to the count of that piece
/// from square `k` on (when the square is at or after `k`), and leaves the
/// counts of the other pieces alone.
proof fn lemma_count_after_put(v: Seq<Option<Piece>>, i: int, p: Piece, q: Piece, k: int)
    requires
        0 <= i < 64,
        0 <= k <= 64,
        v.len() == 64,
        v[i] is None,
    ensures
        crate::bitboard::positions_from(|j: int| v.update(i, Some(p))[j] == Some(q), k).len()
            == crate::bitboard::positions_from(|j: int| v[j] == Some(q), k).len() + if q == p
            && k <= i {
            1int
        } else {
            0int
        },
    decreases 64 - k,
{
    if k < 64 {
        lemma_count_after_put(v, i, p, q, k + 1);
    }
}

/// The number of pieces `q` after putting `p` on the empty square `i`.
proof fn lemma_piece_count_after_put(v: Position, i: int, p: Piece, q: Piece)
    requires
        0 <= i < 64,
        v.pieces.len() == 64,
        v.pieces[i] is None,
    ensures
        piece_count(Position { pieces: v.pieces.update(i, Some(p)), ..v }, q) == piece_count(v, q)
            + if q == p {
            1int
        } else {
            0int
        },
{
    lemma_count_after_put(v.pieces, i, p, q, 0);
    let w = Position { pieces: v.pieces.update(i, Some(p)), ..v };
    crate::bitboard::lemma_positions_agree(
        |j: int| w.pieces[j] == Some(q),
        |j: int| v.pieces.update(i, Some(p))[j] == Some(q),
        0,
    );
}

/// The material of `c` over the first `k` types after putting `p` on the
/// empty square `i`.
proof fn lemma_material_sum_put(v: Position, i: int, p: Piece, c: Color, k: int)
    requires
        0 <= i < 64,
        0 <= k <= 5,
        v.pieces.len() == 64,
        v.pieces[i] is None,
    ensures
        material_sum(Position { pieces: v.pieces.update(i, Some(p)), ..v }, c, k) == material_sum(
            v,
            c,
            k,
        ) + if c == p.color && (p.piece_type.spec_idx() as int) < k {
            sign(c) * p.piece_type.spec_value()
        } else {
            0int
        },
    decreases k,
{
    if k > 0 {
        lemma_material_sum_put(v, i, p, c, k - 1);
        let w = Position { pieces: v.pieces.update(i, Some(p)), ..v };
        let t = material_types()[k - 1];
        let q = Piece { piece_type: t, color: c };
        lemma_piece_count_after_put(v, i, p, q);
        let n = piece_count(v, q);
        let sg = sign(c);
        let val = t.spec_value() as int;
        assert(sg * (n + 1) * val == sg * n * val + sg * val) by (nonlinear_arith);
        assert(t.spec_idx() == k - 1);
        assert(q == p <==> (c == p.color && p.piece_type.spec_idx() == k - 1));
    }
}

/// Material counts each piece at its standard value: putting a piece on an
/// empty square changes the material balance by 100 for a pawn, 320 for a
/// knight, 330 for a bishop, 500 for a rook, 900 for a queen and nothing for
/// a king, added for a White piece and taken away for a Black one.
pub proof fn lemma_material_put_piece(v: Position, i: int, p: Piece)
    requires
        0 <= i < 64,
        v.pieces.len() == 64,
        v.pieces[i] is None,
    ensures
        material(Position { pieces: v.pieces.update(i, Some(p)), ..v }) == material(v) + (if p.color
            == Color::White {
            1int
        } else {
            -1int
        }) * match p.piece_type {
            PieceType::Pawn => 100int,
            PieceType::Knight => 320int,
            PieceType::Bishop => 330int,
            PieceType::Rook => 500int,
            PieceType::Queen => 900int,
            PieceType::King => 0int,
        },
{
    lemma_material_sum_put(v, i, p, Color::White, 5);
    lemma_material_sum_put(v, i, p, Color::Black, 5);
}

} // verus!
