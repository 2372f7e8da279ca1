//! Bitboards: sets of squares held in the 64 bits of a `u64`, bit `i` standing
//! for the square with index `i`.
use crate::bits::{bit, group_bits, lemma_bits_ext, lemma_lowest_bit};
use crate::piece::{Color, Piece, PieceType};
use crate::square::{group_square, sq_of, Square};
use vstd::prelude::*;
use vstd::std_specs::bits::u64_trailing_zeros;

verus! {

broadcast use {group_bits, group_square};

/// The positions `j` in `i..64` for which `p(j)` holds, in increasing order.
pub open spec fn positions_from(p: spec_fn(int) -> bool, i: int) -> Seq<int>
    decreases 64 - i,
{
    if i < 0 || i >= 64 {
        Seq::empty()
    } else if p(i) {
        seq![i] + positions_from(p, i + 1)
    } else {
        positions_from(p, i + 1)
    }
}

/// The squares, as indices, for which `p` holds, in increasing order.
pub open spec fn positions_where(p: spec_fn(int) -> bool) -> Seq<int> {
    positions_from(p, 0)
}

/// The positions of the set bits of `x`, in increasing order.
pub open spec fn set_bits(x: u64) -> Seq<int> {
    positions_where(|j: int| bit(x, j))
}

/// The squares whose bits are set in `x`, in increasing order of index.
pub open spec fn squares_of(x: u64) -> Seq<Square> {
    set_bits(x).map_values(|i: int| sq_of(i))
}

/// The number of set bits of `x`.
pub open spec fn popcount(x: u64) -> nat {
    set_bits(x).len()
}

/// `positions_from(p, i)` lists, in strictly increasing order, exactly the
/// positions in `i..64` where `p` holds.
pub proof fn lemma_positions_from(p: spec_fn(int) -> bool, i: int)
    requires
        0 <= i <= 64,
    ensures
        forall|j: int| #[trigger] positions_from(p, i).contains(j) <==> (i <= j < 64 && p(j)),
        forall|a: int, b: int|
            0 <= a < b < positions_from(p, i).len() ==> positions_from(p, i)[a] < positions_from(
                p,
                i,
            )[b],
        forall|a: int|
            0 <= a < positions_from(p, i).len() ==> i <= #[trigger] positions_from(p, i)[a] < 64
                && p(positions_from(p, i)[a]),
    decreases 64 - i,
{
    if i < 64 {
        lemma_positions_from(p, i + 1);
        let rest = positions_from(p, i + 1);
        if p(i) {
            let s = seq![i] + rest;
            assert forall|j: int| s.contains(j) <==> (i <= j < 64 && p(j)) by {
                if j == i {
                    assert(s[0] == i);
                }
                if s.contains(j) && j != i {
                    let k = choose|k: int| 0 <= k < s.len() && s[k] == j;
                    assert(rest[k - 1] == j);
                }
                if i < j < 64 && p(j) {
                    assert(rest.contains(j));
                    let k = choose|k: int| 0 <= k < rest.len() && rest[k] == j;
                    assert(s[k + 1] == rest[k]);
                }
            }
        }
    }
}

/// Positions where `p` fails on `[i, k)` do not change the list.
pub proof fn lemma_positions_skip(p: spec_fn(int) -> bool, i: int, k: int)
    requires
        0 <= i <= k <= 64,
        forall|j: int| i <= j < k ==> !#[trigger] p(j),
    ensures
        positions_from(p, i) == positions_from(p, k),
    decreases k - i,
{
    if i < k {
        lemma_positions_skip(p, i + 1, k);
    }
}

/// Two predicates that agree from `i` on list the same positions.
pub proof fn lemma_positions_agree(p: spec_fn(int) -> bool, q: spec_fn(int) -> bool, i: int)
    requires
        0 <= i <= 64,
        forall|j: int| i <= j < 64 ==> #[trigger] p(j) == q(j),
    ensures
        positions_from(p, i) == positions_from(q, i),
    decreases 64 - i,
{
    if i < 64 {
        lemma_positions_agree(p, q, i + 1);
    }
}

/// The set bits of `x` are listed by any predicate that holds exactly on them.
pub proof fn lemma_set_bits_where(x: u64, p: spec_fn(int) -> bool)
    requires
        forall|j: int| 0 <= j < 64 ==> #[trigger] p(j) == bit(x, j),
    ensures
        set_bits(x) == positions_where(p),
{
    lemma_positions_agree(|j: int| bit(x, j), p, 0);
}

/// When `h` is the highest position where `p` holds, it is the last of the list.
pub proof fn lemma_positions_last(p: spec_fn(int) -> bool, i: int, h: int)
    requires
        0 <= i <= h < 64,
        p(h),
        forall|j: int| h < j < 64 ==> !#[trigger] p(j),
    ensures
        positions_from(p, i).len() > 0,
        positions_from(p, i).last() == h,
    decreases h - i,
{
    if i < h {
        lemma_positions_last(p, i + 1, h);
    } else {
        lemma_positions_skip(p, h + 1, 64);
    }
}

/// The list is empty when `p` holds nowhere on the board.
pub proof fn lemma_positions_none(p: spec_fn(int) -> bool)
    ensures
        (forall|j: int| 0 <= j < 64 ==> !#[trigger] p(j)) <==> positions_where(p).len() == 0,
{
    lemma_positions_from(p, 0);
    if forall|j: int| 0 <= j < 64 ==> !#[trigger] p(j) {
        lemma_positions_skip(p, 0, 64);
    }
    if positions_where(p).len() == 0 {
        assert forall|j: int| 0 <= j < 64 implies !#[trigger] p(j) by {
            if p(j) {
                assert(positions_where(p).contains(j));
            }
        }
    }
}

/// Clearing the lowest set bit removes the first position of the list.
pub proof fn lemma_set_bits_clear_lowest(y: u64)
    requires
        y != 0,
    ensures
        u64_trailing_zeros(y) < 64,
        set_bits(y) == seq![u64_trailing_zeros(y) as int] + set_bits(y & ((y - 1u64) as u64)),
{
    lemma_lowest_bit(y);
    let t = u64_trailing_zeros(y) as int;
    let z = y & ((y - 1u64) as u64);
    let py = |j: int| bit(y, j);
    let pz = |j: int| bit(z, j);
    lemma_positions_skip(py, 0, t);
    assert forall|j: int| 0 <= j < t + 1 implies !#[trigger] pz(j) by {}
    lemma_positions_skip(pz, 0, t + 1);
    lemma_positions_agree(py, pz, t + 1);
}

/// The word with no bits set lists nothing.
pub proof fn lemma_set_bits_zero()
    ensures
        set_bits(0u64) == Seq::<int>::empty(),
{
    lemma_positions_skip(|j: int| bit(0u64, j), 0, 64);
}

/// A set of squares, bit `i` of the word standing for the square of index `i`.
#[derive(Clone, Copy, PartialEq, Eq, Debug, Structural)]
pub struct BitBoard(pub u64);

impl BitBoard {
    /// Whether the square with index `i` is in the set.
    pub open spec fn has(self, i: int) -> bool {
        bit(self.0, i)
    }

    /// Whether `square` is in the set.
    pub open spec fn contains(self, square: Square) -> bool {
        self.has(square.spec_index() as int)
    }

    /// The set that holds `square` alone.
    pub fn from_square(square: Square) -> (r: Self)
        ensures
            r.0 == 1u64 << square.spec_index(),
            forall|i: int| #[trigger] r.has(i) == (i == square.spec_index()),
    {
        BitBoard(1u64 << square.index())
    }

    /// Adds `square` to the set.
    pub fn set(&mut self, square: Square)
        ensures
            final(self).0 == old(self).0 | (1u64 << square.spec_index()),
            forall|i: int| #[trigger]
                final(self).has(i) == (old(self).has(i) || i == square.spec_index()),
    {
        self.0 = self.0 | (1u64 << square.index());
    }

    /// Removes `square` from the set.
    pub fn clear(&mut self, square: Square)
        ensures
            final(self).0 == old(self).0 & !(1u64 << square.spec_index()),
            forall|i: int| #[trigger]
                final(self).has(i) == (old(self).has(i) && i != square.spec_index()),
    {
        self.0 = self.0 & !(1u64 << square.index());
    }

    /// Whether `square` is in the set.
    pub fn is_set(&self, square: Square) -> (r: bool)
        ensures
            r == self.contains(square),
    {
        proof {
            let k = square.spec_index() as u64;
            let m = self.0 & (1u64 << k);
            assert(bit(m, k as int) == bit(self.0, k as int));
            if !bit(self.0, k as int) {
                assert forall|i: int| 0 <= i < 64 implies #[trigger] bit(m, i) == bit(0u64, i) by {}
                lemma_bits_ext(m, 0u64);
            } else {
                assert(!bit(0u64, k as int));
            }
        }
        (self.0 & (1u64 << square.index())) != 0
    }

    /// Whether the set holds no square.
    pub fn is_empty(&self) -> (r: bool)
        ensures
            r == (self.0 == 0),
            r == (forall|i: int| 0 <= i < 64 ==> !#[trigger] self.has(i)),
    {
        proof {
            if forall|i: int| 0 <= i < 64 ==> !#[trigger] self.has(i) {
                assert forall|i: int| 0 <= i < 64 implies #[trigger] bit(self.0, i) == bit(0u64, i) by {
                    assert(!self.has(i));
                }
                lemma_bits_ext(self.0, 0u64);
            }
        }
        self.0 == 0
    }

    /// Whether the set holds some square.
    pub fn is_non_empty(&self) -> (r: bool)
        ensures
            r == (self.0 != 0),
            r == (exists|i: int| 0 <= i < 64 && #[trigger] self.has(i)),
    {
        let e = self.is_empty();
        !e
    }

    /// The number of squares in the set.
    pub fn count(self) -> (r: u32)
        ensures
            r == popcount(self.0),
            r <= 64,
    {
        let mut n: u32 = 0;
        let mut bb = self.0;
        proof {
            lemma_positions_from(|j: int| bit(self.0, j), 0);
            assert(set_bits(self.0).len() <= 64) by {
                let s = set_bits(self.0);
                assert forall|a: int| 0 <= a < s.len() implies a <= s[a] by {
                    lemma_strictly_increasing_ge_index(s, a);
                }
                if s.len() > 64 {
                    assert(s[64] >= 64);
                }
            }
        }
        while bb != 0
            invariant
                n + popcount(bb) == popcount(self.0),
                popcount(self.0) <= 64,
            decreases bb,
        {
            proof {
                lemma_set_bits_clear_lowest(bb);
                lemma_lowest_bit(bb);
            }
            bb = bb & (bb - 1);
            n = n + 1;
        }
        proof {
            lemma_set_bits_zero();
        }
        n
    }

    /// The squares of the set, in increasing order of index.
    pub fn squares(&self) -> (r: Vec<Square>)
        ensures
            r@ == squares_of(self.0),
    {
        let mut squares: Vec<Square> = Vec::new();
        let mut bb = self.0;
        while bb != 0
            invariant
                squares@ + squares_of(bb) == squares_of(self.0),
            decreases bb,
        {
            proof {
                lemma_set_bits_clear_lowest(bb);
                lemma_lowest_bit(bb);
                let t = u64_trailing_zeros(bb) as int;
                let z = bb & ((bb - 1u64) as u64);
                assert(squares_of(bb) == seq![sq_of(t)] + squares_of(z));
            }
            let index = bb.trailing_zeros() as u8;
            squares.push(Square::from_index(index));
            bb = bb & (bb - 1);
        }
        proof {
            lemma_set_bits_zero();
            assert(squares_of(0u64) == Seq::<Square>::empty());
        }
        squares
    }

    /// The union of two sets.
    pub fn or(self, rhs: BitBoard) -> (r: BitBoard)
        ensures
            r.0 == self.0 | rhs.0,
            forall|i: int| #[trigger] r.has(i) == (self.has(i) || rhs.has(i)),
    {
        BitBoard(self.0 | rhs.0)
    }

    /// The intersection of two sets.
    pub fn and(self, rhs: BitBoard) -> (r: BitBoard)
        ensures
            r.0 == self.0 & rhs.0,
            forall|i: int| #[trigger] r.has(i) == (self.has(i) && rhs.has(i)),
    {
        BitBoard(self.0 & rhs.0)
    }

    /// The set with `square` added.
    pub fn or_square(self, square: Square) -> (r: BitBoard)
        ensures
            r.0 == self.0 | (1u64 << square.spec_index()),
            forall|i: int| #[trigger] r.has(i) == (self.has(i) || i == square.spec_index()),
    {
        BitBoard(self.0 | (1u64 << square.index()))
    }

    /// The set, kept to `square` alone: empty unless `square` is in it.
    pub fn and_square(self, square: Square) -> (r: BitBoard)
        ensures
            r.0 == self.0 & (1u64 << square.spec_index()),
            forall|i: int| #[trigger] r.has(i) == (self.has(i) && i == square.spec_index()),
    {
        BitBoard(self.0 & (1u64 << square.index()))
    }

    /// The complement of the set.
    pub fn not(self) -> (r: BitBoard)
        ensures
            r.0 == !self.0,
            forall|i: int| #[trigger] r.has(i) == (0 <= i < 64 && !self.has(i)),
    {
        BitBoard(!self.0)
    }

    /// Every square moved `rhs` indices up; squares pushed past H8 drop out.
    pub fn shl(self, rhs: u8) -> (r: BitBoard)
        requires
            rhs < 64,
        ensures
            r.0 == self.0 << rhs,
            forall|i: int| #[trigger] r.has(i) == (rhs <= i < 64 && self.has(i - rhs)),
    {
        BitBoard(self.0 << rhs)
    }

    /// Every square moved `rhs` indices down; squares pushed below A1 drop out.
    pub fn shr(self, rhs: u8) -> (r: BitBoard)
        requires
            rhs < 64,
        ensures
            r.0 == self.0 >> rhs,
            forall|i: int| #[trigger] r.has(i) == (0 <= i && self.has(i + rhs)),
    {
        BitBoard(self.0 >> rhs)
    }
}

/// The six bitboards of one color, one per piece type.
#[derive(Clone, Copy, PartialEq, Eq, Debug)]
pub struct ColorBitBoards(pub [BitBoard; 6]);

impl ColorBitBoards {
    pub open spec fn of(self, piece_type: PieceType) -> BitBoard {
        self.0@[piece_type.spec_idx() as int]
    }

    pub fn new(bitboards: [BitBoard; 6]) -> (r: Self)
        ensures
            r.0 == bitboards,
    {
        ColorBitBoards(bitboards)
    }

    /// The bitboard of `piece_type`.
    pub fn get(&self, piece_type: PieceType) -> (r: BitBoard)
        ensures
            r == self.of(piece_type),
    {
        self.0[piece_type.idx()]
    }

    /// Replaces the bitboard of `piece_type`.
    pub fn put(&mut self, piece_type: PieceType, bitboard: BitBoard)
        ensures
            forall|t: PieceType| #[trigger]
                final(self).of(t) == if t == piece_type {
                    bitboard
                } else {
                    old(self).of(t)
                },
    {
        self.0[piece_type.idx()] = bitboard;
    }
}

impl Default for ColorBitBoards {
    fn default() -> (r: Self)
        ensures
            forall|t: PieceType| (#[trigger] r.of(t)).0 == 0,
    {
        ColorBitBoards([BitBoard(0); 6])
    }
}

/// The twelve piece bitboards: six per color.
#[derive(Clone, Copy, PartialEq, Eq, Debug)]
pub struct BitBoards(pub [ColorBitBoards; 2]);

impl BitBoards {
    /// The bitboard of the squares that hold `piece`.
    pub open spec fn of(self, piece: Piece) -> BitBoard {
        self.0@[piece.color.spec_idx() as int].of(piece.piece_type)
    }

    pub fn new(data: [ColorBitBoards; 2]) -> (r: Self)
        ensures
            r.0 == data,
    {
        BitBoards(data)
    }

    /// The six bitboards of `color`.
    pub fn color(&self, color: Color) -> (r: ColorBitBoards)
        ensures
            r == self.0@[color.spec_idx() as int],
            forall|t: PieceType| #[trigger]
                r.of(t) == self.of(Piece { piece_type: t, color }),
    {
        self.0[color.idx()]
    }

    /// The bitboard of `piece`.
    pub fn piece(&self, piece: Piece) -> (r: BitBoard)
        ensures
            r == self.of(piece),
    {
        self.0[piece.color.idx()].get(piece.piece_type)
    }

    /// The bitboard of the pieces of `piece_type` and `color`.
    pub fn get(&self, color: Color, piece_type: PieceType) -> (r: BitBoard)
        ensures
            r == self.of(Piece { piece_type, color }),
    {
        self.0[color.idx()].get(piece_type)
    }

    /// Replaces the bitboard of `piece`.
    pub fn put(&mut self, piece: Piece, bitboard: BitBoard)
        ensures
            forall|q: Piece| #[trigger]
                final(self).of(q) == if q == piece {
                    bitboard
                } else {
                    old(self).of(q)
                },
    {
        let c = piece.color.idx();
        let mut cb = self.0[c];
        cb.put(piece.piece_type, bitboard);
        self.0[c] = cb;
        proof {
            assert forall|q: Piece| #[trigger]
                final(self).of(q) == if q == piece {
                    bitboard
                } else {
                    old(self).of(q)
                } by {
                if q.color != piece.color {
                    assert(q.color.spec_idx() != piece.color.spec_idx());
                }
            }
        }
    }
}

impl Default for BitBoards {
    fn default() -> (r: Self)
        ensures
            forall|p: Piece| (#[trigger] r.of(p)).0 == 0,
    {
        BitBoards([ColorBitBoards::default(), ColorBitBoards::default()])
    }
}

/// At most 64 squares satisfy a predicate.
pub proof fn lemma_positions_len(p: spec_fn(int) -> bool)
    ensures
        positions_where(p).len() <= 64,
{
    lemma_positions_from(p, 0);
    let s = positions_where(p);
    if s.len() > 64 {
        lemma_strictly_increasing_ge_index(s, 64);
    }
}

/// In a strictly increasing sequence of integers that are at least 0, the
/// element at position `a` is at least `a`.
pub proof fn lemma_strictly_increasing_ge_index(s: Seq<int>, a: int)
    requires
        0 <= a < s.len(),
        forall|x: int, y: int| 0 <= x < y < s.len() ==> s[x] < s[y],
        forall|x: int| 0 <= x < s.len() ==> 0 <= #[trigger] s[x],
    ensures
        a <= s[a],
    decreases a,
{
    if a > 0 {
        lemma_strictly_increasing_ge_index(s, a - 1);
    }
}

/// A bitboard's count is the number of its squares.
pub proof fn lemma_count_is_number_of_squares(x: u64)
    ensures
        popcount(x) == squares_of(x).len(),
{
}

/// Counting the positions from `i` on: those of `p` and of `q` together are
/// those of either plus those of both.
proof fn lemma_positions_count_union(p: spec_fn(int) -> bool, q: spec_fn(int) -> bool, i: int)
    requires
        0 <= i <= 64,
    ensures
        positions_from(p, i).len() + positions_from(q, i).len() == positions_from(
            |j: int| p(j) || q(j),
            i,
        ).len() + positions_from(|j: int| p(j) && q(j), i).len(),
    decreases 64 - i,
{
    if i < 64 {
        lemma_positions_count_union(p, q, i + 1);
    }
}

/// Counting the positions from `i` on: those where `p` fails are the rest.
proof fn lemma_positions_count_not(p: spec_fn(int) -> bool, i: int)
    requires
        0 <= i <= 64,
    ensures
        positions_from(|j: int| !p(j), i).len() == (64 - i) - positions_from(p, i).len(),
    decreases 64 - i,
{
    if i < 64 {
        lemma_positions_count_not(p, i + 1);
    }
}

/// The counts of a union and an intersection add up to the counts of the two
/// sets; the complement holds the squares a set does not; the empty set has
/// none.
pub proof fn lemma_count_laws(a: u64, b: u64)
    ensures
        popcount(a | b) + popcount(a & b) == popcount(a) + popcount(b),
        popcount(!a) == 64 - popcount(a),
        popcount(0u64) == 0,
{
    let pa = |j: int| bit(a, j);
    let pb = |j: int| bit(b, j);
    lemma_positions_count_union(pa, pb, 0);
    lemma_positions_agree(|j: int| bit(a | b, j), |j: int| pa(j) || pb(j), 0);
    lemma_positions_agree(|j: int| bit(a & b, j), |j: int| pa(j) && pb(j), 0);
    lemma_positions_count_not(pa, 0);
    lemma_positions_agree(|j: int| bit(!a, j), |j: int| !pa(j), 0);
    lemma_set_bits_zero();
}

} // verus!
