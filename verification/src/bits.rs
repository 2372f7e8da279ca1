//! Facts about the bits of a `u64`, on which the bitboards rest.
use vstd::prelude::*;
use vstd::std_specs::bits::{axiom_u64_trailing_zeros, u64_trailing_zeros};

verus! {

/// Whether bit `i` of `x` is set (false for positions outside `0..64`).
pub open spec fn bit(x: u64, i: int) -> bool {
    0 <= i < 64 && (x >> (i as u64)) & 1u64 == 1u64
}

proof fn bv_or(x: u64, y: u64, i: u64)
    by (bit_vector)
    requires
        i < 64,
    ensures
        ((x | y) >> i) & 1u64 == 1u64 <==> ((x >> i) & 1u64 == 1u64 || (y >> i) & 1u64 == 1u64),
{
}

proof fn bv_and(x: u64, y: u64, i: u64)
    by (bit_vector)
    requires
        i < 64,
    ensures
        ((x & y) >> i) & 1u64 == 1u64 <==> ((x >> i) & 1u64 == 1u64 && (y >> i) & 1u64 == 1u64),
{
}

proof fn bv_xor(x: u64, y: u64, i: u64)
    by (bit_vector)
    requires
        i < 64,
    ensures
        ((x ^ y) >> i) & 1u64 == 1u64 <==> ((x >> i) & 1u64 == 1u64) != ((y >> i) & 1u64
            == 1u64),
{
}

proof fn bv_not(x: u64, i: u64)
    by (bit_vector)
    requires
        i < 64,
    ensures
        ((!x) >> i) & 1u64 == 1u64 <==> !((x >> i) & 1u64 == 1u64),
{
}

proof fn bv_shl(x: u64, k: u64, i: u64)
    by (bit_vector)
    requires
        i < 64,
        k < 64,
    ensures
        ((x << k) >> i) & 1u64 == 1u64 <==> (k <= i && (x >> ((i - k) as u64)) & 1u64 == 1u64),
{
}

proof fn bv_shr(x: u64, k: u64, i: u64)
    by (bit_vector)
    requires
        i < 64,
        k < 64,
    ensures
        ((x >> k) >> i) & 1u64 == 1u64 <==> (i + k < 64 && (x >> ((i + k) as u64)) & 1u64
            == 1u64),
{
}

proof fn bv_single(k: u64, i: u64)
    by (bit_vector)
    requires
        i < 64,
        k < 64,
    ensures
        ((1u64 << k) >> i) & 1u64 == 1u64 <==> i == k,
{
}

proof fn bv_zero(i: u64)
    by (bit_vector)
    requires
        i < 64,
    ensures
        !((0u64 >> i) & 1u64 == 1u64),
{
}

proof fn bv_clear_lowest(y: u64, t: u64, i: u64)
    by (bit_vector)
    requires
        t < 64,
        i < 64,
        (y >> t) & 1u64 == 1u64,
        y & (((1u64 << t) - 1u64) as u64) == 0,
    ensures
        ((y & ((y - 1u64) as u64)) >> i) & 1u64 == 1u64 <==> ((y >> i) & 1u64 == 1u64 && i != t),
{
}

proof fn bv_clear_lowest_smaller(y: u64)
    by (bit_vector)
    requires
        y != 0,
    ensures
        y & ((y - 1u64) as u64) < y,
{
}

proof fn bv_low_mask(t: u64, i: u64)
    by (bit_vector)
    requires
        t < 64,
        i < 64,
    ensures
        (((((1u64 << t) - 1u64) as u64) >> i) & 1u64 == 1u64) <==> i < t,
{
}

proof fn bv_rank2(i: u64)
    by (bit_vector)
    requires
        i < 64,
    ensures
        ((0xff00u64 >> i) & 1u64 == 1u64) == (8 <= i && i < 16),
{
}

proof fn bv_rank7(i: u64)
    by (bit_vector)
    requires
        i < 64,
    ensures
        ((0x00ff_0000_0000_0000u64 >> i) & 1u64 == 1u64) == (48 <= i && i < 56),
{
}

proof fn bv_file_a(i: u64)
    by (bit_vector)
    requires
        i < 64,
    ensures
        ((0x0101_0101_0101_0101u64 >> i) & 1u64 == 1u64) == (i % 8 == 0),
{
}

proof fn bv_file_h(i: u64)
    by (bit_vector)
    requires
        i < 64,
    ensures
        ((0x8080_8080_8080_8080u64 >> i) & 1u64 == 1u64) == (i % 8 == 7),
{
}

/// The squares of the second rank.
pub broadcast proof fn lemma_bit_rank2(i: int)
    ensures
        #[trigger] bit(0xff00u64, i) == (0 <= i < 64 && i / 8 == 1),
{
    if 0 <= i < 64 {
        bv_rank2(i as u64);
    }
}

/// The squares of the seventh rank.
pub broadcast proof fn lemma_bit_rank7(i: int)
    ensures
        #[trigger] bit(0x00ff_0000_0000_0000u64, i) == (0 <= i < 64 && i / 8 == 6),
{
    if 0 <= i < 64 {
        bv_rank7(i as u64);
    }
}

/// The squares of the a-file.
pub broadcast proof fn lemma_bit_file_a(i: int)
    ensures
        #[trigger] bit(0x0101_0101_0101_0101u64, i) == (0 <= i < 64 && i % 8 == 0),
{
    if 0 <= i < 64 {
        bv_file_a(i as u64);
    }
}

/// The squares of the h-file.
pub broadcast proof fn lemma_bit_file_h(i: int)
    ensures
        #[trigger] bit(0x8080_8080_8080_8080u64, i) == (0 <= i < 64 && i % 8 == 7),
{
    if 0 <= i < 64 {
        bv_file_h(i as u64);
    }
}

pub broadcast group group_board_masks {
    lemma_bit_rank2,
    lemma_bit_rank7,
    lemma_bit_file_a,
    lemma_bit_file_h,
}

/// The lowest bit of a word is 1 exactly when it is not 0.
pub proof fn lemma_low_bit(x: u64)
    by (bit_vector)
    ensures
        (x & 1u64 != 0u64) == (x & 1u64 == 1u64),
{
}

pub broadcast proof fn lemma_bit_or(x: u64, y: u64, i: int)
    ensures
        #[trigger] bit(x | y, i) == (bit(x, i) || bit(y, i)),
{
    if 0 <= i < 64 {
        bv_or(x, y, i as u64);
    }
}

pub broadcast proof fn lemma_bit_and(x: u64, y: u64, i: int)
    ensures
        #[trigger] bit(x & y, i) == (bit(x, i) && bit(y, i)),
{
    if 0 <= i < 64 {
        bv_and(x, y, i as u64);
    }
}

pub broadcast proof fn lemma_bit_xor(x: u64, y: u64, i: int)
    ensures
        #[trigger] bit(x ^ y, i) == (bit(x, i) != bit(y, i)),
{
    if 0 <= i < 64 {
        bv_xor(x, y, i as u64);
    }
}

pub broadcast proof fn lemma_bit_not(x: u64, i: int)
    ensures
        #[trigger] bit(!x, i) == (0 <= i < 64 && !bit(x, i)),
{
    if 0 <= i < 64 {
        bv_not(x, i as u64);
    }
}

pub broadcast proof fn lemma_bit_shl(x: u64, k: u64, i: int)
    requires
        k < 64,
    ensures
        #[trigger] bit(x << k, i) == (i < 64 && k <= i && bit(x, i - k)),
{
    if 0 <= i < 64 {
        bv_shl(x, k, i as u64);
    }
}

pub broadcast proof fn lemma_bit_shr(x: u64, k: u64, i: int)
    requires
        k < 64,
    ensures
        #[trigger] bit(x >> k, i) == (0 <= i && bit(x, i + k)),
{
    if 0 <= i < 64 {
        bv_shr(x, k, i as u64);
    }
}

pub broadcast proof fn lemma_bit_single(k: u64, i: int)
    requires
        k < 64,
    ensures
        #[trigger] bit(1u64 << k, i) == (i == k),
{
    if 0 <= i < 64 {
        bv_single(k, i as u64);
    }
}

pub broadcast proof fn lemma_bit_zero(i: int)
    ensures
        !#[trigger] bit(0u64, i),
{
    if 0 <= i < 64 {
        bv_zero(i as u64);
    }
}

pub broadcast group group_bits {
    lemma_bit_or,
    lemma_bit_and,
    lemma_bit_xor,
    lemma_bit_not,
    lemma_bit_shl,
    lemma_bit_shr,
    lemma_bit_single,
    lemma_bit_zero,
}

/// A `u64` is determined by its bits.
pub proof fn lemma_bits_ext(x: u64, y: u64)
    requires
        forall|i: int| 0 <= i < 64 ==> #[trigger] bit(x, i) == bit(y, i),
    ensures
        x == y,
{
    if x != y {
        let d = x ^ y;
        assert(d != 0) by {
            assert(x ^ y == 0 ==> x == y) by (bit_vector);
        }
        axiom_u64_trailing_zeros(d);
        let t = u64_trailing_zeros(d) as int;
        assert(bit(d, t));
        lemma_bit_xor(x, y, t);
        assert(bit(x, t) == bit(y, t));
    }
}

/// The lowest set bit of a non-zero `u64` is its number of trailing zeros,
/// and `y & (y - 1)` clears exactly that bit.
pub proof fn lemma_lowest_bit(y: u64)
    requires
        y != 0,
    ensures
        ({
            let t = u64_trailing_zeros(y) as int;
            &&& 0 <= t < 64
            &&& bit(y, t)
            &&& forall|j: int| 0 <= j < t ==> !#[trigger] bit(y, j)
            &&& forall|j: int| #[trigger] bit(y & ((y - 1u64) as u64), j) == (bit(y, j) && j != t)
            &&& y & ((y - 1u64) as u64) < y
        }),
{
    axiom_u64_trailing_zeros(y);
    let t = u64_trailing_zeros(y);
    assert forall|j: int| 0 <= j < t implies !#[trigger] bit(y, j) by {
        assert((y >> (j as u64)) & 1u64 == 0u64);
    }
    let mask = ((1u64 << t as u64) - 1u64) as u64;
    assert forall|j: int| 0 <= j < 64 implies #[trigger] bit(y & mask, j) == bit(0u64, j) by {
        bv_low_mask(t as u64, j as u64);
        lemma_bit_and(y, mask, j);
        lemma_bit_zero(j);
    }
    lemma_bits_ext(y & mask, 0u64);
    assert forall|j: int| #[trigger] bit(y & ((y - 1u64) as u64), j) == (bit(y, j) && j != t) by {
        if 0 <= j < 64 {
            bv_clear_lowest(y, t as u64, j as u64);
        }
    }
    bv_clear_lowest_smaller(y);
}

} // verus!
