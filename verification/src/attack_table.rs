//! Tables of the squares that a knight, a king or a pawn attacks from each
//! square of the board.
use crate::attacks::{king_attacks_from, knight_attacks_from, pawn_attack, pawn_attacks_from};
use crate::bitboard::BitBoard;
use crate::piece::Color;
use crate::rules::{king_step, knight_jump};
use crate::square::{group_square, Square};
use vstd::prelude::*;

verus! {

broadcast use group_square;

/// One bitboard for each square of the board, in the order of the squares'
/// indices.
pub struct AttackTable(pub [BitBoard; 64]);

impl AttackTable {
    /// The bitboard of the square with index `i`.
    pub open spec fn at(self, i: int) -> BitBoard {
        self.0@[i]
    }

    /// The table made of `bitboards`, the first for a1 and the last for h8.
    pub fn new(bitboards: [BitBoard; 64]) -> (r: Self)
        ensures
            r.0@ == bitboards@,
    {
        Self(bitboards)
    }

    /// The bitboard of `square`.
    pub fn get(&self, square: Square) -> (r: BitBoard)
        ensures
            r == self.at(square.spec_index() as int),
    {
        self.0[square.index() as usize]
    }
}

/// The table of the squares a knight attacks from each square.
pub fn generate_knight_bitboards() -> (r: AttackTable)
    ensures
        forall|s: int, t: int| 0 <= s < 64 ==> (#[trigger] r.at(s).has(t) <==> knight_jump(s, t)),
{
    let mut bitboards = [BitBoard(0);64];
    let mut i: u8 = 0;
    while i < 64
        invariant
            i <= 64,
            forall|s: int, t: int| 0 <= s < i ==> (#[trigger] bitboards@[s].has(t) <==> knight_jump(s, t)),
        decreases 64 - i,
    {
        let square = Square::from_index(i);
        bitboards[i as usize] = knight_attacks_from(square);
        i = i + 1;
    }
    AttackTable::new(bitboards)
}

/// The table of the squares a king attacks from each square.
pub fn generate_king_bitboards() -> (r: AttackTable)
    ensures
        forall|s: int, t: int| 0 <= s < 64 ==> (#[trigger] r.at(s).has(t) <==> king_step(s, t)),
{
    let mut bitboards = [BitBoard(0);64];
    let mut i: u8 = 0;
    while i < 64
        invariant
            i <= 64,
            forall|s: int, t: int| 0 <= s < i ==> (#[trigger] bitboards@[s].has(t) <==> king_step(s, t)),
        decreases 64 - i,
    {
        let square = Square::from_index(i);
        bitboards[i as usize] = king_attacks_from(square);
        i = i + 1;
    }
    AttackTable::new(bitboards)
}

/// The table of the squares a pawn of `color` attacks from each square.
pub fn generate_pawn_attack_bitboards(color: Color) -> (r: AttackTable)
    ensures
        forall|s: int, t: int|
            0 <= s < 64 ==> (#[trigger] r.at(s).has(t) <==> pawn_attack(color, s, t)),
{
    let mut bitboards = [BitBoard(0);64];
    let mut i: u8 = 0;
    while i < 64
        invariant
            i <= 64,
            forall|s: int, t: int|
                0 <= s < i ==> (#[trigger] bitboards@[s].has(t) <==> pawn_attack(color, s, t)),
        decreases 64 - i,
    {
        let square = Square::from_index(i);
        bitboards[i as usize] = pawn_attacks_from(color, square);
        i = i + 1;
    }
    AttackTable::new(bitboards)
}

} // verus!
