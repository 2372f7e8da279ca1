//! Squares of the board, numbered A1 = 0, B1 = 1, ..., H8 = 63, and maps indexed by them.
use vstd::prelude::*;
use vstd::string::StringSliceAdditionalSpecFns;

verus! {

/// A square of the board. The index of a square is `rank * 8 + file`, with
/// rank and file counted from zero (A1 = 0, H1 = 7, A8 = 56, H8 = 63).
#[derive(Clone, Copy, PartialEq, Eq, Debug, Structural)]
pub enum Square {
    A1,
    B1,
    C1,
    D1,
    E1,
    F1,
    G1,
    H1,
    A2,
    B2,
    C2,
    D2,
    E2,
    F2,
    G2,
    H2,
    A3,
    B3,
    C3,
    D3,
    E3,
    F3,
    G3,
    H3,
    A4,
    B4,
    C4,
    D4,
    E4,
    F4,
    G4,
    H4,
    A5,
    B5,
    C5,
    D5,
    E5,
    F5,
    G5,
    H5,
    A6,
    B6,
    C6,
    D6,
    E6,
    F6,
    G6,
    H6,
    A7,
    B7,
    C7,
    D7,
    E7,
    F7,
    G7,
    H7,
    A8,
    B8,
    C8,
    D8,
    E8,
    F8,
    G8,
    H8,
}

/// The square whose index is `i` (A1 for indices off the board).
pub open spec fn sq_of(i: int) -> Square {
    if 0 <= i < 64 {
        sq_of_byte(i as u8)
    } else {
        Square::A1
    }
}

/// The square whose index is `i` (A1 for indices off the board).
pub open spec fn sq_of_byte(i: u8) -> Square {
    match i {
        0 => Square::A1,
        1 => Square::B1,
        2 => Square::C1,
        3 => Square::D1,
        4 => Square::E1,
        5 => Square::F1,
        6 => Square::G1,
        7 => Square::H1,
        8 => Square::A2,
        9 => Square::B2,
        10 => Square::C2,
        11 => Square::D2,
        12 => Square::E2,
        13 => Square::F2,
        14 => Square::G2,
        15 => Square::H2,
        16 => Square::A3,
        17 => Square::B3,
        18 => Square::C3,
        19 => Square::D3,
        20 => Square::E3,
        21 => Square::F3,
        22 => Square::G3,
        23 => Square::H3,
        24 => Square::A4,
        25 => Square::B4,
        26 => Square::C4,
        27 => Square::D4,
        28 => Square::E4,
        29 => Square::F4,
        30 => Square::G4,
        31 => Square::H4,
        32 => Square::A5,
        33 => Square::B5,
        34 => Square::C5,
        35 => Square::D5,
        36 => Square::E5,
        37 => Square::F5,
        38 => Square::G5,
        39 => Square::H5,
        40 => Square::A6,
        41 => Square::B6,
        42 => Square::C6,
        43 => Square::D6,
        44 => Square::E6,
        45 => Square::F6,
        46 => Square::G6,
        47 => Square::H6,
        48 => Square::A7,
        49 => Square::B7,
        50 => Square::C7,
        51 => Square::D7,
        52 => Square::E7,
        53 => Square::F7,
        54 => Square::G7,
        55 => Square::H7,
        56 => Square::A8,
        57 => Square::B8,
        58 => Square::C8,
        59 => Square::D8,
        60 => Square::E8,
        61 => Square::F8,
        62 => Square::G8,
        63 => Square::H8,
        _ => Square::A1,
    }
}

impl Square {
    /// The index of this square, `rank * 8 + file`.
    pub open spec fn spec_index(self) -> u8 {
        match self {
            Square::A1 => 0,
            Square::B1 => 1,
            Square::C1 => 2,
            Square::D1 => 3,
            Square::E1 => 4,
            Square::F1 => 5,
            Square::G1 => 6,
            Square::H1 => 7,
            Square::A2 => 8,
            Square::B2 => 9,
            Square::C2 => 10,
            Square::D2 => 11,
            Square::E2 => 12,
            Square::F2 => 13,
            Square::G2 => 14,
            Square::H2 => 15,
            Square::A3 => 16,
            Square::B3 => 17,
            Square::C3 => 18,
            Square::D3 => 19,
            Square::E3 => 20,
            Square::F3 => 21,
            Square::G3 => 22,
            Square::H3 => 23,
            Square::A4 => 24,
            Square::B4 => 25,
            Square::C4 => 26,
            Square::D4 => 27,
            Square::E4 => 28,
            Square::F4 => 29,
            Square::G4 => 30,
            Square::H4 => 31,
            Square::A5 => 32,
            Square::B5 => 33,
            Square::C5 => 34,
            Square::D5 => 35,
            Square::E5 => 36,
            Square::F5 => 37,
            Square::G5 => 38,
            Square::H5 => 39,
            Square::A6 => 40,
            Square::B6 => 41,
            Square::C6 => 42,
            Square::D6 => 43,
            Square::E6 => 44,
            Square::F6 => 45,
            Square::G6 => 46,
            Square::H6 => 47,
            Square::A7 => 48,
            Square::B7 => 49,
            Square::C7 => 50,
            Square::D7 => 51,
            Square::E7 => 52,
            Square::F7 => 53,
            Square::G7 => 54,
            Square::H7 => 55,
            Square::A8 => 56,
            Square::B8 => 57,
            Square::C8 => 58,
            Square::D8 => 59,
            Square::E8 => 60,
            Square::F8 => 61,
            Square::G8 => 62,
            Square::H8 => 63,
        }
    }

    /// The index of this square, `rank * 8 + file`.
    #[verifier::when_used_as_spec(spec_index)]
    pub fn index(self) -> (r: u8)
        ensures
            r == self.spec_index(),
            r < 64,
    {
        match self {
            Square::A1 => 0,
            Square::B1 => 1,
            Square::C1 => 2,
            Square::D1 => 3,
            Square::E1 => 4,
            Square::F1 => 5,
            Square::G1 => 6,
            Square::H1 => 7,
            Square::A2 => 8,
            Square::B2 => 9,
            Square::C2 => 10,
            Square::D2 => 11,
            Square::E2 => 12,
            Square::F2 => 13,
            Square::G2 => 14,
            Square::H2 => 15,
            Square::A3 => 16,
            Square::B3 => 17,
            Square::C3 => 18,
            Square::D3 => 19,
            Square::E3 => 20,
            Square::F3 => 21,
            Square::G3 => 22,
            Square::H3 => 23,
            Square::A4 => 24,
            Square::B4 => 25,
            Square::C4 => 26,
            Square::D4 => 27,
            Square::E4 => 28,
            Square::F4 => 29,
            Square::G4 => 30,
            Square::H4 => 31,
            Square::A5 => 32,
            Square::B5 => 33,
            Square::C5 => 34,
            Square::D5 => 35,
            Square::E5 => 36,
            Square::F5 => 37,
            Square::G5 => 38,
            Square::H5 => 39,
            Square::A6 => 40,
            Square::B6 => 41,
            Square::C6 => 42,
            Square::D6 => 43,
            Square::E6 => 44,
            Square::F6 => 45,
            Square::G6 => 46,
            Square::H6 => 47,
            Square::A7 => 48,
            Square::B7 => 49,
            Square::C7 => 50,
            Square::D7 => 51,
            Square::E7 => 52,
            Square::F7 => 53,
            Square::G7 => 54,
            Square::H7 => 55,
            Square::A8 => 56,
            Square::B8 => 57,
            Square::C8 => 58,
            Square::D8 => 59,
            Square::E8 => 60,
            Square::F8 => 61,
            Square::G8 => 62,
            Square::H8 => 63,
        }
    }

    pub open spec fn spec_rank(self) -> int {
        (self.spec_index() / 8) as int
    }

    pub open spec fn spec_file(self) -> int {
        (self.spec_index() % 8) as int
    }
}

/// Every square has an index below 64, and the square is determined by it.
pub broadcast proof fn lemma_square_index(s: Square)
    ensures
        #[trigger] s.spec_index() < 64,
        sq_of(s.spec_index() as int) == s,
{
    match s {
        Square::A1 => {},
        Square::B1 => {},
        Square::C1 => {},
        Square::D1 => {},
        Square::E1 => {},
        Square::F1 => {},
        Square::G1 => {},
        Square::H1 => {},
        Square::A2 => {},
        Square::B2 => {},
        Square::C2 => {},
        Square::D2 => {},
        Square::E2 => {},
        Square::F2 => {},
        Square::G2 => {},
        Square::H2 => {},
        Square::A3 => {},
        Square::B3 => {},
        Square::C3 => {},
        Square::D3 => {},
        Square::E3 => {},
        Square::F3 => {},
        Square::G3 => {},
        Square::H3 => {},
        Square::A4 => {},
        Square::B4 => {},
        Square::C4 => {},
        Square::D4 => {},
        Square::E4 => {},
        Square::F4 => {},
        Square::G4 => {},
        Square::H4 => {},
        Square::A5 => {},
        Square::B5 => {},
        Square::C5 => {},
        Square::D5 => {},
        Square::E5 => {},
        Square::F5 => {},
        Square::G5 => {},
        Square::H5 => {},
        Square::A6 => {},
        Square::B6 => {},
        Square::C6 => {},
        Square::D6 => {},
        Square::E6 => {},
        Square::F6 => {},
        Square::G6 => {},
        Square::H6 => {},
        Square::A7 => {},
        Square::B7 => {},
        Square::C7 => {},
        Square::D7 => {},
        Square::E7 => {},
        Square::F7 => {},
        Square::G7 => {},
        Square::H7 => {},
        Square::A8 => {},
        Square::B8 => {},
        Square::C8 => {},
        Square::D8 => {},
        Square::E8 => {},
        Square::F8 => {},
        Square::G8 => {},
        Square::H8 => {},
    }
}

/// `sq_of` is the inverse of `spec_index` on the board.
pub broadcast proof fn lemma_sq_of(i: int)
    requires
        0 <= i < 64,
    ensures
        #[trigger] sq_of(i).spec_index() == i,
{
}

pub broadcast group group_square {
    lemma_square_index,
    lemma_sq_of,
}

/// Whether `b` is `a` mirrored across the middle of the board: same file,
/// rank `7 - rank`.
pub open spec fn is_flip(a: Square, b: Square) -> bool {
    b.spec_file() == a.spec_file() && b.spec_rank() == 7 - a.spec_rank()
}

/// Flipping a square twice gives the square back.
pub proof fn lemma_flip_twice(a: Square, b: Square, c: Square)
    requires
        is_flip(a, b),
        is_flip(b, c),
    ensures
        c == a,
{
    lemma_square_index(a);
    lemma_square_index(c);
    lemma_square_index_injective(a, c);
}

/// Two squares with the same index are the same square.
pub proof fn lemma_square_index_injective(a: Square, b: Square)
    ensures
        a.spec_index() == b.spec_index() <==> a == b,
{
    lemma_square_index(a);
    lemma_square_index(b);
}

impl Square {
    /// The square with the given index.
    pub fn from_index(index: u8) -> (r: Square)
        requires
            index < 64,
        ensures
            r.spec_index() == index,
            r == sq_of(index as int),
    {
        match index {
            0 => Square::A1,
            1 => Square::B1,
            2 => Square::C1,
            3 => Square::D1,
            4 => Square::E1,
            5 => Square::F1,
            6 => Square::G1,
            7 => Square::H1,
            8 => Square::A2,
            9 => Square::B2,
            10 => Square::C2,
            11 => Square::D2,
            12 => Square::E2,
            13 => Square::F2,
            14 => Square::G2,
            15 => Square::H2,
            16 => Square::A3,
            17 => Square::B3,
            18 => Square::C3,
            19 => Square::D3,
            20 => Square::E3,
            21 => Square::F3,
            22 => Square::G3,
            23 => Square::H3,
            24 => Square::A4,
            25 => Square::B4,
            26 => Square::C4,
            27 => Square::D4,
            28 => Square::E4,
            29 => Square::F4,
            30 => Square::G4,
            31 => Square::H4,
            32 => Square::A5,
            33 => Square::B5,
            34 => Square::C5,
            35 => Square::D5,
            36 => Square::E5,
            37 => Square::F5,
            38 => Square::G5,
            39 => Square::H5,
            40 => Square::A6,
            41 => Square::B6,
            42 => Square::C6,
            43 => Square::D6,
            44 => Square::E6,
            45 => Square::F6,
            46 => Square::G6,
            47 => Square::H6,
            48 => Square::A7,
            49 => Square::B7,
            50 => Square::C7,
            51 => Square::D7,
            52 => Square::E7,
            53 => Square::F7,
            54 => Square::G7,
            55 => Square::H7,
            56 => Square::A8,
            57 => Square::B8,
            58 => Square::C8,
            59 => Square::D8,
            60 => Square::E8,
            61 => Square::F8,
            62 => Square::G8,
            63 => Square::H8,
            _ => Square::A1,
        }
    }

}

/// The square named by two ASCII bytes, a file letter `a`..`h` and a rank digit
/// `1`..`8`, if `b` is such a name.
pub open spec fn algebraic_square(b: Seq<u8>) -> Option<Square> {
    if b.len() == 2 && 97 <= b[0] <= 104 && 49 <= b[1] <= 56 {
        Some(sq_of((b[1] - 49) * 8 + (b[0] - 97)))
    } else {
        None
    }
}

impl Square {
    /// The rank of this square, 0 for the first rank up to 7 for the eighth.
    pub fn rank(self) -> (r: u8)
        ensures
            r == self.spec_rank(),
            r < 8,
    {
        self.index() / 8
    }

    /// The file of this square, 0 for the a-file up to 7 for the h-file.
    pub fn file(self) -> (r: u8)
        ensures
            r == self.spec_file(),
            r < 8,
    {
        self.index() % 8
    }

    /// The square on the given rank and file.
    pub fn from_rank_file(rank: u8, file: u8) -> (r: Square)
        requires
            rank < 8,
            file < 8,
        ensures
            r.spec_index() == rank * 8 + file,
            r.spec_rank() == rank,
            r.spec_file() == file,
    {
        Square::from_index(rank * 8 + file)
    }

    /// The square on the given rank and file, or `None` when either lies
    /// outside `0..8`.
    pub fn try_from_rank_file(rank: i8, file: i8) -> (r: Option<Square>)
        ensures
            r is Some <==> (0 <= rank < 8 && 0 <= file < 8),
            r matches Some(sq) ==> sq.spec_index() == rank * 8 + file && sq.spec_rank() == rank
                && sq.spec_file() == file,
    {
        if 0 <= rank && rank < 8 && 0 <= file && file < 8 {
            Some(Square::from_rank_file(rank as u8, file as u8))
        } else {
            None
        }
    }

    /// The square mirrored across the middle of the board: same file, rank
    /// `7 - rank`. This maps a square seen by White to the one Black sees.
    pub fn flip(self) -> (r: Square)
        ensures
            is_flip(self, r),
            r.spec_file() == self.spec_file(),
            r.spec_rank() == 7 - self.spec_rank(),
            r.spec_index() == (7 - self.spec_rank()) * 8 + self.spec_file(),
    {
        Square::from_rank_file(7 - self.rank(), self.file())
    }

    /// The square `rhs` indices above this one.
    pub fn plus(self, rhs: u8) -> (r: Square)
        requires
            self.spec_index() + rhs < 64,
        ensures
            r.spec_index() == self.spec_index() + rhs,
    {
        Square::from_index(self.index() + rhs)
    }

    /// The square `rhs` indices below this one.
    pub fn minus(self, rhs: u8) -> (r: Square)
        requires
            self.spec_index() >= rhs,
        ensures
            r.spec_index() == self.spec_index() - rhs,
    {
        Square::from_index(self.index() - rhs)
    }

    /// Reads a square from its algebraic name, such as `e3`.
    pub fn from_algebraic(name: &str) -> (r: Option<Square>)
        ensures
            r == algebraic_square(name.spec_bytes()),
    {
        Square::from_algebraic_bytes(name.as_bytes())
    }

    /// Reads a square from the bytes of its algebraic name, such as `e3`.
    pub fn from_algebraic_bytes(b: &[u8]) -> (r: Option<Square>)
        ensures
            r == algebraic_square(b@),
    {
        if b.len() == 2 && 97 <= b[0] && b[0] <= 104 && 49 <= b[1] && b[1] <= 56 {
            Some(Square::from_rank_file(b[1] - 49, b[0] - 97))
        } else {
            None
        }
    }
}

/// A value for each of the 64 squares.
#[derive(Clone, Copy, PartialEq, Eq, Debug)]
pub struct SquareMap<T>(pub [T; 64]);

impl<T> View for SquareMap<T> {
    type V = Seq<T>;

    open spec fn view(&self) -> Seq<T> {
        self.0@
    }
}

impl<T: Copy> SquareMap<T> {
    pub fn new(data: [T; 64]) -> (r: Self)
        ensures
            r@ == data@,
    {
        SquareMap(data)
    }

    /// The map that holds `value` on every square.
    pub fn filled(value: T) -> (r: Self)
        ensures
            r@.len() == 64,
            forall|i: int| 0 <= i < 64 ==> r@[i] == value,
    {
        SquareMap([value; 64])
    }

    /// The value held for `square`.
    pub fn get(&self, square: Square) -> (r: T)
        ensures
            r == self@[square.spec_index() as int],
    {
        self.0[square.index() as usize]
    }

    /// Replaces the value held for `square`.
    pub fn set(&mut self, square: Square, value: T)
        ensures
            final(self)@ == old(self)@.update(square.spec_index() as int, value),
    {
        self.0[square.index() as usize] = value;
    }
}

} // verus!
