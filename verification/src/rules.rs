//! The geometry of the board: ranks, files, steps and rays.
use vstd::prelude::*;

verus! {

/// The rank (0 to 7) of the square with index `i`.
pub open spec fn rank_of(i: int) -> int {
    i / 8
}

/// The file (0 to 7) of the square with index `i`.
pub open spec fn file_of(i: int) -> int {
    i % 8
}

/// Whether rank `r` and file `f` name a square of the board.
pub open spec fn on_board(r: int, f: int) -> bool {
    0 <= r < 8 && 0 <= f < 8
}

/// `j * d` for a unit step `d` in `-1..=1`.
pub open spec fn times(j: int, d: int) -> int {
    if d == 1 {
        j
    } else if d == -1 {
        -j
    } else {
        0
    }
}

/// Whether `t` lies `(dr, df)` ranks and files away from `s`, on the board.
pub open spec fn lands(s: int, dr: int, df: int, t: int) -> bool {
    &&& on_board(rank_of(s) + dr, file_of(s) + df)
    &&& t == (rank_of(s) + dr) * 8 + file_of(s) + df
}

/// Whether a knight on `s` attacks `t`.
pub open spec fn knight_jump(s: int, t: int) -> bool {
    let dr = rank_of(t) - rank_of(s);
    let df = file_of(t) - file_of(s);
    &&& 0 <= t < 64
    &&& ((dr == 1 || dr == -1) && (df == 2 || df == -2)) || ((dr == 2 || dr == -2) && (df == 1
        || df == -1))
}

/// Whether a king on `s` attacks `t`.
pub open spec fn king_step(s: int, t: int) -> bool {
    let dr = rank_of(t) - rank_of(s);
    let df = file_of(t) - file_of(s);
    &&& 0 <= t < 64
    &&& -1 <= dr <= 1
    &&& -1 <= df <= 1
    &&& t != s
}

/// The square `j` steps from `s` in the direction `(dr, df)`.
pub open spec fn ray_square(s: int, dr: int, df: int, j: int) -> int {
    (rank_of(s) + times(j, dr)) * 8 + file_of(s) + times(j, df)
}

/// Whether the square `j` steps from `s` in direction `(dr, df)` is on the board.
pub open spec fn ray_on_board(s: int, dr: int, df: int, j: int) -> bool {
    on_board(rank_of(s) + times(j, dr), file_of(s) + times(j, df))
}

/// Whether a piece sliding from `s` in direction `(dr, df)` reaches `t` on a
/// board where `occupied(i)` tells the occupied squares: `t` lies on the ray
/// and every square between `s` and `t` is empty (`t` itself may be occupied).
pub open spec fn ray_reaches(
    s: int,
    dr: int,
    df: int,
    occupied: spec_fn(int) -> bool,
    t: int,
) -> bool {
    exists|j: int|
        #![trigger ray_square(s, dr, df, j)]
        1 <= j < 8 && ray_on_board(s, dr, df, j) && t == ray_square(s, dr, df, j) && (forall|m: int|
            1 <= m < j ==> !occupied(#[trigger] ray_square(s, dr, df, m)))
}

/// Whether a bishop (or the diagonal moves of a queen) on `s` reaches `t`.
pub open spec fn diagonal_reaches(s: int, occupied: spec_fn(int) -> bool, t: int) -> bool {
    ||| ray_reaches(s, 1, 1, occupied, t)
    ||| ray_reaches(s, -1, 1, occupied, t)
    ||| ray_reaches(s, 1, -1, occupied, t)
    ||| ray_reaches(s, -1, -1, occupied, t)
}

/// Whether a rook (or the straight moves of a queen) on `s` reaches `t`.
pub open spec fn straight_reaches(s: int, occupied: spec_fn(int) -> bool, t: int) -> bool {
    ||| ray_reaches(s, 1, 0, occupied, t)
    ||| ray_reaches(s, -1, 0, occupied, t)
    ||| ray_reaches(s, 0, 1, occupied, t)
    ||| ray_reaches(s, 0, -1, occupied, t)
}

} // verus!
