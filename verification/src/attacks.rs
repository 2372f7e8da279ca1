//! The squares that knights, kings, pawns and sliding pieces attack.
use crate::bitboard::BitBoard;
use crate::bits::group_bits;
use crate::board::{Board, Position};
use crate::move_gen::MoveGenerator;
use crate::piece::{Color, Piece, PieceType};
use crate::rules::{
    diagonal_reaches, straight_reaches, file_of, king_step, knight_jump, lands, on_board, rank_of, ray_on_board, ray_reaches, ray_square,
    times,
};
use crate::square::{group_square, Square};
use vstd::prelude::*;

verus! {

broadcast use {group_bits, group_square};

/// The eight jumps of a knight, as (rank, file) offsets.
pub open spec fn knight_dir(k: int) -> (int, int) {
    if k == 0 {
        (1, 2)
    } else if k == 1 {
        (1, -2)
    } else if k == 2 {
        (-1, 2)
    } else if k == 3 {
        (-1, -2)
    } else if k == 4 {
        (2, 1)
    } else if k == 5 {
        (2, -1)
    } else if k == 6 {
        (-2, 1)
    } else {
        (-2, -1)
    }
}

/// The eight steps of a king, as (rank, file) offsets.
pub open spec fn king_dir(k: int) -> (int, int) {
    if k == 0 {
        (1, 1)
    } else if k == 1 {
        (1, 0)
    } else if k == 2 {
        (1, -1)
    } else if k == 3 {
        (0, 1)
    } else if k == 4 {
        (0, -1)
    } else if k == 5 {
        (-1, 1)
    } else if k == 6 {
        (-1, 0)
    } else {
        (-1, -1)
    }
}

/// Whether a pawn of `color` on `s` attacks `t`: one rank forward (up for
/// White, down for Black) and one file to either side.
pub open spec fn pawn_attack(color: Color, s: int, t: int) -> bool {
    let dr = if color == Color::White {
        1int
    } else {
        -1int
    };
    lands(s, dr, -1, t) || lands(s, dr, 1, t)
}

/// The squares reached from `square` by the offsets in `dirs` that stay on
/// the board.
fn offset_targets(square: Square, dirs: &[(i8, i8); 8]) -> (r: BitBoard)
    requires
        forall|k: int| 0 <= k < 8 ==> -8 <= #[trigger] dirs@[k].0 <= 8 && -8 <= dirs@[k].1 <= 8,
    ensures
        forall|t: int| #[trigger]
            r.has(t) <==> exists|k: int|
                0 <= k < 8 && lands(square.spec_index() as int, dirs@[k].0 as int, dirs@[k].1 as int, t),
{
    let mut attacks = BitBoard(0);
    let rank = square.rank() as i8;
    let file = square.file() as i8;
    let ghost s = square.spec_index() as int;
    let mut i: usize = 0;
    while i < 8
        invariant
            i <= 8,
            rank == rank_of(s),
            file == file_of(s),
            s == square.spec_index(),
            forall|k: int| 0 <= k < 8 ==> -8 <= #[trigger] dirs@[k].0 <= 8 && -8 <= dirs@[k].1 <= 8,
            forall|t: int| #[trigger]
                attacks.has(t) <==> exists|k: int|
                    0 <= k < i && lands(s, dirs@[k].0 as int, dirs@[k].1 as int, t),
        decreases 8 - i,
    {
        let (rank_offset, file_offset) = dirs[i];
        let target_rank = rank + rank_offset;
        let target_file = file + file_offset;
        let ghost old_attacks = attacks;
        match Square::try_from_rank_file(target_rank, target_file) {
            Some(target_square) => {
                attacks.set(target_square);
                proof {
                    assert forall|t: int| #[trigger]
                        attacks.has(t) <==> exists|k: int|
                            0 <= k < i + 1 && lands(s, dirs@[k].0 as int, dirs@[k].1 as int, t) by {
                        if t == target_square.spec_index() {
                            assert(lands(s, dirs@[i as int].0 as int, dirs@[i as int].1 as int, t));
                        }
                        if exists|k: int|
                            0 <= k < i + 1 && lands(s, dirs@[k].0 as int, dirs@[k].1 as int, t) {
                            let k = choose|k: int|
                                0 <= k < i + 1 && lands(s, dirs@[k].0 as int, dirs@[k].1 as int, t);
                            if k < i {
                                assert(old_attacks.has(t));
                            }
                        }
                        if old_attacks.has(t) {
                            let k = choose|k: int|
                                0 <= k < i && lands(s, dirs@[k].0 as int, dirs@[k].1 as int, t);
                            assert(0 <= k < i + 1);
                        }
                    }
                }
            },
            None => {
                proof {
                    assert forall|t: int| #[trigger]
                        attacks.has(t) <==> exists|k: int|
                            0 <= k < i + 1 && lands(s, dirs@[k].0 as int, dirs@[k].1 as int, t) by {
                        if exists|k: int|
                            0 <= k < i + 1 && lands(s, dirs@[k].0 as int, dirs@[k].1 as int, t) {
                            let k = choose|k: int|
                                0 <= k < i + 1 && lands(s, dirs@[k].0 as int, dirs@[k].1 as int, t);
                            assert(k != i);
                            assert(old_attacks.has(t));
                        }
                        if old_attacks.has(t) {
                            let k = choose|k: int|
                                0 <= k < i && lands(s, dirs@[k].0 as int, dirs@[k].1 as int, t);
                            assert(0 <= k < i + 1);
                        }
                    }
                }
            },
        }
        i = i + 1;
    }
    attacks
}

/// A square lies a knight's jump away exactly when one of the eight jumps
/// lands on it.
proof fn lemma_knight_dirs(s: int, t: int)
    requires
        0 <= s < 64,
    ensures
        knight_jump(s, t) <==> exists|k: int|
            0 <= k < 8 && lands(s, knight_dir(k).0, knight_dir(k).1, t),
{
    if knight_jump(s, t) {
        let dr = rank_of(t) - rank_of(s);
        let df = file_of(t) - file_of(s);
        let k = if dr == 1 && df == 2 {
            0
        } else if dr == 1 && df == -2 {
            1
        } else if dr == -1 && df == 2 {
            2
        } else if dr == -1 && df == -2 {
            3
        } else if dr == 2 && df == 1 {
            4
        } else if dr == 2 && df == -1 {
            5
        } else if dr == -2 && df == 1 {
            6
        } else {
            7
        };
        assert(lands(s, knight_dir(k).0, knight_dir(k).1, t));
    }
    if exists|k: int| 0 <= k < 8 && lands(s, knight_dir(k).0, knight_dir(k).1, t) {
        let k = choose|k: int| 0 <= k < 8 && lands(s, knight_dir(k).0, knight_dir(k).1, t);
        assert(rank_of(t) == rank_of(s) + knight_dir(k).0);
        assert(file_of(t) == file_of(s) + knight_dir(k).1);
    }
}

/// A square lies a king's step away exactly when one of the eight steps lands
/// on it.
proof fn lemma_king_dirs(s: int, t: int)
    requires
        0 <= s < 64,
    ensures
        king_step(s, t) <==> exists|k: int| 0 <= k < 8 && lands(s, king_dir(k).0, king_dir(k).1, t),
{
    if king_step(s, t) {
        let dr = rank_of(t) - rank_of(s);
        let df = file_of(t) - file_of(s);
        let k = if dr == 1 && df == 1 {
            0
        } else if dr == 1 && df == 0 {
            1
        } else if dr == 1 && df == -1 {
            2
        } else if dr == 0 && df == 1 {
            3
        } else if dr == 0 && df == -1 {
            4
        } else if dr == -1 && df == 1 {
            5
        } else if dr == -1 && df == 0 {
            6
        } else {
            7
        };
        assert(lands(s, king_dir(k).0, king_dir(k).1, t));
    }
    if exists|k: int| 0 <= k < 8 && lands(s, king_dir(k).0, king_dir(k).1, t) {
        let k = choose|k: int| 0 <= k < 8 && lands(s, king_dir(k).0, king_dir(k).1, t);
        assert(rank_of(t) == rank_of(s) + king_dir(k).0);
        assert(file_of(t) == file_of(s) + king_dir(k).1);
    }
}

/// The squares a knight on `square` attacks.
pub fn knight_attacks_from(square: Square) -> (r: BitBoard)
    ensures
        forall|t: int| #[trigger] r.has(t) <==> knight_jump(square.spec_index() as int, t),
{
    let dirs: [(i8, i8); 8] = [(1, 2), (1, -2), (-1, 2), (-1, -2), (2, 1), (2, -1), (-2, 1), (-2, -1)];
    proof {
        assert forall|k: int| 0 <= k < 8 implies dirs@[k].0 == knight_dir(k).0 && dirs@[k].1
            == knight_dir(k).1 by {}
    }
    let r = offset_targets(square, &dirs);
    proof {
        assert forall|t: int| #[trigger] r.has(t) <==> knight_jump(square.spec_index() as int, t) by {
            lemma_knight_dirs(square.spec_index() as int, t);
            if r.has(t) {
                let k = choose|k: int|
                    0 <= k < 8 && lands(square.spec_index() as int, dirs@[k].0 as int, dirs@[k].1 as int, t);
                assert(lands(square.spec_index() as int, knight_dir(k).0, knight_dir(k).1, t));
            }
            if knight_jump(square.spec_index() as int, t) {
                let k = choose|k: int|
                    0 <= k < 8 && lands(square.spec_index() as int, knight_dir(k).0, knight_dir(k).1, t);
                assert(lands(square.spec_index() as int, dirs@[k].0 as int, dirs@[k].1 as int, t));
            }
        }
    }
    r
}

/// The squares a king on `square` attacks.
pub fn king_attacks_from(square: Square) -> (r: BitBoard)
    ensures
        forall|t: int| #[trigger] r.has(t) <==> king_step(square.spec_index() as int, t),
{
    let dirs: [(i8, i8); 8] = [(1, 1), (1, 0), (1, -1), (0, 1), (0, -1), (-1, 1), (-1, 0), (-1, -1)];
    proof {
        assert forall|k: int| 0 <= k < 8 implies dirs@[k].0 == king_dir(k).0 && dirs@[k].1
            == king_dir(k).1 by {}
    }
    let r = offset_targets(square, &dirs);
    proof {
        assert forall|t: int| #[trigger] r.has(t) <==> king_step(square.spec_index() as int, t) by {
            lemma_king_dirs(square.spec_index() as int, t);
            if r.has(t) {
                let k = choose|k: int|
                    0 <= k < 8 && lands(square.spec_index() as int, dirs@[k].0 as int, dirs@[k].1 as int, t);
                assert(lands(square.spec_index() as int, king_dir(k).0, king_dir(k).1, t));
            }
            if king_step(square.spec_index() as int, t) {
                let k = choose|k: int|
                    0 <= k < 8 && lands(square.spec_index() as int, king_dir(k).0, king_dir(k).1, t);
                assert(lands(square.spec_index() as int, dirs@[k].0 as int, dirs@[k].1 as int, t));
            }
        }
    }
    r
}

/// The squares a pawn of `color` on `square` attacks.
pub fn pawn_attacks_from(color: Color, square: Square) -> (r: BitBoard)
    ensures
        forall|t: int| #[trigger] r.has(t) <==> pawn_attack(color, square.spec_index() as int, t),
{
    let mut attacks = BitBoard(0);
    let rank = square.rank() as i8;
    let file = square.file() as i8;
    let forward: i8 = match color {
        Color::White => 1,
        Color::Black => -1,
    };
    if let Some(target) = Square::try_from_rank_file(rank + forward, file - 1) {
        attacks.set(target);
    }
    if let Some(target) = Square::try_from_rank_file(rank + forward, file + 1) {
        attacks.set(target);
    }
    attacks
}

/// Whether `d` is a unit step: -1, 0 or 1.
pub open spec fn unit(d: int) -> bool {
    -1 <= d <= 1
}

/// Once a ray leaves the board it stays off it.
proof fn lemma_ray_leaves(s: int, dr: int, df: int, j: int, jj: int)
    requires
        0 <= s < 64,
        unit(dr),
        unit(df),
        1 <= j <= jj,
        !ray_on_board(s, dr, df, j),
    ensures
        !ray_on_board(s, dr, df, jj),
{
}

/// The squares that a piece sliding from `from_sq` along each of `directions`
/// reaches, each ray stopping at the first occupied square (which it includes).
pub fn ray_attacks_from_sq(from_sq: Square, occupied: BitBoard, directions: &[(i8, i8); 4]) -> (r:
    BitBoard)
    requires
        forall|k: int| 0 <= k < 4 ==> unit(#[trigger] directions@[k].0 as int) && unit(
            directions@[k].1 as int,
        ),
    ensures
        forall|t: int| #[trigger]
            r.has(t) <==> exists|k: int|
                0 <= k < 4 && ray_reaches(
                    from_sq.spec_index() as int,
                    directions@[k].0 as int,
                    directions@[k].1 as int,
                    |i: int| occupied.has(i),
                    t,
                ),
{
    let mut attacks = BitBoard(0);
    let rank = from_sq.rank() as i8;
    let file = from_sq.file() as i8;
    let ghost s = from_sq.spec_index() as int;
    let ghost occ = |i: int| occupied.has(i);
    let mut i: usize = 0;
    while i < 4
        invariant
            i <= 4,
            rank == rank_of(s),
            file == file_of(s),
            s == from_sq.spec_index(),
            occ == (|i: int| occupied.has(i)),
            forall|k: int| 0 <= k < 4 ==> unit(#[trigger] directions@[k].0 as int) && unit(
                directions@[k].1 as int,
            ),
            forall|t: int| #[trigger]
                attacks.has(t) <==> exists|k: int|
                    0 <= k < i && ray_reaches(
                        s,
                        directions@[k].0 as int,
                        directions@[k].1 as int,
                        occ,
                        t,
                    ),
        decreases 4 - i,
    {
        let (rank_direction, file_direction) = directions[i];
        let ghost dr = rank_direction as int;
        let ghost df = file_direction as int;
        let ghost before = attacks;
        let mut j: i8 = 1;
        loop
            invariant_except_break
                1 <= j <= 8,
                forall|m: int| 1 <= m < j ==> ray_on_board(s, dr, df, m) && !occ(
                    #[trigger] ray_square(s, dr, df, m),
                ),
                forall|t: int| #[trigger]
                    attacks.has(t) <==> (before.has(t) || exists|jj: int|
                        1 <= jj < j && t == ray_square(s, dr, df, jj)),
            invariant
                rank == rank_of(s),
                file == file_of(s),
                0 <= s < 64,
                unit(dr),
                unit(df),
                dr == rank_direction,
                df == file_direction,
                occ == (|i: int| occupied.has(i)),
            ensures
                forall|t: int| #[trigger]
                    attacks.has(t) <==> (before.has(t) || ray_reaches(s, dr, df, occ, t)),
            decreases 8 - j,
        {
            if j >= 8 {
                proof {
                    assert forall|t: int| #[trigger]
                        attacks.has(t) <==> (before.has(t) || ray_reaches(s, dr, df, occ, t)) by {
                        if exists|jj: int| 1 <= jj < j && t == ray_square(s, dr, df, jj) {
                            let jj = choose|jj: int| 1 <= jj < j && t == ray_square(s, dr, df, jj);
                            assert(ray_on_board(s, dr, df, jj));
                            assert forall|m: int| 1 <= m < jj implies !occ(
                                #[trigger] ray_square(s, dr, df, m),
                            ) by {
                                assert(1 <= m < j);
                            }
                        }
                    }
                }
                break;
            }
            proof {
                assert(-8 <= j * rank_direction <= 8 && -8 <= j * file_direction <= 8)
                    by (nonlinear_arith)
                    requires
                        1 <= j < 8,
                        -1 <= rank_direction <= 1,
                        -1 <= file_direction <= 1,
                ;
            }
            let new_rank = rank + j * rank_direction;
            let new_file = file + j * file_direction;
            proof {
                assert(new_rank == rank_of(s) + times(j as int, dr)) by (nonlinear_arith)
                    requires
                        new_rank == rank + j * rank_direction,
                        rank == rank_of(s),
                        dr == rank_direction,
                        unit(dr),
                ;
                assert(new_file == file_of(s) + times(j as int, df)) by (nonlinear_arith)
                    requires
                        new_file == file + j * file_direction,
                        file == file_of(s),
                        df == file_direction,
                        unit(df),
                ;
            }
            let target = match Square::try_from_rank_file(new_rank, new_file) {
                Some(sq) => sq,
                None => {
                    proof {
                        assert forall|t: int| #[trigger]
                            attacks.has(t) <==> (before.has(t) || ray_reaches(s, dr, df, occ, t)) by {
                            if ray_reaches(s, dr, df, occ, t) {
                                let jj = choose|jj: int|
                                    #![trigger ray_square(s, dr, df, jj)]
                                    1 <= jj < 8 && ray_on_board(s, dr, df, jj) && t == ray_square(
                                        s,
                                        dr,
                                        df,
                                        jj,
                                    ) && (forall|m: int|
                                        1 <= m < jj ==> !occ(#[trigger] ray_square(s, dr, df, m)));
                                if jj >= j {
                                    lemma_ray_leaves(s, dr, df, j as int, jj);
                                }
                            }
                            if exists|jj: int| 1 <= jj < j && t == ray_square(s, dr, df, jj) {
                                let jj = choose|jj: int| 1 <= jj < j && t == ray_square(s, dr, df, jj);
                                assert(ray_on_board(s, dr, df, jj));
                                assert forall|m: int| 1 <= m < jj implies !occ(
                                    #[trigger] ray_square(s, dr, df, m),
                                ) by {
                                    assert(1 <= m < j);
                                }
                            }
                        }
                    }
                    break;
                },
            };
            let ghost prev = attacks;
            attacks.set(target);
            proof {
                assert(target.spec_index() == ray_square(s, dr, df, j as int));
            }
            let blocker = occupied.and_square(target);
            if blocker.is_empty() {
                proof {
                    assert(!occ(ray_square(s, dr, df, j as int))) by {
                        assert(!blocker.has(target.spec_index() as int));
                    }
                    assert forall|t: int| #[trigger]
                        attacks.has(t) <==> (before.has(t) || exists|jj: int|
                            1 <= jj < j + 1 && t == ray_square(s, dr, df, jj)) by {
                        if exists|jj: int| 1 <= jj < j + 1 && t == ray_square(s, dr, df, jj) {
                            let jj = choose|jj: int| 1 <= jj < j + 1 && t == ray_square(s, dr, df, jj);
                            if jj < j {
                                assert(prev.has(t));
                            }
                        }
                        if prev.has(t) && !before.has(t) {
                            let jj = choose|jj: int| 1 <= jj < j && t == ray_square(s, dr, df, jj);
                            assert(1 <= jj < j + 1);
                        }
                    }
                }
                j = j + 1;
            } else {
                proof {
                    assert(occ(ray_square(s, dr, df, j as int))) by {
                        assert(blocker.has(target.spec_index() as int));
                    }
                    assert forall|t: int| #[trigger]
                        attacks.has(t) <==> (before.has(t) || ray_reaches(s, dr, df, occ, t)) by {
                        if ray_reaches(s, dr, df, occ, t) {
                            let jj = choose|jj: int|
                                #![trigger ray_square(s, dr, df, jj)]
                                1 <= jj < 8 && ray_on_board(s, dr, df, jj) && t == ray_square(
                                    s,
                                    dr,
                                    df,
                                    jj,
                                ) && (forall|m: int|
                                    1 <= m < jj ==> !occ(#[trigger] ray_square(s, dr, df, m)));
                            if jj > j {
                                assert(!occ(ray_square(s, dr, df, j as int)));
                            }
                            if jj < j {
                                assert(prev.has(t));
                            }
                        }
                        if prev.has(t) && !before.has(t) {
                            let jj = choose|jj: int| 1 <= jj < j && t == ray_square(s, dr, df, jj);
                            assert(ray_on_board(s, dr, df, jj));
                            assert forall|m: int| 1 <= m < jj implies !occ(
                                #[trigger] ray_square(s, dr, df, m),
                            ) by {
                                assert(1 <= m < j);
                            }
                        }
                        if t == ray_square(s, dr, df, j as int) {
                            assert forall|m: int| 1 <= m < j implies !occ(
                                #[trigger] ray_square(s, dr, df, m),
                            ) by {}
                            assert(ray_on_board(s, dr, df, j as int));
                        }
                    }
                }
                break;
            }
        }
        proof {
            assert forall|t: int| #[trigger]
                attacks.has(t) <==> exists|k: int|
                    0 <= k < i + 1 && ray_reaches(
                        s,
                        directions@[k].0 as int,
                        directions@[k].1 as int,
                        occ,
                        t,
                    ) by {
                if exists|k: int|
                    0 <= k < i + 1 && ray_reaches(
                        s,
                        directions@[k].0 as int,
                        directions@[k].1 as int,
                        occ,
                        t,
                    ) {
                    let k = choose|k: int|
                        0 <= k < i + 1 && ray_reaches(
                            s,
                            directions@[k].0 as int,
                            directions@[k].1 as int,
                            occ,
                            t,
                        );
                    if k < i {
                        assert(before.has(t));
                    }
                }
                if before.has(t) {
                    let k = choose|k: int|
                        0 <= k < i && ray_reaches(
                            s,
                            directions@[k].0 as int,
                            directions@[k].1 as int,
                            occ,
                            t,
                        );
                    assert(0 <= k < i + 1);
                }
            }
        }
        i = i + 1;
    }
    attacks
}

/// The occupied squares of `v`, as a predicate on square indices.
pub open spec fn occupied_in(v: Position) -> spec_fn(int) -> bool {
    |i: int| 0 <= i < 64 && v.pieces[i] is Some
}

/// Whether `v` has a piece of type `t` and color `c` on the square `i`.
pub open spec fn holds(v: Position, i: int, t: PieceType, c: Color) -> bool {
    v.pieces[i] == Some(Piece { piece_type: t, color: c })
}

/// Whether a knight of `by` attacks `s`.
pub open spec fn knight_attacker(v: Position, s: int, by: Color) -> bool {
    exists|t: int| knight_jump(s, t) && holds(v, t, PieceType::Knight, by)
}

/// Whether a king of `by` attacks `s`.
pub open spec fn king_attacker(v: Position, s: int, by: Color) -> bool {
    exists|t: int| king_step(s, t) && holds(v, t, PieceType::King, by)
}

/// Whether a bishop or queen of `by` attacks `s` along a clear diagonal.
pub open spec fn diagonal_attacker(v: Position, s: int, by: Color) -> bool {
    exists|t: int|
        0 <= t < 64 && diagonal_reaches(s, occupied_in(v), t) && (holds(v, t, PieceType::Bishop, by)
            || holds(v, t, PieceType::Queen, by))
}

/// Whether a rook or queen of `by` attacks `s` along a clear rank or file.
pub open spec fn straight_attacker(v: Position, s: int, by: Color) -> bool {
    exists|t: int|
        0 <= t < 64 && straight_reaches(s, occupied_in(v), t) && (holds(v, t, PieceType::Rook, by)
            || holds(v, t, PieceType::Queen, by))
}

/// Whether a pawn of `by` attacks `s`.
pub open spec fn pawn_attacker(v: Position, s: int, by: Color) -> bool {
    exists|t: int| 0 <= t < 64 && pawn_attack(by, t, s) && holds(v, t, PieceType::Pawn, by)
}

/// Whether a piece of `by` attacks the square `s` in `v`: a knight a jump
/// away, a king a step away, a bishop or queen on a clear diagonal, a rook or
/// queen on a clear rank or file, or a pawn diagonally behind it.
pub open spec fn attacked(v: Position, s: int, by: Color) -> bool {
    ||| knight_attacker(v, s, by)
    ||| king_attacker(v, s, by)
    ||| diagonal_attacker(v, s, by)
    ||| straight_attacker(v, s, by)
    ||| pawn_attacker(v, s, by)
}

/// A pawn of `color` on `t` attacks `s` exactly when a pawn of the other color
/// on `s` would attack `t`.
proof fn lemma_pawn_attack_mirror(color: Color, s: int, t: int)
    requires
        0 <= s < 64,
        0 <= t < 64,
    ensures
        pawn_attack(color, t, s) == pawn_attack(color.spec_opposite(), s, t),
{
}

/// Whether any square is in both sets.
fn meets(a: BitBoard, b: BitBoard) -> (r: bool)
    ensures
        r == exists|t: int| 0 <= t < 64 && a.has(t) && b.has(t),
{
    let c = a.and(b);
    let r = c.is_non_empty();
    proof {
        if r {
            let t = choose|t: int| 0 <= t < 64 && c.has(t);
            assert(a.has(t) && b.has(t));
        }
        if exists|t: int| 0 <= t < 64 && a.has(t) && b.has(t) {
            let t = choose|t: int| 0 <= t < 64 && a.has(t) && b.has(t);
            assert(c.has(t));
        }
    }
    r
}

/// The pieces of `piece_type` and `color`, as a predicate that the bitboard
/// of a well-formed board matches.
proof fn lemma_board_piece(board: &Board, color: Color, piece_type: PieceType, t: int)
    requires
        board.wf(),
        0 <= t < 64,
    ensures
        board.bitboards.of(Piece { piece_type, color }).has(t) == holds(board@, t, piece_type, color),
{
}

impl MoveGenerator {
    /// Whether a knight of `by` attacks `square`.
    fn knight_attacks_square(board: &Board, square: Square, by: Color) -> (r: bool)
        requires
            board.wf(),
        ensures
            r == knight_attacker(board@, square.spec_index() as int, by),
    {
        let a = knight_attacks_from(square);
        let k = board.bitboards.get(by, PieceType::Knight);
        let r = meets(a, k);
        proof {
            let s = square.spec_index() as int;
            if r {
                let t = choose|t: int| 0 <= t < 64 && a.has(t) && k.has(t);
                lemma_board_piece(board, by, PieceType::Knight, t);
            }
            if knight_attacker(board@, s, by) {
                let t = choose|t: int| knight_jump(s, t) && holds(board@, t, PieceType::Knight, by);
                lemma_board_piece(board, by, PieceType::Knight, t);
                assert(a.has(t) && k.has(t));
            }
        }
        r
    }

    /// Whether a king of `by` attacks `square`.
    fn king_attacks_square(board: &Board, square: Square, by: Color) -> (r: bool)
        requires
            board.wf(),
        ensures
            r == king_attacker(board@, square.spec_index() as int, by),
    {
        let a = king_attacks_from(square);
        let k = board.bitboards.get(by, PieceType::King);
        let r = meets(a, k);
        proof {
            let s = square.spec_index() as int;
            if r {
                let t = choose|t: int| 0 <= t < 64 && a.has(t) && k.has(t);
                lemma_board_piece(board, by, PieceType::King, t);
            }
            if king_attacker(board@, s, by) {
                let t = choose|t: int| king_step(s, t) && holds(board@, t, PieceType::King, by);
                lemma_board_piece(board, by, PieceType::King, t);
                assert(a.has(t) && k.has(t));
            }
        }
        r
    }

    /// Whether a pawn of `by` attacks `square`.
    fn pawn_attacks_square(board: &Board, square: Square, by: Color) -> (r: bool)
        requires
            board.wf(),
        ensures
            r == pawn_attacker(board@, square.spec_index() as int, by),
    {
        let a = pawn_attacks_from(by.opposite(), square);
        let k = board.bitboards.get(by, PieceType::Pawn);
        let r = meets(a, k);
        proof {
            let s = square.spec_index() as int;
            if r {
                let t = choose|t: int| 0 <= t < 64 && a.has(t) && k.has(t);
                lemma_board_piece(board, by, PieceType::Pawn, t);
                lemma_pawn_attack_mirror(by, s, t);
            }
            if pawn_attacker(board@, s, by) {
                let t = choose|t: int|
                    0 <= t < 64 && pawn_attack(by, t, s) && holds(board@, t, PieceType::Pawn, by);
                lemma_board_piece(board, by, PieceType::Pawn, t);
                lemma_pawn_attack_mirror(by, s, t);
                assert(a.has(t) && k.has(t));
            }
        }
        r
    }

    /// Whether a bishop or queen of `by` attacks `square`.
    fn diagonal_attacks_square(board: &Board, square: Square, by: Color) -> (r: bool)
        requires
            board.wf(),
        ensures
            r == diagonal_attacker(board@, square.spec_index() as int, by),
    {
        let occupied = board.empty.not();
        let dirs: [(i8, i8); 4] = [(1, 1), (-1, 1), (1, -1), (-1, -1)];
        let a = ray_attacks_from_sq(square, occupied, &dirs);
        let k = board.bitboards.get(by, PieceType::Bishop).or(board.bitboards.get(by, PieceType::Queen));
        let r = meets(a, k);
        proof {
            let s = square.spec_index() as int;
            let v = board@;
            assert(occupied_in(v) =~= (|i: int| occupied.has(i)));
            if r {
                let t = choose|t: int| 0 <= t < 64 && a.has(t) && k.has(t);
                lemma_board_piece(board, by, PieceType::Bishop, t);
                lemma_board_piece(board, by, PieceType::Queen, t);
                let j = choose|j: int|
                    0 <= j < 4 && ray_reaches(s, dirs@[j].0 as int, dirs@[j].1 as int, |i: int| occupied.has(i), t);
                assert(diagonal_reaches(s, occupied_in(v), t));
            }
            if diagonal_attacker(v, s, by) {
                let t = choose|t: int|
                    0 <= t < 64 && diagonal_reaches(s, occupied_in(v), t) && (holds(v, t, PieceType::Bishop, by)
                        || holds(v, t, PieceType::Queen, by));
                lemma_board_piece(board, by, PieceType::Bishop, t);
                lemma_board_piece(board, by, PieceType::Queen, t);
                if ray_reaches(s, 1, 1, occupied_in(v), t) {
                    assert(ray_reaches(s, dirs@[0].0 as int, dirs@[0].1 as int, |i: int| occupied.has(i), t));
                } else if ray_reaches(s, -1, 1, occupied_in(v), t) {
                    assert(ray_reaches(s, dirs@[1].0 as int, dirs@[1].1 as int, |i: int| occupied.has(i), t));
                } else if ray_reaches(s, 1, -1, occupied_in(v), t) {
                    assert(ray_reaches(s, dirs@[2].0 as int, dirs@[2].1 as int, |i: int| occupied.has(i), t));
                } else {
                    assert(ray_reaches(s, dirs@[3].0 as int, dirs@[3].1 as int, |i: int| occupied.has(i), t));
                }
                assert(a.has(t) && k.has(t));
            }
        }
        r
    }

    /// Whether a rook or queen of `by` attacks `square`.
    fn straight_attacks_square(board: &Board, square: Square, by: Color) -> (r: bool)
        requires
            board.wf(),
        ensures
            r == straight_attacker(board@, square.spec_index() as int, by),
    {
        let occupied = board.empty.not();
        let dirs: [(i8, i8); 4] = [(1, 0), (-1, 0), (0, 1), (0, -1)];
        let a = ray_attacks_from_sq(square, occupied, &dirs);
        let k = board.bitboards.get(by, PieceType::Rook).or(board.bitboards.get(by, PieceType::Queen));
        let r = meets(a, k);
        proof {
            let s = square.spec_index() as int;
            let v = board@;
            assert(occupied_in(v) =~= (|i: int| occupied.has(i)));
            if r {
                let t = choose|t: int| 0 <= t < 64 && a.has(t) && k.has(t);
                lemma_board_piece(board, by, PieceType::Rook, t);
                lemma_board_piece(board, by, PieceType::Queen, t);
                let j = choose|j: int|
                    0 <= j < 4 && ray_reaches(s, dirs@[j].0 as int, dirs@[j].1 as int, |i: int| occupied.has(i), t);
                assert(straight_reaches(s, occupied_in(v), t));
            }
            if straight_attacker(v, s, by) {
                let t = choose|t: int|
                    0 <= t < 64 && straight_reaches(s, occupied_in(v), t) && (holds(v, t, PieceType::Rook, by)
                        || holds(v, t, PieceType::Queen, by));
                lemma_board_piece(board, by, PieceType::Rook, t);
                lemma_board_piece(board, by, PieceType::Queen, t);
                if ray_reaches(s, 1, 0, occupied_in(v), t) {
                    assert(ray_reaches(s, dirs@[0].0 as int, dirs@[0].1 as int, |i: int| occupied.has(i), t));
                } else if ray_reaches(s, -1, 0, occupied_in(v), t) {
                    assert(ray_reaches(s, dirs@[1].0 as int, dirs@[1].1 as int, |i: int| occupied.has(i), t));
                } else if ray_reaches(s, 0, 1, occupied_in(v), t) {
                    assert(ray_reaches(s, dirs@[2].0 as int, dirs@[2].1 as int, |i: int| occupied.has(i), t));
                } else {
                    assert(ray_reaches(s, dirs@[3].0 as int, dirs@[3].1 as int, |i: int| occupied.has(i), t));
                }
                assert(a.has(t) && k.has(t));
            }
        }
        r
    }

    /// Whether a piece of `by` attacks `square` on `board`.
    pub fn is_square_attacked(board: &Board, square: Square, by: Color) -> (r: bool)
        requires
            board.wf(),
        ensures
            r == attacked(board@, square.spec_index() as int, by),
    {
        MoveGenerator::knight_attacks_square(board, square, by) || MoveGenerator::king_attacks_square(
            board,
            square,
            by,
        ) || MoveGenerator::diagonal_attacks_square(board, square, by)
            || MoveGenerator::straight_attacks_square(board, square, by)
            || MoveGenerator::pawn_attacks_square(board, square, by)
    }
}

} // verus!
