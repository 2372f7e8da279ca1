//! Reading a board from Forsyth-Edwards Notation (FEN).
use crate::board::{Board, Position};
use crate::castling::CastlingRights;
use crate::piece::{fen_piece, Color, Piece, PieceType};
use crate::square::{algebraic_square, group_square, Square};
use vstd::prelude::*;
use vstd::string::StringSliceAdditionalSpecFns;

verus! {

broadcast use group_square;

/// The ASCII white-space bytes: space, tab, line feed, vertical tab, form
/// feed and carriage return.
pub open spec fn is_space(b: u8) -> bool {
    b == 32 || (9 <= b <= 13)
}

/// The length in bytes of the white-space character that starts at byte `i`
/// of the UTF-8 text `s`, or 0 when none does. The white-space characters are
/// those of Unicode: the ASCII ones, U+0085, U+00A0, U+1680, U+2000 to
/// U+200A, U+2028, U+2029, U+202F, U+205F and U+3000.
pub open spec fn space_len(s: Seq<u8>, i: int) -> int {
    if i < 0 || i >= s.len() {
        0
    } else if is_space(s[i]) {
        1
    } else if i + 1 < s.len() && s[i] == 0xC2 && (s[i + 1] == 0x85 || s[i + 1] == 0xA0) {
        2
    } else if i + 2 < s.len() && s[i] == 0xE1 && s[i + 1] == 0x9A && s[i + 2] == 0x80 {
        3
    } else if i + 2 < s.len() && s[i] == 0xE2 && s[i + 1] == 0x80 && ((0x80 <= s[i + 2] <= 0x8A)
        || s[i + 2] == 0xA8 || s[i + 2] == 0xA9 || s[i + 2] == 0xAF) {
        3
    } else if i + 2 < s.len() && s[i] == 0xE2 && s[i + 1] == 0x81 && s[i + 2] == 0x9F {
        3
    } else if i + 2 < s.len() && s[i] == 0xE3 && s[i + 1] == 0x80 && s[i + 2] == 0x80 {
        3
    } else {
        0
    }
}

/// The white-space separated words of `s` from `i` on, `cur` being the part
/// of the current word read so far.
pub open spec fn words_from(s: Seq<u8>, i: int, cur: Seq<u8>) -> Seq<Seq<u8>>
    decreases s.len() - i,
{
    if i >= s.len() {
        if cur.len() > 0 {
            seq![cur]
        } else {
            Seq::empty()
        }
    } else if space_len(s, i) > 0 {
        (if cur.len() > 0 {
            seq![cur]
        } else {
            Seq::empty()
        }) + words_from(s, i + space_len(s, i), Seq::empty())
    } else {
        words_from(s, i + 1, cur.push(s[i]))
    }
}

/// The white-space separated words of `s`.
pub open spec fn words(s: Seq<u8>) -> Seq<Seq<u8>> {
    words_from(s, 0, Seq::empty())
}

/// The parts of `s` between occurrences of `sep`, from `i` on, `cur` being
/// the part read so far (empty parts included).
pub open spec fn parts_from(s: Seq<u8>, i: int, cur: Seq<u8>, sep: u8) -> Seq<Seq<u8>>
    decreases s.len() - i,
{
    if i >= s.len() {
        seq![cur]
    } else if s[i] == sep {
        seq![cur] + parts_from(s, i + 1, Seq::empty(), sep)
    } else {
        parts_from(s, i + 1, cur.push(s[i]), sep)
    }
}

/// The parts of `s` between occurrences of `sep`.
pub open spec fn parts(s: Seq<u8>, sep: u8) -> Seq<Seq<u8>> {
    parts_from(s, 0, Seq::empty(), sep)
}

/// The pieces of one rank of a FEN placement, read from position `j` with
/// `file` squares of the rank already filled: a digit skips that many
/// squares, a piece letter takes the next square, and the rank must come to
/// exactly eight squares.
pub open spec fn place_rank(
    p: Seq<Option<Piece>>,
    r: Seq<u8>,
    row: int,
    j: int,
    file: int,
) -> Option<Seq<Option<Piece>>>
    decreases r.len() - j,
{
    if j >= r.len() {
        if file == 8 {
            Some(p)
        } else {
            None
        }
    } else if 48 <= r[j] <= 57 {
        place_rank(p, r, row, j + 1, file + (r[j] - 48))
    } else if fen_piece(r[j] as char) is Some && file < 8 {
        place_rank(p.update(row * 8 + file, fen_piece(r[j] as char)), r, row, j + 1, file + 1)
    } else {
        None
    }
}

/// The pieces of the ranks from the `k`-th on, the first rank listed being
/// the eighth.
pub open spec fn place_ranks(p: Seq<Option<Piece>>, ranks: Seq<Seq<u8>>, k: int) -> Option<
    Seq<Option<Piece>>,
>
    decreases ranks.len() - k,
{
    if k >= ranks.len() || k < 0 {
        Some(p)
    } else {
        match place_rank(p, ranks[k], 7 - k, 0, 0) {
            Some(q) => place_ranks(q, ranks, k + 1),
            None => None,
        }
    }
}

/// The board with no pieces.
pub open spec fn no_pieces() -> Seq<Option<Piece>> {
    Seq::new(64, |i: int| None)
}

/// The placement field: at most eight ranks separated by `/`, from the
/// eighth rank down.
pub open spec fn fen_placement(w: Seq<u8>) -> Option<Seq<Option<Piece>>> {
    let ranks = parts(w, 47);
    if ranks.len() <= 8 {
        place_ranks(no_pieces(), ranks, 0)
    } else {
        None
    }
}

/// The side-to-move field: `w` or `b`.
pub open spec fn fen_side(w: Seq<u8>) -> Option<Color> {
    if w == seq![119u8] {
        Some(Color::White)
    } else if w == seq![98u8] {
        Some(Color::Black)
    } else {
        None
    }
}

/// The castling letters of `w` from `i` on, added to `acc`.
pub open spec fn rights_from(w: Seq<u8>, i: int, acc: CastlingRights) -> Option<CastlingRights>
    decreases w.len() - i,
{
    if i >= w.len() {
        Some(acc)
    } else if w[i] == 75 {
        rights_from(w, i + 1, CastlingRights { white_kingside: true, ..acc })
    } else if w[i] == 81 {
        rights_from(w, i + 1, CastlingRights { white_queenside: true, ..acc })
    } else if w[i] == 107 {
        rights_from(w, i + 1, CastlingRights { black_kingside: true, ..acc })
    } else if w[i] == 113 {
        rights_from(w, i + 1, CastlingRights { black_queenside: true, ..acc })
    } else {
        None
    }
}

/// The castling field: `-`, or letters among `KQkq`.
pub open spec fn fen_castling(w: Seq<u8>) -> Option<CastlingRights> {
    if w == seq![45u8] {
        Some(CastlingRights::spec_none())
    } else {
        rights_from(w, 0, CastlingRights::spec_none())
    }
}

/// The en passant field: `-`, or the name of a square.
pub open spec fn fen_enpassant(w: Seq<u8>) -> Option<Option<Square>> {
    if w == seq![45u8] {
        Some(None)
    } else {
        match algebraic_square(w) {
            Some(sq) => Some(Some(sq)),
            None => None,
        }
    }
}

/// The decimal value of the digits `w[i..j]`.
pub open spec fn digits_value(w: Seq<u8>, i: int, j: int) -> int
    decreases j - i,
{
    if j <= i {
        0
    } else {
        digits_value(w, i, j - 1) * 10 + (w[j - 1] - 48)
    }
}

/// A counter field: decimal digits, with an optional leading `+`, whose value
/// fits in a byte.
pub open spec fn fen_counter(w: Seq<u8>) -> Option<u8> {
    let start: int = if w.len() > 0 && w[0] == 43 {
        1
    } else {
        0
    };
    if w.len() > start && (forall|k: int| start <= k < w.len() ==> 48 <= #[trigger] w[k] <= 57)
        && digits_value(w, start, w.len() as int) <= 255 {
        Some(digits_value(w, start, w.len() as int) as u8)
    } else {
        None
    }
}

/// The position that a FEN string describes: six white-space separated fields
/// (placement, side to move, castling, en passant square, half-move clock,
/// full-move number), with an empty log.
pub open spec fn fen_position(s: Seq<u8>) -> Option<Position> {
    let f = words(s);
    if f.len() != 6 {
        None
    } else {
        match (
            fen_placement(f[0]),
            fen_side(f[1]),
            fen_castling(f[2]),
            fen_enpassant(f[3]),
            fen_counter(f[4]),
            fen_counter(f[5]),
        ) {
            (Some(p), Some(t), Some(c), Some(e), Some(h), Some(m)) => {
                let v = Position {
                    pieces: p,
                    log: Seq::empty(),
                    enpassant: e,
                    castling_rights: c,
                    turn: t,
                    half_move: h,
                    full_move: m,
                };
                Some(v)
            },
            _ => None,
        }
    }
}

/// The words of `s`, split on white space.
/// The length of the white-space character at byte `i` of `s`, or 0.
fn space_len_at(s: &[u8], i: usize) -> (r: usize)
    requires
        i < s@.len(),
    ensures
        r == space_len(s@, i as int),
        r <= 3,
        r > 0 ==> i + r <= s@.len(),
{
    let b = s[i];
    if b == 32 || (9 <= b && b <= 13) {
        return 1;
    }
    let len = s.len();
    if len - i > 1 && b == 0xC2 && (s[i + 1] == 0x85 || s[i + 1] == 0xA0) {
        return 2;
    }
    if len - i > 2 {
        let b1 = s[i + 1];
        let b2 = s[i + 2];
        if b == 0xE1 && b1 == 0x9A && b2 == 0x80 {
            return 3;
        }
        if b == 0xE2 && b1 == 0x80 && ((0x80 <= b2 && b2 <= 0x8A) || b2 == 0xA8 || b2 == 0xA9
            || b2 == 0xAF) {
            return 3;
        }
        if b == 0xE2 && b1 == 0x81 && b2 == 0x9F {
            return 3;
        }
        if b == 0xE3 && b1 == 0x80 && b2 == 0x80 {
            return 3;
        }
    }
    0
}

fn split_words(s: &[u8]) -> (r: Vec<Vec<u8>>)
    ensures
        r@.map_values(|v: Vec<u8>| v@) == words(s@),
{
    let mut out: Vec<Vec<u8>> = Vec::new();
    let mut cur: Vec<u8> = Vec::new();
    let mut i: usize = 0;
    while i < s.len()
        invariant
            i <= s@.len(),
            out@.map_values(|v: Vec<u8>| v@) + words_from(s@, i as int, cur@) == words(s@),
        decreases s.len() - i,
    {
        let b = s[i];
        let n = space_len_at(s, i);
        let ghost before = out@.map_values(|v: Vec<u8>| v@);
        let ghost c = cur@;
        if n > 0 {
            if cur.len() > 0 {
                out.push(cur);
                proof {
                    assert(out@.map_values(|v: Vec<u8>| v@) =~= before.push(c));
                    assert(before + words_from(s@, i as int, c) =~= before.push(c) + words_from(
                        s@,
                        i + n,
                        Seq::empty(),
                    ));
                }
                cur = Vec::new();
            } else {
                proof {
                    assert(c =~= Seq::<u8>::empty());
                    assert(words_from(s@, i as int, c) =~= words_from(s@, i + n, Seq::empty()));
                }
            }
            i = i + n;
        } else {
            cur.push(b);
            i = i + 1;
        }
    }
    if cur.len() > 0 {
        let ghost before = out@.map_values(|v: Vec<u8>| v@);
        let ghost c = cur@;
        out.push(cur);
        proof {
            assert(out@.map_values(|v: Vec<u8>| v@) =~= before.push(c));
            assert(before + words_from(s@, i as int, c) =~= before.push(c));
        }
    } else {
        proof {
            assert(out@.map_values(|v: Vec<u8>| v@) + Seq::<Seq<u8>>::empty() =~= out@.map_values(
                |v: Vec<u8>| v@,
            ));
        }
    }
    out
}

/// The parts of `s` between occurrences of `sep`.
fn split_parts(s: &[u8], sep: u8) -> (r: Vec<Vec<u8>>)
    ensures
        r@.map_values(|v: Vec<u8>| v@) == parts(s@, sep),
{
    let mut out: Vec<Vec<u8>> = Vec::new();
    let mut cur: Vec<u8> = Vec::new();
    let mut i: usize = 0;
    while i < s.len()
        invariant
            i <= s@.len(),
            out@.map_values(|v: Vec<u8>| v@) + parts_from(s@, i as int, cur@, sep) == parts(s@, sep),
        decreases s.len() - i,
    {
        let b = s[i];
        if b == sep {
            let ghost before = out@.map_values(|v: Vec<u8>| v@);
            let ghost c = cur@;
            out.push(cur);
            proof {
                assert(out@.map_values(|v: Vec<u8>| v@) =~= before.push(c));
                assert(before + parts_from(s@, i as int, c, sep) =~= before.push(c) + parts_from(
                    s@,
                    i + 1,
                    Seq::empty(),
                    sep,
                ));
            }
            cur = Vec::new();
        } else {
            cur.push(b);
        }
        i = i + 1;
    }
    let ghost before = out@.map_values(|v: Vec<u8>| v@);
    let ghost c = cur@;
    out.push(cur);
    proof {
        assert(out@.map_values(|v: Vec<u8>| v@) =~= before.push(c));
        assert(before + parts_from(s@, i as int, c, sep) =~= before.push(c));
    }
    out
}

/// Reads the side-to-move field.
fn parse_side(w: &Vec<u8>) -> (r: Option<Color>)
    ensures
        r == fen_side(w@),
{
    if w.len() == 1 && w[0] == 119 {
        proof {
            assert(w@ =~= seq![119u8]);
        }
        Some(Color::White)
    } else if w.len() == 1 && w[0] == 98 {
        proof {
            assert(w@ =~= seq![98u8]);
        }
        Some(Color::Black)
    } else {
        proof {
            if w@ == seq![119u8] {
                assert(w@[0] == 119);
            }
            if w@ == seq![98u8] {
                assert(w@[0] == 98);
            }
        }
        None
    }
}

/// Reads the castling field.
fn parse_castling(w: &Vec<u8>) -> (r: Option<CastlingRights>)
    ensures
        r == fen_castling(w@),
{
    let mut rights = CastlingRights::none();
    if w.len() == 1 && w[0] == 45 {
        proof {
            assert(w@ =~= seq![45u8]);
        }
        return Some(rights);
    }
    proof {
        if w@ == seq![45u8] {
            assert(w@[0] == 45);
        }
    }
    let mut i: usize = 0;
    while i < w.len()
        invariant
            i <= w@.len(),
            w@ != seq![45u8],
            rights_from(w@, i as int, rights) == rights_from(w@, 0, CastlingRights::spec_none()),
        decreases w.len() - i,
    {
        let c = w[i];
        if c == 75 {
            rights.white_kingside = true;
        } else if c == 81 {
            rights.white_queenside = true;
        } else if c == 107 {
            rights.black_kingside = true;
        } else if c == 113 {
            rights.black_queenside = true;
        } else {
            return None;
        }
        i = i + 1;
    }
    Some(rights)
}

/// Reads the en passant field.
fn parse_enpassant(w: &Vec<u8>) -> (r: Option<Option<Square>>)
    ensures
        r == fen_enpassant(w@),
{
    if w.len() == 1 && w[0] == 45 {
        proof {
            assert(w@ =~= seq![45u8]);
        }
        return Some(None);
    }
    proof {
        if w@ == seq![45u8] {
            assert(w@[0] == 45);
        }
    }
    match Square::from_algebraic_bytes(w.as_slice()) {
        Some(sq) => Some(Some(sq)),
        None => None,
    }
}

/// A longer run of digits is worth at least as much as its prefix.
proof fn lemma_digits_grow(w: Seq<u8>, i: int, k: int, j: int)
    requires
        i <= k <= j,
        forall|m: int| i <= m < j ==> 48 <= #[trigger] w[m] <= 57,
    ensures
        digits_value(w, i, k) <= digits_value(w, i, j),
        0 <= digits_value(w, i, k),
    decreases j - i,
{
    if k < j {
        lemma_digits_grow(w, i, k, j - 1);
    } else if k > i {
        lemma_digits_grow(w, i, k - 1, k - 1);
    }
}

/// Reads a counter field.
fn parse_counter(w: &Vec<u8>) -> (r: Option<u8>)
    ensures
        r == fen_counter(w@),
{
    let start: usize = if w.len() > 0 && w[0] == 43 {
        1
    } else {
        0
    };
    if w.len() <= start {
        return None;
    }
    let mut acc: u32 = 0;
    let mut k: usize = start;
    while k < w.len()
        invariant
            start <= k <= w@.len(),
            start == (if w@.len() > 0 && w@[0] == 43 { 1int } else { 0int }),
            forall|m: int| start <= m < k ==> 48 <= #[trigger] w@[m] <= 57,
            acc == digits_value(w@, start as int, k as int),
            acc <= 255,
        decreases w.len() - k,
    {
        let c = w[k];
        if c < 48 || c > 57 {
            return None;
        }
        acc = acc * 10 + (c - 48) as u32;
        if acc > 255 {
            proof {
                if forall|m: int| start <= m < w@.len() ==> 48 <= #[trigger] w@[m] <= 57 {
                    lemma_digits_grow(w@, start as int, k + 1, w@.len() as int);
                }
            }
            return None;
        }
        k = k + 1;
    }
    Some(acc as u8)
}

impl Board {
    /// Reads a board from a FEN string; `None` when the string is not one
    /// that `from_fen` accepts.
    pub fn try_from_fen(fen: &str) -> (r: Option<Board>)
        ensures
            r is Some <==> fen_position(fen.spec_bytes()) is Some,
            r matches Some(b) ==> b.wf() && Some(b@) == fen_position(fen.spec_bytes()),
    {
        let bytes = fen.as_bytes();
        let fields = split_words(bytes);
        let ghost f = fields@.map_values(|v: Vec<u8>| v@);
        proof {
            assert(f == words(fen.spec_bytes()));
        }
        if fields.len() != 6 {
            return None;
        }
        proof {
            assert(f[0] == fields@[0]@);
            assert(f[1] == fields@[1]@);
            assert(f[2] == fields@[2]@);
            assert(f[3] == fields@[3]@);
            assert(f[4] == fields@[4]@);
            assert(f[5] == fields@[5]@);
        }
        let mut board = match Board::place_pieces(&fields[0]) {
            Some(b) => b,
            None => {
                return None;
            },
        };
        let turn = match parse_side(&fields[1]) {
            Some(t) => t,
            None => {
                return None;
            },
        };
        let rights = match parse_castling(&fields[2]) {
            Some(c) => c,
            None => {
                return None;
            },
        };
        let enpassant = match parse_enpassant(&fields[3]) {
            Some(e) => e,
            None => {
                return None;
            },
        };
        let half_move = match parse_counter(&fields[4]) {
            Some(h) => h,
            None => {
                return None;
            },
        };
        let full_move = match parse_counter(&fields[5]) {
            Some(m) => m,
            None => {
                return None;
            },
        };
        board.turn = turn;
        board.castling_rights = rights;
        board.enpassant = enpassant;
        board.half_move = half_move;
        board.full_move = full_move;
        proof {
            assert(board@.log =~= Seq::<crate::log::LogEntry>::empty());
        }
        Some(board)
    }

    /// Reads a board from a FEN string, which must be one that describes a
    /// position (see `fen_position`).
    pub fn from_fen(fen: &str) -> (r: Board)
        requires
            fen_position(fen.spec_bytes()) is Some,
        ensures
            r.wf(),
            Some(r@) == fen_position(fen.spec_bytes()),
    {
        match Board::try_from_fen(fen) {
            Some(b) => b,
            None => Board::empty(),
        }
    }

    /// The empty board with the pieces of the placement field `w`, if `w` is
    /// a valid one; the rest of the state is that of `Board::empty`.
    fn place_pieces(w: &Vec<u8>) -> (r: Option<Board>)
        ensures
            r is Some <==> fen_placement(w@) is Some,
            r matches Some(b) ==> b.wf() && Some(b@.pieces) == fen_placement(w@) && b@.log.len()
                == 0,
    {
        let ranks = split_parts(w.as_slice(), 47);
        let ghost rs = ranks@.map_values(|v: Vec<u8>| v@);
        if ranks.len() > 8 {
            return None;
        }
        let mut board = Board::empty();
        proof {
            assert forall|i: int| 0 <= i < 64 implies board@.pieces[i] == no_pieces()[i] by {
                assert(board.at(i) is None);
            }
            assert(board@.pieces =~= no_pieces());
        }
        let mut k: usize = 0;
        while k < ranks.len()
            invariant
                k <= ranks@.len() <= 8,
                rs == ranks@.map_values(|v: Vec<u8>| v@),
                rs == parts(w@, 47),
                board.wf(),
                board@.log.len() == 0,
                place_ranks(board@.pieces, rs, k as int) == place_ranks(no_pieces(), rs, 0),
                forall|i: int| 0 <= i < (8 - k) * 8 ==> #[trigger] board.at(i) is None,
            decreases ranks.len() - k,
        {
            let row: u8 = 7 - k as u8;
            let r = &ranks[k];
            proof {
                assert(rs[k as int] == r@);
            }
            let ghost start = board@.pieces;
            let mut file: u8 = 0;
            let mut j: usize = 0;
            while j < r.len()
                invariant
                    j <= r@.len(),
                    row == 7 - k,
                    k < 8,
                    file <= 8,
                    board.wf(),
                    board@.log.len() == 0,
                    place_rank(board@.pieces, r@, row as int, j as int, file as int) == place_rank(
                        start,
                        r@,
                        row as int,
                        0,
                        0,
                    ),
                    forall|i: int|
                        0 <= i < 64 && (i / 8 < row || (i / 8 == row && i % 8 >= file))
                            ==> #[trigger] board.at(i) is None,
                    forall|i: int| 0 <= i < row * 8 ==> #[trigger] board.at(i) == start[i],
                    start.len() == 64,
                    ranks@.len() <= 8,
                    rs == parts(w@, 47),
                    rs[k as int] == r@,
                    place_ranks(start, rs, k as int) == place_ranks(no_pieces(), rs, 0),
                    k < rs.len(),
                decreases r.len() - j,
            {
                let c = r[j];
                if 48 <= c && c <= 57 {
                    let n = c - 48;
                    if file + n > 8 {
                        proof {
                            lemma_place_rank_overfull(board@.pieces, r@, row as int, j + 1, file + n);
                            assert(place_rank(start, r@, row as int, 0, 0) is None);
                                assert(place_ranks(start, rs, k as int) is None);
                        }
                        return None;
                    }
                    file = file + n;
                } else {
                    match Piece::try_from_fen(c as char) {
                        Some(piece) => {
                            if file >= 8 {
                                proof {
                                    assert(place_rank(start, r@, row as int, 0, 0) is None);
                                assert(place_ranks(start, rs, k as int) is None);
                                }
                                return None;
                            }
                            let sq = Square::from_rank_file(row, file);
                            let ghost bj = board;
                            board.add_piece(piece, sq);
                            proof {
                                let pos = row * 8 + file;
                                assert forall|i: int|
                                    0 <= i < 64 && (i / 8 < row || (i / 8 == row && i % 8 >= file
                                        + 1)) implies #[trigger] board.at(i) is None by {
                                    assert(i != pos);
                                    assert(bj.at(i) is None);
                                }
                                assert forall|i: int| 0 <= i < row * 8 implies #[trigger] board.at(
                                    i,
                                ) == start[i] by {
                                    assert(i != pos);
                                    assert(bj.at(i) == start[i]);
                                }
                            }
                            file = file + 1;
                        },
                        None => {
                            proof {
                                assert(place_rank(start, r@, row as int, 0, 0) is None);
                                assert(place_ranks(start, rs, k as int) is None);
                            }
                            return None;
                        },
                    }
                }
                j = j + 1;
            }
            if file != 8 {
                proof {
                    assert(place_rank(start, r@, row as int, 0, 0) is None);
                                assert(place_ranks(start, rs, k as int) is None);
                }
                return None;
            }
            proof {
                assert(place_rank(start, r@, row as int, 0, 0) == Some(board@.pieces));
            }
            k = k + 1;
        }
        Some(board)
    }
}

/// A rank that already counts more than eight squares cannot be completed.
proof fn lemma_place_rank_overfull(p: Seq<Option<Piece>>, r: Seq<u8>, row: int, j: int, file: int)
    requires
        file > 8,
    ensures
        place_rank(p, r, row, j, file) is None,
    decreases r.len() - j,
{
    if j < r.len() {
        if 48 <= r[j] <= 57 {
            lemma_place_rank_overfull(p, r, row, j + 1, file + (r[j] - 48));
        }
    }
}

/// The type of the piece that starts on `file` of a back rank.
pub open spec fn back_rank_type(file: int) -> PieceType {
    if file == 0 || file == 7 {
        PieceType::Rook
    } else if file == 1 || file == 6 {
        PieceType::Knight
    } else if file == 2 || file == 5 {
        PieceType::Bishop
    } else if file == 3 {
        PieceType::Queen
    } else {
        PieceType::King
    }
}

/// The piece on the square with index `i` at the start of a game.
pub open spec fn start_piece(i: int) -> Option<Piece> {
    let rank = i / 8;
    let file = i % 8;
    if rank == 0 {
        Some(Piece { piece_type: back_rank_type(file), color: Color::White })
    } else if rank == 1 {
        Some(Piece { piece_type: PieceType::Pawn, color: Color::White })
    } else if rank == 6 {
        Some(Piece { piece_type: PieceType::Pawn, color: Color::Black })
    } else if rank == 7 {
        Some(Piece { piece_type: back_rank_type(file), color: Color::Black })
    } else {
        None
    }
}

/// The position at the start of a game, which the FEN string
/// `rnbqkbnr/pppppppp/8/8/8/8/PPPPPPPP/RNBQKBNR w KQkq - 0 1` describes.
pub open spec fn starting_position() -> Position {
    Position {
        pieces: Seq::new(64, |i: int| start_piece(i)),
        log: Seq::empty(),
        enpassant: None,
        castling_rights: CastlingRights::spec_new(),
        turn: Color::White,
        half_move: 0,
        full_move: 1,
    }
}

/// The type of the piece that starts on `file` of a back rank.
fn back_rank_piece_type(file: u8) -> (r: PieceType)
    ensures
        r == back_rank_type(file as int),
{
    if file == 0 || file == 7 {
        PieceType::Rook
    } else if file == 1 || file == 6 {
        PieceType::Knight
    } else if file == 2 || file == 5 {
        PieceType::Bishop
    } else if file == 3 {
        PieceType::Queen
    } else {
        PieceType::King
    }
}

impl Default for Board {
    /// The starting position.
    fn default() -> (r: Self)
        ensures
            r.wf(),
            r@ == starting_position(),
    {
        let mut board = Board::empty();
        let mut f: u8 = 0;
        while f < 8
            invariant
                f <= 8,
                board.wf(),
                board@.log.len() == 0,
                board.enpassant is None,
                board.castling_rights == CastlingRights::spec_new(),
                board.turn == Color::White,
                board.half_move == 0,
                board.full_move == 0,
                forall|i: int|
                    0 <= i < 64 ==> #[trigger] board.at(i) == if i % 8 < f {
                        start_piece(i)
                    } else {
                        None
                    },
            decreases 8 - f,
        {
            let t = back_rank_piece_type(f);
            let ghost b0 = board;
            proof {
                assert(board.at(f as int) is None);
                assert(board.at(8 + f) is None);
                assert(board.at(48 + f) is None);
                assert(board.at(56 + f) is None);
            }
            board.add_piece(Piece::new(t, Color::White), Square::from_rank_file(0, f));
            board.add_piece(Piece::new(PieceType::Pawn, Color::White), Square::from_rank_file(1, f));
            board.add_piece(Piece::new(PieceType::Pawn, Color::Black), Square::from_rank_file(6, f));
            board.add_piece(Piece::new(t, Color::Black), Square::from_rank_file(7, f));
            proof {
                assert forall|i: int| 0 <= i < 64 implies #[trigger] board.at(i) == if i % 8 < f + 1 {
                    start_piece(i)
                } else {
                    None
                } by {
                    assert(b0.at(i) == if i % 8 < f {
                        start_piece(i)
                    } else {
                        None
                    });
                    if i % 8 == f {
                        if i / 8 == 0 {
                            assert(i == f);
                        } else if i / 8 == 1 {
                            assert(i == 8 + f);
                        } else if i / 8 == 6 {
                            assert(i == 48 + f);
                        } else if i / 8 == 7 {
                            assert(i == 56 + f);
                        }
                    }
                }
            }
            f = f + 1;
        }
        proof {
            assert forall|i: int| 0 <= i < 64 implies board@.pieces[i] == starting_position().pieces[i] by {
                assert(board.at(i) == start_piece(i));
            }
        }
        board.full_move = 1;
        proof {
            assert(board@.pieces =~= starting_position().pieces);
            assert(board@.log =~= Seq::<crate::log::LogEntry>::empty());
        }
        board
    }
}

} // verus!
