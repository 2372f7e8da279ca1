//! Text forms of squares, pieces, moves, bitboards, boards and move logs.
use crate::bitboard::BitBoard;
use crate::bits::bit;
use crate::board::Board;
use crate::log::{LogEntry, MoveLog};
use crate::piece::{Color, Piece, PieceMove, PieceType};
use crate::square::{group_square, Square};
use vstd::prelude::*;
use vstd::string::StringExecFns;

verus! {

broadcast use group_square;

/// The digit that writes `n` (for `n` in `0..10`).
pub open spec fn digit_char(n: int) -> char {
    ((n + 48) as u8) as char
}

/// The letter of file `f`: `a` for 0 up to `h` for 7.
pub open spec fn file_char(f: int) -> char {
    ((f + 97) as u8) as char
}

/// The name of a square: its file letter, then its rank number (`e4`).
pub open spec fn square_text(s: Square) -> Seq<char> {
    seq![file_char(s.spec_file()), digit_char(s.spec_rank() + 1)]
}

/// `w` for White, `b` for Black.
pub open spec fn color_text(c: Color) -> Seq<char> {
    seq![
        match c {
            Color::White => 'w',
            Color::Black => 'b',
        },
    ]
}

/// The letter of a piece type: `P`, `N`, `B`, `R`, `Q` or `K`.
pub open spec fn piece_type_text(t: PieceType) -> Seq<char> {
    seq![
        match t {
            PieceType::Pawn => 'P',
            PieceType::Knight => 'N',
            PieceType::Bishop => 'B',
            PieceType::Rook => 'R',
            PieceType::Queen => 'Q',
            PieceType::King => 'K',
        },
    ]
}

/// A piece as its color letter followed by its type letter (`wK`).
pub open spec fn piece_text(p: Piece) -> Seq<char> {
    color_text(p.color) + piece_type_text(p.piece_type)
}

/// A move as the names of its two squares (`e2e4`).
pub open spec fn move_text(m: PieceMove) -> Seq<char> {
    square_text(m.from) + square_text(m.to)
}

/// The first lines of a bitboard's grid: the file letters and a blank line.
pub open spec fn grid_header() -> Seq<char> {
    "    A B C D E F G H\n\n"@
}

/// The mark of one square of a bitboard's grid (filled when the square is
/// in the set), followed by a space except on the h-file.
pub open spec fn grid_cell(x: u64, rank: int, file: int) -> Seq<char> {
    seq![if bit(x, rank * 8 + file) { '■' } else { '□' }] + if file < 7 {
        seq![' ']
    } else {
        Seq::empty()
    }
}

/// The marks of the first `n` files of `rank`.
pub open spec fn grid_cells(x: u64, rank: int, n: int) -> Seq<char>
    decreases n,
{
    if n <= 0 {
        Seq::empty()
    } else {
        grid_cells(x, rank, n - 1) + grid_cell(x, rank, n - 1)
    }
}

/// One rank of a bitboard's grid: its number, three spaces, its marks, and
/// a blank line below every rank but the first.
pub open spec fn grid_row(x: u64, rank: int) -> Seq<char> {
    seq![digit_char(rank + 1), ' ', ' ', ' '] + grid_cells(x, rank, 8) + if rank > 0 {
        seq!['\n', '\n']
    } else {
        Seq::empty()
    }
}

/// The top `n` ranks of a bitboard's grid, from the eighth rank down.
pub open spec fn grid_rows(x: u64, n: int) -> Seq<char>
    decreases n,
{
    if n <= 0 {
        Seq::empty()
    } else {
        grid_rows(x, n - 1) + grid_row(x, 8 - n)
    }
}

/// The grid that shows the bitboard `x`, White's side at the bottom.
pub open spec fn grid_text(x: u64) -> Seq<char> {
    grid_header() + grid_rows(x, 8)
}

/// One square of a board's picture: the piece's letters, or `..`, and a space.
pub open spec fn cell_text(o: Option<Piece>) -> Seq<char> {
    match o {
        Some(p) => piece_text(p) + seq![' '],
        None => seq!['.', '.', ' '],
    }
}

/// The first `n` squares of `rank` in a board's picture.
pub open spec fn board_cells(pieces: Seq<Option<Piece>>, rank: int, n: int) -> Seq<char>
    decreases n,
{
    if n <= 0 {
        Seq::empty()
    } else {
        board_cells(pieces, rank, n - 1) + cell_text(pieces[rank * 8 + n - 1])
    }
}

/// One rank of a board's picture: its number, a space, its squares, a newline.
pub open spec fn board_row(pieces: Seq<Option<Piece>>, rank: int) -> Seq<char> {
    seq![digit_char(rank + 1), ' '] + board_cells(pieces, rank, 8) + seq!['\n']
}

/// The top `n` ranks of a board's picture, from the eighth rank down.
pub open spec fn board_rows(pieces: Seq<Option<Piece>>, n: int) -> Seq<char>
    decreases n,
{
    if n <= 0 {
        Seq::empty()
    } else {
        board_rows(pieces, n - 1) + board_row(pieces, 8 - n)
    }
}

/// The line of file letters under a board's picture.
pub open spec fn board_footer() -> Seq<char> {
    "  A  B  C  D  E  F  G  H\n"@
}

/// The picture of a placement of pieces, White's side at the bottom.
pub open spec fn board_text(pieces: Seq<Option<Piece>>) -> Seq<char> {
    board_rows(pieces, 8) + board_footer()
}

/// One line of a move log: the two squares of the move, and the piece it
/// captured if any.
pub open spec fn entry_text(e: LogEntry) -> Seq<char> {
    square_text(e.from) + square_text(e.to) + match e.captured_piece {
        Some(p) => ", captured "@ + piece_text(p),
        None => Seq::empty(),
    } + seq!['\n']
}

/// The lines of a move log, oldest first.
pub open spec fn log_text(entries: Seq<LogEntry>) -> Seq<char>
    decreases entries.len(),
{
    if entries.len() == 0 {
        Seq::empty()
    } else {
        log_text(entries.drop_last()) + entry_text(entries.last())
    }
}

/// Appends the digit of `n` to `s`.
fn append_digit(s: &mut String, n: u8)
    requires
        n < 10,
    ensures
        final(s)@ == old(s)@.push(digit_char(n as int)),
{
    proof {
        reveal_strlit("0");
        reveal_strlit("1");
        reveal_strlit("2");
        reveal_strlit("3");
        reveal_strlit("4");
        reveal_strlit("5");
        reveal_strlit("6");
        reveal_strlit("7");
        reveal_strlit("8");
        reveal_strlit("9");
    }
    let d = match n {
        0 => "0",
        1 => "1",
        2 => "2",
        3 => "3",
        4 => "4",
        5 => "5",
        6 => "6",
        7 => "7",
        8 => "8",
        _ => "9",
    };
    s.append(d);
}

/// Appends the letter of file `f` to `s`.
fn append_file(s: &mut String, f: u8)
    requires
        f < 8,
    ensures
        final(s)@ == old(s)@.push(file_char(f as int)),
{
    proof {
        reveal_strlit("a");
        reveal_strlit("b");
        reveal_strlit("c");
        reveal_strlit("d");
        reveal_strlit("e");
        reveal_strlit("f");
        reveal_strlit("g");
        reveal_strlit("h");
    }
    let d = match f {
        0 => "a",
        1 => "b",
        2 => "c",
        3 => "d",
        4 => "e",
        5 => "f",
        6 => "g",
        _ => "h",
    };
    s.append(d);
}

/// Appends the name of `square` to `s`.
fn append_square(s: &mut String, square: Square)
    ensures
        final(s)@ == old(s)@ + square_text(square),
{
    append_file(s, square.file());
    append_digit(s, square.rank() + 1);
}

/// Appends the letter of `color` to `s`.
fn append_color(s: &mut String, color: Color)
    ensures
        final(s)@ == old(s)@ + color_text(color),
{
    proof {
        reveal_strlit("w");
        reveal_strlit("b");
    }
    match color {
        Color::White => s.append("w"),
        Color::Black => s.append("b"),
    }
}

/// Appends the letter of `piece_type` to `s`.
fn append_piece_type(s: &mut String, piece_type: PieceType)
    ensures
        final(s)@ == old(s)@ + piece_type_text(piece_type),
{
    proof {
        reveal_strlit("P");
        reveal_strlit("N");
        reveal_strlit("B");
        reveal_strlit("R");
        reveal_strlit("Q");
        reveal_strlit("K");
    }
    match piece_type {
        PieceType::Pawn => s.append("P"),
        PieceType::Knight => s.append("N"),
        PieceType::Bishop => s.append("B"),
        PieceType::Rook => s.append("R"),
        PieceType::Queen => s.append("Q"),
        PieceType::King => s.append("K"),
    }
}

/// Appends the two letters of `piece` to `s`.
fn append_piece(s: &mut String, piece: Piece)
    ensures
        final(s)@ == old(s)@ + piece_text(piece),
{
    append_color(s, piece.color);
    append_piece_type(s, piece.piece_type);
}

impl Square {
    /// The name of the square, such as `e4`.
    pub fn to_string(self) -> (r: String)
        ensures
            r@ == square_text(self),
    {
        let mut s = String::new();
        append_square(&mut s, self);
        s
    }
}

impl Color {
    /// `w` or `b`.
    pub fn to_string(self) -> (r: String)
        ensures
            r@ == color_text(self),
    {
        let mut s = String::new();
        append_color(&mut s, self);
        s
    }
}

impl PieceType {
    /// The letter of the piece type, such as `N`.
    pub fn to_string(self) -> (r: String)
        ensures
            r@ == piece_type_text(self),
    {
        let mut s = String::new();
        append_piece_type(&mut s, self);
        s
    }
}

impl Piece {
    /// The color letter and the type letter, such as `bQ`.
    pub fn to_string(self) -> (r: String)
        ensures
            r@ == piece_text(self),
    {
        let mut s = String::new();
        append_piece(&mut s, self);
        s
    }
}

impl PieceMove {
    /// The names of the start and target squares, such as `e2e4`.
    pub fn to_string(self) -> (r: String)
        ensures
            r@ == move_text(self),
    {
        let mut s = String::new();
        append_square(&mut s, self.from);
        append_square(&mut s, self.to);
        s
    }
}

impl BitBoard {
    /// A grid of the board with a filled mark on each square of the set,
    /// the eighth rank at the top, ranks numbered and files lettered.
    pub fn debug_grid(&self) -> (r: String)
        ensures
            r@ == grid_text(self.0),
    {
        proof {
            reveal_strlit("    A B C D E F G H\n\n");
        }
        let x: u64 = self.0;
        let mut grid = String::from_str("    A B C D E F G H\n\n");
        let mut n: u8 = 0;
        while n < 8
            invariant
                n <= 8,
                x == self.0,
                grid@ == grid_header() + grid_rows(x, n as int),
            decreases 8 - n,
        {
            proof {
                reveal_strlit("   ");
                reveal_strlit("\n\n");
            }
            let rank: u8 = 7 - n;
            let ghost before = grid@;
            append_digit(&mut grid, rank + 1);
            grid.append("   ");
            assert(grid@ =~= before + seq![digit_char(rank + 1), ' ', ' ', ' '] + grid_cells(
                x,
                rank as int,
                0,
            ));
            let mut file: u8 = 0;
            while file < 8
                invariant
                    file <= 8,
                    rank < 8,
                    x == self.0,
                    grid@ == before + seq![digit_char(rank + 1), ' ', ' ', ' '] + grid_cells(
                        x,
                        rank as int,
                        file as int,
                    ),
                decreases 8 - file,
            {
                proof {
                    reveal_strlit(" ");
                    reveal_strlit("■");
                    reveal_strlit("□");
                }
                let ghost g0 = grid@;
                let square = Square::from_rank_file(rank, file);
                if self.is_set(square) {
                    grid.append("■");
                } else {
                    grid.append("□");
                }
                if file < 7 {
                    grid.append(" ");
                }
                assert(grid@ =~= g0 + grid_cell(x, rank as int, file as int));
                file = file + 1;
            }
            if rank > 0 {
                grid.append("\n\n");
            }
            assert(grid@ =~= before + grid_row(x, rank as int));
            assert(grid_rows(x, n + 1) == grid_rows(x, n as int) + grid_row(x, rank as int));
            n = n + 1;
        }
        grid
    }
}

impl Board {
    /// A picture of the board: one line per rank from the eighth down, each
    /// square shown by its piece's letters or `..`, and the file letters below.
    pub fn show(&self) -> (r: String)
        ensures
            r@ == board_text(self@.pieces),
    {
        proof {
            reveal_strlit("  A  B  C  D  E  F  G  H\n");
        }
        let ghost pieces = self@.pieces;
        let mut text = String::new();
        let mut n: u8 = 0;
        while n < 8
            invariant
                n <= 8,
                pieces == self@.pieces,
                pieces.len() == 64,
                text@ == board_rows(pieces, n as int),
            decreases 8 - n,
        {
            proof {
                reveal_strlit(" ");
                reveal_strlit("\n");
            }
            let rank: u8 = 7 - n;
            let ghost before = text@;
            append_digit(&mut text, rank + 1);
            text.append(" ");
            assert(text@ =~= before + seq![digit_char(rank + 1), ' '] + board_cells(
                pieces,
                rank as int,
                0,
            ));
            let mut file: u8 = 0;
            while file < 8
                invariant
                    file <= 8,
                    rank < 8,
                    pieces == self@.pieces,
                    pieces.len() == 64,
                    text@ == before + seq![digit_char(rank + 1), ' '] + board_cells(
                        pieces,
                        rank as int,
                        file as int,
                    ),
                decreases 8 - file,
            {
                proof {
                    reveal_strlit(" ");
                    reveal_strlit(".. ");
                }
                let ghost t0 = text@;
                let square = Square::from_rank_file(rank, file);
                match self.piece_on_square.get(square) {
                    Some(piece) => {
                        append_piece(&mut text, piece);
                        text.append(" ");
                    },
                    None => {
                        text.append(".. ");
                    },
                }
                assert(text@ =~= t0 + cell_text(pieces[rank * 8 + file]));
                file = file + 1;
            }
            text.append("\n");
            assert(text@ =~= before + board_row(pieces, rank as int));
            assert(board_rows(pieces, n + 1) == board_rows(pieces, n as int) + board_row(
                pieces,
                rank as int,
            ));
            n = n + 1;
        }
        text.append("  A  B  C  D  E  F  G  H\n");
        assert(text@ =~= board_text(pieces));
        text
    }

    /// The lines of the board's move log, oldest move first.
    pub fn print_log(&self) -> (r: String)
        ensures
            r@ == log_text(self@.log),
    {
        self.move_log.print_entries()
    }
}

impl MoveLog {
    /// One line per entry, oldest first: the move's two squares, then
    /// `, captured` and the captured piece's letters when it took one.
    pub fn print_entries(&self) -> (r: String)
        ensures
            r@ == log_text(self@),
    {
        let mut text = String::new();
        let mut i: usize = 0;
        while i < self.moves.len()
            invariant
                i <= self@.len(),
                self@ == self.moves@,
                text@ == log_text(self@.take(i as int)),
            decreases self@.len() - i,
        {
            proof {
                reveal_strlit(", captured ");
                reveal_strlit("\n");
            }
            let entry = self.moves[i];
            let ghost t0 = text@;
            append_square(&mut text, entry.from);
            append_square(&mut text, entry.to);
            match entry.captured_piece {
                Some(piece) => {
                    text.append(", captured ");
                    append_piece(&mut text, piece);
                },
                None => {},
            }
            text.append("\n");
            assert(text@ =~= t0 + entry_text(entry));
            proof {
                let t = self@.take(i + 1);
                assert(t.drop_last() =~= self@.take(i as int));
                assert(t.last() == entry);
            }
            i = i + 1;
        }
        proof {
            assert(self@.take(i as int) =~= self@);
        }
        text
    }
}

} // verus!
