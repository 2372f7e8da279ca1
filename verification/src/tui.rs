//! What the terminal viewer of a bitboard decides: the bitboard it shows,
//! its text, and when to quit.
use crate::bitboard::BitBoard;
use crate::display::grid_text;
use crate::square::Square;
use vstd::prelude::*;
use vstd::string::StringExecFns;

verus! {

/// The squares the viewer starts with: a8, d7, a6, g6 and e1.
pub open spec fn start_bits() -> u64 {
    (1u64 << 56u64) | (1u64 << 51u64) | (1u64 << 40u64) | (1u64 << 46u64) | (1u64 << 4u64)
}

/// The text under the grid.
pub open spec fn quit_hint() -> Seq<char> {
    "\n\nPress q to quit."@
}

/// A terminal viewer of one bitboard.
pub struct Tui {
    exit: bool,
    bitboard: BitBoard,
}

impl Tui {
    /// Whether the viewer is to quit.
    pub closed spec fn exits(self) -> bool {
        self.exit
    }

    /// The bitboard shown.
    pub closed spec fn shown(self) -> BitBoard {
        self.bitboard
    }

    /// A viewer of the squares a8, d7, a6, g6 and e1, not quitting.
    pub fn new() -> (r: Self)
        ensures
            !r.exits(),
            r.shown().0 == start_bits(),
    {
        let bitboard = BitBoard(0).or_square(Square::A8).or_square(Square::D7).or_square(
            Square::A6,
        ).or_square(Square::G6).or_square(Square::E1);
        assert(((((0u64 | (1u64 << 56u64)) | (1u64 << 51u64)) | (1u64 << 40u64)) | (1u64 << 46u64)) | (
        1u64 << 4u64) == (1u64 << 56u64) | (1u64 << 51u64) | (1u64 << 40u64) | (1u64 << 46u64) | (1u64
            << 4u64)) by (bit_vector);
        Self { exit: false, bitboard }
    }

    /// Whether the viewer is to quit.
    pub fn should_exit(&self) -> (r: bool)
        ensures
            r == self.exits(),
    {
        self.exit
    }

    /// The text to show: the bitboard's grid and how to quit.
    pub fn screen_text(&self) -> (r: String)
        ensures
            r@ == grid_text(self.shown().0) + quit_hint(),
    {
        proof {
            reveal_strlit("\n\nPress q to quit.");
        }
        let mut text = self.bitboard.debug_grid();
        text.append("\n\nPress q to quit.");
        text
    }

    /// A key event: `pressed` tells whether the key went down, `key` is its
    /// character if it has one. Pressing `q` makes the viewer quit.
    pub fn handle_key_event(&mut self, pressed: bool, key: Option<char>)
        ensures
            final(self).exits() == (old(self).exits() || (pressed && key == Some('q'))),
            final(self).shown() == old(self).shown(),
    {
        if !pressed {
            return ;
        }
        if let Some('q') = key {
            self.exit = true;
        }
    }
}

} // verus!
