//! The record of the moves made on a board, with what undoing each needs.
use crate::castling::CastlingRights;
use crate::piece::{MoveKind, Piece};
use crate::square::Square;
use vstd::prelude::*;

verus! {

/// One move made on a board, with the state that the move overwrote.
#[derive(Clone, Copy, PartialEq, Eq, Debug, Structural)]
pub struct LogEntry {
    pub from: Square,
    pub to: Square,
    pub captured_piece: Option<Piece>,
    pub previous_enpassant: Option<Square>,
    pub previous_castling_rights: CastlingRights,
    pub move_kind: MoveKind,
    pub previous_half_move: u8,
    pub previous_full_move: u8,
}

impl LogEntry {
    pub fn new(
        from: Square,
        to: Square,
        captured_piece: Option<Piece>,
        previous_enpassant: Option<Square>,
        previous_castling_rights: CastlingRights,
        move_kind: MoveKind,
        previous_half_move: u8,
        previous_full_move: u8,
    ) -> (r: Self)
        ensures
            r == (LogEntry {
                from,
                to,
                captured_piece,
                previous_enpassant,
                previous_castling_rights,
                move_kind,
                previous_half_move,
                previous_full_move,
            }),
    {
        LogEntry {
            from,
            to,
            captured_piece,
            previous_enpassant,
            previous_castling_rights,
            move_kind,
            previous_half_move,
            previous_full_move,
        }
    }
}

/// The moves made on a board, oldest first.
#[derive(Clone, PartialEq, Eq, Debug)]
pub struct MoveLog {
    pub moves: Vec<LogEntry>,
}

impl View for MoveLog {
    type V = Seq<LogEntry>;

    open spec fn view(&self) -> Seq<LogEntry> {
        self.moves@
    }
}

impl MoveLog {
    /// The empty log.
    pub fn new() -> (r: Self)
        ensures
            r@ == Seq::<LogEntry>::empty(),
    {
        MoveLog { moves: Vec::new() }
    }

    /// Records a move as the latest one.
    pub fn add(&mut self, move_entry: LogEntry)
        ensures
            final(self)@ == old(self)@.push(move_entry),
    {
        self.moves.push(move_entry);
    }

    /// Takes out the latest move, if there is one.
    pub fn remove(&mut self) -> (r: Option<LogEntry>)
        ensures
            old(self)@.len() == 0 ==> r is None && final(self)@ == old(self)@,
            old(self)@.len() > 0 ==> r == Some(old(self)@.last()) && final(self)@ == old(
                self,
            )@.drop_last(),
    {
        self.moves.pop()
    }

    /// The number of moves recorded.
    pub fn len(&self) -> (r: usize)
        ensures
            r == self@.len(),
    {
        self.moves.len()
    }
}

/// Taking out the latest move right after recording one gives that move back
/// and leaves the log as it was.
pub proof fn lemma_add_then_remove(log: Seq<LogEntry>, entry: LogEntry)
    ensures
        log.push(entry).len() > 0,
        log.push(entry).last() == entry,
        log.push(entry).drop_last() == log,
{
    assert(log.push(entry).drop_last() =~= log);
}

} // verus!
