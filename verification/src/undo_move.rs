//! Taking back the latest move.
use crate::board::{king_of, Board, Position};
use crate::log::LogEntry;
use crate::make_move::{
    can_make, castle_color, castle_king_from, castle_king_to, castle_rook_from, castle_rook_to,
    en_passant_victim, ix, pawn_of, position_after, rook_of,
};
use crate::piece::{Color, MoveKind, Piece, PieceMove, PieceType};
use crate::square::{group_square, Square};
use vstd::prelude::*;

verus! {

broadcast use group_square;

/// The pieces after taking back the move `e`, on a board where `e` was the
/// latest move.
pub open spec fn pieces_before(pieces: Seq<Option<Piece>>, e: LogEntry) -> Seq<Option<Piece>> {
    let f = ix(e.from);
    let t = ix(e.to);
    let moved = pieces[t]->0;
    let lifted = pieces.update(t, None);
    match e.move_kind {
        MoveKind::KingCastle | MoveKind::QueenCastle => {
            let ks = e.move_kind == MoveKind::KingCastle;
            lifted.update(f, Some(moved)).update(castle_rook_to(moved.color, ks), None).update(
                castle_rook_from(moved.color, ks),
                Some(rook_of(moved.color)),
            )
        },
        MoveKind::EnPassant => lifted.update(f, Some(moved)).update(
            en_passant_victim(moved.color, t),
            Some(pawn_of(moved.color.spec_opposite())),
        ),
        MoveKind::Capture => lifted.update(t, e.captured_piece).update(f, Some(moved)),
        MoveKind::Quiet | MoveKind::DoublePawnPush => lifted.update(f, Some(moved)),
        MoveKind::PromotionCapture(_) => lifted.update(t, e.captured_piece).update(
            f,
            Some(pawn_of(moved.color)),
        ),
        MoveKind::Promotion(_) => lifted.update(f, Some(pawn_of(moved.color))),
    }
}

/// Whether `undo` can take back the move `e` from `pieces`: the moved piece
/// stands on the target, the squares pieces return to are empty, a taken
/// piece was recorded, and a castling king brought its rook along.
pub open spec fn can_take_back(pieces: Seq<Option<Piece>>, e: LogEntry) -> bool {
    let f = ix(e.from);
    let t = ix(e.to);
    let moved = pieces[t]->0;
    let lifted = pieces.update(t, None);
    &&& pieces[t] is Some
    &&& match e.move_kind {
        MoveKind::KingCastle | MoveKind::QueenCastle => {
            let ks = e.move_kind == MoveKind::KingCastle;
            let back = lifted.update(f, Some(moved));
            &&& moved.piece_type == PieceType::King
            &&& lifted[f] is None
            &&& back[castle_rook_to(moved.color, ks)] == Some(rook_of(moved.color))
            &&& back.update(castle_rook_to(moved.color, ks), None)[castle_rook_from(
                moved.color,
                ks,
            )] is None
        },
        MoveKind::EnPassant => {
            let cap = en_passant_victim(moved.color, t);
            &&& moved.piece_type == PieceType::Pawn
            &&& lifted[f] is None
            &&& 0 <= cap < 64
            &&& lifted.update(f, Some(moved))[cap] is None
        },
        MoveKind::Capture | MoveKind::PromotionCapture(_) => {
            &&& e.captured_piece is Some
            &&& lifted.update(t, e.captured_piece)[f] is None
        },
        MoveKind::Quiet | MoveKind::DoublePawnPush | MoveKind::Promotion(_) => lifted[f] is None,
    }
}

/// Whether `undo` can work on `v`: there is no move to take back, or the
/// latest one can be taken back.
pub open spec fn can_undo(v: Position) -> bool {
    v.log.len() > 0 ==> can_take_back(v.pieces, v.log.last())
}

/// The position after taking back the latest move of `v`; `v` itself when
/// no move was made.
pub open spec fn position_before(v: Position) -> Position {
    if v.log.len() == 0 {
        v
    } else {
        let e = v.log.last();
        Position {
            pieces: pieces_before(v.pieces, e),
            log: v.log.drop_last(),
            enpassant: e.previous_enpassant,
            castling_rights: e.previous_castling_rights,
            turn: v.turn.spec_opposite(),
            half_move: e.previous_half_move,
            full_move: e.previous_full_move,
        }
    }
}

/// Whether taking `m` back restores what it moved: a promotion or an en
/// passant capture is made by a pawn, and castling finds its rook in the
/// corner (taking castling back puts a rook there).
pub open spec fn restores_mover(v: Position, m: PieceMove) -> bool {
    match m.kind {
        MoveKind::Promotion(_) | MoveKind::PromotionCapture(_) | MoveKind::EnPassant => v.pieces[ix(
            m.from,
        )]->0.piece_type == PieceType::Pawn,
        MoveKind::KingCastle => v.pieces[castle_rook_from(castle_color(ix(m.from)), true)] == Some(
            rook_of(castle_color(ix(m.from))),
        ),
        MoveKind::QueenCastle => v.pieces[castle_rook_from(castle_color(ix(m.from)), false)] == Some(
            rook_of(castle_color(ix(m.from))),
        ),
        _ => true,
    }
}

/// Undo takes back a move: making a move and then undoing it gives back the
/// position (pieces, log, side to move, en passant square, castling rights and
/// both counters) that the board had before the move.
pub proof fn lemma_undo_restores(v: Position, m: PieceMove)
    requires
        v.pieces.len() == 64,
        can_make(v, m),
        restores_mover(v, m),
    ensures
        can_undo(position_after(v, m)),
        position_before(position_after(v, m)) == v,
{
    reveal(position_after);
    let a = position_after(v, m);
    let e = a.log.last();
    assert(a.log.drop_last() =~= v.log);
    assert(can_take_back(a.pieces, e));
    assert(pieces_before(a.pieces, e) =~= v.pieces);
}

impl Board {
    /// Takes back the latest move, restoring the pieces and the state the
    /// move overwrote; does nothing when no move was made.
    pub fn undo(&mut self)
        requires
            old(self).wf(),
            can_undo(old(self)@),
        ensures
            final(self).wf(),
            final(self)@ == position_before(old(self)@),
    {
        let ghost v = self@;
        let last_move = match self.move_log.remove() {
            Some(e) => e,
            None => {
                return;
            },
        };
        self.switch_turn();
        self.enpassant = last_move.previous_enpassant;
        self.castling_rights = last_move.previous_castling_rights;
        self.half_move = last_move.previous_half_move;
        self.full_move = last_move.previous_full_move;

        let moved_piece = match self.piece_on_square.get(last_move.to) {
            Some(p) => p,
            None => Piece::new(PieceType::Pawn, Color::White),
        };
        match last_move.move_kind {
            MoveKind::KingCastle | MoveKind::QueenCastle => {
                self.undo_castle_move(last_move);
            },
            MoveKind::EnPassant => {
                self.undo_enpassant(last_move);
            },
            MoveKind::Capture => {
                let captured_piece = match last_move.captured_piece {
                    Some(c) => c,
                    None => moved_piece,
                };
                self.remove_piece(moved_piece, last_move.to);
                self.add_piece(captured_piece, last_move.to);
                self.add_piece(moved_piece, last_move.from);
            },
            MoveKind::Quiet | MoveKind::DoublePawnPush => {
                self.remove_piece(moved_piece, last_move.to);
                self.add_piece(moved_piece, last_move.from);
            },
            MoveKind::PromotionCapture(_) => {
                let pawn = Piece::new(PieceType::Pawn, moved_piece.color);
                let captured_piece = match last_move.captured_piece {
                    Some(c) => c,
                    None => moved_piece,
                };
                self.remove_piece(moved_piece, last_move.to);
                self.add_piece(captured_piece, last_move.to);
                self.add_piece(pawn, last_move.from);
            },
            MoveKind::Promotion(_) => {
                let pawn = Piece::new(PieceType::Pawn, moved_piece.color);
                self.remove_piece(moved_piece, last_move.to);
                self.add_piece(pawn, last_move.from);
            },
        }
        proof {
            assert(self@.pieces =~= pieces_before(v.pieces, last_move));
        }
    }

    /// Takes a castling king back to its square and its rook to its corner.
    fn undo_castle_move(&mut self, last_move: LogEntry)
        requires
            old(self).wf(),
            can_take_back(old(self)@.pieces, last_move),
            last_move.move_kind == MoveKind::KingCastle || last_move.move_kind
                == MoveKind::QueenCastle,
        ensures
            final(self).wf(),
            final(self)@ == (Position {
                pieces: pieces_before(old(self)@.pieces, last_move),
                ..old(self)@
            }),
    {
        let ghost p = self@.pieces;
        let king = match self.piece_on_square.get(last_move.to) {
            Some(k) => k,
            None => Piece::new(PieceType::King, Color::White),
        };
        self.remove_piece(king, last_move.to);
        self.add_piece(king, last_move.from);
        let (rook_new_square, rook_old_square) = match (king.color, last_move.move_kind) {
            (Color::White, MoveKind::KingCastle) => (Square::H1, Square::F1),
            (Color::White, _) => (Square::A1, Square::D1),
            (Color::Black, MoveKind::KingCastle) => (Square::H8, Square::F8),
            (Color::Black, _) => (Square::A8, Square::D8),
        };
        self.remove_piece(Piece::new(PieceType::Rook, king.color), rook_old_square);
        self.add_piece(Piece::new(PieceType::Rook, king.color), rook_new_square);
        proof {
            assert(self@.pieces =~= pieces_before(p, last_move));
        }
    }

    /// Takes an en passant capture back: the pawn returns and the pawn it took
    /// reappears behind the target square.
    fn undo_enpassant(&mut self, last_move: LogEntry)
        requires
            old(self).wf(),
            can_take_back(old(self)@.pieces, last_move),
            last_move.move_kind == MoveKind::EnPassant,
        ensures
            final(self).wf(),
            final(self)@ == (Position {
                pieces: pieces_before(old(self)@.pieces, last_move),
                ..old(self)@
            }),
    {
        let ghost p = self@.pieces;
        let pawn = match self.piece_on_square.get(last_move.to) {
            Some(k) => k,
            None => Piece::new(PieceType::Pawn, Color::White),
        };
        self.remove_piece(pawn, last_move.to);
        self.add_piece(pawn, last_move.from);
        let captured_square = match pawn.color {
            Color::White => Square::from_index(last_move.to.index() - 8),
            Color::Black => Square::from_index(last_move.to.index() + 8),
        };
        self.add_piece(Piece::new(PieceType::Pawn, pawn.color.opposite()), captured_square);
        proof {
            assert(self@.pieces =~= pieces_before(p, last_move));
        }
    }
}

} // verus!
