//! Making a move on the board.
use crate::board::{king_of, Board, Position};
use crate::castling::CastlingRights;
use crate::log::LogEntry;
use crate::piece::{Color, MoveKind, Piece, PieceMove, PieceType};
use crate::square::{group_square, sq_of, Square};
use vstd::prelude::*;

verus! {

broadcast use group_square;

/// The index of a square, as an integer.
pub open spec fn ix(s: Square) -> int {
    s.spec_index() as int
}

/// A move counter one higher, wrapping from 255 to 0.
pub open spec fn next_count(x: u8) -> u8 {
    if x == 255 {
        0
    } else {
        (x + 1) as u8
    }
}

/// The rook of `color`.
pub open spec fn rook_of(color: Color) -> Piece {
    Piece { piece_type: PieceType::Rook, color }
}

/// The pawn of `color`.
pub open spec fn pawn_of(color: Color) -> Piece {
    Piece { piece_type: PieceType::Pawn, color }
}

/// The square a castling king starts from.
pub open spec fn castle_king_from(color: Color) -> int {
    match color {
        Color::White => 4,
        Color::Black => 60,
    }
}

/// The square a castling king ends on.
pub open spec fn castle_king_to(color: Color, kingside: bool) -> int {
    castle_king_from(color) + if kingside {
        2int
    } else {
        -2int
    }
}

/// The square the rook leaves when castling.
pub open spec fn castle_rook_from(color: Color, kingside: bool) -> int {
    castle_king_from(color) + if kingside {
        3int
    } else {
        -4int
    }
}

/// The square the rook lands on when castling.
pub open spec fn castle_rook_to(color: Color, kingside: bool) -> int {
    castle_king_from(color) + if kingside {
        1int
    } else {
        -1int
    }
}

/// The side whose king castles from `from`: White from E1, Black from E8.
pub open spec fn castle_color(from: int) -> Color {
    if from == 4 {
        Color::White
    } else {
        Color::Black
    }
}

/// The square of the pawn that an en passant capture onto `to` takes: one
/// rank behind `to`, seen from the capturing side.
pub open spec fn en_passant_victim(color: Color, to: int) -> int {
    match color {
        Color::White => to - 8,
        Color::Black => to + 8,
    }
}

/// Whether `move_piece` can play `m` on `v`: a piece stands on `from`, a quiet
/// move, push or promotion goes to an empty square, a capture to an occupied
/// one, an en passant capture takes a pawn of the other side from behind an
/// empty target, and castling finds the king on E1 or E8, its rook or nothing
/// in the corner, and the squares they land on empty.
pub open spec fn can_make(v: Position, m: PieceMove) -> bool {
    let f = ix(m.from);
    let t = ix(m.to);
    &&& f != t
    &&& v.pieces[f] is Some
    &&& match m.kind {
        MoveKind::Quiet | MoveKind::DoublePawnPush | MoveKind::Promotion(_) => v.pieces[t] is None,
        MoveKind::Capture | MoveKind::PromotionCapture(_) => v.pieces[t] is Some,
        MoveKind::EnPassant => {
            let c = v.pieces[f]->0.color;
            let cap = en_passant_victim(c, t);
            &&& v.pieces[t] is None
            &&& 0 <= cap < 64
            &&& cap != f
            &&& v.pieces[cap] == Some(pawn_of(c.spec_opposite()))
        },
        MoveKind::KingCastle => can_castle(v, m, true),
        MoveKind::QueenCastle => can_castle(v, m, false),
    }
}

/// Castling on the given wing: the king of the side starting on E1 (White)
/// or E8 (Black) stands there, the move goes to its target, the rook's corner
/// holds that side's rook or nothing (a rook is then placed all the same),
/// and the two landing squares are empty.
pub open spec fn can_castle(v: Position, m: PieceMove, kingside: bool) -> bool {
    let f = ix(m.from);
    let c = castle_color(f);
    &&& (f == 4 || f == 60)
    &&& v.pieces[f] == Some(king_of(c))
    &&& ix(m.to) == castle_king_to(c, kingside)
    &&& v.pieces[castle_king_to(c, kingside)] is None
    &&& (v.pieces[castle_rook_from(c, kingside)] == Some(rook_of(c)) || v.pieces[castle_rook_from(
        c,
        kingside,
    )] is None)
    &&& v.pieces[castle_rook_to(c, kingside)] is None
}

/// The piece that `m` takes on `v`, if any.
pub open spec fn captured_by(v: Position, m: PieceMove) -> Option<Piece> {
    match m.kind {
        MoveKind::EnPassant => Some(pawn_of(v.pieces[ix(m.from)]->0.color.spec_opposite())),
        MoveKind::KingCastle | MoveKind::QueenCastle => None,
        _ => v.pieces[ix(m.to)],
    }
}

/// Where the pieces stand after `m`.
pub open spec fn pieces_after(pieces: Seq<Option<Piece>>, m: PieceMove) -> Seq<Option<Piece>> {
    let f = ix(m.from);
    let t = ix(m.to);
    let moved = pieces[f]->0;
    match m.kind {
        MoveKind::Promotion(pt) | MoveKind::PromotionCapture(pt) => pieces.update(f, None).update(
            t,
            Some(Piece { piece_type: pt, color: moved.color }),
        ),
        MoveKind::EnPassant => pieces.update(f, None).update(t, Some(moved)).update(
            en_passant_victim(moved.color, t),
            None,
        ),
        MoveKind::KingCastle | MoveKind::QueenCastle => {
            let c = castle_color(f);
            let ks = m.kind == MoveKind::KingCastle;
            pieces.update(f, None).update(castle_king_to(c, ks), Some(king_of(c))).update(
                castle_rook_from(c, ks),
                None,
            ).update(castle_rook_to(c, ks), Some(rook_of(c)))
        },
        _ => pieces.update(f, None).update(t, Some(moved)),
    }
}

/// The castling rights after a move from `from` to `to` of `moved` that took
/// `captured`: a king move loses both of its side's rights, and a rook that
/// leaves or is taken on its corner loses that corner's right.
pub open spec fn rights_after(
    rights: CastlingRights,
    from: int,
    to: int,
    moved: Piece,
    captured: Option<Piece>,
) -> CastlingRights {
    let r1 = if moved.piece_type == PieceType::King {
        match moved.color {
            Color::White => CastlingRights {
                white_kingside: false,
                white_queenside: false,
                ..rights
            },
            Color::Black => CastlingRights {
                black_kingside: false,
                black_queenside: false,
                ..rights
            },
        }
    } else {
        rights
    };
    let r2 = if moved.piece_type == PieceType::Rook {
        corner_lost(r1, from)
    } else {
        r1
    };
    if captured matches Some(c) && c.piece_type == PieceType::Rook {
        corner_lost(r2, to)
    } else {
        r2
    }
}

/// The rights without the one tied to the rook corner `sq`, if `sq` is one.
pub open spec fn corner_lost(rights: CastlingRights, sq: int) -> CastlingRights {
    if sq == 0 {
        CastlingRights { white_queenside: false, ..rights }
    } else if sq == 7 {
        CastlingRights { white_kingside: false, ..rights }
    } else if sq == 56 {
        CastlingRights { black_queenside: false, ..rights }
    } else if sq == 63 {
        CastlingRights { black_kingside: false, ..rights }
    } else {
        rights
    }
}

/// The en passant square after `m`: the square a pawn skipped over with a
/// double push, and none after any other move.
pub open spec fn enpassant_after(v: Position, m: PieceMove) -> Option<Square> {
    if v.pieces[ix(m.from)]->0.piece_type == PieceType::Pawn && m.kind
        == MoveKind::DoublePawnPush {
        Some(sq_of((ix(m.from) + ix(m.to)) / 2))
    } else {
        None
    }
}

/// The position after `m` is made on `v`.
#[verifier::opaque]
pub open spec fn position_after(v: Position, m: PieceMove) -> Position {
    let moved = v.pieces[ix(m.from)]->0;
    let captured = captured_by(v, m);
    Position {
        pieces: pieces_after(v.pieces, m),
        log: v.log.push(
            LogEntry {
                from: m.from,
                to: m.to,
                captured_piece: captured,
                previous_enpassant: v.enpassant,
                previous_castling_rights: v.castling_rights,
                move_kind: m.kind,
                previous_half_move: v.half_move,
                previous_full_move: v.full_move,
            },
        ),
        enpassant: enpassant_after(v, m),
        castling_rights: rights_after(v.castling_rights, ix(m.from), ix(m.to), moved, captured),
        turn: v.turn.spec_opposite(),
        half_move: if moved.piece_type == PieceType::Pawn || captured is Some {
            0
        } else {
            next_count(v.half_move)
        },
        full_move: if v.turn == Color::Black {
            next_count(v.full_move)
        } else {
            v.full_move
        },
    }
}

impl Board {
    /// Makes the move `piece_move`: moves (and promotes, or castles) the
    /// pieces, records the move in the log, updates the en passant square,
    /// castling rights and move counters, and hands the move to the other side.
    /// Both move counters wrap from 255 to 0.
    pub fn move_piece(&mut self, piece_move: PieceMove)
        requires
            old(self).wf(),
            can_make(old(self)@, piece_move),
        ensures
            final(self).wf(),
            final(self)@ == position_after(old(self)@, piece_move),
            captured_by(old(self)@, piece_move) is Some ==> final(self).half_move == 0,
            old(self)@.pieces[ix(piece_move.from)]->0.piece_type == PieceType::Pawn ==> final(self).half_move == 0,
    {
        reveal(position_after);
        let from_sq = piece_move.from;
        let to_sq = piece_move.to;
        let previous_castling_rights = self.castling_rights;
        let previous_enpassant = self.enpassant;
        let previous_half_move = self.half_move;
        let previous_full_move = self.full_move;
        let ghost v = self@;

        let from_piece = match self.piece_on_square.get(from_sq) {
            Some(p) => p,
            None => Piece::new(PieceType::Pawn, Color::White),
        };
        let mut captured_piece: Option<Piece> = self.piece_on_square.get(to_sq);

        self.update_enpassant_square(piece_move);

        match piece_move.kind {
            MoveKind::Promotion(promotion_piece_type) => {
                self.remove_piece(from_piece, from_sq);
                let promoted_piece = Piece::new(promotion_piece_type, from_piece.color);
                self.add_piece(promoted_piece, to_sq);
            },
            MoveKind::PromotionCapture(promotion_piece_type) => {
                let captured = match captured_piece {
                    Some(c) => c,
                    None => from_piece,
                };
                self.remove_piece(captured, to_sq);
                self.remove_piece(from_piece, from_sq);
                let promoted_piece = Piece::new(promotion_piece_type, from_piece.color);
                self.add_piece(promoted_piece, to_sq);
            },
            MoveKind::EnPassant => {
                self.make_enpassant_move(piece_move);
                captured_piece = Some(Piece::new(PieceType::Pawn, from_piece.color.opposite()));
            },
            MoveKind::KingCastle | MoveKind::QueenCastle => {
                self.make_castle_move(piece_move);
                captured_piece = None;
            },
            MoveKind::Quiet | MoveKind::DoublePawnPush => {
                self.remove_piece(from_piece, from_sq);
                self.add_piece(from_piece, to_sq);
            },
            MoveKind::Capture => {
                let captured = match captured_piece {
                    Some(c) => c,
                    None => from_piece,
                };
                self.remove_piece(captured, to_sq);
                self.remove_piece(from_piece, from_sq);
                self.add_piece(from_piece, to_sq);
            },
        };
        proof {
            assert(self@.pieces =~= pieces_after(v.pieces, piece_move));
        }

        if from_piece.piece_type == PieceType::Pawn || captured_piece.is_some() {
            self.half_move = 0;
        } else if self.half_move == 255 {
            self.half_move = 0;
        } else {
            self.half_move = self.half_move + 1;
        }
        self.update_castling_rights(from_sq, to_sq, from_piece, captured_piece);
        self.move_log.add(
            LogEntry::new(
                from_sq,
                to_sq,
                captured_piece,
                previous_enpassant,
                previous_castling_rights,
                piece_move.kind,
                previous_half_move,
                previous_full_move,
            ),
        );
        match self.turn {
            Color::Black => {
                if self.full_move == 255 {
                    self.full_move = 0;
                } else {
                    self.full_move = self.full_move + 1;
                }
            },
            _ => {},
        }
        self.switch_turn()
    }

    /// Moves king and rook for a castling move from E1 (White) or E8 (Black).
    fn make_castle_move(&mut self, piece_move: PieceMove)
        requires
            old(self).wf(),
            can_castle(old(self)@, piece_move, piece_move.kind == MoveKind::KingCastle),
            piece_move.kind == MoveKind::KingCastle || piece_move.kind == MoveKind::QueenCastle,
        ensures
            final(self).wf(),
            final(self)@ == (Position { pieces: pieces_after(old(self)@.pieces, piece_move), ..old(self)@ }),
    {
        let ghost p = self@.pieces;
        let white_king = Piece::new(PieceType::King, Color::White);
        let white_rook = Piece::new(PieceType::Rook, Color::White);
        let black_king = Piece::new(PieceType::King, Color::Black);
        let black_rook = Piece::new(PieceType::Rook, Color::Black);
        match (piece_move.kind, piece_move.from) {
            (MoveKind::KingCastle, Square::E1) => {
                self.remove_piece(white_king, Square::E1);
                self.add_piece(white_king, Square::G1);
                if self.piece_on_square.get(Square::H1).is_some() {
                    self.remove_piece(white_rook, Square::H1);
                }
                self.add_piece(white_rook, Square::F1);
            },
            (MoveKind::QueenCastle, Square::E1) => {
                self.remove_piece(white_king, Square::E1);
                self.add_piece(white_king, Square::C1);
                if self.piece_on_square.get(Square::A1).is_some() {
                    self.remove_piece(white_rook, Square::A1);
                }
                self.add_piece(white_rook, Square::D1);
            },
            (MoveKind::KingCastle, _) => {
                self.remove_piece(black_king, Square::E8);
                self.add_piece(black_king, Square::G8);
                if self.piece_on_square.get(Square::H8).is_some() {
                    self.remove_piece(black_rook, Square::H8);
                }
                self.add_piece(black_rook, Square::F8);
            },
            (_, _) => {
                self.remove_piece(black_king, Square::E8);
                self.add_piece(black_king, Square::C8);
                if self.piece_on_square.get(Square::A8).is_some() {
                    self.remove_piece(black_rook, Square::A8);
                }
                self.add_piece(black_rook, Square::D8);
            },
        }
        proof {
            assert(self@.pieces =~= pieces_after(p, piece_move));
        }
    }

    /// Moves the capturing pawn and takes the pawn it passes.
    fn make_enpassant_move(&mut self, piece_move: PieceMove)
        requires
            old(self).wf(),
            can_make(old(self)@, piece_move),
            piece_move.kind == MoveKind::EnPassant,
        ensures
            final(self).wf(),
            final(self)@ == (Position { pieces: pieces_after(old(self)@.pieces, piece_move), ..old(self)@ }),
    {
        let ghost p = self@.pieces;
        let pawn = match self.piece_on_square.get(piece_move.from) {
            Some(pc) => pc,
            None => Piece::new(PieceType::Pawn, Color::White),
        };
        let capture_square = match pawn.color {
            Color::White => {
                self.remove_piece(pawn, piece_move.from);
                self.add_piece(pawn, piece_move.to);
                Square::from_index(piece_move.to.index() - 8)
            },
            Color::Black => {
                self.remove_piece(pawn, piece_move.from);
                self.add_piece(pawn, piece_move.to);
                Square::from_index(piece_move.to.index() + 8)
            },
        };
        let captured_pawn = match self.piece_on_square.get(capture_square) {
            Some(pc) => pc,
            None => pawn,
        };
        self.remove_piece(captured_pawn, capture_square);
        proof {
            assert(self@.pieces =~= pieces_after(p, piece_move));
        }
    }

    /// Sets the en passant square: the skipped square after a pawn's double
    /// push, none otherwise.
    fn update_enpassant_square(&mut self, piece_move: PieceMove)
        requires
            old(self).wf(),
            old(self)@.pieces[ix(piece_move.from)] is Some,
        ensures
            final(self).wf(),
            final(self)@ == (Position { enpassant: enpassant_after(old(self)@, piece_move), ..old(self)@ }),
            final(self).piece_on_square == old(self).piece_on_square,
            final(self).bitboards == old(self).bitboards,
            final(self).white == old(self).white,
            final(self).black == old(self).black,
            final(self).empty == old(self).empty,
    {
        self.enpassant = None;
        let piece = match self.piece_on_square.get(piece_move.from) {
            Some(p) => p,
            None => {
                return;
            },
        };
        if piece.piece_type != PieceType::Pawn {
            return;
        }
        if piece_move.kind == MoveKind::DoublePawnPush {
            let passed_square_index = (piece_move.from.index() + piece_move.to.index()) / 2;
            self.enpassant = Some(Square::from_index(passed_square_index));
        }
    }

    /// Takes away the castling rights that the move from `from` to `to` of
    /// `from_piece`, capturing `captured_piece`, loses.
    fn update_castling_rights(
        &mut self,
        from: Square,
        to: Square,
        from_piece: Piece,
        captured_piece: Option<Piece>,
    )
        ensures
            final(self)@ == (Position {
                castling_rights: rights_after(
                    old(self).castling_rights,
                    ix(from),
                    ix(to),
                    from_piece,
                    captured_piece,
                ),
                ..old(self)@
            }),
            final(self).piece_on_square == old(self).piece_on_square,
            final(self).bitboards == old(self).bitboards,
            final(self).white == old(self).white,
            final(self).black == old(self).black,
            final(self).empty == old(self).empty,
    {
        if from_piece.piece_type == PieceType::King {
            match from_piece.color {
                Color::White => {
                    self.castling_rights.white_kingside = false;
                    self.castling_rights.white_queenside = false;
                },
                Color::Black => {
                    self.castling_rights.black_kingside = false;
                    self.castling_rights.black_queenside = false;
                },
            }
        }
        if from_piece.piece_type == PieceType::Rook {
            match from {
                Square::A1 => self.castling_rights.white_queenside = false,
                Square::H1 => self.castling_rights.white_kingside = false,
                Square::A8 => self.castling_rights.black_queenside = false,
                Square::H8 => self.castling_rights.black_kingside = false,
                _ => {},
            }
        }
        if let Some(captured) = captured_piece {
            if captured.piece_type == PieceType::Rook {
                match to {
                    Square::A1 => self.castling_rights.white_queenside = false,
                    Square::H1 => self.castling_rights.white_kingside = false,
                    Square::A8 => self.castling_rights.black_queenside = false,
                    Square::H8 => self.castling_rights.black_kingside = false,
                    _ => {},
                }
            }
        }
    }
}

impl Board {
    /// Whether `move_piece` can play `piece_move` on this board and `undo`
    /// bring the moved piece back: the conditions of `can_make`, and a pawn
    /// making a promotion or an en passant capture.
    pub fn can_make_move(&self, piece_move: PieceMove) -> (r: bool)
        requires
            self.wf(),
        ensures
            r == (can_make(self@, piece_move) && crate::undo_move::restores_mover(self@, piece_move)),
    {
        let from = piece_move.from;
        let to = piece_move.to;
        if from.index() == to.index() {
            return false;
        }
        let moved = match self.piece_on_square.get(from) {
            Some(p) => p,
            None => {
                return false;
            },
        };
        let target = self.piece_on_square.get(to);
        let is_pawn = moved.piece_type == PieceType::Pawn;
        match piece_move.kind {
            MoveKind::Quiet | MoveKind::DoublePawnPush => target.is_none(),
            MoveKind::Promotion(_) => is_pawn && target.is_none(),
            MoveKind::Capture => target.is_some(),
            MoveKind::PromotionCapture(_) => is_pawn && target.is_some(),
            MoveKind::EnPassant => {
                if !is_pawn || target.is_some() {
                    return false;
                }
                let t = to.index();
                let victim = match moved.color {
                    Color::White => {
                        if t < 8 {
                            return false;
                        }
                        t - 8
                    },
                    Color::Black => {
                        if t >= 56 {
                            return false;
                        }
                        t + 8
                    },
                };
                if victim == from.index() {
                    return false;
                }
                match self.piece_on_square.get(Square::from_index(victim)) {
                    Some(p) => p.piece_type == PieceType::Pawn && p.color == moved.color.opposite(),
                    None => false,
                }
            },
            MoveKind::KingCastle | MoveKind::QueenCastle => {
                let kingside = match piece_move.kind {
                    MoveKind::KingCastle => true,
                    _ => false,
                };
                let (color, base): (Color, u8) = if from.index() == 4 {
                    (Color::White, 0)
                } else if from.index() == 60 {
                    (Color::Black, 56)
                } else {
                    return false;
                };
                let (king_to, rook_from, rook_to): (u8, u8, u8) = if kingside {
                    (base + 6, base + 7, base + 5)
                } else {
                    (base + 2, base, base + 3)
                };
                moved.piece_type == PieceType::King && moved.color == color && to.index() == king_to
                    && self.piece_on_square.get(Square::from_index(king_to)).is_none()
                    && match self.piece_on_square.get(Square::from_index(rook_from)) {
                    Some(p) => p.piece_type == PieceType::Rook && p.color == color,
                    None => false,
                } && self.piece_on_square.get(Square::from_index(rook_to)).is_none()
            },
        }
    }
}

/// The half-move clock counts the plies since the last capture or pawn move:
/// a move whose log entry records a captured piece, or that moves a pawn,
/// sets it to 0; any other move adds one to it (wrapping from 255 to 0).
pub proof fn lemma_half_move_clock(v: Position, m: PieceMove)
    ensures
        position_after(v, m).log.last().captured_piece == captured_by(v, m),
        captured_by(v, m) is Some ==> position_after(v, m).half_move == 0,
        v.pieces[ix(m.from)]->0.piece_type == PieceType::Pawn ==> position_after(v, m).half_move
            == 0,
        captured_by(v, m) is None && v.pieces[ix(m.from)]->0.piece_type != PieceType::Pawn
            ==> position_after(v, m).half_move as int == (v.half_move as int + 1) % 256,
        (m.kind is Capture || m.kind is PromotionCapture) && v.pieces[ix(m.to)] is Some
            ==> position_after(v, m).half_move == 0,
        m.kind is EnPassant ==> position_after(v, m).half_move == 0,
{
    reveal(position_after);
}

} // verus!
