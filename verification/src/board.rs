//! The board: twelve piece bitboards, the piece on each square, the occupancy
//! sets, and the state of the game (side to move, castling, en passant,
//! move counters and the log of moves made).
use crate::bitboard::{lemma_positions_last, lemma_positions_none, positions_where, BitBoard, BitBoards};
use crate::bits::{bit, group_bits, lemma_bits_ext, lemma_low_bit};
use crate::castling::CastlingRights;
use crate::log::{LogEntry, MoveLog};
use crate::piece::{Color, Piece, PieceType};
use crate::square::{group_square, sq_of, Square, SquareMap};
use vstd::prelude::*;
use vstd::std_specs::bits::{axiom_u64_leading_zeros, u64_leading_zeros};

verus! {

broadcast use {group_bits, group_square};

/// The state of a game as seen from the side to move.
#[derive(Clone, Copy, PartialEq, Eq, Debug, Structural)]
pub enum GameState {
    Ongoing,
    Check,
    Checkmate,
    Stalemate,
    FiftyMoveRule,
}

/// What a board stands for: the piece on each square (by index), the log of
/// moves made, and the rest of the game state.
pub ghost struct Position {
    pub pieces: Seq<Option<Piece>>,
    pub log: Seq<LogEntry>,
    pub enpassant: Option<Square>,
    pub castling_rights: CastlingRights,
    pub turn: Color,
    pub half_move: u8,
    pub full_move: u8,
}

/// A chess board. The twelve bitboards, `piece_on_square` and the three
/// occupancy sets always describe the same placement of pieces (see `wf`).
#[derive(PartialEq, Eq, Debug)]
pub struct Board {
    pub bitboards: BitBoards,
    pub piece_on_square: SquareMap<Option<Piece>>,
    pub empty: BitBoard,
    pub white: BitBoard,
    pub black: BitBoard,
    pub move_log: MoveLog,
    pub enpassant: Option<Square>,
    pub castling_rights: CastlingRights,
    pub turn: Color,
    pub half_move: u8,
    pub full_move: u8,
}

impl View for Board {
    type V = Position;

    open spec fn view(&self) -> Position {
        Position {
            pieces: self.piece_on_square@,
            log: self.move_log@,
            enpassant: self.enpassant,
            castling_rights: self.castling_rights,
            turn: self.turn,
            half_move: self.half_move,
            full_move: self.full_move,
        }
    }
}

/// The squares of `color`'s pieces in `pieces`.
pub open spec fn color_at(pieces: Seq<Option<Piece>>, i: int, color: Color) -> bool {
    pieces[i] matches Some(p) && p.color == color
}

impl Board {
    /// The piece on the square with index `i`.
    pub open spec fn at(self, i: int) -> Option<Piece> {
        self.piece_on_square@[i]
    }

    /// The bitboards and occupancy sets agree with `piece_on_square`.
    pub open spec fn wf(self) -> bool {
        &&& self.piece_on_square@.len() == 64
        &&& forall|i: int, p: Piece|
            0 <= i < 64 ==> (#[trigger] self.bitboards.of(p).has(i) <==> self.at(i) == Some(p))
        &&& forall|i: int|
            0 <= i < 64 ==> (#[trigger] self.white.has(i) <==> color_at(
                self.piece_on_square@,
                i,
                Color::White,
            ))
        &&& forall|i: int|
            0 <= i < 64 ==> (#[trigger] self.black.has(i) <==> color_at(
                self.piece_on_square@,
                i,
                Color::Black,
            ))
        &&& forall|i: int| 0 <= i < 64 ==> (#[trigger] self.empty.has(i) <==> self.at(i) is None)
    }

    /// The board with no pieces, White to move, all castling rights, no en
    /// passant square and both move counters at zero.
    pub fn empty() -> (r: Self)
        ensures
            r.wf(),
            forall|i: int| 0 <= i < 64 ==> r.at(i) is None,
            r@.log.len() == 0,
            r.enpassant is None,
            r.castling_rights == CastlingRights::new(),
            r.turn == Color::White,
            r.half_move == 0,
            r.full_move == 0,
    {
        let r = Board {
            bitboards: BitBoards::default(),
            piece_on_square: SquareMap::new([None; 64]),
            empty: BitBoard(!0u64),
            white: BitBoard(0),
            black: BitBoard(0),
            move_log: MoveLog::new(),
            enpassant: None,
            castling_rights: CastlingRights::new(),
            turn: Color::White,
            half_move: 0,
            full_move: 0,
        };
        r
    }

    /// Puts `piece` on the empty square `sq`.
    pub(crate) fn add_piece(&mut self, piece: Piece, sq: Square)
        requires
            old(self).wf(),
            old(self).at(sq.spec_index() as int) is None,
        ensures
            final(self).wf(),
            final(self)@ == (Position {
                pieces: old(self)@.pieces.update(sq.spec_index() as int, Some(piece)),
                ..old(self)@
            }),
    {
        let mut bb = self.bitboards.piece(piece);
        bb.set(sq);
        self.bitboards.put(piece, bb);
        match piece.color {
            Color::White => self.white.set(sq),
            Color::Black => self.black.set(sq),
        }
        self.empty.clear(sq);
        self.piece_on_square.set(sq, Some(piece));
    }

    /// Takes `piece` off the square `sq`, which holds it.
    pub(crate) fn remove_piece(&mut self, piece: Piece, sq: Square)
        requires
            old(self).wf(),
            old(self).at(sq.spec_index() as int) == Some(piece),
        ensures
            final(self).wf(),
            final(self)@ == (Position {
                pieces: old(self)@.pieces.update(sq.spec_index() as int, None),
                ..old(self)@
            }),
    {
        let mut bb = self.bitboards.piece(piece);
        bb.clear(sq);
        self.bitboards.put(piece, bb);
        match piece.color {
            Color::White => self.white.clear(sq),
            Color::Black => self.black.clear(sq),
        }
        self.empty.set(sq);
        self.piece_on_square.set(sq, None);
    }

    /// Hands the move to the other side.
    pub(crate) fn switch_turn(&mut self)
        ensures
            final(self)@ == (Position { turn: old(self).turn.spec_opposite(), ..old(self)@ }),
            final(self).bitboards == old(self).bitboards,
            final(self).white == old(self).white,
            final(self).black == old(self).black,
            final(self).empty == old(self).empty,
            final(self).piece_on_square == old(self).piece_on_square,
    {
        match self.turn {
            Color::White => self.turn = Color::Black,
            Color::Black => self.turn = Color::White,
        }
    }
}

/// The king of `color`.
pub open spec fn king_of(color: Color) -> Piece {
    Piece { piece_type: PieceType::King, color }
}

/// The squares, by index and in increasing order, that hold the king of `color`.
pub open spec fn king_squares(pieces: Seq<Option<Piece>>, color: Color) -> Seq<int> {
    positions_where(|j: int| pieces[j] == Some(king_of(color)))
}

/// Whether `color` has a king on the board.
pub open spec fn has_king(pieces: Seq<Option<Piece>>, color: Color) -> bool {
    king_squares(pieces, color).len() > 0
}

/// The square of `color`'s king: the highest-numbered one if there are several.
pub open spec fn king_index(pieces: Seq<Option<Piece>>, color: Color) -> int {
    king_squares(pieces, color).last()
}

impl Board {
    /// The highest-numbered square holding the king of `color`, if any.
    pub fn king_square(&self, color: Color) -> (r: Option<Square>)
        requires
            self.wf(),
        ensures
            r is Some <==> has_king(self@.pieces, color),
            r matches Some(sq) ==> sq.spec_index() == king_index(self@.pieces, color),
    {
        let bb = self.bitboards.get(color, PieceType::King).0;
        let ghost p = |j: int| self@.pieces[j] == Some(king_of(color));
        proof {
            axiom_u64_leading_zeros(bb);
            assert forall|j: int| 0 <= j < 64 implies #[trigger] p(j) == bit(bb, j) by {
                assert(self.bitboards.of(king_of(color)).has(j) == (self.at(j) == Some(king_of(color))));
            }
            lemma_positions_none(p);
        }
        if bb == 0 {
            proof {
                assert forall|j: int| 0 <= j < 64 implies !#[trigger] p(j) by {
                    assert(!bit(0u64, j));
                }
            }
            None
        } else {
            let lz = bb.leading_zeros();
            proof {
                let h = 63 - lz;
                lemma_low_bit(bb >> (h as u64));
                assert(bit(bb, h));
                assert forall|j: int| h < j < 64 implies !#[trigger] p(j) by {
                    assert((bb >> (j as u64)) & 1u64 == 0u64);
                }
                lemma_positions_last(p, 0, h);
            }
            Some(Square::from_index((63 - lz) as u8))
        }
    }

    /// The square of the king of `color` (the highest-numbered one if there
    /// are several).
    pub fn king(&self, color: Color) -> (r: Square)
        requires
            self.wf(),
            has_king(self@.pieces, color),
        ensures
            r.spec_index() == king_index(self@.pieces, color),
    {
        match self.king_square(color) {
            Some(sq) => sq,
            None => Square::A1,
        }
    }
}

/// Two well-formed boards with the same position have the same bitboards,
/// occupancy sets and piece map: the position determines everything but the
/// identity of the log's buffer.
pub proof fn lemma_position_determines_board(a: Board, b: Board)
    requires
        a.wf(),
        b.wf(),
        a@ == b@,
    ensures
        a.bitboards == b.bitboards,
        a.white == b.white,
        a.black == b.black,
        a.empty == b.empty,
        a.piece_on_square == b.piece_on_square,
{
    assert forall|p: Piece| #[trigger] a.bitboards.of(p) == b.bitboards.of(p) by {
        assert forall|i: int| 0 <= i < 64 implies #[trigger] bit(a.bitboards.of(p).0, i) == bit(
            b.bitboards.of(p).0,
            i,
        ) by {
            assert(a.bitboards.of(p).has(i) == b.bitboards.of(p).has(i));
        }
        lemma_bits_ext(a.bitboards.of(p).0, b.bitboards.of(p).0);
    }
    assert forall|c: int| 0 <= c < 2 implies a.bitboards.0@[c] == b.bitboards.0@[c] by {
        let color = if c == 0 { Color::White } else { Color::Black };
        assert forall|t: int| 0 <= t < 6 implies a.bitboards.0@[c].0@[t] == b.bitboards.0@[c].0@[t] by {
            let pt = if t == 0 { PieceType::Pawn } else if t == 1 { PieceType::Knight } else if t == 2 {
                PieceType::Bishop } else if t == 3 { PieceType::Rook } else if t == 4 { PieceType::Queen
            } else { PieceType::King };
            assert(a.bitboards.of(Piece { piece_type: pt, color }) == b.bitboards.of(
                Piece { piece_type: pt, color },
            ));
        }
        assert(a.bitboards.0@[c].0 =~= b.bitboards.0@[c].0);
    }
    assert(a.bitboards.0 =~= b.bitboards.0);
    assert forall|i: int| 0 <= i < 64 implies #[trigger] bit(a.white.0, i) == bit(b.white.0, i) by {
        assert(a.white.has(i) == b.white.has(i));
    }
    lemma_bits_ext(a.white.0, b.white.0);
    assert forall|i: int| 0 <= i < 64 implies #[trigger] bit(a.black.0, i) == bit(b.black.0, i) by {
        assert(a.black.has(i) == b.black.has(i));
    }
    lemma_bits_ext(a.black.0, b.black.0);
    assert forall|i: int| 0 <= i < 64 implies #[trigger] bit(a.empty.0, i) == bit(b.empty.0, i) by {
        assert(a.empty.has(i) == b.empty.has(i));
    }
    lemma_bits_ext(a.empty.0, b.empty.0);
    assert(a.piece_on_square.0 =~= b.piece_on_square.0);
}

} // verus!
