//! Pieces, colors, moves and move lists.
use crate::square::Square;
use vstd::prelude::*;

verus! {

/// The six kinds of chess pieces.
#[derive(Clone, Copy, PartialEq, Eq, Debug, Structural)]
pub enum PieceType {
    Pawn,
    Knight,
    Bishop,
    Rook,
    Queen,
    King,
}

impl PieceType {
    pub open spec fn spec_idx(self) -> usize {
        match self {
            PieceType::Pawn => 0,
            PieceType::Knight => 1,
            PieceType::Bishop => 2,
            PieceType::Rook => 3,
            PieceType::Queen => 4,
            PieceType::King => 5,
        }
    }

    /// The position of this piece type in the order Pawn, Knight, Bishop,
    /// Rook, Queen, King.
    #[verifier::when_used_as_spec(spec_idx)]
    pub fn idx(self) -> (r: usize)
        ensures
            r == self.spec_idx(),
            r < 6,
    {
        match self {
            PieceType::Pawn => 0,
            PieceType::Knight => 1,
            PieceType::Bishop => 2,
            PieceType::Rook => 3,
            PieceType::Queen => 4,
            PieceType::King => 5,
        }
    }

    pub open spec fn spec_value(self) -> i32 {
        match self {
            PieceType::Pawn => 100,
            PieceType::Knight => 320,
            PieceType::Bishop => 330,
            PieceType::Rook => 500,
            PieceType::Queen => 900,
            PieceType::King => 0,
        }
    }

    /// The material value of a piece of this type, in centipawns (the king
    /// counts for nothing).
    #[verifier::when_used_as_spec(spec_value)]
    pub fn value(self) -> (r: i32)
        ensures
            r == self.spec_value(),
            0 <= r <= 900,
    {
        match self {
            PieceType::Pawn => 100,
            PieceType::Knight => 320,
            PieceType::Bishop => 330,
            PieceType::Rook => 500,
            PieceType::Queen => 900,
            PieceType::King => 0,
        }
    }
}

/// The side a piece belongs to.
#[derive(Clone, Copy, PartialEq, Eq, Debug, Structural)]
pub enum Color {
    White,
    Black,
}

impl Color {
    pub open spec fn spec_idx(self) -> usize {
        match self {
            Color::White => 0,
            Color::Black => 1,
        }
    }

    /// 0 for White, 1 for Black.
    #[verifier::when_used_as_spec(spec_idx)]
    pub fn idx(self) -> (r: usize)
        ensures
            r == self.spec_idx(),
            r < 2,
    {
        match self {
            Color::White => 0,
            Color::Black => 1,
        }
    }

    pub open spec fn spec_opposite(self) -> Color {
        match self {
            Color::White => Color::Black,
            Color::Black => Color::White,
        }
    }

    /// The other side.
    #[verifier::when_used_as_spec(spec_opposite)]
    pub fn opposite(self) -> (r: Color)
        ensures
            r == self.spec_opposite(),
            r != self,
    {
        match self {
            Color::White => Color::Black,
            Color::Black => Color::White,
        }
    }
}

/// The other side of the other side is the side itself.
pub proof fn lemma_opposite_involution(c: Color)
    ensures
        c.spec_opposite().spec_opposite() == c,
        c.spec_opposite() != c,
{
}

/// A piece: its type and its color.
#[derive(Clone, Copy, PartialEq, Eq, Debug, Structural)]
pub struct Piece {
    pub piece_type: PieceType,
    pub color: Color,
}

/// The piece that a FEN letter stands for: upper case for White, lower case
/// for Black, `PNBRQK` for pawn, knight, bishop, rook, queen and king.
pub open spec fn fen_piece(ch: char) -> Option<Piece> {
    let white = Color::White;
    let black = Color::Black;
    if ch == 'P' {
        Some(Piece { piece_type: PieceType::Pawn, color: white })
    } else if ch == 'N' {
        Some(Piece { piece_type: PieceType::Knight, color: white })
    } else if ch == 'B' {
        Some(Piece { piece_type: PieceType::Bishop, color: white })
    } else if ch == 'R' {
        Some(Piece { piece_type: PieceType::Rook, color: white })
    } else if ch == 'Q' {
        Some(Piece { piece_type: PieceType::Queen, color: white })
    } else if ch == 'K' {
        Some(Piece { piece_type: PieceType::King, color: white })
    } else if ch == 'p' {
        Some(Piece { piece_type: PieceType::Pawn, color: black })
    } else if ch == 'n' {
        Some(Piece { piece_type: PieceType::Knight, color: black })
    } else if ch == 'b' {
        Some(Piece { piece_type: PieceType::Bishop, color: black })
    } else if ch == 'r' {
        Some(Piece { piece_type: PieceType::Rook, color: black })
    } else if ch == 'q' {
        Some(Piece { piece_type: PieceType::Queen, color: black })
    } else if ch == 'k' {
        Some(Piece { piece_type: PieceType::King, color: black })
    } else {
        None
    }
}

impl Piece {
    pub fn new(piece_type: PieceType, color: Color) -> (r: Self)
        ensures
            r.piece_type == piece_type,
            r.color == color,
    {
        Piece { piece_type, color }
    }

    /// The piece that a FEN letter stands for.
    pub fn from_fen(ch: char) -> (r: Self)
        requires
            fen_piece(ch) is Some,
        ensures
            fen_piece(ch) == Some(r),
    {
        match Piece::try_from_fen(ch) {
            Some(p) => p,
            None => Piece::new(PieceType::Pawn, Color::White),
        }
    }

    /// The piece that a FEN letter stands for, or `None` for any other
    /// character.
    pub fn try_from_fen(ch: char) -> (r: Option<Self>)
        ensures
            r == fen_piece(ch),
    {
        if ch == 'P' {
            Some(Piece::new(PieceType::Pawn, Color::White))
        } else if ch == 'N' {
            Some(Piece::new(PieceType::Knight, Color::White))
        } else if ch == 'B' {
            Some(Piece::new(PieceType::Bishop, Color::White))
        } else if ch == 'R' {
            Some(Piece::new(PieceType::Rook, Color::White))
        } else if ch == 'Q' {
            Some(Piece::new(PieceType::Queen, Color::White))
        } else if ch == 'K' {
            Some(Piece::new(PieceType::King, Color::White))
        } else if ch == 'p' {
            Some(Piece::new(PieceType::Pawn, Color::Black))
        } else if ch == 'n' {
            Some(Piece::new(PieceType::Knight, Color::Black))
        } else if ch == 'b' {
            Some(Piece::new(PieceType::Bishop, Color::Black))
        } else if ch == 'r' {
            Some(Piece::new(PieceType::Rook, Color::Black))
        } else if ch == 'q' {
            Some(Piece::new(PieceType::Queen, Color::Black))
        } else if ch == 'k' {
            Some(Piece::new(PieceType::King, Color::Black))
        } else {
            None
        }
    }
}

/// What a move does besides carrying a piece from one square to another.
#[derive(Clone, Copy, PartialEq, Eq, Debug, Structural)]
pub enum MoveKind {
    Quiet,
    Capture,
    DoublePawnPush,
    EnPassant,
    KingCastle,
    QueenCastle,
    Promotion(PieceType),
    PromotionCapture(PieceType),
}

/// A move from one square to another, with its kind.
#[derive(Clone, Copy, PartialEq, Eq, Debug, Structural)]
pub struct PieceMove {
    pub from: Square,
    pub to: Square,
    pub kind: MoveKind,
}

impl PieceMove {
    pub fn new(from: Square, to: Square, kind: MoveKind) -> (r: Self)
        ensures
            r == (PieceMove { from, to, kind }),
    {
        PieceMove { from, to, kind }
    }
}

/// A list of moves, in the order in which they were pushed.
#[derive(Clone, Debug)]
pub struct PieceMoveList {
    moves: Vec<PieceMove>,
}

impl View for PieceMoveList {
    type V = Seq<PieceMove>;

    closed spec fn view(&self) -> Seq<PieceMove> {
        self.moves@
    }
}

impl PieceMoveList {
    /// The empty list.
    pub fn new() -> (r: Self)
        ensures
            r@ == Seq::<PieceMove>::empty(),
    {
        PieceMoveList { moves: Vec::new() }
    }

    /// Appends a move at the end.
    pub fn push(&mut self, mv: PieceMove)
        ensures
            final(self)@ == old(self)@.push(mv),
    {
        self.moves.push(mv);
    }

    /// Removes and returns the last move.
    pub fn pop(&mut self) -> (r: PieceMove)
        requires
            old(self)@.len() > 0,
        ensures
            r == old(self)@.last(),
            final(self)@ == old(self)@.drop_last(),
    {
        let r = self.moves.pop();
        match r {
            Some(mv) => mv,
            None => PieceMove::new(Square::A1, Square::A1, MoveKind::Quiet),
        }
    }

    /// The number of moves in the list.
    pub fn len(&self) -> (r: usize)
        ensures
            r == self@.len(),
    {
        self.moves.len()
    }

    /// Whether the list holds no move.
    pub fn is_empty(&self) -> (r: bool)
        ensures
            r == (self@.len() == 0),
    {
        self.moves.len() == 0
    }

    /// The move at position `i`.
    pub fn get(&self, i: usize) -> (r: PieceMove)
        requires
            i < self@.len(),
        ensures
            r == self@[i as int],
    {
        self.moves[i]
    }

    /// The moves of the list, in order.
    pub fn iter(&self) -> (r: &[PieceMove])
        ensures
            r@ == self@,
    {
        self.moves.as_slice()
    }

    /// An iterator that hands out the moves of the list in order.
    pub fn into_iter(self) -> (r: PieceMoveIter)
        ensures
            r.remaining() == self@,
    {
        PieceMoveIter { moves: self, index: 0 }
    }
}

/// The moves of a list, handed out one at a time in order.
pub struct PieceMoveIter {
    moves: PieceMoveList,
    index: usize,
}

impl PieceMoveIter {
    /// The position of the next move is within the list.
    #[verifier::type_invariant]
    spec fn inv(self) -> bool {
        self.index <= self.moves@.len()
    }

    /// The moves not yet handed out, in order.
    pub closed spec fn remaining(self) -> Seq<PieceMove> {
        self.moves@.skip(self.index as int)
    }

    /// The next move, or `None` when all have been handed out.
    pub fn next(&mut self) -> (r: Option<PieceMove>)
        ensures
            old(self).remaining().len() == 0 ==> r is None && final(self).remaining() == old(self).remaining(),
            old(self).remaining().len() > 0 ==> r == Some(old(self).remaining()[0]) && final(self).remaining() == old(self).remaining().drop_first(),
    {
        proof {
            use_type_invariant(&*self);
        }
        if self.index >= self.moves.len() {
            return None;
        }
        let mv = self.moves.get(self.index);
        self.index = self.index + 1;
        assert(self.moves@.skip(self.index as int) =~= old(self).remaining().drop_first());
        Some(mv)
    }
}

} // verus!
