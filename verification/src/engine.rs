//! The engine that runs a game: a board, the state of the game, and the two
//! players.
use crate::bitboard::{lemma_positions_from, lemma_set_bits_where, positions_where, BitBoard};
use crate::bits::{bit, group_bits};
use crate::board::{has_king, Board, GameState, Position};
use crate::display::board_text;
use crate::fen::starting_position;
use crate::make_move::position_after;
use crate::move_gen::{game_state_of, lemma_valid_moves_are_valid, valid_moves, MoveGenerator};
use crate::piece::{Color, PieceMove, PieceMoveList};
use crate::player::PlayerType;
use crate::square::{group_square, sq_of, Square};
use vstd::prelude::*;

verus! {

broadcast use {group_bits, group_square};

/// The state of the game in position `v`: as `game_state_of` says when the
/// side to move has a king, and checkmate when its king is gone.
pub open spec fn engine_state(v: Position) -> GameState {
    if has_king(v.pieces, v.turn) {
        game_state_of(v)
    } else {
        GameState::Checkmate
    }
}

/// Whether a game in state `s` has ended: checkmate, stalemate or the
/// fifty-move rule.
pub open spec fn is_over(s: GameState) -> bool {
    s is Checkmate || s is Stalemate || s is FiftyMoveRule
}

/// The first move of `moves` that goes from `from` to `to`.
pub open spec fn first_matching(moves: Seq<PieceMove>, from: Square, to: Square) -> Option<
    PieceMove,
>
    decreases moves.len(),
{
    if moves.len() == 0 {
        None
    } else if moves[0].from == from && moves[0].to == to {
        Some(moves[0])
    } else {
        first_matching(moves.drop_first(), from, to)
    }
}

/// The target squares of `moves`, each once, in increasing order of index.
pub open spec fn destinations(moves: Seq<PieceMove>) -> Seq<Square> {
    positions_where(
        |i: int| exists|k: int| 0 <= k < moves.len() && (#[trigger] moves[k]).to.spec_index() == i,
    ).map_values(|i: int| sq_of(i))
}

/// The move `first_matching` finds is one of the moves, and goes from `from`
/// to `to`.
pub proof fn lemma_first_matching(moves: Seq<PieceMove>, from: Square, to: Square)
    ensures
        first_matching(moves, from, to) matches Some(m) ==> moves.contains(m) && m.from == from
            && m.to == to,
        first_matching(moves, from, to) is None ==> forall|k: int|
            0 <= k < moves.len() ==> !(#[trigger] moves[k].from == from && moves[k].to == to),
    decreases moves.len(),
{
    if moves.len() > 0 {
        lemma_first_matching(moves.drop_first(), from, to);
        if first_matching(moves, from, to) is None {
            assert forall|k: int| 0 <= k < moves.len() implies !(#[trigger] moves[k].from == from
                && moves[k].to == to) by {
                if k > 0 {
                    assert(moves[k] == moves.drop_first()[k - 1]);
                }
            }
        }
        if first_matching(moves, from, to) is Some {
            let m = first_matching(moves, from, to)->0;
            if !(moves[0].from == from && moves[0].to == to) {
                let k = choose|k: int| 0 <= k < moves.drop_first().len() && moves.drop_first()[k] == m;
                assert(moves[k + 1] == m);
            }
        }
    }
}

/// A square is among the destinations of `moves` exactly when some move goes
/// to it.
pub proof fn lemma_destinations(moves: Seq<PieceMove>, s: Square)
    ensures
        destinations(moves).contains(s) <==> exists|k: int|
            0 <= k < moves.len() && (#[trigger] moves[k]).to == s,
{
    let p = |i: int| exists|k: int| 0 <= k < moves.len() && (#[trigger] moves[k]).to.spec_index() == i;
    let pw = positions_where(p);
    let d = destinations(moves);
    lemma_positions_from(p, 0);
    if d.contains(s) {
        let a = choose|a: int| 0 <= a < d.len() && d[a] == s;
        assert(pw.contains(pw[a]));
        let k = choose|k: int| 0 <= k < moves.len() && (#[trigger] moves[k]).to.spec_index() == pw[a];
        assert(moves[k].to == s);
    }
    if exists|k: int| 0 <= k < moves.len() && (#[trigger] moves[k]).to == s {
        let k = choose|k: int| 0 <= k < moves.len() && (#[trigger] moves[k]).to == s;
        let i = s.spec_index() as int;
        assert(p(i));
        assert(pw.contains(i));
        let a = choose|a: int| 0 <= a < pw.len() && pw[a] == i;
        assert(d[a] == s);
    }
}

/// A game: the board, the state of the game, and who plays each side.
pub struct Engine {
    pub board: Board,
    pub game_state: GameState,
    pub white_player: PlayerType,
    pub black_player: PlayerType,
}

impl Engine {
    /// The board is well formed and `game_state` is the state of its position.
    pub open spec fn wf(&self) -> bool {
        &&& self.board.wf()
        &&& self.game_state == engine_state(self.board@)
    }

    /// Whether a person plays the side to move.
    pub open spec fn human_to_move(&self) -> bool {
        match self.board.turn {
            Color::White => self.white_player is Human,
            Color::Black => self.black_player is Human,
        }
    }

    /// A game from the starting position between the two players.
    pub fn new(white_player: PlayerType, black_player: PlayerType) -> (r: Self)
        ensures
            r.wf(),
            r.board@ == starting_position(),
            r.white_player == white_player,
            r.black_player == black_player,
    {
        let mut engine = Engine {
            board: Board::default(),
            game_state: GameState::Ongoing,
            white_player,
            black_player,
        };
        engine.update_game_state();
        engine
    }

    /// Lets the computer play when it is its turn: it picks a valid move and
    /// makes it. Nothing changes when the game is over or a person is to move.
    pub fn update(&mut self)
        requires
            old(self).wf(),
        ensures
            final(self).wf(),
            is_over(old(self).game_state) || old(self).human_to_move() ==> final(self).board@ == old(
                self,
            ).board@ && final(self).game_state == old(self).game_state && final(self).white_player
                == old(self).white_player && final(self).black_player == old(self).black_player,
            old(self).board.turn == Color::White ==> final(self).black_player == old(
                self,
            ).black_player,
            old(self).board.turn == Color::Black ==> final(self).white_player == old(
                self,
            ).white_player,
            !is_over(old(self).game_state) && !old(self).human_to_move() ==> exists|m: PieceMove|
                valid_moves(old(self).board@).contains(m) && final(self).board@ == position_after(
                    old(self).board@,
                    m,
                ),
    {
        if self.is_game_over() {
            return ;
        }
        let ghost v = self.board@;
        proof {
            reveal(game_state_of);
        }
        let current_player = match self.board.turn {
            Color::White => &mut self.white_player,
            Color::Black => &mut self.black_player,
        };
        match current_player {
            PlayerType::Human => {},
            PlayerType::AI(ai) => {
                let mv = ai.choose_move(&mut self.board);
                proof {
                    let k = choose|k: int| 0 <= k < valid_moves(v).len() && valid_moves(v)[k] == mv;
                    lemma_valid_moves_are_valid(v, k);
                }
                self.board.move_piece(mv);
                self.update_game_state();
            },
        }
    }

    /// Makes the first valid move from `from` to `to`, and tells whether
    /// there was one. The board is left as it was when there is none (or when
    /// the side to move has no king).
    pub fn make_move(&mut self, from: Square, to: Square) -> (r: bool)
        requires
            old(self).wf(),
        ensures
            final(self).wf(),
            final(self).white_player == old(self).white_player,
            final(self).black_player == old(self).black_player,
            r == (has_king(old(self).board@.pieces, old(self).board.turn) && first_matching(
                valid_moves(old(self).board@),
                from,
                to,
            ) is Some),
            r ==> final(self).board@ == position_after(
                old(self).board@,
                first_matching(valid_moves(old(self).board@), from, to)->0,
            ),
            !r ==> final(self).board@ == old(self).board@,
    {
        if self.board.king_square(self.board.turn).is_none() {
            return false;
        }
        let ghost v = self.board@;
        let all_moves = MoveGenerator::generate_valid_moves(&mut self.board);
        assert(all_moves@.skip(0) =~= all_moves@);
        let mut i: usize = 0;
        while i < all_moves.len()
            invariant
                i <= all_moves@.len(),
                all_moves@ == valid_moves(v),
                v == old(self).board@,
                has_king(v.pieces, v.turn),
                self.board@ == v,
                self.board.wf(),
                self.wf(),
                self.white_player == old(self).white_player,
                self.black_player == old(self).black_player,
                first_matching(all_moves@, from, to) == first_matching(
                    all_moves@.skip(i as int),
                    from,
                    to,
                ),
            decreases all_moves@.len() - i,
        {
            let mv = all_moves.get(i);
            let ghost rest = all_moves@.skip(i as int);
            assert(rest[0] == mv);
            if mv.from == from && mv.to == to {
                assert(first_matching(rest, from, to) == Some(mv));
                proof {
                    lemma_first_matching(all_moves@, from, to);
                    let k = choose|k: int| 0 <= k < valid_moves(v).len() && valid_moves(v)[k] == mv;
                    lemma_valid_moves_are_valid(v, k);
                }
                self.board.move_piece(mv);
                self.update_game_state();
                return true;
            }
            assert(all_moves@.skip(i + 1) =~= rest.drop_first());
            i = i + 1;
        }
        assert(all_moves@.skip(i as int) =~= Seq::<PieceMove>::empty());
        false
    }

    /// Whether the game has ended.
    pub fn is_game_over(&self) -> (r: bool)
        ensures
            r == is_over(self.game_state),
    {
        match self.game_state {
            GameState::Checkmate | GameState::Stalemate | GameState::FiftyMoveRule => true,
            _ => false,
        }
    }

    /// A picture of the board.
    pub fn show(&self) -> (r: String)
        ensures
            r@ == board_text(self.board@.pieces),
    {
        self.board.show()
    }

    /// The squares that the piece on `square` can move to, each once, in
    /// increasing order of index: none when it is not a piece of the side to
    /// move (or that side has no king).
    pub fn attacked_squares(&mut self, square: Square) -> (r: Vec<Square>)
        requires
            old(self).wf(),
        ensures
            final(self).board@ == old(self).board@,
            final(self).game_state == old(self).game_state,
            final(self).white_player == old(self).white_player,
            final(self).black_player == old(self).black_player,
            final(self).wf(),
            r@ == if has_king(old(self).board@.pieces, old(self).board.turn) {
                destinations(valid_moves(old(self).board@).filter(|m: PieceMove| m.from == square))
            } else {
                Seq::empty()
            },
    {
        if self.board.king_square(self.board.turn).is_none() {
            return Vec::new();
        }
        let moves = MoveGenerator::generate_valid_moves_from(&mut self.board, square);
        let mut attacked = BitBoard(0);
        assert forall|i: int| 0 <= i < 64 implies !#[trigger] attacked.has(i) by {
            assert(!bit(0u64, i));
        }
        let mut j: usize = 0;
        while j < moves.len()
            invariant
                j <= moves@.len(),
                forall|i: int|
                    0 <= i < 64 ==> (#[trigger] attacked.has(i) <==> exists|k: int|
                        0 <= k < j && (#[trigger] moves@[k]).to.spec_index() == i),
            decreases moves@.len() - j,
        {
            let mv = moves.get(j);
            attacked.set(mv.to);
            proof {
                assert forall|i: int| 0 <= i < 64 implies (#[trigger] attacked.has(i) <==> exists|k: int|
                    0 <= k < j + 1 && (#[trigger] moves@[k]).to.spec_index() == i) by {
                    if i == mv.to.spec_index() {
                        assert(moves@[j as int] == mv);
                    }
                }
            }
            j = j + 1;
        }
        let squares = attacked.squares();
        proof {
            let ms = moves@;
            let p = |i: int| exists|k: int| 0 <= k < ms.len() && (#[trigger] ms[k]).to.spec_index() == i;
            assert forall|i: int| 0 <= i < 64 implies #[trigger] p(i) == bit(attacked.0, i) by {
                assert(attacked.has(i) == bit(attacked.0, i));
            }
            lemma_set_bits_where(attacked.0, p);
        }
        squares
    }

    /// The side to move.
    pub fn turn(&self) -> (r: Color)
        ensures
            r == self.board.turn,
    {
        self.board.turn
    }

    /// Sets `game_state` to the state of the board's position.
    fn update_game_state(&mut self)
        requires
            old(self).board.wf(),
        ensures
            final(self).wf(),
            final(self).board@ == old(self).board@,
            final(self).white_player == old(self).white_player,
            final(self).black_player == old(self).black_player,
    {
        if self.board.king_square(self.board.turn).is_some() {
            self.game_state = self.board.game_state();
        } else {
            self.game_state = GameState::Checkmate;
        }
    }
}

impl Default for Engine {
    /// A game from the starting position between two people.
    fn default() -> (r: Self)
        ensures
            r.wf(),
            r.board@ == starting_position(),
            r.white_player is Human,
            r.black_player is Human,
    {
        Engine::new(PlayerType::Human, PlayerType::Human)
    }
}

} // verus!
