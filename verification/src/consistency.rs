//! Consistent positions: the en passant square and the castling rights agree
//! with the pieces on the board. In such a position every pseudo-legal move
//! of the side to move can be made and taken back.
use crate::attacks::{
    attacked, diagonal_attacker, holds, king_attacker, knight_attacker, occupied_in, pawn_attack,
    pawn_attacker, straight_attacker,
};
use crate::bitboard::{lemma_positions_from, positions_where};
use crate::board::{color_at, has_king, king_index, king_of, king_squares, Board, Position};
use crate::castling::CastlingRights;
use crate::make_move::{
    can_make, captured_by, castle_king_from, castle_rook_from, en_passant_victim, ix, pawn_of,
    position_after, rook_of,
};
use crate::fen::starting_position;
use crate::move_gen::{is_legal, king_safe, moves_to, pseudo_moves, valid_move, valid_moves};
use crate::pawn_moves::{
    capture_target, double_push_target, en_passant_target, pawn_delta, pawn_moves, pawn_moves_to,
    promotion_capture_target, promotion_moves_to, promotion_push_target, promotions,
    single_push_target,
};
use crate::piece::{Color, MoveKind, Piece, PieceMove, PieceType};
use crate::piece_moves::{
    capture_targets, castling_moves, diagonal_moves, king_moves, knight_moves, piece_moves_from,
    quiet_targets, straight_moves,
};
use crate::rules::{
    diagonal_reaches, file_of, king_step, knight_jump, rank_of, ray_on_board, ray_reaches, ray_square,
    straight_reaches, times,
};
use crate::square::{group_square, sq_of, Square};
use crate::undo_move::restores_mover;
use vstd::prelude::*;

verus! {

broadcast use group_square;

/// The castling rights of `color`: king side, then queen side.
pub open spec fn rights_of(rights: CastlingRights, color: Color) -> (bool, bool) {
    match color {
        Color::White => (rights.white_kingside, rights.white_queenside),
        Color::Black => (rights.black_kingside, rights.black_queenside),
    }
}

/// The castling rights of `color` agree with the board: its king stands on
/// its starting square while it has a right, and the rook of each kept right
/// stands in its corner.
pub open spec fn rights_agree(v: Position, color: Color) -> bool {
    let (kingside, queenside) = rights_of(v.castling_rights, color);
    &&& (kingside || queenside) ==> v.pieces[castle_king_from(color)] == Some(king_of(color))
    &&& kingside ==> v.pieces[castle_rook_from(color, true)] == Some(rook_of(color))
    &&& queenside ==> v.pieces[castle_rook_from(color, false)] == Some(rook_of(color))
}

/// The en passant square, if any, is empty and has a pawn of the side that
/// is not to move right behind it (as seen by the side to move).
pub open spec fn enpassant_agrees(v: Position) -> bool {
    v.enpassant matches Some(e) ==> {
        let cap = en_passant_victim(v.turn, ix(e));
        &&& v.pieces[ix(e)] is None
        &&& 0 <= cap < 64
        &&& v.pieces[cap] == Some(pawn_of(v.turn.spec_opposite()))
    }
}

/// A position whose en passant square and castling rights agree with its
/// pieces.
pub open spec fn consistent(v: Position) -> bool {
    &&& v.pieces.len() == 64
    &&& enpassant_agrees(v)
    &&& rights_agree(v, Color::White)
    &&& rights_agree(v, Color::Black)
}

/// What a pseudo-legal move `m` of the side to move is in a consistent
/// position: it can be made and taken back, it moves a piece of the side to
/// move, a capture takes a piece of the other side, a double push moves a
/// pawn two ranks forward over an empty square, castling starts from the
/// king's square, and a promotion makes no king.
pub open spec fn sound_move(v: Position, m: PieceMove) -> bool {
    let f = ix(m.from);
    let t = ix(m.to);
    &&& can_make(v, m)
    &&& restores_mover(v, m)
    &&& v.pieces[f]->0.color == v.turn
    &&& (m.kind is Capture || m.kind is PromotionCapture) ==> color_at(
        v.pieces,
        t,
        v.turn.spec_opposite(),
    )
    &&& m.kind is DoublePawnPush ==> {
        &&& v.pieces[f]->0.piece_type == PieceType::Pawn
        &&& t == f + pawn_delta(v.turn, 16)
        &&& v.pieces[f + pawn_delta(v.turn, 8)] is None
    }
    &&& (m.kind is KingCastle || m.kind is QueenCastle) ==> f == castle_king_from(v.turn)
    &&& (m.kind matches MoveKind::Promotion(pt) ==> pt != PieceType::King)
    &&& (m.kind matches MoveKind::PromotionCapture(pt) ==> pt != PieceType::King)
}

/// Every move of `moves` is sound on `v`.
pub open spec fn makeable(v: Position, moves: Seq<PieceMove>) -> bool {
    forall|k: int| 0 <= k < moves.len() ==> sound_move(v, #[trigger] moves[k])
}

proof fn lemma_makeable_concat(v: Position, a: Seq<PieceMove>, b: Seq<PieceMove>)
    requires
        makeable(v, a),
        makeable(v, b),
    ensures
        makeable(v, a + b),
{
    assert forall|k: int| 0 <= k < (a + b).len() implies sound_move(v, #[trigger] (a + b)[k]) by {
        if k < a.len() {
            assert((a + b)[k] == a[k]);
        } else {
            assert((a + b)[k] == b[k - a.len()]);
        }
    }
}

proof fn lemma_makeable_flat_map<A>(v: Position, s: Seq<A>, f: spec_fn(A) -> Seq<PieceMove>)
    requires
        forall|i: int| 0 <= i < s.len() ==> makeable(v, f(#[trigger] s[i])),
    ensures
        makeable(v, s.flat_map(f)),
    decreases s.len(),
{
    if s.len() == 0 {
        assert(s.map_values(f) =~= Seq::<Seq<PieceMove>>::empty());
        assert(s.flat_map(f) =~= Seq::<PieceMove>::empty());
    } else {
        let init = s.drop_last();
        assert forall|i: int| 0 <= i < init.len() implies makeable(v, f(#[trigger] init[i])) by {
            assert(init[i] == s[i]);
        }
        lemma_makeable_flat_map(v, init, f);
        init.lemma_flat_map_push(f, s.last());
        assert(init.push(s.last()) =~= s);
        assert(makeable(v, f(s[s.len() - 1])));
        lemma_makeable_concat(v, init.flat_map(f), f(s.last()));
    }
}

/// Pawn moves of one kind are makeable when the move to each target that
/// `p` selects is.
proof fn lemma_pawn_moves_to_makeable(
    v: Position,
    p: spec_fn(int) -> bool,
    color: Color,
    offset: int,
    kind: MoveKind,
)
    requires
        forall|t: int|
            0 <= t < 64 && #[trigger] p(t) ==> sound_move(
                v,
                PieceMove { from: sq_of(t - pawn_delta(color, offset)), to: sq_of(t), kind },
            ),
    ensures
        makeable(v, pawn_moves_to(positions_where(p), color, offset, kind)),
{
    lemma_positions_from(p, 0);
    let ts = positions_where(p);
    assert forall|k: int| 0 <= k < pawn_moves_to(ts, color, offset, kind).len() implies sound_move(
        v,
        #[trigger] pawn_moves_to(ts, color, offset, kind)[k],
    ) by {
        let t = ts[k];
        assert(p(t) && 0 <= t < 64);
    }
}

/// The four promotions from `from` to `to` are makeable when a pawn stands
/// on `from` and `to` is empty (or, for captures, occupied).
proof fn lemma_promotions_makeable(v: Position, f: int, t: int, capture: bool)
    requires
        0 <= f < 64,
        0 <= t < 64,
        f != t,
        v.pieces[f] matches Some(pc) && pc.piece_type == PieceType::Pawn && pc.color == v.turn,
        capture ==> color_at(v.pieces, t, v.turn.spec_opposite()),
        !capture ==> v.pieces[t] is None,
    ensures
        makeable(v, promotions(sq_of(f), sq_of(t), capture)),
{
    let ps = promotions(sq_of(f), sq_of(t), capture);
    assert forall|k: int| 0 <= k < ps.len() implies sound_move(v, #[trigger] ps[k]) by {
        assert(ix(ps[k].from) == f);
        assert(ix(ps[k].to) == t);
    }
}

/// Promotions onto the targets `p` selects are makeable when each target is
/// empty (or occupied, for captures) and has a pawn `offset` squares behind.
proof fn lemma_promotion_moves_makeable(
    v: Position,
    p: spec_fn(int) -> bool,
    color: Color,
    offset: int,
    capture: bool,
)
    requires
        offset > 0,
        forall|t: int|
            0 <= t < 64 && #[trigger] p(t) ==> {
                let f = t - pawn_delta(color, offset);
                &&& 0 <= f < 64
                &&& v.pieces[f] matches Some(pc) && pc.piece_type == PieceType::Pawn && pc.color
                    == v.turn
                &&& capture ==> color_at(v.pieces, t, v.turn.spec_opposite())
                &&& !capture ==> v.pieces[t] is None
            },
    ensures
        makeable(v, promotion_moves_to(positions_where(p), color, offset, capture)),
{
    lemma_positions_from(p, 0);
    let ts = positions_where(p);
    let g = |t: int| promotions(sq_of(t - pawn_delta(color, offset)), sq_of(t), capture);
    assert forall|i: int| 0 <= i < ts.len() implies makeable(v, g(#[trigger] ts[i])) by {
        let t = ts[i];
        assert(p(t) && 0 <= t < 64);
        lemma_promotions_makeable(v, t - pawn_delta(color, offset), t, capture);
    }
    lemma_makeable_flat_map(v, ts, g);
}

/// In a consistent position every pawn move of the side to move is makeable.
proof fn lemma_pawn_moves_makeable(v: Position)
    requires
        consistent(v),
    ensures
        makeable(v, pawn_moves(v, v.turn)),
{
    let c = v.turn;
    lemma_pawn_moves_to_makeable(v, single_push_target(v, c), c, 8, MoveKind::Quiet);
    lemma_pawn_moves_to_makeable(v, double_push_target(v, c), c, 16, MoveKind::DoublePawnPush);
    lemma_pawn_moves_to_makeable(v, capture_target(v, c, 7), c, 7, MoveKind::Capture);
    lemma_pawn_moves_to_makeable(v, capture_target(v, c, 9), c, 9, MoveKind::Capture);
    lemma_promotion_moves_makeable(v, promotion_push_target(v, c), c, 8, false);
    lemma_promotion_moves_makeable(v, promotion_capture_target(v, c, 7), c, 7, true);
    lemma_promotion_moves_makeable(v, promotion_capture_target(v, c, 9), c, 9, true);
    lemma_pawn_moves_to_makeable(v, en_passant_target(v, c, 7), c, 7, MoveKind::EnPassant);
    lemma_pawn_moves_to_makeable(v, en_passant_target(v, c, 9), c, 9, MoveKind::EnPassant);
    let a1 = pawn_moves_to(positions_where(single_push_target(v, c)), c, 8, MoveKind::Quiet);
    let a2 = pawn_moves_to(positions_where(double_push_target(v, c)), c, 16, MoveKind::DoublePawnPush);
    let a3 = pawn_moves_to(positions_where(capture_target(v, c, 7)), c, 7, MoveKind::Capture);
    let a4 = pawn_moves_to(positions_where(capture_target(v, c, 9)), c, 9, MoveKind::Capture);
    let a5 = promotion_moves_to(positions_where(promotion_push_target(v, c)), c, 8, false);
    let a6 = promotion_moves_to(positions_where(promotion_capture_target(v, c, 7)), c, 7, true);
    let a7 = promotion_moves_to(positions_where(promotion_capture_target(v, c, 9)), c, 9, true);
    let a8 = pawn_moves_to(positions_where(en_passant_target(v, c, 7)), c, 7, MoveKind::EnPassant);
    let a9 = pawn_moves_to(positions_where(en_passant_target(v, c, 9)), c, 9, MoveKind::EnPassant);
    lemma_makeable_concat(v, a1, a2);
    lemma_makeable_concat(v, a1 + a2, a3);
    lemma_makeable_concat(v, a1 + a2 + a3, a4);
    lemma_makeable_concat(v, a1 + a2 + a3 + a4, a5);
    lemma_makeable_concat(v, a1 + a2 + a3 + a4 + a5, a6);
    lemma_makeable_concat(v, a1 + a2 + a3 + a4 + a5 + a6, a7);
    lemma_makeable_concat(v, a1 + a2 + a3 + a4 + a5 + a6 + a7, a8);
    lemma_makeable_concat(v, a1 + a2 + a3 + a4 + a5 + a6 + a7 + a8, a9);
}

/// The quiet moves and captures of a piece on `f` are makeable when none of
/// the squares it reaches is `f` itself.
proof fn lemma_piece_moves_from_makeable(
    v: Position,
    color: Color,
    f: int,
    reach: spec_fn(int) -> bool,
)
    requires
        0 <= f < 64,
        color == v.turn,
        v.pieces[f] matches Some(pc) && pc.color == color,
        forall|t: int| #[trigger] reach(t) ==> t != f,
    ensures
        makeable(v, piece_moves_from(v, color, f, reach)),
{
    let qp = |t: int| reach(t) && 0 <= t < 64 && v.pieces[t] is None;
    let cp = |t: int| reach(t) && 0 <= t < 64 && color_at(v.pieces, t, color.spec_opposite());
    lemma_positions_from(qp, 0);
    lemma_positions_from(cp, 0);
    let quiet = moves_to(sq_of(f), quiet_targets(v, reach), MoveKind::Quiet);
    let capture = moves_to(sq_of(f), capture_targets(v, color, reach), MoveKind::Capture);
    assert forall|k: int| 0 <= k < quiet.len() implies sound_move(v, #[trigger] quiet[k]) by {
        let t = quiet_targets(v, reach)[k];
        assert(qp(t));
    }
    assert forall|k: int| 0 <= k < capture.len() implies sound_move(v, #[trigger] capture[k]) by {
        let t = capture_targets(v, color, reach)[k];
        assert(cp(t));
    }
    lemma_makeable_concat(v, quiet, capture);
}

/// A square on a ray from `s` is not `s` itself.
proof fn lemma_ray_leaves_start(s: int, dr: int, df: int, occupied: spec_fn(int) -> bool, t: int)
    requires
        0 <= s < 64,
        -1 <= dr <= 1,
        -1 <= df <= 1,
        dr != 0 || df != 0,
        ray_reaches(s, dr, df, occupied, t),
    ensures
        t != s,
{
    let j = choose|j: int|
        #![trigger ray_square(s, dr, df, j)]
        1 <= j < 8 && ray_on_board(s, dr, df, j) && t == ray_square(s, dr, df, j) && (
        forall|m: int| 1 <= m < j ==> !occupied(#[trigger] ray_square(s, dr, df, m)));
    assert(s == rank_of(s) * 8 + file_of(s));
    assert(t - s == times(j, dr) * 8 + times(j, df));
}

/// The knight moves of `color` are makeable.
proof fn lemma_knight_moves_makeable(v: Position, color: Color)
    requires
        v.pieces.len() == 64,
        color == v.turn,
    ensures
        makeable(v, knight_moves(v, color)),
{
    let kp = |f: int| holds(v, f, PieceType::Knight, color);
    let fs = positions_where(kp);
    let g = |f: int| piece_moves_from(v, color, f, |t: int| knight_jump(f, t));
    lemma_positions_from(kp, 0);
    assert forall|i: int| 0 <= i < fs.len() implies makeable(v, g(#[trigger] fs[i])) by {
        let f = fs[i];
        assert(kp(f) && 0 <= f < 64);
        lemma_piece_moves_from_makeable(v, color, f, |t: int| knight_jump(f, t));
    }
    lemma_makeable_flat_map(v, fs, g);
}

/// The king moves of `color` are makeable when it has a king.
proof fn lemma_king_moves_makeable(v: Position, color: Color)
    requires
        v.pieces.len() == 64,
        color == v.turn,
        has_king(v.pieces, color),
    ensures
        makeable(v, king_moves(v, color)),
{
    let p = |j: int| v.pieces[j] == Some(king_of(color));
    lemma_positions_from(p, 0);
    let ks = king_squares(v.pieces, color);
    let f = king_index(v.pieces, color);
    assert(ks.contains(ks[ks.len() - 1]));
    assert(p(f) && 0 <= f < 64);
    lemma_piece_moves_from_makeable(v, color, f, |t: int| king_step(f, t));
}

/// The diagonal slider moves of `color` are makeable.
proof fn lemma_diagonal_moves_makeable(v: Position, color: Color)
    requires
        v.pieces.len() == 64,
        color == v.turn,
    ensures
        makeable(v, diagonal_moves(v, color)),
{
    let sp = |f: int| holds(v, f, PieceType::Bishop, color) || holds(v, f, PieceType::Queen, color);
    let fs = positions_where(sp);
    let g = |f: int| piece_moves_from(v, color, f, |t: int| diagonal_reaches(f, occupied_in(v), t));
    lemma_positions_from(sp, 0);
    assert forall|i: int| 0 <= i < fs.len() implies makeable(v, g(#[trigger] fs[i])) by {
        let f = fs[i];
        assert(sp(f) && 0 <= f < 64);
        assert forall|t: int| #[trigger] diagonal_reaches(f, occupied_in(v), t) implies t != f by {
            if ray_reaches(f, 1, 1, occupied_in(v), t) {
                lemma_ray_leaves_start(f, 1, 1, occupied_in(v), t);
            } else if ray_reaches(f, -1, 1, occupied_in(v), t) {
                lemma_ray_leaves_start(f, -1, 1, occupied_in(v), t);
            } else if ray_reaches(f, 1, -1, occupied_in(v), t) {
                lemma_ray_leaves_start(f, 1, -1, occupied_in(v), t);
            } else {
                lemma_ray_leaves_start(f, -1, -1, occupied_in(v), t);
            }
        }
        lemma_piece_moves_from_makeable(
            v,
            color,
            f,
            |t: int| diagonal_reaches(f, occupied_in(v), t),
        );
    }
    lemma_makeable_flat_map(v, fs, g);
}

/// The straight slider moves of `color` are makeable.
proof fn lemma_straight_moves_makeable(v: Position, color: Color)
    requires
        v.pieces.len() == 64,
        color == v.turn,
    ensures
        makeable(v, straight_moves(v, color)),
{
    let sp = |f: int| holds(v, f, PieceType::Rook, color) || holds(v, f, PieceType::Queen, color);
    let fs = positions_where(sp);
    let g = |f: int| piece_moves_from(v, color, f, |t: int| straight_reaches(f, occupied_in(v), t));
    lemma_positions_from(sp, 0);
    assert forall|i: int| 0 <= i < fs.len() implies makeable(v, g(#[trigger] fs[i])) by {
        let f = fs[i];
        assert(sp(f) && 0 <= f < 64);
        assert forall|t: int| #[trigger] straight_reaches(f, occupied_in(v), t) implies t != f by {
            if ray_reaches(f, 1, 0, occupied_in(v), t) {
                lemma_ray_leaves_start(f, 1, 0, occupied_in(v), t);
            } else if ray_reaches(f, -1, 0, occupied_in(v), t) {
                lemma_ray_leaves_start(f, -1, 0, occupied_in(v), t);
            } else if ray_reaches(f, 0, 1, occupied_in(v), t) {
                lemma_ray_leaves_start(f, 0, 1, occupied_in(v), t);
            } else {
                lemma_ray_leaves_start(f, 0, -1, occupied_in(v), t);
            }
        }
        lemma_piece_moves_from_makeable(
            v,
            color,
            f,
            |t: int| straight_reaches(f, occupied_in(v), t),
        );
    }
    lemma_makeable_flat_map(v, fs, g);
}

/// The castling moves of the side to move are makeable in a consistent
/// position.
proof fn lemma_castling_moves_makeable(v: Position)
    requires
        consistent(v),
    ensures
        makeable(v, castling_moves(v, v.turn)),
{
    let ms = castling_moves(v, v.turn);
    assert forall|k: int| 0 <= k < ms.len() implies sound_move(v, #[trigger] ms[k]) by {
        assert(ix(ms[k].from) == castle_king_from(v.turn));
    }
}

/// In a consistent position every pseudo-legal move of the side to move
/// (which has a king) can be made on the board and taken back.
pub proof fn lemma_pseudo_moves_makeable(v: Position)
    requires
        consistent(v),
        has_king(v.pieces, v.turn),
    ensures
        makeable(v, pseudo_moves(v, v.turn)),
        forall|k: int|
            0 <= k < pseudo_moves(v, v.turn).len() ==> (valid_move(
                v,
                #[trigger] pseudo_moves(v, v.turn)[k],
            ) <==> is_legal(v, pseudo_moves(v, v.turn)[k], v.turn)),
{
    reveal(pseudo_moves);
    let c = v.turn;
    lemma_pawn_moves_makeable(v);
    lemma_knight_moves_makeable(v, c);
    lemma_king_moves_makeable(v, c);
    lemma_diagonal_moves_makeable(v, c);
    lemma_straight_moves_makeable(v, c);
    lemma_castling_moves_makeable(v);
    let a1 = pawn_moves(v, c);
    let a2 = knight_moves(v, c);
    let a3 = king_moves(v, c);
    let a4 = diagonal_moves(v, c);
    let a5 = straight_moves(v, c);
    let a6 = castling_moves(v, c);
    lemma_makeable_concat(v, a1, a2);
    lemma_makeable_concat(v, a1 + a2, a3);
    lemma_makeable_concat(v, a1 + a2 + a3, a4);
    lemma_makeable_concat(v, a1 + a2 + a3 + a4, a5);
    lemma_makeable_concat(v, a1 + a2 + a3 + a4 + a5, a6);
}

/// Making a sound move that takes no king keeps a consistent position
/// consistent.
pub proof fn lemma_sound_move_keeps_consistency(v: Position, m: PieceMove)
    requires
        consistent(v),
        sound_move(v, m),
        !(captured_by(v, m) matches Some(p) && p.piece_type == PieceType::King),
    ensures
        consistent(position_after(v, m)),
{
    reveal(position_after);
    let w = position_after(v, m);
    assert(w.pieces.len() == 64);
    assert(enpassant_agrees(w));
    assert(rights_agree(w, Color::White));
    assert(rights_agree(w, Color::Black));
}

/// The starting position is consistent.
pub proof fn lemma_start_consistent()
    ensures
        consistent(starting_position()),
{
    let v = starting_position();
    assert(v.pieces[4] == Some(king_of(Color::White)));
    assert(v.pieces[0] == Some(rook_of(Color::White)));
    assert(v.pieces[7] == Some(rook_of(Color::White)));
    assert(v.pieces[60] == Some(king_of(Color::Black)));
    assert(v.pieces[56] == Some(rook_of(Color::Black)));
    assert(v.pieces[63] == Some(rook_of(Color::Black)));
}

/// Making a valid move that takes no king keeps a consistent position
/// consistent; so from the starting position on, every pseudo-legal move is
/// kept or dropped by its legality alone.
pub proof fn lemma_valid_move_keeps_consistency(v: Position, m: PieceMove)
    requires
        consistent(v),
        has_king(v.pieces, v.turn),
        valid_moves(v).contains(m),
        !(captured_by(v, m) matches Some(p) && p.piece_type == PieceType::King),
    ensures
        consistent(position_after(v, m)),
{
    reveal(valid_moves);
    let p = |mv: PieceMove| valid_move(v, mv);
    pseudo_moves(v, v.turn).lemma_filter_contains_rev(p, m);
    lemma_pseudo_moves_makeable(v);
    let k = choose|k: int| 0 <= k < pseudo_moves(v, v.turn).len() && pseudo_moves(v, v.turn)[k] == m;
    assert(sound_move(v, pseudo_moves(v, v.turn)[k]));
    lemma_sound_move_keeps_consistency(v, m);
}

/// Whether the square with index `i` holds a piece of type `t` and color `c`.
fn holds_at(board: &Board, i: u8, t: PieceType, c: Color) -> (r: bool)
    requires
        i < 64,
    ensures
        r == (board@.pieces[i as int] == Some(Piece { piece_type: t, color: c })),
{
    match board.piece_on_square.get(Square::from_index(i)) {
        Some(p) => p.piece_type == t && p.color == c,
        None => false,
    }
}

/// Whether the castling rights of `color` agree with the board.
fn rights_agree_on(board: &Board, color: Color) -> (r: bool)
    ensures
        r == rights_agree(board@, color),
{
    let (kingside, queenside, base) = match color {
        Color::White => (board.castling_rights.white_kingside, board.castling_rights.white_queenside, 0u8),
        Color::Black => (board.castling_rights.black_kingside, board.castling_rights.black_queenside, 56u8),
    };
    let king_ok = !(kingside || queenside) || holds_at(board, base + 4, PieceType::King, color);
    let kingside_ok = !kingside || holds_at(board, base + 7, PieceType::Rook, color);
    let queenside_ok = !queenside || holds_at(board, base, PieceType::Rook, color);
    king_ok && kingside_ok && queenside_ok
}

impl Board {
    /// Whether the board is consistent: its en passant square, if any, is
    /// empty with a pawn of the side not to move right behind it, and each
    /// castling right kept has its king and rook on their starting squares.
    pub fn is_consistent(&self) -> (r: bool)
        ensures
            r == consistent(self@),
    {
        let enpassant_ok = match self.enpassant {
            None => true,
            Some(e) => {
                let t = e.index();
                let empty = self.piece_on_square.get(e).is_none();
                match self.turn {
                    Color::White => empty && t >= 8 && holds_at(self, t - 8, PieceType::Pawn, Color::Black),
                    Color::Black => empty && t < 56 && holds_at(self, t + 8, PieceType::Pawn, Color::White),
                }
            },
        };
        enpassant_ok && rights_agree_on(self, Color::White) && rights_agree_on(self, Color::Black)
    }
}

/// The king of `c` stands on `k` and on no other square.
pub open spec fn lone_king(pieces: Seq<Option<Piece>>, c: Color, k: int) -> bool {
    &&& 0 <= k < 64
    &&& pieces[k] == Some(king_of(c))
    &&& forall|j: int| 0 <= j < 64 && #[trigger] pieces[j] == Some(king_of(c)) ==> j == k
}

/// Each side has exactly one king.
pub open spec fn one_king_each(v: Position) -> bool {
    &&& exists|k: int| lone_king(v.pieces, Color::White, k)
    &&& exists|k: int| lone_king(v.pieces, Color::Black, k)
}

/// A lone king is the king that `has_king` and `king_index` speak of.
pub proof fn lemma_lone_king(pieces: Seq<Option<Piece>>, c: Color, k: int)
    requires
        lone_king(pieces, c, k),
    ensures
        has_king(pieces, c),
        king_index(pieces, c) == k,
{
    let p = |j: int| pieces[j] == Some(king_of(c));
    lemma_positions_from(p, 0);
    let ks = king_squares(pieces, c);
    assert(ks.contains(k));
    assert forall|a: int| 0 <= a < ks.len() implies ks[a] == k by {
        assert(p(ks[a]));
    }
    if ks.len() > 1 {
        assert(ks[0] < ks[1]);
    }
}

/// A sound move that takes no king leaves each side one king: the mover's
/// moves with it when it is the king that moves, and stays otherwise.
pub proof fn lemma_sound_move_keeps_kings(v: Position, m: PieceMove)
    requires
        v.pieces.len() == 64,
        one_king_each(v),
        sound_move(v, m),
        !(captured_by(v, m) matches Some(p) && p.piece_type == PieceType::King),
    ensures
        one_king_each(position_after(v, m)),
        ({
            let c = v.turn;
            let k = king_index(v.pieces, c);
            lone_king(
                position_after(v, m).pieces,
                c,
                if k == ix(m.from) {
                    ix(m.to)
                } else {
                    k
                },
            )
        }),
        lone_king(
            position_after(v, m).pieces,
            v.turn.spec_opposite(),
            king_index(v.pieces, v.turn.spec_opposite()),
        ),
{
    reveal(position_after);
    let w = position_after(v, m);
    let c = v.turn;
    let o = c.spec_opposite();
    let kc = choose|k: int| lone_king(v.pieces, c, k);
    let ko = choose|k: int| lone_king(v.pieces, o, k);
    if c == Color::White {
        assert(lone_king(v.pieces, Color::White, kc));
        assert(lone_king(v.pieces, Color::Black, ko));
    } else {
        assert(lone_king(v.pieces, Color::Black, kc));
        assert(lone_king(v.pieces, Color::White, ko));
    }
    lemma_lone_king(v.pieces, c, kc);
    lemma_lone_king(v.pieces, o, ko);
    let f = ix(m.from);
    let t = ix(m.to);
    let nk = if kc == f {
        t
    } else {
        kc
    };
    assert(lone_king(w.pieces, c, nk));
    assert(lone_king(w.pieces, o, ko));
    if c == Color::White {
        assert(lone_king(w.pieces, Color::White, nk));
        assert(lone_king(w.pieces, Color::Black, ko));
    } else {
        assert(lone_king(w.pieces, Color::Black, nk));
        assert(lone_king(w.pieces, Color::White, ko));
    }
}

/// A ray from the castling king's landing square `d` that reaches `t` past
/// empty squares after castling did so before it: the squares the king and
/// rook left are not between (a diagonal or file leaves the back rank at
/// once, and along the rank the rook's new square or the board's edge comes
/// first).
proof fn lemma_castle_ray(
    v: Position,
    w: Position,
    d: int,
    f: int,
    rf: int,
    rt: int,
    dr: int,
    df: int,
    t: int,
)
    requires
        (d == 6 && f == 4 && rf == 7 && rt == 5) || (d == 2 && f == 4 && rf == 0 && rt == 3) || (d
            == 62 && f == 60 && rf == 63 && rt == 61) || (d == 58 && f == 60 && rf == 56 && rt
            == 59),
        -1 <= dr <= 1,
        -1 <= df <= 1,
        dr != 0 || df != 0,
        forall|x: int|
            0 <= x < 64 && x != f && x != rf && !occupied_in(w)(x) ==> !#[trigger] occupied_in(v)(x),
        occupied_in(w)(rt),
        ray_reaches(d, dr, df, occupied_in(w), t),
    ensures
        ray_reaches(d, dr, df, occupied_in(v), t),
{
    let j = choose|j: int|
        #![trigger ray_square(d, dr, df, j)]
        1 <= j < 8 && ray_on_board(d, dr, df, j) && t == ray_square(d, dr, df, j) && (forall|m: int|
            1 <= m < j ==> !occupied_in(w)(#[trigger] ray_square(d, dr, df, m)));
    if j >= 2 {
        assert(!occupied_in(w)(ray_square(d, dr, df, 1)));
    }
    assert forall|m: int| 1 <= m < j implies !occupied_in(v)(#[trigger] ray_square(d, dr, df, m)) by {
        assert(!occupied_in(w)(ray_square(d, dr, df, m)));
        assert(ray_square(d, dr, df, m) != f && ray_square(d, dr, df, m) != rf);
    }
    assert(1 <= j < 8 && ray_on_board(d, dr, df, j) && t == ray_square(d, dr, df, j));
}

/// Castling keeps its landing square out of attack: what attacks the king
/// after castling attacked that square before.
proof fn lemma_castle_keeps_landing_safe(v: Position, m: PieceMove)
    requires
        v.pieces.len() == 64,
        sound_move(v, m),
        m.kind is KingCastle || m.kind is QueenCastle,
        !attacked(v, ix(m.to), v.turn.spec_opposite()),
    ensures
        !attacked(position_after(v, m), ix(m.to), v.turn.spec_opposite()),
{
    reveal(position_after);
    let w = position_after(v, m);
    let c = v.turn;
    let o = c.spec_opposite();
    let ks = m.kind is KingCastle;
    let f = ix(m.from);
    let d = ix(m.to);
    let rf = castle_rook_from(c, ks);
    let rt = crate::make_move::castle_rook_to(c, ks);
    assert(f == castle_king_from(c));
    assert(crate::make_move::castle_color(f) == c);
    assert(w.pieces.len() == 64);
    // Squares holding a piece of the other side are the same before and after.
    assert forall|x: int, pt: PieceType|
        0 <= x < 64 && #[trigger] holds(w, x, pt, o) implies holds(v, x, pt, o) by {}
    assert forall|x: int|
        0 <= x < 64 && x != f && x != rf && !occupied_in(w)(x) implies !#[trigger] occupied_in(v)(
        x,
    ) by {}
    assert(occupied_in(w)(rt));
    if knight_attacker(w, d, o) {
        let t = choose|t: int| knight_jump(d, t) && holds(w, t, PieceType::Knight, o);
        assert(holds(v, t, PieceType::Knight, o));
        assert(knight_attacker(v, d, o));
    }
    if king_attacker(w, d, o) {
        let t = choose|t: int| king_step(d, t) && holds(w, t, PieceType::King, o);
        assert(holds(v, t, PieceType::King, o));
        assert(king_attacker(v, d, o));
    }
    if pawn_attacker(w, d, o) {
        let t = choose|t: int| 0 <= t < 64 && pawn_attack(o, t, d) && holds(w, t, PieceType::Pawn, o);
        assert(holds(v, t, PieceType::Pawn, o));
        assert(pawn_attacker(v, d, o));
    }
    if diagonal_attacker(w, d, o) {
        let t = choose|t: int|
            0 <= t < 64 && diagonal_reaches(d, occupied_in(w), t) && (holds(w, t, PieceType::Bishop, o)
                || holds(w, t, PieceType::Queen, o));
        assert(holds(w, t, PieceType::Bishop, o) ==> holds(v, t, PieceType::Bishop, o));
        assert(holds(w, t, PieceType::Queen, o) ==> holds(v, t, PieceType::Queen, o));
        if ray_reaches(d, 1, 1, occupied_in(w), t) {
            lemma_castle_ray(v, w, d, f, rf, rt, 1, 1, t);
        } else if ray_reaches(d, -1, 1, occupied_in(w), t) {
            lemma_castle_ray(v, w, d, f, rf, rt, -1, 1, t);
        } else if ray_reaches(d, 1, -1, occupied_in(w), t) {
            lemma_castle_ray(v, w, d, f, rf, rt, 1, -1, t);
        } else {
            lemma_castle_ray(v, w, d, f, rf, rt, -1, -1, t);
        }
        assert(diagonal_attacker(v, d, o));
    }
    if straight_attacker(w, d, o) {
        let t = choose|t: int|
            0 <= t < 64 && straight_reaches(d, occupied_in(w), t) && (holds(w, t, PieceType::Rook, o)
                || holds(w, t, PieceType::Queen, o));
        assert(holds(w, t, PieceType::Rook, o) ==> holds(v, t, PieceType::Rook, o));
        assert(holds(w, t, PieceType::Queen, o) ==> holds(v, t, PieceType::Queen, o));
        if ray_reaches(d, 1, 0, occupied_in(w), t) {
            lemma_castle_ray(v, w, d, f, rf, rt, 1, 0, t);
        } else if ray_reaches(d, -1, 0, occupied_in(w), t) {
            lemma_castle_ray(v, w, d, f, rf, rt, -1, 0, t);
        } else if ray_reaches(d, 0, 1, occupied_in(w), t) {
            lemma_castle_ray(v, w, d, f, rf, rt, 0, 1, t);
        } else {
            lemma_castle_ray(v, w, d, f, rf, rt, 0, -1, t);
        }
        assert(straight_attacker(v, d, o));
    }
}

/// A valid move that takes no king keeps a consistent position with one king
/// per side consistent and with one king per side, and leaves the mover's
/// king on the board and not attacked (castling included).
pub proof fn lemma_valid_move_keeps_sound(v: Position, m: PieceMove)
    requires
        consistent(v),
        one_king_each(v),
        valid_moves(v).contains(m),
        !(captured_by(v, m) matches Some(p) && p.piece_type == PieceType::King),
    ensures
        consistent(position_after(v, m)),
        one_king_each(position_after(v, m)),
        has_king(position_after(v, m).pieces, v.turn),
        king_safe(position_after(v, m), v.turn),
{
    let c = v.turn;
    let kc = choose|k: int| lone_king(v.pieces, c, k);
    if c == Color::White {
        assert(lone_king(v.pieces, Color::White, kc));
    } else {
        assert(lone_king(v.pieces, Color::Black, kc));
    }
    lemma_lone_king(v.pieces, c, kc);
    reveal(valid_moves);
    let p = |mv: PieceMove| valid_move(v, mv);
    pseudo_moves(v, c).lemma_filter_contains_rev(p, m);
    let k = choose|k: int| 0 <= k < valid_moves(v).len() && valid_moves(v)[k] == m;
    crate::move_gen::lemma_valid_moves_are_valid(v, k);
    assert(valid_move(v, m));
    lemma_pseudo_moves_makeable(v);
    let i = choose|i: int| 0 <= i < pseudo_moves(v, c).len() && pseudo_moves(v, c)[i] == m;
    assert(sound_move(v, pseudo_moves(v, c)[i]));
    lemma_sound_move_keeps_consistency(v, m);
    lemma_sound_move_keeps_kings(v, m);
    let w = position_after(v, m);
    let nk = if kc == ix(m.from) {
        ix(m.to)
    } else {
        kc
    };
    lemma_lone_king(w.pieces, c, nk);
    if m.kind is KingCastle || m.kind is QueenCastle {
        assert(kc == ix(m.from));
        lemma_castle_keeps_landing_safe(v, m);
    }
}

/// The starting position has one king per side.
pub proof fn lemma_start_one_king_each()
    ensures
        one_king_each(starting_position()),
{
    let v = starting_position();
    assert(lone_king(v.pieces, Color::White, 4));
    assert(lone_king(v.pieces, Color::Black, 60));
}

/// A king of `c` on the square `k` means `c` has a king.
proof fn lemma_has_king_at(pieces: Seq<Option<Piece>>, c: Color, k: int)
    requires
        0 <= k < 64,
        pieces[k] == Some(king_of(c)),
    ensures
        has_king(pieces, c),
{
    let p = |j: int| pieces[j] == Some(king_of(c));
    lemma_positions_from(p, 0);
    assert(king_squares(pieces, c).contains(k));
}

/// After a sound move the mover still has a king: the moved king, or the one
/// that stayed.
pub proof fn lemma_sound_move_keeps_mover_king(v: Position, m: PieceMove)
    requires
        v.pieces.len() == 64,
        has_king(v.pieces, v.turn),
        sound_move(v, m),
    ensures
        has_king(position_after(v, m).pieces, v.turn),
{
    reveal(position_after);
    let w = position_after(v, m);
    let c = v.turn;
    let k = king_index(v.pieces, c);
    let p = |j: int| v.pieces[j] == Some(king_of(c));
    lemma_positions_from(p, 0);
    let ks = king_squares(v.pieces, c);
    assert(ks.contains(ks[ks.len() - 1]));
    assert(p(k) && 0 <= k < 64);
    if v.pieces[ix(m.from)] == Some(king_of(c)) {
        lemma_has_king_at(w.pieces, c, ix(m.to));
    } else {
        lemma_has_king_at(w.pieces, c, k);
    }
}

/// For a pseudo-legal move other than castling, in a consistent position
/// where the side to move has a king, the mover keeps a king, so the move is
/// legal exactly when that king is not attacked afterwards.
pub proof fn lemma_legal_is_king_not_attacked(v: Position, m: PieceMove)
    requires
        consistent(v),
        has_king(v.pieces, v.turn),
        pseudo_moves(v, v.turn).contains(m),
        !(m.kind is KingCastle || m.kind is QueenCastle),
    ensures
        has_king(position_after(v, m).pieces, v.turn),
        is_legal(v, m, v.turn) <==> !attacked(
            position_after(v, m),
            king_index(position_after(v, m).pieces, v.turn),
            v.turn.spec_opposite(),
        ),
{
    lemma_pseudo_moves_makeable(v);
    let i = choose|i: int| 0 <= i < pseudo_moves(v, v.turn).len() && pseudo_moves(v, v.turn)[i] == m;
    assert(sound_move(v, pseudo_moves(v, v.turn)[i]));
    lemma_sound_move_keeps_mover_king(v, m);
}

} // verus!
