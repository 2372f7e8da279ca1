# chess_engine

A bitboard chess engine whose library is verified with Verus: board
representation, FEN parsing, move generation (pseudo-legal and legal moves,
castling, en passant, promotions), making and undoing moves, evaluation, and
three game-tree searchers (minimax with alpha-beta pruning, negamax with
alpha-beta pruning and move ordering, and a stand-alone searcher).

Layout:

- `src/` — the verified library. Positions are modelled by `board::Position`
  (the piece on each square, the move log, side to move, castling rights,
  en passant square and move counters); every operation on a `Board` is
  specified over that model. `undo_move::lemma_undo_restores` proves that
  undoing a move gives back the position it was made on, and
  `search::lemma_alpha_beta_is_minimax` that alpha-beta pruning with the full
  window gives the plain minimax value over any evaluation.
  `consistency::lemma_pseudo_moves_makeable` shows that in a consistent
  position (castling rights and en passant square agreeing with the pieces,
  as `Board::is_consistent` checks) each pseudo-legal move can be
  made; `consistency::lemma_valid_move_keeps_sound` that a valid move taking
  no king keeps such a position consistent with one king per side and the
  mover's king out of attack; and `eval::lemma_positional_mirror` that the
  piece-square tables favor neither color.
- `tests/` — move-generation counts (perft), FEN, evaluation, engine, text
  forms and window logic.
- `app/` — the program: an SDL window to play against the computer, a match
  between two computer players, and a terminal viewer of a bitboard.
