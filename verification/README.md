# chess_engine

A chess engine library, verified with Verus: bitboard position, move
tables, legal move generation, make/undo, FEN reading, static evaluation,
transposition table and an alpha-beta search with iterative deepening.

- `src/` — the library. Each public function carries a contract over
  spec models (bit words as sets of squares, pieces per color and kind,
  legality as "the mover's king is not attacked after the move").
  Laws relating functions are public proof functions (`lemma_*`).
  `computer::search_value` states what a search computes, step by step
  (table probe, null move, move loop with reductions and re-searches,
  table store, iterative deepening rounds), as relations between the
  transposition table a search starts from and the one it leaves.
- `tests/` — runtime tests: perft counts, rules scenarios, evaluation and
  search scenarios, and concrete checks of the laws.
- `app/` — the desktop side: logging setup, a shared game behind a mutex,
  and JSON commands for the user interface.
