# soul

A chess engine whose rules and search are proved with Verus.

- `src/board/` — the position: two views of the board kept in step, moves made and taken back, hashes and
  the evaluation's accumulator updated move by move, FEN read and written. `model.rs` and `notation.rs` say
  what is meant; `laws.rs` and `fen_laws.rs` prove what holds of all positions.
- `src/engine/` — legal moves, move ordering, exchanges, evaluation, history, transposition table and time.
  `gamelaws.rs` proves what legal play keeps.
- `src/engine/search/` — iterative deepening, alpha-beta and quiescence. `model.rs` says which function of
  the position, the tables and the signals from outside (stop flag and clock) the search computes; the code
  is proved to compute it. `laws.rs` and `matelaws.rs` prove what holds of every search.
- `tests/` — examples.
- `app/` — the terminal, and the table of reductions, which is floating point.

What a search has to say goes to a `Console`; the terminal is one.
