# chess_ai_rust

An explainable chess engine whose core is verified with Verus.

- `src/` is the verified library: the board model (`board`), the game
  rules as the `shakmaty` crate implements them (`rules`, trusted
  wrappers with named results), evaluation, static exchange evaluation,
  Zobrist hashing, move ordering and alpha-beta search (`engine`; the
  search's value and the table, killers and history it leaves are those
  of the spec function `spec_alpha_beta`), the
  replies of a UCI engine (`engine::protocol`), chess variants
  (`variant`), the integer counts behind the explanation model's
  features (`features`), feature labels and explanation templates
  (`explain`), sampling and
  clipping of training data (`training`), and text parsing (`text`).
- `tests/` exercises the library on concrete positions.
- `app/` is the command-line program around it: talking to Stockfish,
  the floating-point surrogate model and its training, the explainability
  audit, Syzygy tablebases, the web server and the browser bindings.
