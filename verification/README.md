# game_ai

Iterative-deepening negamax alpha-beta search for deterministic,
alternating, two-player, zero-sum, perfect-information games, generic over
a game's rules engine (`Game`) and its per-game search hooks
(`SearchHooks`), verified with Verus.

- `src/game.rs`, `src/hooks.rs`: the two traits a game implements, each
  method tied to a `spec_*` function of its arguments.
- `src/value.rs`: the values the search computes, stated without pruning
  (depth-limited negamax, quiescence with stand-pat), and the range of
  values a search with late-move reductions can reach.
- `src/search.rs`: negamax, quiescence and the principal-variation walk,
  proved to return fail-soft alpha-beta bounds of those values, with
  exact results at the leaves, the killer and table updates, and how the
  work counters move.
- `src/search_model.rs`: quiescence step by step over an abstract search
  state (nodes counted, move order, cutoffs, where the node limit stops
  it), which `search::quiescence` follows exactly.
- `src/player.rs`: iterative deepening within a depth, node or time limit,
  with where a fixed-depth search stops.
- `src/tt.rs`, `src/ordering.rs`, `src/sort.rs`, `src/scores.rs`,
  `src/config.rs`: the transposition table, move ordering, the stable sort
  it rests on, mate-score conversion and configuration.
- `src/clock.rs`: the wall clock (`web_time`).
- `app/lib.rs`: the floating-point root-policy evaluator and the
  precondition checks around the library's entry points.
