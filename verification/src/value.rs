//! The values the search computes, stated without pruning: depth-limited
//! negamax with path repetition as a draw, and quiescence over noisy
//! moves with stand-pat.

use crate::game::{game_wf, Game, GameResult};
use crate::hooks::{hooks_wf, SearchHooks};
use crate::ordering::{LMR_MIN_DEPTH, LMR_REDUCTION};
use crate::scores::{score_bound, MATE, MAX_PLY_LIMIT};
use vstd::prelude::*;

verus! {

/// The score of a won position at `ply`, from the side to move's view:
/// `MATE - ply` if the side to move is the winner, else its negation.
pub open spec fn mate_value<G: Game>(state: G::State, winner: G::Player, ply: int) -> int {
    if winner == G::spec_current_player(state) {
        MATE - ply
    } else {
        -(MATE - ply)
    }
}

/// A fail-soft alpha-beta result `r` for window `(alpha, beta)` and true
/// value `v`: an upper bound when at or below alpha, a lower bound when at
/// or above beta, exact in between.
pub open spec fn fail_soft(r: int, alpha: int, beta: int, v: int) -> bool {
    &&& r <= alpha ==> v <= r
    &&& r >= beta ==> v >= r
    &&& alpha < r < beta ==> v == r
}

/// Whether quiescence follows `mv` from `state`.
pub open spec fn noisy_pred<G: Game, H: SearchHooks<G>>(hooks: H, state: G::State) -> spec_fn(
    G::Move,
) -> bool {
    |m: G::Move| hooks.spec_move_features(state, m).is_noisy
}

/// The legal moves of `state` that quiescence follows, in generation order.
pub open spec fn noisy_moves<G: Game, H: SearchHooks<G>>(hooks: H, state: G::State) -> Seq<G::Move> {
    G::spec_legal_moves(state).filter(noisy_pred(hooks, state))
}

/// The quiescence value of `state` at `ply` with `extra` plies left:
/// terminal scores, a repeated position as a draw, otherwise the larger
/// of the static evaluation (stand-pat) and the negated quiescence value
/// of every noisy move's successor.
pub open spec fn q_value<G: Game, H: SearchHooks<G>>(
    hooks: H,
    max_ply: int,
    state: G::State,
    ply: int,
    extra: nat,
    path: Seq<G::PositionKey>,
) -> int
    decreases extra, noisy_moves(hooks, state).len() + 1,
{
    match G::spec_result(state) {
        GameResult::Win(w) => mate_value::<G>(state, w, ply),
        GameResult::Draw => 0,
        GameResult::InProgress => {
            let key = G::spec_position_key(state);
            if path.contains(key) {
                0
            } else {
                let stand_pat = hooks.spec_evaluate(state) as int;
                if extra == 0 || ply >= max_ply {
                    stand_pat
                } else {
                    q_fold(
                        hooks,
                        max_ply,
                        state,
                        noisy_moves(hooks, state),
                        ply,
                        extra,
                        path.push(key),
                        stand_pat,
                    )
                }
            }
        },
    }
}

/// The negated quiescence value of playing `mv` in `state`.
pub open spec fn q_child<G: Game, H: SearchHooks<G>>(
    hooks: H,
    max_ply: int,
    state: G::State,
    mv: G::Move,
    ply: int,
    extra: nat,
    child_path: Seq<G::PositionKey>,
) -> int
    decreases extra, 0nat,
{
    if extra == 0 {
        0
    } else {
        -q_value(hooks, max_ply, G::spec_apply_move(state, mv), ply + 1, (extra - 1) as nat, child_path)
    }
}

/// The maximum of `base` and every move's `q_child`.
pub open spec fn q_fold<G: Game, H: SearchHooks<G>>(
    hooks: H,
    max_ply: int,
    state: G::State,
    moves: Seq<G::Move>,
    ply: int,
    extra: nat,
    child_path: Seq<G::PositionKey>,
    base: int,
) -> int
    decreases extra, moves.len(),
{
    if moves.len() == 0 || extra == 0 {
        base
    } else {
        let rest = q_fold(hooks, max_ply, state, moves.drop_last(), ply, extra, child_path, base);
        let c = q_child(hooks, max_ply, state, moves.last(), ply, extra, child_path);
        if c > rest {
            c
        } else {
            rest
        }
    }
}

/// The depth-limited negamax value of `state`: terminal scores, a repeated
/// position as a draw, the static evaluation at the absolute ply bound,
/// the quiescence value (or static evaluation when quiescence is off) at
/// depth 0, otherwise the largest negated value over the legal moves
/// (`i32::MIN + 1` when there are none).
pub open spec fn nm_value<G: Game, H: SearchHooks<G>>(
    hooks: H,
    max_ply: int,
    qext: Option<u8>,
    state: G::State,
    depth: nat,
    ply: int,
    path: Seq<G::PositionKey>,
) -> int
    decreases depth, G::spec_legal_moves(state).len() + 1,
{
    match G::spec_result(state) {
        GameResult::Win(w) => mate_value::<G>(state, w, ply),
        GameResult::Draw => 0,
        GameResult::InProgress => {
            let key = G::spec_position_key(state);
            if path.contains(key) {
                0
            } else if ply >= max_ply {
                hooks.spec_evaluate(state) as int
            } else if depth == 0 {
                match qext {
                    Some(e) => q_value(hooks, max_ply, state, ply, e as nat, path),
                    None => hooks.spec_evaluate(state) as int,
                }
            } else {
                nm_fold(
                    hooks,
                    max_ply,
                    qext,
                    state,
                    G::spec_legal_moves(state),
                    depth,
                    ply,
                    path.push(key),
                )
            }
        },
    }
}

/// The negated negamax value of playing `mv` in `state` with `depth` plies
/// left at `state`.
pub open spec fn nm_child<G: Game, H: SearchHooks<G>>(
    hooks: H,
    max_ply: int,
    qext: Option<u8>,
    state: G::State,
    mv: G::Move,
    depth: nat,
    ply: int,
    child_path: Seq<G::PositionKey>,
) -> int
    decreases depth, 0nat,
{
    if depth == 0 {
        0
    } else {
        -nm_value(
            hooks,
            max_ply,
            qext,
            G::spec_apply_move(state, mv),
            (depth - 1) as nat,
            ply + 1,
            child_path,
        )
    }
}

/// The maximum of `i32::MIN + 1` and every move's `nm_child`.
pub open spec fn nm_fold<G: Game, H: SearchHooks<G>>(
    hooks: H,
    max_ply: int,
    qext: Option<u8>,
    state: G::State,
    moves: Seq<G::Move>,
    depth: nat,
    ply: int,
    child_path: Seq<G::PositionKey>,
) -> int
    decreases depth, moves.len(),
{
    if moves.len() == 0 || depth == 0 {
        i32::MIN as int + 1
    } else {
        let rest = nm_fold(hooks, max_ply, qext, state, moves.drop_last(), depth, ply, child_path);
        let c = nm_child(hooks, max_ply, qext, state, moves.last(), depth, ply, child_path);
        if c > rest {
            c
        } else {
            rest
        }
    }
}

/// A fail-soft alpha-beta result `r` for window `(alpha, beta)` when the
/// value searched is only known to lie in `[lo, hi]`: at or below alpha
/// some value is at most `r`, at or above beta some value is at least
/// `r`, and in between `r` is itself a possible value's position.
pub open spec fn fail_soft_range(r: int, alpha: int, beta: int, lo: int, hi: int) -> bool {
    &&& r <= alpha ==> lo <= r
    &&& r >= beta ==> hi >= r
    &&& alpha < r < beta ==> lo <= r <= hi
}

/// The depth a late-move reduction searches a successor to, from a node
/// searched to `depth`.
pub open spec fn reduced_depth(depth: nat) -> nat {
    if depth >= 1 + LMR_REDUCTION {
        (depth - 1 - LMR_REDUCTION) as nat
    } else {
        0
    }
}

/// Whether late-move reductions may ever reduce `mv` from `state` at
/// `depth`: the parts of `lmr_eligible` that the position alone decides
/// (enough depth, a quiet move, no immediate threat to either side).
pub open spec fn reducible<G: Game, H: SearchHooks<G>>(
    hooks: H,
    state: G::State,
    mv: G::Move,
    depth: nat,
) -> bool {
    let a = G::spec_current_player(state);
    let b = G::spec_other_player(a);
    &&& depth >= LMR_MIN_DEPTH
    &&& !hooks.spec_move_features(state, mv).is_noisy
    &&& !hooks.spec_has_immediate_threat(state, a)
    &&& !hooks.spec_has_immediate_threat(state, b)
}

/// The lowest (`upper` false) or highest (`upper` true) value a search
/// with late-move reductions can reach: as `nm_value`, except that the
/// successor reached by a `reducible` move may be kept at its reduced
/// depth when that fails low, and is otherwise searched at full depth.
pub open spec fn lmr_value<G: Game, H: SearchHooks<G>>(
    hooks: H,
    max_ply: int,
    qext: Option<u8>,
    state: G::State,
    depth: nat,
    ply: int,
    path: Seq<G::PositionKey>,
    upper: bool,
) -> int
    decreases depth, G::spec_legal_moves(state).len() + 1,
{
    match G::spec_result(state) {
        GameResult::Win(w) => mate_value::<G>(state, w, ply),
        GameResult::Draw => 0,
        GameResult::InProgress => {
            let key = G::spec_position_key(state);
            if path.contains(key) {
                0
            } else if ply >= max_ply {
                hooks.spec_evaluate(state) as int
            } else if depth == 0 {
                match qext {
                    Some(e) => q_value(hooks, max_ply, state, ply, e as nat, path),
                    None => hooks.spec_evaluate(state) as int,
                }
            } else {
                lmr_fold(
                    hooks,
                    max_ply,
                    qext,
                    state,
                    G::spec_legal_moves(state),
                    depth,
                    ply,
                    path.push(key),
                    upper,
                )
            }
        },
    }
}

/// One move's bound in `lmr_value`, from the mover's side: the
/// successor's opposite bound negated. The highest (`upper` true) is the
/// full-depth one: a reduced score that beats alpha is always searched
/// again at full depth, so only a reduced score at or below alpha is ever
/// kept. The lowest (`upper` false) is the lower of the full-depth and,
/// for a `reducible` move, the reduced-depth bound.
pub open spec fn lmr_child<G: Game, H: SearchHooks<G>>(
    hooks: H,
    max_ply: int,
    qext: Option<u8>,
    state: G::State,
    mv: G::Move,
    depth: nat,
    ply: int,
    child_path: Seq<G::PositionKey>,
    upper: bool,
) -> int
    decreases depth, 0nat,
{
    if depth == 0 {
        0
    } else {
        let child = G::spec_apply_move(state, mv);
        let full = -lmr_value(hooks, max_ply, qext, child, (depth - 1) as nat, ply + 1, child_path, !upper);
        let reduced = -lmr_value(
            hooks,
            max_ply,
            qext,
            child,
            reduced_depth(depth),
            ply + 1,
            child_path,
            !upper,
        );
        if !upper && reducible(hooks, state, mv, depth) && reduced < full {
            reduced
        } else {
            full
        }
    }
}

/// The maximum of `i32::MIN + 1` and every move's `lmr_child`.
pub open spec fn lmr_fold<G: Game, H: SearchHooks<G>>(
    hooks: H,
    max_ply: int,
    qext: Option<u8>,
    state: G::State,
    moves: Seq<G::Move>,
    depth: nat,
    ply: int,
    child_path: Seq<G::PositionKey>,
    upper: bool,
) -> int
    decreases depth, moves.len(),
{
    if moves.len() == 0 || depth == 0 {
        i32::MIN as int + 1
    } else {
        let rest = lmr_fold(hooks, max_ply, qext, state, moves.drop_last(), depth, ply, child_path, upper);
        let c = lmr_child(hooks, max_ply, qext, state, moves.last(), depth, ply, child_path, upper);
        if c > rest {
            c
        } else {
            rest
        }
    }
}

/// `lmr_fold` is the maximum of its moves' `lmr_child` bounds (and of
/// `i32::MIN + 1`).
pub proof fn lemma_lmr_fold<G: Game, H: SearchHooks<G>>(
    hooks: H,
    max_ply: int,
    qext: Option<u8>,
    state: G::State,
    moves: Seq<G::Move>,
    depth: nat,
    ply: int,
    child_path: Seq<G::PositionKey>,
    upper: bool,
    b: int,
)
    requires
        depth > 0,
    ensures
        forall|m: G::Move|
            moves.contains(m) ==> lmr_fold(hooks, max_ply, qext, state, moves, depth, ply, child_path, upper)
                >= #[trigger] lmr_child(hooks, max_ply, qext, state, m, depth, ply, child_path, upper),
        (i32::MIN as int + 1 <= b && forall|m: G::Move|
            moves.contains(m) ==> #[trigger] lmr_child(
                hooks,
                max_ply,
                qext,
                state,
                m,
                depth,
                ply,
                child_path,
                upper,
            ) <= b) ==> lmr_fold(hooks, max_ply, qext, state, moves, depth, ply, child_path, upper) <= b,
    decreases moves.len(),
{
    if moves.len() > 0 {
        let rest = moves.drop_last();
        lemma_lmr_fold(hooks, max_ply, qext, state, rest, depth, ply, child_path, upper, b);
        assert forall|m: G::Move| moves.contains(m) implies lmr_fold(
            hooks,
            max_ply,
            qext,
            state,
            moves,
            depth,
            ply,
            child_path,
            upper,
        ) >= #[trigger] lmr_child(hooks, max_ply, qext, state, m, depth, ply, child_path, upper) by {
            if m != moves.last() {
                let i = choose|i: int| 0 <= i < moves.len() && moves[i] == m;
                assert(i < moves.len() - 1);
                assert(rest[i] == m);
                assert(rest.contains(m));
            }
        }
        if i32::MIN as int + 1 <= b && forall|m: G::Move|
            moves.contains(m) ==> #[trigger] lmr_child(
                hooks,
                max_ply,
                qext,
                state,
                m,
                depth,
                ply,
                child_path,
                upper,
            ) <= b {
            assert forall|m: G::Move| rest.contains(m) implies #[trigger] lmr_child(
                hooks,
                max_ply,
                qext,
                state,
                m,
                depth,
                ply,
                child_path,
                upper,
            ) <= b by {
                let i = choose|i: int| 0 <= i < rest.len() && rest[i] == m;
                assert(moves[i] == m);
                assert(moves.contains(m));
            }
            assert(moves.contains(moves.last()));
            assert(lmr_child(hooks, max_ply, qext, state, moves.last(), depth, ply, child_path, upper)
                <= b);
            assert(lmr_fold(hooks, max_ply, qext, state, rest, depth, ply, child_path, upper) <= b);
        }
    }
}

/// Late-move reductions only widen what a search can reach around the
/// unreduced value: the depth-limited negamax value lies between the
/// lowest and the highest value a search that may reduce any move can
/// reach.
pub proof fn law_reductions_bracket_the_negamax_value<G: Game, H: SearchHooks<G>>(
    hooks: H,
    max_ply: int,
    qext: Option<u8>,
    state: G::State,
    depth: nat,
    ply: int,
    path: Seq<G::PositionKey>,
)
    ensures
        lmr_value(hooks, max_ply, qext, state, depth, ply, path, false) <= nm_value(
            hooks,
            max_ply,
            qext,
            state,
            depth,
            ply,
            path,
        ) <= lmr_value(hooks, max_ply, qext, state, depth, ply, path, true),
    decreases depth, G::spec_legal_moves(state).len() + 1,
{
    if G::spec_result(state) is InProgress {
        let key = G::spec_position_key(state);
        if !path.contains(key) && ply < max_ply && depth > 0 {
            lemma_folds_bracket(
                hooks,
                max_ply,
                qext,
                state,
                G::spec_legal_moves(state),
                depth,
                ply,
                path.push(key),
            );
        }
    }
}

/// The fold form of `law_reductions_bracket_the_negamax_value`.
proof fn lemma_folds_bracket<G: Game, H: SearchHooks<G>>(
    hooks: H,
    max_ply: int,
    qext: Option<u8>,
    state: G::State,
    moves: Seq<G::Move>,
    depth: nat,
    ply: int,
    child_path: Seq<G::PositionKey>,
)
    ensures
        lmr_fold(hooks, max_ply, qext, state, moves, depth, ply, child_path, false) <= nm_fold(
            hooks,
            max_ply,
            qext,
            state,
            moves,
            depth,
            ply,
            child_path,
        ) <= lmr_fold(hooks, max_ply, qext, state, moves, depth, ply, child_path, true),
    decreases depth, moves.len(),
{
    if moves.len() > 0 && depth > 0 {
        lemma_folds_bracket(hooks, max_ply, qext, state, moves.drop_last(), depth, ply, child_path);
        law_reductions_bracket_the_negamax_value(
            hooks,
            max_ply,
            qext,
            G::spec_apply_move(state, moves.last()),
            (depth - 1) as nat,
            ply + 1,
            child_path,
        );
        let m = moves.last();
        assert(lmr_child(hooks, max_ply, qext, state, m, depth, ply, child_path, false) <= nm_child(
            hooks,
            max_ply,
            qext,
            state,
            m,
            depth,
            ply,
            child_path,
        ));
        assert(nm_child(hooks, max_ply, qext, state, m, depth, ply, child_path) <= lmr_child(
            hooks,
            max_ply,
            qext,
            state,
            m,
            depth,
            ply,
            child_path,
            true,
        ));
    }
}

/// Stand-pat: the quiescence value of a position that is neither over
/// nor repeated on the current line never falls below its static
/// evaluation.
pub proof fn law_stand_pat_is_a_lower_bound<G: Game, H: SearchHooks<G>>(
    hooks: H,
    max_ply: int,
    state: G::State,
    ply: int,
    extra: nat,
    path: Seq<G::PositionKey>,
)
    requires
        G::spec_result(state) is InProgress,
        !path.contains(G::spec_position_key(state)),
    ensures
        q_value(hooks, max_ply, state, ply, extra, path) >= hooks.spec_evaluate(state),
{
    if extra > 0 && ply < max_ply {
        let key = G::spec_position_key(state);
        let sp = hooks.spec_evaluate(state) as int;
        lemma_q_fold(hooks, max_ply, state, noisy_moves(hooks, state), ply, extra, path.push(key), sp, sp);
    }
}

/// The negamax value of a position that is neither over nor repeated, at
/// a depth and ply where the search expands it, is the best of its legal
/// moves: at least every move's value, and equal to some move's value.
pub proof fn law_negamax_value_is_the_best_move_value<G: Game, H: SearchHooks<G>>(
    hooks: H,
    max_ply: int,
    qext: Option<u8>,
    state: G::State,
    depth: nat,
    ply: int,
    path: Seq<G::PositionKey>,
)
    requires
        hooks_wf::<G, H>(hooks),
        game_wf::<G>(),
        G::spec_result(state) is InProgress,
        !path.contains(G::spec_position_key(state)),
        0 <= ply < max_ply,
        max_ply < MAX_PLY_LIMIT,
        depth > 0,
    ensures
        forall|m: G::Move|
            G::spec_legal_moves(state).contains(m) ==> nm_value(hooks, max_ply, qext, state, depth, ply, path)
                >= #[trigger] nm_child(
                hooks,
                max_ply,
                qext,
                state,
                m,
                depth,
                ply,
                path.push(G::spec_position_key(state)),
            ),
        exists|m: G::Move|
            G::spec_legal_moves(state).contains(m) && nm_value(hooks, max_ply, qext, state, depth, ply, path)
                == #[trigger] nm_child(
                hooks,
                max_ply,
                qext,
                state,
                m,
                depth,
                ply,
                path.push(G::spec_position_key(state)),
            ),
{
    let key = G::spec_position_key(state);
    let legal = G::spec_legal_moves(state);
    lemma_nm_fold(hooks, max_ply, qext, state, legal, depth, ply, path.push(key), 0);
    lemma_nm_fold_range(hooks, max_ply, qext, state, legal, depth, ply, path.push(key));
    lemma_nm_fold_attained(hooks, max_ply, qext, state, legal, depth, ply, path.push(key));
}

/// A non-empty `nm_fold` whose moves' values all exceed `i32::MIN + 1`
/// is attained by one of its moves.
proof fn lemma_nm_fold_attained<G: Game, H: SearchHooks<G>>(
    hooks: H,
    max_ply: int,
    qext: Option<u8>,
    state: G::State,
    moves: Seq<G::Move>,
    depth: nat,
    ply: int,
    child_path: Seq<G::PositionKey>,
)
    requires
        depth > 0,
        moves.len() > 0,
        forall|m: G::Move|
            moves.contains(m) ==> #[trigger] nm_child(hooks, max_ply, qext, state, m, depth, ply, child_path)
                >= i32::MIN as int + 1,
    ensures
        exists|m: G::Move|
            moves.contains(m) && nm_fold(hooks, max_ply, qext, state, moves, depth, ply, child_path)
                == #[trigger] nm_child(hooks, max_ply, qext, state, m, depth, ply, child_path),
    decreases moves.len(),
{
    let last = moves.last();
    assert(moves.contains(last)) by {
        assert(moves[moves.len() - 1] == last);
    }
    let rest = moves.drop_last();
    let c = nm_child(hooks, max_ply, qext, state, last, depth, ply, child_path);
    let r = nm_fold(hooks, max_ply, qext, state, rest, depth, ply, child_path);
    if c > r || rest.len() == 0 {
        assert(nm_fold(hooks, max_ply, qext, state, moves, depth, ply, child_path) == c);
    } else {
        assert forall|m: G::Move| rest.contains(m) implies #[trigger] nm_child(
            hooks,
            max_ply,
            qext,
            state,
            m,
            depth,
            ply,
            child_path,
        ) >= i32::MIN as int + 1 by {
            let i = choose|i: int| 0 <= i < rest.len() && rest[i] == m;
            assert(moves[i] == m);
            assert(moves.contains(m));
        }
        lemma_nm_fold_attained(hooks, max_ply, qext, state, rest, depth, ply, child_path);
        let m = choose|m: G::Move|
            rest.contains(m) && nm_fold(hooks, max_ply, qext, state, rest, depth, ply, child_path)
                == #[trigger] nm_child(hooks, max_ply, qext, state, m, depth, ply, child_path);
        let i = choose|i: int| 0 <= i < rest.len() && rest[i] == m;
        assert(moves[i] == m);
        assert(moves.contains(m));
        assert(nm_fold(hooks, max_ply, qext, state, moves, depth, ply, child_path) == nm_child(
            hooks,
            max_ply,
            qext,
            state,
            m,
            depth,
            ply,
            child_path,
        ));
    }
}

/// Every quiescence value at a ply within the bound lies within
/// `±score_bound()`.
pub proof fn lemma_q_value_range<G: Game, H: SearchHooks<G>>(
    hooks: H,
    max_ply: int,
    state: G::State,
    ply: int,
    extra: nat,
    path: Seq<G::PositionKey>,
)
    requires
        hooks_wf::<G, H>(hooks),
        0 <= ply <= max_ply,
        max_ply < MAX_PLY_LIMIT,
    ensures
        -score_bound() <= q_value(hooks, max_ply, state, ply, extra, path) <= score_bound(),
    decreases extra, noisy_moves(hooks, state).len() + 1,
{
    if G::spec_result(state) is InProgress {
        let key = G::spec_position_key(state);
        let sp = hooks.spec_evaluate(state) as int;
        if !path.contains(key) && extra > 0 && ply < max_ply {
            lemma_q_fold_range(hooks, max_ply, state, noisy_moves(hooks, state), ply, extra, path.push(key), sp);
        }
    }
}

/// A quiescence fold from a base within `±score_bound()` stays within it.
proof fn lemma_q_fold_range<G: Game, H: SearchHooks<G>>(
    hooks: H,
    max_ply: int,
    state: G::State,
    moves: Seq<G::Move>,
    ply: int,
    extra: nat,
    child_path: Seq<G::PositionKey>,
    base: int,
)
    requires
        hooks_wf::<G, H>(hooks),
        0 <= ply < max_ply,
        max_ply < MAX_PLY_LIMIT,
        -score_bound() <= base <= score_bound(),
    ensures
        -score_bound() <= q_fold(hooks, max_ply, state, moves, ply, extra, child_path, base) <= score_bound(),
    decreases extra, moves.len(),
{
    if moves.len() > 0 && extra > 0 {
        lemma_q_fold_range(hooks, max_ply, state, moves.drop_last(), ply, extra, child_path, base);
        lemma_q_value_range(
            hooks,
            max_ply,
            G::spec_apply_move(state, moves.last()),
            ply + 1,
            (extra - 1) as nat,
            child_path,
        );
        let c = q_child(hooks, max_ply, state, moves.last(), ply, extra, child_path);
        assert(c == -q_value(
            hooks,
            max_ply,
            G::spec_apply_move(state, moves.last()),
            ply + 1,
            (extra - 1) as nat,
            child_path,
        ));
        let r = q_fold(hooks, max_ply, state, moves.drop_last(), ply, extra, child_path, base);
        assert(q_fold(hooks, max_ply, state, moves, ply, extra, child_path, base) == if c > r {
            c
        } else {
            r
        });
    }
}

/// Every negamax value at a ply within the bound lies within
/// `±score_bound()`, for a game that never leaves a position in progress
/// without legal moves.
pub proof fn lemma_nm_value_range<G: Game, H: SearchHooks<G>>(
    hooks: H,
    max_ply: int,
    qext: Option<u8>,
    state: G::State,
    depth: nat,
    ply: int,
    path: Seq<G::PositionKey>,
)
    requires
        hooks_wf::<G, H>(hooks),
        game_wf::<G>(),
        0 <= ply <= max_ply,
        max_ply < MAX_PLY_LIMIT,
    ensures
        -score_bound() <= nm_value(hooks, max_ply, qext, state, depth, ply, path) <= score_bound(),
    decreases depth, G::spec_legal_moves(state).len() + 1,
{
    if G::spec_result(state) is InProgress {
        let key = G::spec_position_key(state);
        if !path.contains(key) && ply < max_ply {
            if depth == 0 {
                match qext {
                    Some(e) => lemma_q_value_range(hooks, max_ply, state, ply, e as nat, path),
                    None => {},
                }
            } else {
                let legal = G::spec_legal_moves(state);
                lemma_nm_fold_range(hooks, max_ply, qext, state, legal, depth, ply, path.push(key));
                assert(legal.len() > 0);
                lemma_nm_fold(hooks, max_ply, qext, state, legal, depth, ply, path.push(key), 0);
                assert(legal.contains(legal[0]));
                lemma_nm_value_range(
                    hooks,
                    max_ply,
                    qext,
                    G::spec_apply_move(state, legal[0]),
                    (depth - 1) as nat,
                    ply + 1,
                    path.push(key),
                );
                assert(nm_child(hooks, max_ply, qext, state, legal[0], depth, ply, path.push(key))
                    == -nm_value(
                    hooks,
                    max_ply,
                    qext,
                    G::spec_apply_move(state, legal[0]),
                    (depth - 1) as nat,
                    ply + 1,
                    path.push(key),
                ));
                assert(nm_value(hooks, max_ply, qext, state, depth, ply, path) == nm_fold(
                    hooks,
                    max_ply,
                    qext,
                    state,
                    legal,
                    depth,
                    ply,
                    path.push(key),
                ));
            }
        }
    }
}

/// A negamax fold never exceeds `score_bound()`.
proof fn lemma_nm_fold_range<G: Game, H: SearchHooks<G>>(
    hooks: H,
    max_ply: int,
    qext: Option<u8>,
    state: G::State,
    moves: Seq<G::Move>,
    depth: nat,
    ply: int,
    child_path: Seq<G::PositionKey>,
)
    requires
        hooks_wf::<G, H>(hooks),
        game_wf::<G>(),
        0 <= ply < max_ply,
        max_ply < MAX_PLY_LIMIT,
    ensures
        nm_fold(hooks, max_ply, qext, state, moves, depth, ply, child_path) <= score_bound(),
        forall|m: G::Move|
            moves.contains(m) ==> -score_bound() <= #[trigger] nm_child(
                hooks,
                max_ply,
                qext,
                state,
                m,
                depth,
                ply,
                child_path,
            ) <= score_bound(),
    decreases depth, moves.len(),
{
    if moves.len() > 0 && depth > 0 {
        let rest = moves.drop_last();
        lemma_nm_fold_range(hooks, max_ply, qext, state, rest, depth, ply, child_path);
        lemma_nm_value_range(
            hooks,
            max_ply,
            qext,
            G::spec_apply_move(state, moves.last()),
            (depth - 1) as nat,
            ply + 1,
            child_path,
        );
        assert forall|m: G::Move| moves.contains(m) implies -score_bound() <= #[trigger] nm_child(
            hooks,
            max_ply,
            qext,
            state,
            m,
            depth,
            ply,
            child_path,
        ) <= score_bound() by {
            if m != moves.last() {
                let i = choose|i: int| 0 <= i < moves.len() && moves[i] == m;
                assert(i < moves.len() - 1);
                assert(rest[i] == m);
                assert(rest.contains(m));
            }
        }
        let c = nm_child(hooks, max_ply, qext, state, moves.last(), depth, ply, child_path);
        assert(c == -nm_value(
            hooks,
            max_ply,
            qext,
            G::spec_apply_move(state, moves.last()),
            (depth - 1) as nat,
            ply + 1,
            child_path,
        ));
        let r = nm_fold(hooks, max_ply, qext, state, rest, depth, ply, child_path);
        assert(nm_fold(hooks, max_ply, qext, state, moves, depth, ply, child_path) == if c > r {
            c
        } else {
            r
        });
    } else if depth > 0 {
        assert forall|m: G::Move| moves.contains(m) implies -score_bound() <= #[trigger] nm_child(
            hooks,
            max_ply,
            qext,
            state,
            m,
            depth,
            ply,
            child_path,
        ) <= score_bound() by {
        }
    } else {
    }
}

/// `q_fold` is the maximum of its base and its moves' values.
pub proof fn lemma_q_fold<G: Game, H: SearchHooks<G>>(
    hooks: H,
    max_ply: int,
    state: G::State,
    moves: Seq<G::Move>,
    ply: int,
    extra: nat,
    child_path: Seq<G::PositionKey>,
    base: int,
    b: int,
)
    requires
        extra > 0,
    ensures
        q_fold(hooks, max_ply, state, moves, ply, extra, child_path, base) >= base,
        forall|m: G::Move|
            moves.contains(m) ==> q_fold(hooks, max_ply, state, moves, ply, extra, child_path, base)
                >= #[trigger] q_child(hooks, max_ply, state, m, ply, extra, child_path),
        (base <= b && forall|m: G::Move|
            moves.contains(m) ==> #[trigger] q_child(hooks, max_ply, state, m, ply, extra, child_path)
                <= b) ==> q_fold(hooks, max_ply, state, moves, ply, extra, child_path, base) <= b,
    decreases moves.len(),
{
    if moves.len() > 0 {
        let rest = moves.drop_last();
        lemma_q_fold(hooks, max_ply, state, rest, ply, extra, child_path, base, b);
        assert forall|m: G::Move| moves.contains(m) implies q_fold(
            hooks,
            max_ply,
            state,
            moves,
            ply,
            extra,
            child_path,
            base,
        ) >= #[trigger] q_child(hooks, max_ply, state, m, ply, extra, child_path) by {
            if m != moves.last() {
                let i = choose|i: int| 0 <= i < moves.len() && moves[i] == m;
                assert(i < moves.len() - 1);
                assert(rest[i] == m);
                assert(rest.contains(m));
            }
        }
        if base <= b && forall|m: G::Move|
            moves.contains(m) ==> #[trigger] q_child(hooks, max_ply, state, m, ply, extra, child_path)
                <= b {
            assert forall|m: G::Move| rest.contains(m) implies #[trigger] q_child(
                hooks,
                max_ply,
                state,
                m,
                ply,
                extra,
                child_path,
            ) <= b by {
                let i = choose|i: int| 0 <= i < rest.len() && rest[i] == m;
                assert(moves[i] == m);
                assert(moves.contains(m));
            }
            assert(moves.contains(moves.last()));
            assert(q_child(hooks, max_ply, state, moves.last(), ply, extra, child_path) <= b);
            assert(q_fold(hooks, max_ply, state, rest, ply, extra, child_path, base) <= b);
        }
    }
}

/// `nm_fold` is the maximum of `i32::MIN + 1` and its moves' values.
pub proof fn lemma_nm_fold<G: Game, H: SearchHooks<G>>(
    hooks: H,
    max_ply: int,
    qext: Option<u8>,
    state: G::State,
    moves: Seq<G::Move>,
    depth: nat,
    ply: int,
    child_path: Seq<G::PositionKey>,
    b: int,
)
    requires
        depth > 0,
    ensures
        nm_fold(hooks, max_ply, qext, state, moves, depth, ply, child_path) >= i32::MIN as int + 1,
        forall|m: G::Move|
            moves.contains(m) ==> nm_fold(hooks, max_ply, qext, state, moves, depth, ply, child_path)
                >= #[trigger] nm_child(hooks, max_ply, qext, state, m, depth, ply, child_path),
        (i32::MIN as int + 1 <= b && forall|m: G::Move|
            moves.contains(m) ==> #[trigger] nm_child(
                hooks,
                max_ply,
                qext,
                state,
                m,
                depth,
                ply,
                child_path,
            ) <= b) ==> nm_fold(hooks, max_ply, qext, state, moves, depth, ply, child_path) <= b,
    decreases moves.len(),
{
    if moves.len() > 0 {
        let rest = moves.drop_last();
        lemma_nm_fold(hooks, max_ply, qext, state, rest, depth, ply, child_path, b);
        assert forall|m: G::Move| moves.contains(m) implies nm_fold(
            hooks,
            max_ply,
            qext,
            state,
            moves,
            depth,
            ply,
            child_path,
        ) >= #[trigger] nm_child(hooks, max_ply, qext, state, m, depth, ply, child_path) by {
            if m != moves.last() {
                let i = choose|i: int| 0 <= i < moves.len() && moves[i] == m;
                assert(i < moves.len() - 1);
                assert(rest[i] == m);
                assert(rest.contains(m));
            }
        }
        if i32::MIN as int + 1 <= b && forall|m: G::Move|
            moves.contains(m) ==> #[trigger] nm_child(
                hooks,
                max_ply,
                qext,
                state,
                m,
                depth,
                ply,
                child_path,
            ) <= b {
            assert forall|m: G::Move| rest.contains(m) implies #[trigger] nm_child(
                hooks,
                max_ply,
                qext,
                state,
                m,
                depth,
                ply,
                child_path,
            ) <= b by {
                let i = choose|i: int| 0 <= i < rest.len() && rest[i] == m;
                assert(moves[i] == m);
                assert(moves.contains(m));
            }
            assert(moves.contains(moves.last()));
            assert(nm_child(hooks, max_ply, qext, state, moves.last(), depth, ply, child_path) <= b);
            assert(nm_fold(hooks, max_ply, qext, state, rest, depth, ply, child_path) <= b);
        }
    }
}

} // verus!
