//! The search proper: negamax alpha-beta with a transposition table,
//! killer/history ordering, principal variation search, late-move
//! reductions and quiescence, with its values proved against the
//! unpruned values of `value`.

use crate::clock;
use crate::config::HistoryBonus;
use crate::game::{game_eq_laws, game_wf, same_value, Game, GameResult};
use crate::hooks::{hooks_wf, SearchHooks};
use crate::ordering::{
    holds_move, is_lmr_eligible, move_order_keys, order_moves, order_noisy_moves,
    order_root_moves, root_order_key, Killers, RankedPolicy, LMR_REDUCTION,
};
use crate::scores::{score_bound, score_to_tt, MATE, MAX_PLY_LIMIT};
use crate::search_model::{
    inc, lift_score, limit_hit, q_loop, q_search, SearchModel, SearchSettings,
};
use crate::sort::{is_stable_desc_sort, law_stable_sort_is_sorted_desc, law_stable_sort_same_items};
use crate::tt::{Bound, TranspositionTable, TtView};
use crate::value::{
    fail_soft, fail_soft_range, lemma_lmr_fold, lemma_nm_fold, lemma_q_fold, lmr_child, lmr_fold,
    lmr_value, mate_value, nm_child, nm_fold, nm_value, noisy_moves, noisy_pred, q_child, q_fold,
    q_value,
};
use vstd::prelude::*;
use web_time::Instant;

verus! {

/// Everything one `analyze` call's search reads and updates.
pub struct SearchContext<G: Game> {
    pub tt: TranspositionTable<G>,
    /// Killer moves per ply.
    pub killers: Vec<Killers<G::Move>>,
    /// History score per history bucket.
    pub history: Vec<i32>,
    pub nodes: u64,
    pub quiescence_nodes: u64,
    pub tt_hits: u64,
    pub beta_cutoffs: u64,
    pub pvs_researches: u64,
    pub lmr_reductions: u64,
    pub lmr_researches: u64,
    pub quiescence_max_extra_ply: Option<u8>,
    pub pvs: bool,
    pub killer_moves: bool,
    pub history_heuristic: bool,
    pub history_bonus: HistoryBonus,
    pub lmr: bool,
    /// Consulted only at the root; `None` means classical ordering there.
    pub root_policy: Option<RankedPolicy<G::Move>>,
    pub node_limit: Option<u64>,
    pub deadline: Option<Instant>,
    pub aborted: bool,
    /// Position keys of every ancestor on the current search line.
    pub path: Vec<G::PositionKey>,
    pub max_ply: usize,
    /// Whether the transposition table is consulted and written at all.
    pub use_tt: bool,
}

impl<G: Game> SearchContext<G> {
    pub open spec fn wf(&self) -> bool {
        &&& self.tt.wf()
        &&& self.killers.len() == self.max_ply + 1
        &&& self.max_ply < MAX_PLY_LIMIT
    }

    /// What the search changes, abstractly.
    pub open spec fn model(&self) -> SearchModel<G> {
        SearchModel {
            tt: self.tt@,
            killers: self.killers@,
            history: self.history@,
            nodes: self.nodes,
            quiescence_nodes: self.quiescence_nodes,
            tt_hits: self.tt_hits,
            beta_cutoffs: self.beta_cutoffs,
            pvs_researches: self.pvs_researches,
            lmr_reductions: self.lmr_reductions,
            lmr_researches: self.lmr_researches,
        }
    }

    /// What the search reads and never changes.
    pub open spec fn settings(&self) -> SearchSettings<G> {
        SearchSettings {
            max_ply: self.max_ply,
            qext: self.quiescence_max_extra_ply,
            pvs: self.pvs,
            killer_moves: self.killer_moves,
            history_heuristic: self.history_heuristic,
            history_bonus: self.history_bonus,
            lmr: self.lmr,
            root_policy: self.root_policy,
            node_limit: self.node_limit,
            use_tt: self.use_tt,
        }
    }

    /// The same configuration and table sizes as `other`.
    pub open spec fn same_settings(&self, other: &Self) -> bool {
        &&& self.max_ply == other.max_ply
        &&& self.quiescence_max_extra_ply == other.quiescence_max_extra_ply
        &&& self.pvs == other.pvs
        &&& self.killer_moves == other.killer_moves
        &&& self.history_heuristic == other.history_heuristic
        &&& self.history_bonus == other.history_bonus
        &&& self.lmr == other.lmr
        &&& self.root_policy == other.root_policy
        &&& self.node_limit == other.node_limit
        &&& self.deadline == other.deadline
        &&& self.use_tt == other.use_tt
        &&& self.killers.len() == other.killers.len()
        &&& self.history.len() == other.history.len()
        &&& self.tt@.slots.len() == other.tt@.slots.len()
    }
}

/// How a search call ends with respect to its limits: it counts nodes
/// without ever decreasing the count, leaves the search aborted if it was
/// on entry or if the node limit had been reached on entry, returns
/// nothing (`aborted` set) exactly when the search is aborted on return,
/// and is aborted on return only if it was on entry, or the node limit has
/// been reached, or there is a deadline (which may have passed).
pub open spec fn search_call_ends<G: Game>(
    before: SearchContext<G>,
    after: SearchContext<G>,
    returned_nothing: bool,
) -> bool {
    &&& after.nodes >= before.nodes
    &&& returned_nothing <==> after.aborted
    &&& before.aborted ==> after.aborted
    &&& (before.node_limit matches Some(l) && before.nodes >= l) ==> after.aborted
    &&& after.aborted ==> (before.aborted || (before.node_limit matches Some(l) && after.nodes >= l)
        || before.deadline is Some)
}

/// How the work counters move across a search call: none decreases;
/// quiescence nodes grow no faster than nodes, and late-move re-searches
/// no faster than reductions (unless the larger counter saturated); PVS
/// re-searches only with PVS on, reductions and re-searches only with
/// late-move reductions on, table hits and the table itself only with
/// the table in use, and the history only with the history heuristic on.
pub open spec fn counters_advance<G: Game>(before: SearchContext<G>, after: SearchContext<G>) -> bool {
    &&& after.nodes >= before.nodes
    &&& after.quiescence_nodes >= before.quiescence_nodes
    &&& after.tt_hits >= before.tt_hits
    &&& after.beta_cutoffs >= before.beta_cutoffs
    &&& after.pvs_researches >= before.pvs_researches
    &&& after.lmr_reductions >= before.lmr_reductions
    &&& after.lmr_researches >= before.lmr_researches
    &&& (after.quiescence_nodes - before.quiescence_nodes <= after.nodes - before.nodes
        || after.nodes == u64::MAX)
    &&& (after.lmr_researches - before.lmr_researches <= after.lmr_reductions
        - before.lmr_reductions || after.lmr_reductions == u64::MAX)
    &&& !before.pvs ==> after.pvs_researches == before.pvs_researches
    &&& !before.lmr ==> after.lmr_reductions == before.lmr_reductions
        && after.lmr_researches == before.lmr_researches
    &&& !before.use_tt ==> after.tt == before.tt && after.tt_hits == before.tt_hits
    &&& !before.history_heuristic ==> after.history == before.history
    &&& after.tt@.generation == before.tt@.generation
}

/// `counters_advance` composes along a search with fixed settings.
pub(crate) proof fn lemma_counters_advance_trans<G: Game>(
    a: SearchContext<G>,
    b: SearchContext<G>,
    c: SearchContext<G>,
)
    requires
        counters_advance(a, b),
        counters_advance(b, c),
        b.same_settings(&a),
    ensures
        counters_advance(a, c),
{
}

/// A probe for `key` finds in `after` what it found in `before`, or
/// nothing.
pub open spec fn probe_kept_or_evicted<G: Game>(
    before: TtView<G>,
    after: TtView<G>,
    key: G::PositionKey,
) -> bool {
    after.probe(key) == before.probe(key) || after.probe(key) is None
}

/// A probe for any key of `line` finds in `after` what it found in
/// `before`, or nothing: no entry for such a key was written.
pub open spec fn keeps_line<G: Game>(
    before: TtView<G>,
    after: TtView<G>,
    line: Seq<G::PositionKey>,
) -> bool {
    forall|k: G::PositionKey| line.contains(k) ==> #[trigger] probe_kept_or_evicted(before, after, k)
}

/// `keeps_line` composes.
proof fn lemma_keeps_line_trans<G: Game>(
    a: TtView<G>,
    b: TtView<G>,
    c: TtView<G>,
    line: Seq<G::PositionKey>,
)
    requires
        keeps_line(a, b, line),
        keeps_line(b, c, line),
    ensures
        keeps_line(a, c, line),
{
    assert forall|k: G::PositionKey| line.contains(k) implies #[trigger] probe_kept_or_evicted(
        a,
        c,
        k,
    ) by {
        assert(probe_kept_or_evicted(a, b, k));
        assert(probe_kept_or_evicted(b, c, k));
    }
}

/// Whether the search of `state` runs its move loop: the game is in
/// progress, the position is not on the current line, and neither the
/// ply bound nor the depth has run out.
pub open spec fn expands<G: Game>(
    max_ply: int,
    state: G::State,
    depth: nat,
    ply: int,
    path: Seq<G::PositionKey>,
) -> bool {
    &&& G::spec_result(state) is InProgress
    &&& !path.contains(G::spec_position_key(state))
    &&& ply < max_ply
    &&& depth > 0
}

/// Whether no line the search follows from `state` for `depth` plies
/// comes back to a position of `path` or of the line itself. Only such a
/// repetition makes a score depend on the path.
pub open spec fn meets_no_repetition<G: Game>(
    max_ply: int,
    state: G::State,
    depth: nat,
    ply: int,
    path: Seq<G::PositionKey>,
) -> bool
    decreases depth,
{
    if !(G::spec_result(state) is InProgress) {
        true
    } else if path.contains(G::spec_position_key(state)) {
        false
    } else if ply >= max_ply || depth == 0 {
        true
    } else {
        forall|m: G::Move|
            #[trigger] G::spec_legal_moves(state).contains(m) ==> meets_no_repetition::<G>(
                max_ply,
                G::spec_apply_move(state, m),
                (depth - 1) as nat,
                ply + 1,
                path.push(G::spec_position_key(state)),
            )
    }
}

/// A line free of repetitions to some depth is free of them to any
/// smaller depth.
proof fn lemma_meets_no_repetition_shallower<G: Game>(
    max_ply: int,
    state: G::State,
    depth: nat,
    shallower: nat,
    ply: int,
    path: Seq<G::PositionKey>,
)
    requires
        shallower <= depth,
        meets_no_repetition::<G>(max_ply, state, depth, ply, path),
    ensures
        meets_no_repetition::<G>(max_ply, state, shallower, ply, path),
    decreases depth,
{
    if G::spec_result(state) is InProgress && !path.contains(G::spec_position_key(state))
        && ply < max_ply && shallower > 0 {
        let key = G::spec_position_key(state);
        assert forall|m: G::Move| #[trigger] G::spec_legal_moves(state).contains(m) implies meets_no_repetition::<G>(
            max_ply,
            G::spec_apply_move(state, m),
            (shallower - 1) as nat,
            ply + 1,
            path.push(key),
        ) by {
            lemma_meets_no_repetition_shallower::<G>(
                max_ply,
                G::spec_apply_move(state, m),
                (depth - 1) as nat,
                (shallower - 1) as nat,
                ply + 1,
                path.push(key),
            );
        }
    }
}

/// Whether the search of `state` hands the position to quiescence.
pub open spec fn enters_quiescence<G: Game>(
    max_ply: int,
    qext: Option<u8>,
    state: G::State,
    depth: nat,
    ply: int,
    path: Seq<G::PositionKey>,
) -> bool {
    &&& G::spec_result(state) is InProgress
    &&& !path.contains(G::spec_position_key(state))
    &&& ply < max_ply
    &&& depth == 0
    &&& qext is Some
}

/// A ply's killer slots after a beta cutoff by the quiet move `mv`: `mv`
/// first and the previous first second, unless `mv` is first already.
pub open spec fn killers_after_cutoff<M>(slot: Killers<M>, mv: M) -> Killers<M> {
    if slot.0 == Some(mv) {
        slot
    } else {
        (Some(mv), slot.0)
    }
}

/// The bound a node's score is stored with, for the window it was
/// searched with: an upper bound at or below alpha, a lower bound at or
/// above beta, exact in between.
pub open spec fn stored_bound(best: int, orig_alpha: int, beta: int) -> Bound {
    if best <= orig_alpha {
        Bound::Upper
    } else if best >= beta {
        Bound::Lower
    } else {
        Bound::Exact
    }
}

/// A history table after a quiet cutoff credited to `bucket`: that entry
/// raised by `bonus`, saturating at the bounds of `i32`.
pub open spec fn history_after_cutoff(history: Seq<i32>, bucket: usize, bonus: int) -> Seq<i32> {
    let sum = history[bucket as int] + bonus;
    history.update(
        bucket as int,
        if sum > i32::MAX {
            i32::MAX
        } else if sum < i32::MIN {
            i32::MIN
        } else {
            sum as i32
        },
    )
}

/// `n + 1`, saturating at `u64::MAX`.
pub open spec fn saturating_inc(n: u64) -> int {
    if n == u64::MAX {
        u64::MAX as int
    } else {
        n + 1
    }
}

/// Marks the search aborted once the node limit is reached or the
/// deadline has passed; changes nothing else.
pub fn check_limits<G: Game>(ctx: &mut SearchContext<G>)
    ensures
        final(ctx).tt == old(ctx).tt,
        final(ctx).killers == old(ctx).killers,
        final(ctx).history == old(ctx).history,
        final(ctx).nodes == old(ctx).nodes,
        final(ctx).path == old(ctx).path,
        final(ctx).same_settings(&*old(ctx)),
        final(ctx).quiescence_nodes == old(ctx).quiescence_nodes,
        final(ctx).tt_hits == old(ctx).tt_hits,
        final(ctx).beta_cutoffs == old(ctx).beta_cutoffs,
        final(ctx).pvs_researches == old(ctx).pvs_researches,
        final(ctx).lmr_reductions == old(ctx).lmr_reductions,
        final(ctx).lmr_researches == old(ctx).lmr_researches,
        old(ctx).aborted ==> final(ctx).aborted,
        (old(ctx).node_limit matches Some(l) && old(ctx).nodes >= l) ==> final(ctx).aborted,
        final(ctx).aborted ==> (old(ctx).aborted || (old(ctx).node_limit matches Some(l)
            && old(ctx).nodes >= l) || old(ctx).deadline is Some),
        old(ctx).deadline is None ==> final(ctx).aborted == (old(ctx).aborted || (
        old(ctx).node_limit matches Some(l) && old(ctx).nodes >= l)),
{
    let node_limit_hit = match ctx.node_limit {
        Some(limit) => ctx.nodes >= limit,
        None => false,
    };
    let mut deadline_passed = false;
    if !node_limit_hit {
        if let Some(deadline) = &ctx.deadline {
            let now = clock::now();
            deadline_passed = clock::at_or_after(&now, deadline);
        }
    }
    if limits_reached(ctx.nodes, ctx.node_limit, deadline_passed) {
        ctx.aborted = true;
    }
}

/// Whether a search must stop: its node limit has been reached, or the
/// clock says its deadline has passed.
pub fn limits_reached(nodes: u64, node_limit: Option<u64>, deadline_passed: bool) -> (stop: bool)
    ensures
        stop == ((node_limit matches Some(l) && nodes >= l) || deadline_passed),
{
    match node_limit {
        Some(limit) => nodes >= limit || deadline_passed,
        None => deadline_passed,
    }
}

/// Whether `key` is on the current search line.
pub fn path_contains<G: Game>(path: &Vec<G::PositionKey>, key: &G::PositionKey) -> (found: bool)
    requires
        game_eq_laws::<G>(),
    ensures
        found == path@.contains(*key),
{
    let mut i: usize = 0;
    while i < path.len()
        invariant
            game_eq_laws::<G>(),
            i <= path.len(),
            forall|j: int| 0 <= j < i ==> path@[j] != *key,
        decreases path.len() - i,
    {
        if same_value(&path[i], key) {
            return true;
        }
        i = i + 1;
    }
    false
}

/// The score of a position won by `winner`, at `ply`.
fn mate_score<G: Game>(state: &G::State, winner: &G::Player, ply: usize) -> (score: i32)
    requires
        ply < MAX_PLY_LIMIT,
        game_eq_laws::<G>(),
    ensures
        score == mate_value::<G>(*state, *winner, ply as int),
{
    let score = MATE - ply as i32;
    let current = G::current_player(state);
    if same_value(winner, &current) {
        score
    } else {
        -score
    }
}

/// The legal moves of `state` that quiescence follows, in generation
/// order.
pub fn noisy_legal_moves<G: Game, H: SearchHooks<G>>(hooks: &H, state: &G::State) -> (noisy: Vec<
    G::Move,
>)
    ensures
        noisy@ == noisy_moves(*hooks, *state),
{
    let legal = G::legal_moves(state);
    let mut noisy: Vec<G::Move> = Vec::new();
    let mut i: usize = 0;
    let ghost pred = noisy_pred(*hooks, *state);
    assert(legal@.take(0) =~= Seq::<G::Move>::empty());
    proof {
        reveal(Seq::filter);
    }
    while i < legal.len()
        invariant
            legal@ == G::spec_legal_moves(*state),
            pred == noisy_pred(*hooks, *state),
            i <= legal.len(),
            noisy@ == legal@.take(i as int).filter(pred),
        decreases legal.len() - i,
    {
        let mv = legal[i];
        proof {
            legal@.take(i as int).lemma_filter_push(mv, pred);
            assert(legal@.take(i + 1) =~= legal@.take(i as int).push(mv));
        }
        if hooks.move_features(state, &mv).is_noisy {
            noisy.push(mv);
        }
        i = i + 1;
    }
    assert(legal@.take(i as int) =~= legal@);
    noisy
}

/// Every item of `a` occurs in `b` after a stable sort of `a` into `b`,
/// and the other way round.
proof fn lemma_sorted_same_items<T>(a: Seq<T>, keys: Seq<i64>, b: Seq<T>)
    requires
        keys.len() == a.len(),
        a.len() <= usize::MAX,
        is_stable_desc_sort(a, keys, b),
    ensures
        b.len() == a.len(),
        forall|m: T| a.contains(m) ==> #[trigger] b.contains(m),
        forall|m: T| b.contains(m) ==> #[trigger] a.contains(m),
{
    law_stable_sort_same_items(a, keys, b);
    assert forall|m: T| a.contains(m) implies #[trigger] b.contains(m) by {
        let k = choose|k: int| 0 <= k < a.len() && a[k] == m;
        assert(b.contains(a[k]));
    }
    assert forall|m: T| b.contains(m) implies #[trigger] a.contains(m) by {
        let k = choose|k: int| 0 <= k < b.len() && b[k] == m;
        assert(a.contains(b[k]));
    }
}

/// Extends the search past the horizon along noisy lines only. Never
/// touches the transposition table. `None` means the search was aborted.
pub fn quiescence<G: Game, H: SearchHooks<G>>(
    hooks: &H,
    ctx: &mut SearchContext<G>,
    state: &G::State,
    alpha: i32,
    beta: i32,
    ply: usize,
    extra_ply_remaining: u8,
) -> (res: Option<i32>)
    requires
        old(ctx).wf(),
        hooks_wf::<G, H>(*hooks),
        game_eq_laws::<G>(),
        ply <= old(ctx).max_ply,
        alpha > i32::MIN,
        beta > i32::MIN,
    ensures
        final(ctx).wf(),
        final(ctx).same_settings(&*old(ctx)),
        final(ctx).path@ == old(ctx).path@,
        final(ctx).tt == old(ctx).tt,
        final(ctx).killers == old(ctx).killers,
        final(ctx).history == old(ctx).history,
        search_call_ends(*old(ctx), *final(ctx), res is None),
        (!old(ctx).aborted && old(ctx).deadline is None) ==> q_search(
            *hooks,
            old(ctx).settings(),
            old(ctx).model(),
            old(ctx).path@,
            *state,
            alpha as int,
            beta as int,
            ply as int,
            extra_ply_remaining as nat,
        ) == (final(ctx).model(), lift_score(res)),
        counters_advance(*old(ctx), *final(ctx)),
        final(ctx).tt_hits == old(ctx).tt_hits,
        final(ctx).beta_cutoffs == old(ctx).beta_cutoffs,
        final(ctx).pvs_researches == old(ctx).pvs_researches,
        final(ctx).lmr_reductions == old(ctx).lmr_reductions,
        final(ctx).lmr_researches == old(ctx).lmr_researches,
        final(ctx).quiescence_nodes - old(ctx).quiescence_nodes == final(ctx).nodes - old(
            ctx,
        ).nodes || final(ctx).nodes == u64::MAX || final(ctx).quiescence_nodes == u64::MAX,
        res matches Some(s) ==> {
            &&& final(ctx).nodes > old(ctx).nodes || old(ctx).nodes == u64::MAX
            &&& !(G::spec_result(*state) is InProgress) ==> s == q_value(
                *hooks,
                old(ctx).max_ply as int,
                *state,
                ply as int,
                extra_ply_remaining as nat,
                old(ctx).path@,
            )
            &&& (G::spec_result(*state) is InProgress && old(ctx).path@.contains(
                G::spec_position_key(*state),
            )) ==> s == 0
            &&& (G::spec_result(*state) is InProgress && !old(ctx).path@.contains(
                G::spec_position_key(*state),
            )) ==> {
                &&& s >= hooks.spec_evaluate(*state)
                &&& (hooks.spec_evaluate(*state) >= beta || extra_ply_remaining == 0 || ply
                    >= old(ctx).max_ply || noisy_moves(*hooks, *state).len() == 0) ==> s
                    == hooks.spec_evaluate(*state)
            }
            &&& -score_bound() <= s <= score_bound()
            &&& alpha < beta ==> fail_soft(
                s as int,
                alpha as int,
                beta as int,
                q_value(
                    *hooks,
                    old(ctx).max_ply as int,
                    *state,
                    ply as int,
                    extra_ply_remaining as nat,
                    old(ctx).path@,
                ),
            )
        },
    decreases extra_ply_remaining,
{
    let ghost ctx0 = *ctx;
    check_limits(ctx);
    if ctx.aborted {
        return None;
    }
    ctx.nodes = ctx.nodes.saturating_add(1);
    ctx.quiescence_nodes = ctx.quiescence_nodes.saturating_add(1);
    match G::result(state) {
        GameResult::Win(winner) => {
            return Some(mate_score::<G>(state, &winner, ply));
        },
        GameResult::Draw => {
            return Some(0);
        },
        GameResult::InProgress => {},
    }
    let key = G::position_key(state);
    if path_contains::<G>(&ctx.path, &key) {
        return Some(0);
    }
    let stand_pat = hooks.evaluate(state);
    let ghost max_ply = ctx0.max_ply as int;
    let ghost extra = extra_ply_remaining as nat;
    let ghost child_path = ctx0.path@.push(key);
    proof {
        if extra > 0 && ply < max_ply {
            lemma_q_fold(
                *hooks,
                max_ply,
                *state,
                noisy_moves(*hooks, *state),
                ply as int,
                extra,
                child_path,
                stand_pat as int,
                stand_pat as int,
            );
        }
    }
    if stand_pat >= beta {
        return Some(stand_pat);
    }
    let ghost proper = alpha < beta;
    let ghost alpha_orig = alpha;
    let mut alpha = alpha;
    if stand_pat > alpha {
        alpha = stand_pat;
    }
    if extra_ply_remaining == 0 || ply >= ctx.max_ply {
        return Some(stand_pat);
    }
    let mut noisy = noisy_legal_moves(hooks, state);
    if noisy.len() == 0 {
        return Some(stand_pat);
    }
    let ghost spec_noisy = noisy@;
    order_noisy_moves(hooks, &mut noisy, state);
    proof {
        lemma_sorted_same_items(
            spec_noisy,
            spec_noisy.map_values(
                |m: G::Move| crate::ordering::noisy_order_key(*hooks, *state, m),
            ),
            noisy@,
        );
    }
    let ghost alpha0 = alpha;
    let ghost steps = !ctx0.aborted && ctx0.deadline is None;
    let ghost target = q_search(
        *hooks,
        ctx0.settings(),
        ctx0.model(),
        ctx0.path@,
        *state,
        alpha_orig as int,
        beta as int,
        ply as int,
        extra_ply_remaining as nat,
    );
    proof {
        law_stable_sort_is_sorted_desc(
            spec_noisy,
            spec_noisy.map_values(
                |m: G::Move| crate::ordering::noisy_order_key(*hooks, *state, m),
            ),
            noisy@,
        );
    }
    ctx.path.push(key);
    let mut best = stand_pat;
    let mut was_aborted = false;
    let mut cutoff = false;
    let ghost mut witness: G::Move = noisy@[0];
    let mut i: usize = 0;
    while i < noisy.len() && !was_aborted && !cutoff
        invariant
            ctx.wf(),
            ctx.same_settings(&ctx0),
            ctx.path@ == child_path,
            ctx.tt == ctx0.tt,
            ctx.killers == ctx0.killers,
            ctx.history == ctx0.history,
            counters_advance(ctx0, *ctx),
            ctx.tt_hits == ctx0.tt_hits,
            ctx.beta_cutoffs == ctx0.beta_cutoffs,
            ctx.pvs_researches == ctx0.pvs_researches,
            ctx.lmr_reductions == ctx0.lmr_reductions,
            ctx.lmr_researches == ctx0.lmr_researches,
            ctx.quiescence_nodes - ctx0.quiescence_nodes == ctx.nodes - ctx0.nodes || ctx.nodes
                == u64::MAX || ctx.quiescence_nodes == u64::MAX,
            ctx.nodes > ctx0.nodes || ctx0.nodes == u64::MAX,
            steps == (!ctx0.aborted && ctx0.deadline is None),
            steps ==> (if was_aborted {
                target == (ctx.model(), None::<int>)
            } else if cutoff {
                target == (ctx.model(), Some(best as int))
            } else {
                target == q_loop(
                    *hooks,
                    ctx0.settings(),
                    ctx.model(),
                    child_path,
                    *state,
                    noisy@,
                    i as int,
                    alpha as int,
                    beta as int,
                    best as int,
                    ply as int,
                    extra,
                )
            }),
            !ctx0.aborted,
            ctx.nodes >= ctx0.nodes,
            ctx.aborted == was_aborted,
            ctx.aborted ==> ((ctx0.node_limit matches Some(l) && ctx.nodes >= l)
                || ctx0.deadline is Some),
            hooks_wf::<G, H>(*hooks),
            game_eq_laws::<G>(),
            ply < ctx0.max_ply,
            max_ply == ctx0.max_ply,
            extra == extra_ply_remaining,
            extra_ply_remaining > 0,
            i <= noisy.len(),
            beta > i32::MIN,
            alpha > i32::MIN,
            alpha0 > i32::MIN,
            stand_pat < beta,
            proper == (alpha_orig < beta),
            alpha0 == (if stand_pat > alpha_orig {
                stand_pat
            } else {
                alpha_orig
            }),
            -score_bound() <= best <= score_bound(),
            best >= stand_pat,
            forall|m: G::Move| noisy@.contains(m) ==> #[trigger] spec_noisy.contains(m),
            !proper ==> alpha >= beta,
            proper && !cutoff && !was_aborted ==> {
                &&& best < beta
                &&& alpha == (if best > alpha0 {
                    best
                } else {
                    alpha0
                })
                &&& forall|j: int|
                    0 <= j < i ==> #[trigger] q_child(
                        *hooks,
                        max_ply,
                        *state,
                        noisy@[j],
                        ply as int,
                        extra,
                        child_path,
                    ) <= best
                &&& (best > alpha0 && best != stand_pat) ==> (spec_noisy.contains(witness)
                    && q_child(*hooks, max_ply, *state, witness, ply as int, extra, child_path)
                    == best)
            },
            proper && cutoff ==> {
                &&& best >= beta
                &&& spec_noisy.contains(witness)
                &&& q_child(*hooks, max_ply, *state, witness, ply as int, extra, child_path)
                    >= best
            },
        decreases noisy.len() - i,
    {
        let mv = noisy[i];
        let child = G::apply_move(state, mv);
        let r = quiescence(hooks, ctx, &child, -beta, -alpha, ply + 1, extra_ply_remaining - 1);
        match r {
            Some(s) => {
                let child_score = -s;
                proof {
                    assert(noisy@.contains(mv)) by {
                        assert(noisy@[i as int] == mv);
                    }
                    assert(q_child(*hooks, max_ply, *state, mv, ply as int, extra, child_path)
                        == -q_value(
                        *hooks,
                        max_ply,
                        G::spec_apply_move(*state, mv),
                        ply + 1,
                        (extra - 1) as nat,
                        child_path,
                    ));
                }
                if child_score > best {
                    best = child_score;
                    proof {
                        witness = mv;
                    }
                }
                if best > alpha {
                    alpha = best;
                }
                if alpha >= beta {
                    cutoff = true;
                    proof {
                        witness = mv;
                    }
                }
            },
            None => {
                was_aborted = true;
            },
        }
        i = i + 1;
    }
    ctx.path.pop();
    assert(ctx.path@ =~= ctx0.path@);
    if was_aborted {
        return None;
    }
    proof {
        let v = q_value(*hooks, max_ply, *state, ply as int, extra, ctx0.path@);
        assert(v == q_fold(*hooks, max_ply, *state, spec_noisy, ply as int, extra, child_path, stand_pat as int));
        lemma_q_fold(*hooks, max_ply, *state, spec_noisy, ply as int, extra, child_path, stand_pat as int, best as int);
        if proper && !cutoff {
            assert forall|m: G::Move| spec_noisy.contains(m) implies #[trigger] q_child(
                *hooks,
                max_ply,
                *state,
                m,
                ply as int,
                extra,
                child_path,
            ) <= best by {
                assert(noisy@.contains(m));
            }
        }
    }
    Some(best)
}

/// The principal variation the table records from `state`: follow each
/// position's stored best move for at most `max_len` moves, stopping at a
/// position without one and after a move that ends the game.
pub open spec fn pv_spec<G: Game>(tt: TtView<G>, state: G::State, max_len: nat) -> Seq<G::Move>
    decreases max_len,
{
    if max_len == 0 {
        Seq::empty()
    } else {
        match tt.probe(G::spec_position_key(state)) {
            Some(entry) => match entry.best_move {
                Some(mv) => {
                    let next = G::spec_apply_move(state, mv);
                    if G::spec_result(next) is InProgress {
                        seq![mv] + pv_spec(tt, next, (max_len - 1) as nat)
                    } else {
                        seq![mv]
                    }
                },
                None => Seq::empty(),
            },
            None => Seq::empty(),
        }
    }
}

/// The moves the table records as best, from `root` on.
pub fn reconstruct_pv<G: Game>(tt: &TranspositionTable<G>, root: &G::State, max_len: u8) -> (pv: Vec<
    G::Move,
>)
    requires
        tt.wf(),
        game_eq_laws::<G>(),
    ensures
        pv@ == pv_spec(tt@, *root, max_len as nat),
        pv.len() <= max_len,
{
    let mut pv: Vec<G::Move> = Vec::new();
    let mut state = *root;
    let mut k: u8 = 0;
    while k < max_len
        invariant
            tt.wf(),
            game_eq_laws::<G>(),
            k <= max_len,
            pv.len() == k,
            pv@ + pv_spec(tt@, state, (max_len - k) as nat) == pv_spec(tt@, *root, max_len as nat),
        decreases max_len - k,
    {
        let ghost rest = pv_spec(tt@, state, (max_len - k) as nat);
        let mv = match tt.probe(G::position_key(&state)) {
            Some(entry) => match entry.best_move {
                Some(mv) => mv,
                None => {
                    assert(rest =~= Seq::<G::Move>::empty());
                    assert(pv@ + rest =~= pv@);
                    return pv;
                },
            },
            None => {
                assert(rest =~= Seq::<G::Move>::empty());
                assert(pv@ + rest =~= pv@);
                return pv;
            },
        };
        let ghost before = pv@;
        pv.push(mv);
        state = G::apply_move(&state, mv);
        k = k + 1;
        match G::result(&state) {
            GameResult::InProgress => {
                assert(rest == seq![mv] + pv_spec(tt@, state, (max_len - k) as nat));
                assert(pv@ + pv_spec(tt@, state, (max_len - k) as nat) =~= before + rest);
            },
            _ => {
                assert(rest == seq![mv]);
                assert(pv@ =~= before + rest);
                return pv;
            },
        }
    }
    assert(pv_spec(tt@, state, 0) =~= Seq::<G::Move>::empty());
    assert(pv@ + pv_spec(tt@, state, 0) =~= pv@);
    pv
}

/// `a + b`, saturating at the bounds of `i32`.
fn saturating_add_i32(a: i32, b: i32) -> (sum: i32)
    ensures
        sum == (if a + b > i32::MAX {
            i32::MAX as int
        } else if a + b < i32::MIN {
            i32::MIN as int
        } else {
            a + b
        }),
{
    let wide = a as i64 + b as i64;
    if wide > i32::MAX as i64 {
        i32::MAX
    } else if wide < i32::MIN as i64 {
        i32::MIN
    } else {
        wide as i32
    }
}

/// Searches the successor `child` of `state` reached by `mv`, the
/// `move_index`th move tried, returning its score from `state`'s side and
/// whether it depended on the current line's repetitions. Under late-move
/// reductions an eligible move is first searched one ply shallower and
/// re-searched at full depth only if it beats `alpha`; otherwise, with
/// principal variation search, every move after the first is scouted
/// with a null window and re-searched at the full window only if the
/// scout lands strictly inside `(alpha, beta)`.
pub fn search_child<G: Game, H: SearchHooks<G>>(
    hooks: &H,
    ctx: &mut SearchContext<G>,
    state: &G::State,
    mv: G::Move,
    child: &G::State,
    move_index: usize,
    depth: u8,
    alpha: i32,
    beta: i32,
    ply: usize,
    tt_move: Option<G::Move>,
    killers: Killers<G::Move>,
) -> (res: Option<(i32, bool)>)
    requires
        old(ctx).wf(),
        old(ctx).history.len() == H::HISTORY_BUCKETS,
        hooks_wf::<G, H>(*hooks),
        game_eq_laws::<G>(),
        game_wf::<G>(),
        *child == G::spec_apply_move(*state, mv),
        depth >= 1,
        ply < old(ctx).max_ply,
        alpha > i32::MIN,
        beta > i32::MIN,
        move_index > 0 ==> alpha < beta,
    ensures
        final(ctx).wf(),
        final(ctx).same_settings(&*old(ctx)),
        final(ctx).path@ == old(ctx).path@,
        search_call_ends(*old(ctx), *final(ctx), res is None),
        counters_advance(*old(ctx), *final(ctx)),
        forall|p: int| 0 <= p <= ply ==> #[trigger] final(ctx).killers[p] == old(ctx).killers[p],
        keeps_line(old(ctx).tt@, final(ctx).tt@, old(ctx).path@),
        res is Some ==> final(ctx).nodes > old(ctx).nodes || old(ctx).nodes == u64::MAX,
        res matches Some((_, tainted)) ==> (meets_no_repetition::<G>(
            old(ctx).max_ply as int,
            *child,
            (depth - 1) as nat,
            ply + 1,
            old(ctx).path@,
        ) ==> !tainted),
        res matches Some((s, _)) ==> {
            &&& -score_bound() <= s <= score_bound()
            &&& (old(ctx).lmr && alpha < beta) ==> fail_soft_range(
                s as int,
                alpha as int,
                beta as int,
                lmr_child(
                    *hooks,
                    old(ctx).max_ply as int,
                    old(ctx).quiescence_max_extra_ply,
                    *state,
                    mv,
                    depth as nat,
                    ply as int,
                    old(ctx).path@,
                    false,
                ),
                lmr_child(
                    *hooks,
                    old(ctx).max_ply as int,
                    old(ctx).quiescence_max_extra_ply,
                    *state,
                    mv,
                    depth as nat,
                    ply as int,
                    old(ctx).path@,
                    true,
                ),
            )
            &&& (!old(ctx).lmr && alpha < beta) ==> fail_soft(
                s as int,
                alpha as int,
                beta as int,
                nm_child(
                    *hooks,
                    old(ctx).max_ply as int,
                    old(ctx).quiescence_max_extra_ply,
                    *state,
                    mv,
                    depth as nat,
                    ply as int,
                    old(ctx).path@,
                ),
            )
        },
    decreases depth, 0nat,
{
    let ghost ctx0 = *ctx;
    let lmr_eligible = ctx.lmr && is_lmr_eligible(hooks, state, &mv, depth, move_index, tt_move, killers);
    if lmr_eligible {
        ctx.lmr_reductions = ctx.lmr_reductions.saturating_add(1);
        let ghost ctx1 = *ctx;
        proof {
            if meets_no_repetition::<G>(ctx0.max_ply as int, *child, (depth - 1) as nat, ply + 1, ctx0.path@) {
                lemma_meets_no_repetition_shallower::<G>(
                    ctx0.max_ply as int,
                    *child,
                    (depth - 1) as nat,
                    (depth - 1 - LMR_REDUCTION) as nat,
                    ply + 1,
                    ctx0.path@,
                );
            }
        }
        let first = negamax(hooks, ctx, child, depth - 1 - LMR_REDUCTION, -beta, -alpha, ply + 1);
        proof {
            lemma_keeps_line_trans(ctx0.tt@, ctx1.tt@, ctx.tt@, ctx0.path@);
        }
        let (reduced, tainted) = match first {
            Some((s, _, t)) => (-s, t),
            None => {
                return None;
            },
        };
        if reduced > alpha {
            ctx.lmr_researches = ctx.lmr_researches.saturating_add(1);
            let ghost ctx2 = *ctx;
            let second = negamax(hooks, ctx, child, depth - 1, -beta, -alpha, ply + 1);
            proof {
                lemma_keeps_line_trans(ctx0.tt@, ctx2.tt@, ctx.tt@, ctx0.path@);
            }
            match second {
                Some((s, _, t)) => Some((-s, tainted || t)),
                None => None,
            }
        } else {
            Some((reduced, tainted))
        }
    } else {
        let use_scout = ctx.pvs && move_index > 0;
        let mut tainted = false;
        let mut scout_score: i32 = 0;
        if use_scout {
            let scout = negamax(hooks, ctx, child, depth - 1, -alpha - 1, -alpha, ply + 1);
            match scout {
                Some((s, _, t)) => {
                    tainted = t;
                    scout_score = -s;
                },
                None => {
                    return None;
                },
            }
        }
        let needs_full_search = !use_scout || (scout_score > alpha && scout_score < beta);
        if needs_full_search {
            if use_scout {
                ctx.pvs_researches = ctx.pvs_researches.saturating_add(1);
            }
            let ghost ctx2 = *ctx;
            let full = negamax(hooks, ctx, child, depth - 1, -beta, -alpha, ply + 1);
            proof {
                lemma_keeps_line_trans(ctx0.tt@, ctx2.tt@, ctx.tt@, ctx0.path@);
            }
            match full {
                Some((s, _, t)) => Some((-s, tainted || t)),
                None => None,
            }
        } else {
            Some((scout_score, tainted))
        }
    }
}

/// Negamax alpha-beta over `state` to `depth` plies. `None` means the
/// search was aborted (node or time limit) and the result must be
/// discarded. Otherwise returns the score, the best move (exactly for a
/// node that ran its move loop) and whether the score depended on the
/// current line's repetitions (such a score is never stored in the
/// table). The score is a fail-soft bound of `nm_value` without
/// late-move reductions, and of the range `lmr_value` spans with them;
/// a node that does not expand returns its exact value and leaves the
/// table, killers and history alone.
#[verifier::rlimit(100)]
#[verifier::spinoff_prover]
pub fn negamax<G: Game, H: SearchHooks<G>>(
    hooks: &H,
    ctx: &mut SearchContext<G>,
    state: &G::State,
    depth: u8,
    alpha: i32,
    beta: i32,
    ply: usize,
) -> (res: Option<(i32, Option<G::Move>, bool)>)
    requires
        old(ctx).wf(),
        old(ctx).history.len() == H::HISTORY_BUCKETS,
        hooks_wf::<G, H>(*hooks),
        game_eq_laws::<G>(),
        game_wf::<G>(),
        ply <= old(ctx).max_ply,
        alpha > i32::MIN,
        beta > i32::MIN,
    ensures
        final(ctx).wf(),
        final(ctx).same_settings(&*old(ctx)),
        final(ctx).path@ == old(ctx).path@,
        search_call_ends(*old(ctx), *final(ctx), res is None),
        (!old(ctx).aborted && old(ctx).deadline is None && limit_hit(
            old(ctx).settings(),
            old(ctx).model(),
        )) ==> res is None && final(ctx).model() == old(ctx).model(),
        (!old(ctx).aborted && old(ctx).deadline is None && !limit_hit(
            old(ctx).settings(),
            old(ctx).model(),
        ) && !expands::<G>(old(ctx).max_ply as int, *state, depth as nat, ply as int, old(ctx).path@)
            && !enters_quiescence::<G>(
            old(ctx).max_ply as int,
            old(ctx).quiescence_max_extra_ply,
            *state,
            depth as nat,
            ply as int,
            old(ctx).path@,
        )) ==> res is Some,
        (!old(ctx).aborted && old(ctx).deadline is None && !limit_hit(
            old(ctx).settings(),
            old(ctx).model(),
        ) && enters_quiescence::<G>(
            old(ctx).max_ply as int,
            old(ctx).quiescence_max_extra_ply,
            *state,
            depth as nat,
            ply as int,
            old(ctx).path@,
        )) ==> q_search(
            *hooks,
            old(ctx).settings(),
            SearchModel { nodes: inc(old(ctx).nodes), ..old(ctx).model() },
            old(ctx).path@,
            *state,
            alpha as int,
            beta as int,
            ply as int,
            old(ctx).quiescence_max_extra_ply->0 as nat,
        ) == (final(ctx).model(), match res {
            Some((v, _, _)) => Some(v as int),
            None => None,
        }),
        counters_advance(*old(ctx), *final(ctx)),
        forall|p: int| 0 <= p < ply ==> #[trigger] final(ctx).killers[p] == old(ctx).killers[p],
        keeps_line(old(ctx).tt@, final(ctx).tt@, old(ctx).path@),
        res matches Some((score, best_move, path_dependent)) ==> {
            &&& final(ctx).nodes > old(ctx).nodes || old(ctx).nodes == u64::MAX
            &&& best_move is Some <==> expands::<G>(
                old(ctx).max_ply as int,
                *state,
                depth as nat,
                ply as int,
                old(ctx).path@,
            )
            &&& meets_no_repetition::<G>(
                old(ctx).max_ply as int,
                *state,
                depth as nat,
                ply as int,
                old(ctx).path@,
            ) ==> !path_dependent
            &&& path_dependent ==> probe_kept_or_evicted(
                old(ctx).tt@,
                final(ctx).tt@,
                G::spec_position_key(*state),
            )
            &&& !expands::<G>(old(ctx).max_ply as int, *state, depth as nat, ply as int, old(ctx).path@)
                ==> {
                &&& final(ctx).tt == old(ctx).tt
                &&& final(ctx).killers == old(ctx).killers
                &&& final(ctx).history == old(ctx).history
                &&& final(ctx).tt_hits == old(ctx).tt_hits
                &&& final(ctx).beta_cutoffs == old(ctx).beta_cutoffs
                &&& final(ctx).pvs_researches == old(ctx).pvs_researches
                &&& final(ctx).lmr_reductions == old(ctx).lmr_reductions
                &&& final(ctx).lmr_researches == old(ctx).lmr_researches
                &&& path_dependent == (G::spec_result(*state) is InProgress
                    && old(ctx).path@.contains(G::spec_position_key(*state)))
                &&& alpha < beta ==> fail_soft(
                    score as int,
                    alpha as int,
                    beta as int,
                    nm_value(
                        *hooks,
                        old(ctx).max_ply as int,
                        old(ctx).quiescence_max_extra_ply,
                        *state,
                        depth as nat,
                        ply as int,
                        old(ctx).path@,
                    ),
                )
                &&& !enters_quiescence::<G>(
                    old(ctx).max_ply as int,
                    old(ctx).quiescence_max_extra_ply,
                    *state,
                    depth as nat,
                    ply as int,
                    old(ctx).path@,
                ) ==> {
                    &&& score == nm_value(
                        *hooks,
                        old(ctx).max_ply as int,
                        old(ctx).quiescence_max_extra_ply,
                        *state,
                        depth as nat,
                        ply as int,
                        old(ctx).path@,
                    )
                    &&& final(ctx).nodes == saturating_inc(old(ctx).nodes)
                    &&& final(ctx).quiescence_nodes == old(ctx).quiescence_nodes
                }
            }
            &&& final(ctx).killers[ply as int] == (if expands::<G>(
                old(ctx).max_ply as int,
                *state,
                depth as nat,
                ply as int,
                old(ctx).path@,
            ) && old(ctx).killer_moves && (score >= beta || alpha >= beta)
                && !hooks.spec_move_features(*state, best_move->0).is_capture {
                killers_after_cutoff(old(ctx).killers[ply as int], best_move->0)
            } else {
                old(ctx).killers[ply as int]
            })
            &&& (expands::<G>(
                old(ctx).max_ply as int,
                *state,
                depth as nat,
                ply as int,
                old(ctx).path@,
            ) && old(ctx).use_tt && !path_dependent) ==> exists|t: TtView<G>|
                final(ctx).tt@ == #[trigger] t.stored(
                    G::spec_position_key(*state),
                    depth,
                    stored_bound(score as int, alpha as int, beta as int),
                    crate::scores::spec_score_to_tt(score as int, ply as int) as i32,
                    best_move,
                )
            &&& (expands::<G>(
                old(ctx).max_ply as int,
                *state,
                depth as nat,
                ply as int,
                old(ctx).path@,
            ) && (score >= beta || alpha >= beta) && old(ctx).history_heuristic
                && !hooks.spec_move_features(*state, best_move->0).is_capture
                && hooks.spec_move_features(*state, best_move->0).history_bucket is Some) ==> exists|
                hist: Seq<i32>,
            |
                final(ctx).history@ == #[trigger] history_after_cutoff(
                    hist,
                    hooks.spec_move_features(*state, best_move->0).history_bucket->0,
                    old(ctx).history_bonus.spec_value(depth),
                )
            &&& -score_bound() <= score <= score_bound()
            &&& best_move matches Some(m) ==> G::spec_legal_moves(*state).contains(m)
            &&& (old(ctx).lmr && alpha < beta) ==> fail_soft_range(
                score as int,
                alpha as int,
                beta as int,
                lmr_value(
                    *hooks,
                    old(ctx).max_ply as int,
                    old(ctx).quiescence_max_extra_ply,
                    *state,
                    depth as nat,
                    ply as int,
                    old(ctx).path@,
                    false,
                ),
                lmr_value(
                    *hooks,
                    old(ctx).max_ply as int,
                    old(ctx).quiescence_max_extra_ply,
                    *state,
                    depth as nat,
                    ply as int,
                    old(ctx).path@,
                    true,
                ),
            )
            &&& (old(ctx).lmr && alpha < score < beta && best_move is Some) ==> lmr_child(
                *hooks,
                old(ctx).max_ply as int,
                old(ctx).quiescence_max_extra_ply,
                *state,
                best_move->0,
                depth as nat,
                ply as int,
                old(ctx).path@.push(G::spec_position_key(*state)),
                false,
            ) <= score <= lmr_child(
                *hooks,
                old(ctx).max_ply as int,
                old(ctx).quiescence_max_extra_ply,
                *state,
                best_move->0,
                depth as nat,
                ply as int,
                old(ctx).path@.push(G::spec_position_key(*state)),
                true,
            )
            &&& (!old(ctx).lmr && alpha < beta) ==> fail_soft(
                score as int,
                alpha as int,
                beta as int,
                nm_value(
                    *hooks,
                    old(ctx).max_ply as int,
                    old(ctx).quiescence_max_extra_ply,
                    *state,
                    depth as nat,
                    ply as int,
                    old(ctx).path@,
                ),
            )
            &&& (!old(ctx).lmr && alpha < score < beta && best_move is Some) ==> nm_child(
                *hooks,
                old(ctx).max_ply as int,
                old(ctx).quiescence_max_extra_ply,
                *state,
                best_move->0,
                depth as nat,
                ply as int,
                old(ctx).path@.push(G::spec_position_key(*state)),
            ) == score
            &&& (!old(ctx).lmr && alpha < score < beta && G::spec_result(*state) is InProgress
                && !old(ctx).path@.contains(G::spec_position_key(*state)) && ply < old(ctx).max_ply && depth > 0) ==> best_move is Some
        },
    decreases depth, 1nat,
{
    let ghost ctx0 = *ctx;
    check_limits(ctx);
    if ctx.aborted {
        return None;
    }
    ctx.nodes = ctx.nodes.saturating_add(1);
    match G::result(state) {
        GameResult::Win(winner) => {
            return Some((mate_score::<G>(state, &winner, ply), None, false));
        },
        GameResult::Draw => {
            return Some((0, None, false));
        },
        GameResult::InProgress => {},
    }
    let key = G::position_key(state);
    if path_contains::<G>(&ctx.path, &key) {
        return Some((0, None, true));
    }
    if ply >= ctx.max_ply {
        return Some((hooks.evaluate(state), None, false));
    }
    if depth == 0 {
        let score = match ctx.quiescence_max_extra_ply {
            Some(extra_ply) => match quiescence(hooks, ctx, state, alpha, beta, ply, extra_ply) {
                Some(s) => s,
                None => {
                    return None;
                },
            },
            None => hooks.evaluate(state),
        };
        return Some((score, None, false));
    }
    let orig_alpha = alpha;
    let mut tt_move: Option<G::Move> = None;
    if ctx.use_tt {
        match ctx.tt.probe(key) {
            Some(entry) => {
                ctx.tt_hits = ctx.tt_hits.saturating_add(1);
                tt_move = entry.best_move;
            },
            None => {},
        }
    }
    let mut moves = G::legal_moves(state);
    let ghost legal = moves@;
    assert(legal.len() == moves.len());
    let killers_at_ply = ctx.killers[ply];
    match &ctx.root_policy {
        Some(policy) if ply == 0 => {
            order_root_moves(hooks, &mut moves, state, tt_move, policy);
            proof {
                lemma_sorted_same_items(
                    legal,
                    legal.map_values(
                        |m: G::Move| root_order_key(*hooks, *state, tt_move, *policy, m),
                    ),
                    moves@,
                );
            }
        },
        _ => {
            order_moves(
                hooks,
                &mut moves,
                state,
                tt_move,
                killers_at_ply,
                &ctx.history,
                ctx.killer_moves,
                ctx.history_heuristic,
            );
            proof {
                lemma_sorted_same_items(
                    legal,
                    move_order_keys(
                        *hooks,
                        *state,
                        tt_move,
                        killers_at_ply,
                        ctx.history@,
                        ctx.killer_moves,
                        ctx.history_heuristic,
                        legal,
                    ),
                    moves@,
                );
            }
        },
    }
    let ghost max_ply = ctx0.max_ply as int;
    let ghost qext = ctx0.quiescence_max_extra_ply;
    let ghost child_path = ctx0.path@.push(key);
    let ghost proper = alpha < beta;
    let ghost exact = !ctx0.lmr && alpha < beta;
    let ghost ranged = ctx0.lmr && alpha < beta;
    ctx.path.push(key);
    let mut alpha = alpha;
    let mut best_score: i32 = i32::MIN + 1;
    let mut best_move: Option<G::Move> = None;
    let mut was_aborted = false;
    let mut path_dependent = false;
    let mut cutoff = false;
    let ghost mut witness: G::Move = moves@[0];
    let ghost mut witness_hi: G::Move = moves@[0];
    let ghost mut hist_w: Seq<i32> = ctx.history@;
    let mut i: usize = 0;
    while i < moves.len() && !was_aborted && !cutoff
        invariant
            ctx.wf(),
            ctx.same_settings(&ctx0),
            ctx.path@ == child_path,
            ctx.history.len() == H::HISTORY_BUCKETS,
            !ctx0.aborted,
            ctx.nodes >= ctx0.nodes,
            ctx.aborted == was_aborted,
            ctx.aborted ==> ((ctx0.node_limit matches Some(l) && ctx.nodes >= l)
                || ctx0.deadline is Some),
            hooks_wf::<G, H>(*hooks),
            game_eq_laws::<G>(),
            game_wf::<G>(),
            ply < ctx0.max_ply,
            max_ply == ctx0.max_ply,
            qext == ctx0.quiescence_max_extra_ply,
            depth >= 1,
            i <= moves.len(),
            moves.len() > 0,
            beta > i32::MIN,
            alpha > i32::MIN,
            orig_alpha > i32::MIN,
            proper == (orig_alpha < beta),
            exact == (!ctx0.lmr && proper),
            ranged == (ctx0.lmr && proper),
            ranged && !cutoff && !was_aborted ==> forall|j: int|
                0 <= j < i ==> #[trigger] lmr_child(
                    *hooks,
                    max_ply,
                    qext,
                    *state,
                    moves@[j],
                    depth as nat,
                    ply as int,
                    child_path,
                    false,
                ) <= best_score,
            ranged && !cutoff && !was_aborted && best_score > orig_alpha ==> (best_move == Some(
                witness_hi,
            ) && legal.contains(witness_hi) && lmr_child(*hooks, max_ply, qext, *state, witness_hi, depth as nat, ply as int, child_path, true)
                >= best_score),
            ranged && cutoff ==> (legal.contains(witness_hi) && lmr_child(
                *hooks,
                max_ply,
                qext,
                *state,
                witness_hi,
                depth as nat,
                ply as int,
                child_path,
                true,
            ) >= best_score),
            counters_advance(ctx0, *ctx),
            ctx.nodes > ctx0.nodes || ctx0.nodes == u64::MAX,
            forall|p: int| 0 <= p < ply ==> #[trigger] ctx.killers[p] == ctx0.killers[p],
            killers_at_ply == ctx0.killers[ply as int],
            G::spec_result(*state) is InProgress,
            key == G::spec_position_key(*state),
            !ctx0.path@.contains(key),
            child_path == ctx0.path@.push(key),
            meets_no_repetition::<G>(max_ply, *state, depth as nat, ply as int, ctx0.path@)
                ==> !path_dependent,
            (cutoff && ctx0.history_heuristic && best_move is Some && !hooks.spec_move_features(
                *state,
                best_move->0,
            ).is_capture && hooks.spec_move_features(*state, best_move->0).history_bucket is Some)
                ==> ctx.history@ == history_after_cutoff(
                hist_w,
                hooks.spec_move_features(*state, best_move->0).history_bucket->0,
                ctx0.history_bonus.spec_value(depth),
            ),
            ctx.killers[ply as int] == (if cutoff && ctx0.killer_moves && best_move is Some
                && !hooks.spec_move_features(*state, best_move->0).is_capture {
                killers_after_cutoff(ctx0.killers[ply as int], best_move->0)
            } else {
                ctx0.killers[ply as int]
            }),
            keeps_line(ctx0.tt@, ctx.tt@, child_path),
            i > 0 && !was_aborted ==> best_move is Some,
            cutoff ==> best_move is Some,
            i > 0 && !was_aborted ==> -score_bound() <= best_score <= score_bound(),
            i == 0 ==> best_score == i32::MIN + 1 && best_move is None && !cutoff,
            alpha == (if best_score > orig_alpha {
                best_score
            } else {
                orig_alpha
            }),
            i > 0 && !cutoff && !was_aborted ==> alpha < beta,
            cutoff ==> alpha >= beta,
            cutoff && proper ==> best_score >= beta,
            forall|m: G::Move| moves@.contains(m) ==> #[trigger] legal.contains(m),
            legal == G::spec_legal_moves(*state),
            best_move matches Some(m) ==> legal.contains(m),
            exact && !cutoff && !was_aborted ==> forall|j: int|
                0 <= j < i ==> #[trigger] nm_child(
                    *hooks,
                    max_ply,
                    qext,
                    *state,
                    moves@[j],
                    depth as nat,
                    ply as int,
                    child_path,
                ) <= best_score,
            exact && !cutoff && !was_aborted && best_score > orig_alpha ==> (best_move == Some(witness) && legal.contains(
                witness,
            ) && nm_child(*hooks, max_ply, qext, *state, witness, depth as nat, ply as int, child_path)
                == best_score),
            exact && cutoff ==> (legal.contains(witness) && nm_child(
                *hooks,
                max_ply,
                qext,
                *state,
                witness,
                depth as nat,
                ply as int,
                child_path,
            ) >= best_score),
        decreases moves.len() - i,
    {
        let mv = moves[i];
        let child = G::apply_move(state, mv);
        let ghost alpha_k = alpha;
        let ghost best_k = best_score;
        let ghost ctx_k = *ctx;
        proof {
            assert(moves@.contains(mv)) by {
                assert(moves@[i as int] == mv);
            }
        }
        let searched = search_child(
            hooks,
            ctx,
            state,
            mv,
            &child,
            i,
            depth,
            alpha,
            beta,
            ply,
            tt_move,
            killers_at_ply,
        );
        proof {
            lemma_keeps_line_trans(ctx0.tt@, ctx_k.tt@, ctx.tt@, child_path);
            lemma_counters_advance_trans(ctx0, ctx_k, *ctx);
        }
        match searched {
            Some((child_score, tainted)) => {
                proof {
                    if meets_no_repetition::<G>(max_ply, *state, depth as nat, ply as int, ctx0.path@) {
                        assert(G::spec_legal_moves(*state).contains(mv));
                        assert(meets_no_repetition::<G>(
                            max_ply,
                            child,
                            (depth - 1) as nat,
                            ply + 1,
                            child_path,
                        ));
                    }
                }
                if tainted {
                    path_dependent = true;
                }
                if child_score > best_score {
                    best_score = child_score;
                    best_move = Some(mv);
                    proof {
                        if exact && child_score > alpha_k {
                            witness = mv;
                        }
                        if ranged && child_score > alpha_k {
                            witness_hi = mv;
                        }
                    }
                }
                if best_score > alpha {
                    alpha = best_score;
                }
                if alpha >= beta {
                    cutoff = true;
                    proof {
                        witness = mv;
                        witness_hi = mv;
                    }
                    assert(best_move == Some(mv));
                    ctx.beta_cutoffs = ctx.beta_cutoffs.saturating_add(1);
                    let features = hooks.move_features(state, &mv);
                    if !features.is_capture {
                        if ctx.killer_moves {
                            let slot = ctx.killers[ply];
                            if !holds_move(&slot.0, &mv) {
                                ctx.killers.set(ply, (Some(mv), slot.0));
                            }
                        }
                        if ctx.history_heuristic {
                            match features.history_bucket {
                                Some(bucket) => {
                                    let bonus = ctx.history_bonus.value(depth);
                                    let current = ctx.history[bucket];
                                    proof {
                                        hist_w = ctx.history@;
                                    }
                                    ctx.history.set(bucket, saturating_add_i32(current, bonus));
                                },
                                None => {},
                            }
                        }
                    }
                }
            },
            None => {
                was_aborted = true;
            },
        }
        i = i + 1;
    }
    ctx.path.pop();
    assert(ctx.path@ =~= ctx0.path@);
    if was_aborted {
        return None;
    }
    proof {
        let v = nm_value(*hooks, max_ply, qext, *state, depth as nat, ply as int, ctx0.path@);
        assert(v == nm_fold(*hooks, max_ply, qext, *state, legal, depth as nat, ply as int, child_path));
        lemma_nm_fold(*hooks, max_ply, qext, *state, legal, depth as nat, ply as int, child_path, best_score as int);
        lemma_lmr_fold(*hooks, max_ply, qext, *state, legal, depth as nat, ply as int, child_path, false, best_score as int);
        lemma_lmr_fold(*hooks, max_ply, qext, *state, legal, depth as nat, ply as int, child_path, true, best_score as int);
        assert(lmr_value(*hooks, max_ply, qext, *state, depth as nat, ply as int, ctx0.path@, false)
            == lmr_fold(*hooks, max_ply, qext, *state, legal, depth as nat, ply as int, child_path, false));
        assert(lmr_value(*hooks, max_ply, qext, *state, depth as nat, ply as int, ctx0.path@, true)
            == lmr_fold(*hooks, max_ply, qext, *state, legal, depth as nat, ply as int, child_path, true));
        if ranged && !cutoff {
            assert forall|m: G::Move| legal.contains(m) implies #[trigger] lmr_child(
                *hooks,
                max_ply,
                qext,
                *state,
                m,
                depth as nat,
                ply as int,
                child_path,
                false,
            ) <= best_score by {
                let j = choose|j: int| 0 <= j < legal.len() && legal[j] == m;
                assert(moves@.contains(legal[j]));
                let k = choose|k: int| 0 <= k < moves@.len() && moves@[k] == m;
            }
        }
        if exact && !cutoff {
            assert forall|m: G::Move| legal.contains(m) implies #[trigger] nm_child(
                *hooks,
                max_ply,
                qext,
                *state,
                m,
                depth as nat,
                ply as int,
                child_path,
            ) <= best_score by {
                let j = choose|j: int| 0 <= j < legal.len() && legal[j] == m;
                assert(moves@.contains(legal[j]));
                let k = choose|k: int| 0 <= k < moves@.len() && moves@[k] == m;
            }
        }
    }
    let ghost tt_loop = ctx.tt@;
    proof {
        ctx.tt.lemma_wf_nonempty();
        assert forall|k: G::PositionKey| ctx0.path@.contains(k) implies #[trigger] probe_kept_or_evicted(
            ctx0.tt@,
            tt_loop,
            k,
        ) by {
            assert(child_path.contains(k));
        }
    }
    if ctx.use_tt && !path_dependent {
        let bound = if best_score <= orig_alpha {
            Bound::Upper
        } else if best_score >= beta {
            Bound::Lower
        } else {
            Bound::Exact
        };
        let stored = score_to_tt(best_score, ply);
        ctx.tt.store(key, depth, bound, stored, best_move);
        assert(ctx.tt@ == tt_loop.stored(key, depth, bound, stored, best_move));
        proof {
            assert forall|k: G::PositionKey| ctx0.path@.contains(k) implies #[trigger] probe_kept_or_evicted(
                ctx0.tt@,
                ctx.tt@,
                k,
            ) by {
                assert(probe_kept_or_evicted(ctx0.tt@, tt_loop, k));
                tt_loop.law_store_keeps_or_evicts_other_keys(key, depth, bound, stored, best_move, k);
            }
        }
    } else {
        proof {
            assert(child_path.contains(key));
        }
    }
    proof {
        if ctx0.use_tt && !path_dependent {
            let stored_score = crate::scores::spec_score_to_tt(best_score as int, ply as int);
            assert(stored_score as i32 == stored_score);
            assert(ctx.tt@ == tt_loop.stored(
                key,
                depth,
                stored_bound(best_score as int, orig_alpha as int, beta as int),
                stored_score as i32,
                best_move,
            ));
        }
        if cutoff && ctx0.history_heuristic && !hooks.spec_move_features(*state, best_move->0).is_capture
            && hooks.spec_move_features(*state, best_move->0).history_bucket is Some {
            assert(ctx.history@ == history_after_cutoff(
                hist_w,
                hooks.spec_move_features(*state, best_move->0).history_bucket->0,
                ctx0.history_bonus.spec_value(depth),
            ));
        }
    }
    Some((best_score, best_move, path_dependent))
}

} // verus!
