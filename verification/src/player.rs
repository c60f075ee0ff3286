//! The iterative-deepening player: runs the search depth after depth
//! within the configured limit and reports the last completed depth.

use crate::clock;
use crate::config::{AlphaBetaConfig, SearchLimit};
use crate::game::{game_eq_laws, game_wf, same_value, Game, GameResult};
use crate::hooks::{hooks_wf, SearchHooks};
use crate::ordering::{policy_matches_moves, policy_moves, RankedPolicy};
use crate::scores::{MATE, MAX_PLY_LIMIT};
use crate::search::{
    counters_advance, lemma_counters_advance_trans, negamax, pv_spec, reconstruct_pv, SearchContext,
};
use crate::tt::TranspositionTable;
use crate::value::{fail_soft, fail_soft_range, lmr_child, lmr_value, nm_child, nm_value};
use vstd::prelude::*;
use web_time::{Duration, Instant};

verus! {

/// What a root-policy evaluator's one call produced, as the search uses
/// it: its policy with probabilities ranked (`None` when a probability
/// was not finite), how long the call took, and the clock reading taken
/// just before it, from which the move's time budget and elapsed time
/// count, so that the call is charged to the move.
pub struct RootPolicyReport<M> {
    pub policy: Option<RankedPolicy<M>>,
    pub time: Duration,
    pub started: Instant,
}

/// The result of one `analyze` call.
#[derive(Clone, Debug)]
pub struct AlphaBetaAnalysis<G: Game> {
    pub best_move: G::Move,
    pub score: i32,
    pub completed_depth: u8,
    pub selective_depth: u8,
    pub nodes: u64,
    /// Of `nodes`, those spent in quiescence search.
    pub quiescence_nodes: u64,
    pub tt_hits: u64,
    pub beta_cutoffs: u64,
    /// Null-window scouts that had to be re-searched at the full window.
    pub pvs_researches: u64,
    /// Depths whose aspiration-window search failed and was re-searched.
    pub aspiration_researches: u64,
    /// Moves searched at a reduced depth under late-move reductions.
    pub lmr_reductions: u64,
    /// Of those, the ones re-searched at full depth.
    pub lmr_researches: u64,
    /// How many times the root-policy evaluator was actually called this
    /// move: 0 if none was passed to `analyze`, or the position had only
    /// one legal move; otherwise exactly 1, however many depths were
    /// searched (the policy is kept after its one call).
    pub root_policy_calls: u64,
    /// Whether that one call's policy was used for root ordering: `false`
    /// whenever `root_policy_calls == 0`, when the call's output failed
    /// validation (a non-finite probability, or a move set that differs
    /// from the legal moves), and under a zero-ply limit, which orders
    /// nothing.
    pub root_policy_used: bool,
    /// Time spent inside that one evaluator call, if any.
    pub root_policy_time: Duration,
    pub elapsed: Duration,
    pub principal_variation: Vec<G::Move>,
}

/// No search work beyond the node count: every other counter is zero.
pub open spec fn zero_search_counters<G: Game>(analysis: AlphaBetaAnalysis<G>) -> bool {
    &&& analysis.quiescence_nodes == 0
    &&& analysis.tt_hits == 0
    &&& analysis.beta_cutoffs == 0
    &&& analysis.pvs_researches == 0
    &&& analysis.aspiration_researches == 0
    &&& analysis.lmr_reductions == 0
    &&& analysis.lmr_researches == 0
}

/// How the counters of a search relate to each other and to the options
/// it ran with: quiescence nodes are among the nodes, late-move
/// re-searches among the reductions, and a disabled option counts
/// nothing; a completed depth counted at least one node.
pub open spec fn counters_agree<G: Game>(config: AlphaBetaConfig, analysis: AlphaBetaAnalysis<G>) -> bool {
    &&& analysis.quiescence_nodes <= analysis.nodes
    &&& analysis.lmr_researches <= analysis.lmr_reductions
    &&& !config.pvs ==> analysis.pvs_researches == 0
    &&& !config.lmr ==> analysis.lmr_reductions == 0 && analysis.lmr_researches == 0
    &&& config.tt_megabytes == 0 ==> analysis.tt_hits == 0
    &&& config.aspiration_window is None ==> analysis.aspiration_researches == 0
    &&& analysis.completed_depth >= 1 ==> analysis.nodes >= 1
}

/// The score a zero-ply search gives `mv` from `state`: a win or loss at
/// ply 1, a draw, or the negated static evaluation of the result.
pub open spec fn static_move_score<G: Game, H: SearchHooks<G>>(
    hooks: H,
    state: G::State,
    mv: G::Move,
) -> int {
    let child = G::spec_apply_move(state, mv);
    match G::spec_result(child) {
        GameResult::Win(winner) => if winner == G::spec_current_player(state) {
            MATE - 1
        } else {
            -(MATE - 1)
        },
        GameResult::Draw => 0,
        GameResult::InProgress => -(hooks.spec_evaluate(child) as int),
    }
}

/// A zero-ply search scores a move whose result is not won by anyone as
/// a one-ply negamax search without quiescence would: the negation of the
/// static evaluation of the resulting position, which is from the
/// opponent's side (a draw scoring 0), whatever the ply bound.
pub proof fn law_zero_ply_score_is_the_one_ply_value<G: Game, H: SearchHooks<G>>(
    hooks: H,
    state: G::State,
    mv: G::Move,
    max_ply: int,
)
    requires
        !(G::spec_result(G::spec_apply_move(state, mv)) is Win),
        G::spec_position_key(G::spec_apply_move(state, mv)) != G::spec_position_key(state),
    ensures
        static_move_score(hooks, state, mv) == nm_child(
            hooks,
            max_ply,
            None,
            state,
            mv,
            1,
            0,
            seq![G::spec_position_key(state)],
        ),
        G::spec_result(G::spec_apply_move(state, mv)) is InProgress ==> static_move_score(
            hooks,
            state,
            mv,
        ) == -(hooks.spec_evaluate(G::spec_apply_move(state, mv)) as int),
{
    let child = G::spec_apply_move(state, mv);
    let path = seq![G::spec_position_key(state)];
    assert(!path.contains(G::spec_position_key(child))) by {
        if path.contains(G::spec_position_key(child)) {
            let k = choose|k: int| 0 <= k < path.len() && path[k] == G::spec_position_key(child);
            assert(path[k] == G::spec_position_key(state));
        }
    }
}

/// `best_move` is the first of `legal` with the largest static score,
/// and `score` is that score.
pub open spec fn is_first_static_best<G: Game, H: SearchHooks<G>>(
    hooks: H,
    state: G::State,
    legal: Seq<G::Move>,
    best_move: G::Move,
    score: int,
) -> bool {
    exists|j: int|
        0 <= j < legal.len() && legal[j] == best_move && static_move_score(hooks, state, legal[j])
            == score && (forall|k: int|
            0 <= k < legal.len() ==> #[trigger] static_move_score(hooks, state, legal[k]) <= score)
            && (forall|k: int|
            0 <= k < j ==> #[trigger] static_move_score(hooks, state, legal[k]) < score)
}

/// What a completed search reports about its score. Without late-move
/// reductions: a fail-soft bound, for the full window `(-MATE - 1,
/// MATE + 1)`, of the depth-limited negamax value of `state` at the
/// completed depth (that value itself whenever the score lies inside the
/// window), and, for a position in progress that the search expands, a
/// best move whose value is the score whenever the score lies inside the
/// window. With them: the same for the range of values a search that may
/// reduce any move can reach, the best move's own range holding the score.
pub open spec fn reports_search_value<G: Game, H: SearchHooks<G>>(
    hooks: H,
    config: AlphaBetaConfig,
    state: G::State,
    analysis: AlphaBetaAnalysis<G>,
) -> bool {
    &&& (analysis.completed_depth >= 1 && !config.lmr) ==> {
        &&& fail_soft(
            analysis.score as int,
            -MATE - 1,
            MATE + 1,
            nm_value(
                hooks,
                config.max_ply as int,
                config.quiescence_max_extra_ply,
                state,
                analysis.completed_depth as nat,
                0,
                Seq::empty(),
            ),
        )
        &&& (-MATE - 1 < analysis.score < MATE + 1 && G::spec_result(state) is InProgress
            && config.max_ply > 0) ==> nm_child(
            hooks,
            config.max_ply as int,
            config.quiescence_max_extra_ply,
            state,
            analysis.best_move,
            analysis.completed_depth as nat,
            0,
            seq![G::spec_position_key(state)],
        ) == analysis.score
    }
    &&& (analysis.completed_depth >= 1 && config.lmr) ==> {
        &&& fail_soft_range(
            analysis.score as int,
            -MATE - 1,
            MATE + 1,
            lmr_value(
                hooks,
                config.max_ply as int,
                config.quiescence_max_extra_ply,
                state,
                analysis.completed_depth as nat,
                0,
                Seq::empty(),
                false,
            ),
            lmr_value(
                hooks,
                config.max_ply as int,
                config.quiescence_max_extra_ply,
                state,
                analysis.completed_depth as nat,
                0,
                Seq::empty(),
                true,
            ),
        )
        &&& (-MATE - 1 < analysis.score < MATE + 1 && G::spec_result(state) is InProgress
            && config.max_ply > 0) ==> lmr_child(
            hooks,
            config.max_ply as int,
            config.quiescence_max_extra_ply,
            state,
            analysis.best_move,
            analysis.completed_depth as nat,
            0,
            seq![G::spec_position_key(state)],
            false,
        ) <= analysis.score <= lmr_child(
            hooks,
            config.max_ply as int,
            config.quiescence_max_extra_ply,
            state,
            analysis.best_move,
            analysis.completed_depth as nat,
            0,
            seq![G::spec_position_key(state)],
            true,
        )
    }
}

/// Whether the depth-`k` negamax value of `state` is decisive within the
/// ply bound: a forced result found there ends iterative deepening.
pub open spec fn decisive_at<G: Game, H: SearchHooks<G>>(
    hooks: H,
    config: AlphaBetaConfig,
    state: G::State,
    k: nat,
) -> bool {
    let v = nm_value(
        hooks,
        config.max_ply as int,
        config.quiescence_max_extra_ply,
        state,
        k,
        0,
        Seq::empty(),
    );
    v >= MATE - config.max_ply || v <= -(MATE - config.max_ply)
}

/// Whether `score` is decisive within the ply bound `max_ply`.
pub open spec fn decisive_score(score: int, max_ply: usize) -> bool {
    score >= MATE - max_ply || score <= -(MATE - max_ply)
}

/// The deepest depth a `Depth(d)` limit (`d >= 1`) lets iterative
/// deepening reach: `d`, capped by the ply bound, and at least 1.
pub open spec fn depth_target(d: u8, max_ply: usize) -> nat {
    if max_ply == 0 {
        1
    } else if (d as int) < max_ply {
        d as nat
    } else {
        max_ply as nat
    }
}

/// The deepest depth iterative deepening ever reaches: the ply bound,
/// at least 1 and at most 255.
pub open spec fn depth_cap(max_ply: usize) -> nat {
    if max_ply == 0 {
        1
    } else if max_ply < 255 {
        max_ply as nat
    } else {
        255
    }
}

/// Where iterative deepening under a `Depth(d)` limit stops without
/// late-move reductions: at the first depth from 1 on whose value is
/// decisive, or at the target depth if no earlier one is.
pub open spec fn deepening_stops_at<G: Game, H: SearchHooks<G>>(
    hooks: H,
    config: AlphaBetaConfig,
    state: G::State,
    d: u8,
    k: nat,
) -> bool {
    &&& 1 <= k <= depth_target(d, config.max_ply)
    &&& (k == depth_target(d, config.max_ply) || decisive_at(hooks, config, state, k))
    &&& forall|j: nat| 1 <= j < k ==> !#[trigger] decisive_at(hooks, config, state, j)
}

/// How far a search deepens. Under a `Depth(d)` limit with `d >= 1` it
/// completes at least depth 1 and at most the target depth, stops short of
/// the target only on a decisive score, and, without late-move
/// reductions, stops exactly where `deepening_stops_at` says. Under a
/// node limit it stops short of the deepest depth only on a decisive
/// score or once the node limit is reached. No search completes a depth
/// beyond `depth_cap`.
pub open spec fn reports_deepening<G: Game, H: SearchHooks<G>>(
    hooks: H,
    config: AlphaBetaConfig,
    state: G::State,
    analysis: AlphaBetaAnalysis<G>,
) -> bool {
    match config.limit {
        SearchLimit::Depth(d) => d >= 1 ==> {
            &&& 1 <= analysis.completed_depth <= depth_target(d, config.max_ply)
            &&& analysis.completed_depth < depth_target(d, config.max_ply) ==> decisive_score(
                analysis.score as int,
                config.max_ply,
            )
            &&& !config.lmr ==> deepening_stops_at(
                hooks,
                config,
                state,
                d,
                analysis.completed_depth as nat,
            )
        },
        SearchLimit::Nodes(n) => {
            &&& analysis.completed_depth <= depth_cap(config.max_ply)
            &&& (analysis.completed_depth < depth_cap(config.max_ply) && !(analysis.completed_depth
                >= 1 && decisive_score(analysis.score as int, config.max_ply))) ==> analysis.nodes
                >= n
        },
        SearchLimit::MoveTime(_) => analysis.completed_depth <= depth_cap(config.max_ply),
    }
}

/// A score and the negamax value it is a full-window fail-soft bound of
/// are decisive together.
proof fn lemma_decisive_bound(score: int, v: int, max_ply: usize)
    requires
        fail_soft(score, -MATE - 1, MATE + 1, v),
    ensures
        decisive_score(score, max_ply) == decisive_score(v, max_ply),
{
}

/// The transposition table, principal variation search, killer moves, the
/// history heuristic and its bonus, aspiration windows and a root policy
/// change only how fast a search proves its result, never the result: two
/// searches of one position under one fixed depth limit, with the same
/// ply bound and quiescence and without late-move reductions, complete
/// the same depth; when either score lies strictly inside the full window
/// both report that score, and each reported move reaches the other's
/// score.
pub proof fn law_search_options_never_change_the_score<G: Game, H: SearchHooks<G>>(
    hooks: H,
    state: G::State,
    depth: u8,
    c1: AlphaBetaConfig,
    c2: AlphaBetaConfig,
    a1: AlphaBetaAnalysis<G>,
    a2: AlphaBetaAnalysis<G>,
)
    requires
        depth >= 1,
        c1.limit == SearchLimit::Depth(depth),
        c2.limit == SearchLimit::Depth(depth),
        c1.max_ply == c2.max_ply,
        c1.quiescence_max_extra_ply == c2.quiescence_max_extra_ply,
        !c1.lmr,
        !c2.lmr,
        reports_search_value(hooks, c1, state, a1),
        reports_search_value(hooks, c2, state, a2),
        reports_deepening(hooks, c1, state, a1),
        reports_deepening(hooks, c2, state, a2),
    ensures
        a1.completed_depth == a2.completed_depth,
        (-MATE - 1 < a1.score < MATE + 1 || -MATE - 1 < a2.score < MATE + 1) ==> a1.score
            == a2.score,
        (-MATE - 1 < a1.score < MATE + 1 && G::spec_result(state) is InProgress && c1.max_ply
            > 0) ==> nm_child(
            hooks,
            c2.max_ply as int,
            c2.quiescence_max_extra_ply,
            state,
            a1.best_move,
            a2.completed_depth as nat,
            0,
            seq![G::spec_position_key(state)],
        ) == a2.score,
{
    let k1 = a1.completed_depth as nat;
    let k2 = a2.completed_depth as nat;
    assert(deepening_stops_at(hooks, c1, state, depth, k1));
    assert(deepening_stops_at(hooks, c2, state, depth, k2));
    assert forall|j: nat| true implies decisive_at(hooks, c1, state, j) == decisive_at(
        hooks,
        c2,
        state,
        j,
    ) by {}
    if k1 < k2 {
        assert(decisive_at(hooks, c2, state, k1));
    } else if k2 < k1 {
        assert(decisive_at(hooks, c1, state, k2));
    }
}

/// Where iterative deepening stands before searching `depth` (or after
/// finishing), with `nodes` counted so far: under a `Depth(d)` limit no
/// depth it passed was the target or, without late-move reductions,
/// decisive; under any limit it stays within `depth_cap`, and under a
/// node limit it finished early only on a decisive score or the limit.
spec fn deepening_progress<G: Game, H: SearchHooks<G>>(
    hooks: H,
    config: AlphaBetaConfig,
    state: G::State,
    best: AlphaBetaAnalysis<G>,
    depth: u8,
    finished: bool,
    nodes: u64,
) -> bool {
    &&& !finished ==> depth <= depth_cap(config.max_ply)
    &&& best.completed_depth <= depth_cap(config.max_ply)
    &&& match config.limit {
        SearchLimit::Depth(d) => d >= 1 ==> {
            &&& !finished ==> {
                &&& depth <= depth_target(d, config.max_ply)
                &&& !config.lmr ==> forall|j: nat|
                    1 <= j < depth ==> !#[trigger] decisive_at(hooks, config, state, j)
            }
            &&& finished ==> reports_deepening(hooks, config, state, best)
        },
        SearchLimit::Nodes(n) => finished ==> ((best.completed_depth < depth_cap(config.max_ply)
            && !(best.completed_depth >= 1 && decisive_score(best.score as int, config.max_ply)))
            ==> nodes >= n),
        SearchLimit::MoveTime(_) => true,
    }
}

/// Starting a new game forgets what earlier games taught the table: a
/// player just reset and a player just made, with one configuration,
/// hold tables with the same contents.
pub proof fn law_reset_matches_a_fresh_player<G: Game, H: SearchHooks<G>>(
    reset: AlphaBetaPlayer<G, H>,
    fresh: AlphaBetaPlayer<G, H>,
)
    requires
        reset.config == fresh.config,
        reset.tt@.generation == 0,
        fresh.tt@.generation == 0,
        reset.tt@.slots.len() == fresh.tt@.slots.len(),
        forall|i: int| 0 <= i < reset.tt@.slots.len() ==> #[trigger] reset.tt@.slots[i] is None,
        forall|i: int| 0 <= i < fresh.tt@.slots.len() ==> #[trigger] fresh.tt@.slots[i] is None,
    ensures
        reset.tt@ == fresh.tt@,
{
    assert(reset.tt@.slots =~= fresh.tt@.slots);
}

/// Whether iterative deepening goes on after completing depth `completed`
/// with `score`, `nodes` counted so far, and the clock's answer to whether
/// the deadline has passed: exactly when the score is not decisive, a
/// next depth exists (below 256, within a depth limit, within the ply
/// bound), the node limit has not been reached, and the deadline has not
/// passed. A search therefore stops short of its deepest depth with a
/// score that is not decisive, under no depth or node limit, only when the
/// clock said the deadline had passed.
pub fn keeps_deepening(
    score: i32,
    completed: u8,
    max_depth_limit: Option<u8>,
    max_ply: usize,
    nodes: u64,
    node_limit: Option<u64>,
    deadline_passed: bool,
) -> (go: bool)
    requires
        max_ply < MAX_PLY_LIMIT,
        -crate::scores::score_bound() <= score <= crate::scores::score_bound(),
    ensures
        go == (!(score >= MATE - max_ply || score <= -(MATE - max_ply)) && completed < 255 && (
        max_depth_limit matches Some(d) ==> completed < d) && completed < max_ply && (
        node_limit matches Some(n) ==> nodes < n) && !deadline_passed),
{
    let magnitude = if score < 0 {
        -score
    } else {
        score
    };
    if magnitude >= MATE - max_ply as i32 || completed == u8::MAX {
        return false;
    }
    match max_depth_limit {
        Some(d) => {
            if completed >= d {
                return false;
            }
        },
        None => {},
    }
    if completed as usize >= max_ply {
        return false;
    }
    match node_limit {
        Some(n) => {
            if nodes >= n {
                return false;
            }
        },
        None => {},
    }
    !deadline_passed
}

/// Deterministic alpha-beta opponent: iterative-deepening negamax with a
/// bounded transposition table, killer/history move ordering and
/// path-repetition detection.
pub struct AlphaBetaPlayer<G: Game, H: SearchHooks<G>> {
    pub config: AlphaBetaConfig,
    pub hooks: H,
    /// The table, kept live between the moves of one game.
    pub tt: TranspositionTable<G>,
}

impl<G: Game, H: SearchHooks<G>> AlphaBetaPlayer<G, H> {
    pub open spec fn wf(&self) -> bool {
        self.tt.wf()
    }

    /// A player with an empty table of `config.tt_megabytes` MiB.
    pub fn new(config: AlphaBetaConfig, hooks: H) -> (player: Self)
        requires
            config.tt_megabytes <= usize::MAX / 1048576usize,
        ensures
            player.wf(),
            player.config == config,
            player.hooks == hooks,
            player.tt@.slots.len() == crate::tt::spec_capacity_for(
                config.tt_megabytes as int,
                vstd::layout::size_of::<Option<crate::tt::TtEntry<G>>>() as int,
            ),
            player.tt@.generation == 0,
            forall|i: int|
                0 <= i < player.tt@.slots.len() ==> #[trigger] player.tt@.slots[i] is None,
    {
        let tt = TranspositionTable::new(config.tt_megabytes);
        AlphaBetaPlayer { config, hooks, tt }
    }

    /// Clears the search work retained from a previous game, keeping the
    /// configuration and hooks.
    pub fn reset_for_new_game(&mut self)
        requires
            old(self).config.tt_megabytes <= usize::MAX / 1048576usize,
        ensures
            final(self).wf(),
            final(self).config == old(self).config,
            final(self).hooks == old(self).hooks,
            final(self).tt@.generation == 0,
            final(self).tt@.slots.len() == crate::tt::spec_capacity_for(
                old(self).config.tt_megabytes as int,
                vstd::layout::size_of::<Option<crate::tt::TtEntry<G>>>() as int,
            ),
            forall|i: int|
                0 <= i < final(self).tt@.slots.len() ==> #[trigger] final(self).tt@.slots[i] is None,
    {
        self.tt = TranspositionTable::new(self.config.tt_megabytes);
    }

    /// Whether `analyze` calls a root-policy evaluator for `state`, when
    /// one is given: exactly when more than one move is legal.
    pub fn wants_root_policy(&self, state: &G::State) -> (wants: bool)
        ensures
            wants == (G::spec_legal_moves(*state).len() != 1),
    {
        let legal = G::legal_moves(state);
        legal.len() != 1
    }

    /// Iterative deepening from depth 1 up to whatever the configuration
    /// allows, reporting the last depth that completed without being
    /// aborted by a node or time limit. A position with a single legal
    /// move is answered immediately with no search, and a `Depth(0)`
    /// limit scores each move statically. `root_policy` is what the one
    /// call of a root-policy evaluator produced, if one was made (it is
    /// made whenever more than one move is legal); a usable policy
    /// (exactly the legal moves) orders the root moves of a search, and
    /// only ever their order, never a score.
    #[verifier::rlimit(60)]
    pub fn analyze(&mut self, state: &G::State, root_policy: Option<RootPolicyReport<G::Move>>) -> (analysis: AlphaBetaAnalysis<G>)
        requires
            old(self).wf(),
            hooks_wf::<G, H>(old(self).hooks),
            game_eq_laws::<G>(),
            game_wf::<G>(),
            G::spec_legal_moves(*state).len() > 0,
            old(self).config.max_ply < MAX_PLY_LIMIT,
            old(self).config.aspiration_window matches Some(w) ==> w > i32::MIN + crate::scores::score_bound(),
        ensures
            final(self).wf(),
            final(self).config == old(self).config,
            final(self).hooks == old(self).hooks,
            final(self).tt@.slots.len() == old(self).tt@.slots.len(),
            G::spec_legal_moves(*state).contains(analysis.best_move),
            G::spec_legal_moves(*state).len() == 1 ==> {
                &&& *final(self) == *old(self)
                &&& analysis.best_move == G::spec_legal_moves(*state)[0]
                &&& analysis.score == 0
                &&& analysis.completed_depth == 0
                &&& analysis.nodes == 0
                &&& zero_search_counters(analysis)
                &&& analysis.root_policy_calls == 0
                &&& !analysis.root_policy_used
                &&& analysis.principal_variation@ == seq![analysis.best_move]
            },
            (G::spec_legal_moves(*state).len() != 1 && (old(self).config.limit matches SearchLimit::Depth(d) && d == 0)) ==> {
                &&& is_first_static_best(
                    old(self).hooks,
                    *state,
                    G::spec_legal_moves(*state),
                    analysis.best_move,
                    analysis.score as int,
                )
                &&& *final(self) == *old(self)
                &&& analysis.nodes == G::spec_legal_moves(*state).len()
                &&& analysis.completed_depth == 0
                &&& analysis.selective_depth == 0
                &&& zero_search_counters(analysis)
                &&& analysis.root_policy_calls == (if root_policy is Some { 1u64 } else { 0u64 })
                &&& root_policy matches Some(r) ==> analysis.root_policy_time == r.time
                &&& !analysis.root_policy_used
                &&& analysis.principal_variation@ == seq![analysis.best_move]
            },
            (G::spec_legal_moves(*state).len() != 1 && !(old(self).config.limit matches SearchLimit::Depth(d) && d == 0)) ==> {
                &&& analysis.root_policy_calls == (if root_policy is Some { 1u64 } else { 0u64 })
                &&& root_policy matches Some(r) ==> analysis.root_policy_time == r.time
                &&& analysis.root_policy_used == (root_policy matches Some(r) && (r.policy matches Some(p)
                    && policy_moves(p.entries@).to_multiset() == G::spec_legal_moves(*state).to_multiset()))
                &&& old(self).config.limit matches SearchLimit::Depth(d) ==> analysis.completed_depth <= d
                &&& analysis.principal_variation.len() <= analysis.completed_depth
                &&& analysis.selective_depth == analysis.completed_depth
                &&& analysis.completed_depth == 0 ==> analysis.score == 0 && analysis.best_move
                    == G::spec_legal_moves(*state)[0] && analysis.principal_variation@.len() == 0
                &&& analysis.completed_depth >= 1 ==> -crate::scores::score_bound() <= analysis.score
                    <= crate::scores::score_bound()
                &&& reports_search_value(old(self).hooks, old(self).config, *state, analysis)
                &&& reports_deepening(old(self).hooks, old(self).config, *state, analysis)
                &&& counters_agree(old(self).config, analysis)
                &&& (old(self).config.limit is Depth && analysis.completed_depth >= 1) ==> analysis.principal_variation@
                    == pv_spec(final(self).tt@, *state, analysis.completed_depth as nat)
            },
    {
        let mut root_policy_calls: u64 = 0;
        let mut root_policy_time = clock::zero_duration();
        let mut offered_policy: Option<RankedPolicy<G::Move>> = None;
        let mut reported_start: Option<Instant> = None;
        match root_policy {
            Some(report) => {
                root_policy_calls = 1;
                root_policy_time = report.time;
                offered_policy = report.policy;
                reported_start = Some(report.started);
            },
            None => {},
        }
        let start = match reported_start {
            Some(started) => started,
            None => clock::now(),
        };
        let deadline = match self.config.limit {
            SearchLimit::MoveTime(d) => clock::checked_deadline(&start, d),
            _ => None,
        };
        let node_limit = match self.config.limit {
            SearchLimit::Nodes(n) => Some(n),
            _ => None,
        };
        let max_depth_limit = match self.config.limit {
            SearchLimit::Depth(d) => Some(d),
            _ => None,
        };
        let legal = G::legal_moves(state);
        if legal.len() == 1 {
            let mut principal_variation: Vec<G::Move> = Vec::new();
            principal_variation.push(legal[0]);
            assert(legal@.contains(legal@[0]));
            return AlphaBetaAnalysis {
                best_move: legal[0],
                score: 0,
                completed_depth: 0,
                selective_depth: 0,
                nodes: 0,
                quiescence_nodes: 0,
                tt_hits: 0,
                beta_cutoffs: 0,
                pvs_researches: 0,
                aspiration_researches: 0,
                lmr_reductions: 0,
                lmr_researches: 0,
                root_policy_calls: 0,
                root_policy_used: false,
                root_policy_time: clock::zero_duration(),
                elapsed: clock::elapsed_since(&start),
                principal_variation,
            };
        }
        match self.config.limit {
            SearchLimit::Depth(0) => {
                let mut analysis = self.analyze_depth_zero(state, &legal, &start);
                proof {
                    let j = choose|j: int| 0 <= j < legal@.len() && legal@[j] == analysis.best_move
                        && static_move_score(self.hooks, *state, legal@[j]) == analysis.score
                        && (forall|k: int| 0 <= k < legal@.len() ==> #[trigger] static_move_score(self.hooks, *state, legal@[k]) <= analysis.score)
                        && (forall|k: int| 0 <= k < j ==> #[trigger] static_move_score(self.hooks, *state, legal@[k]) < analysis.score);
                    assert(legal@.contains(legal@[j]));
                }
                analysis.root_policy_calls = root_policy_calls;
                analysis.root_policy_time = root_policy_time;
                return analysis;
            },
            _ => {},
        }
        let mut usable_policy: Option<RankedPolicy<G::Move>> = None;
        match offered_policy {
            Some(policy) => {
                if policy_matches_moves(&policy.entries, &legal) {
                    usable_policy = Some(policy);
                }
            },
            None => {},
        }
        let root_policy_used = usable_policy.is_some();
        self.tt.new_generation();
        let mut tt = TranspositionTable::new(1);
        std::mem::swap(&mut tt, &mut self.tt);
        let max_ply = self.config.max_ply;
        let mut killers: Vec<crate::ordering::Killers<G::Move>> = Vec::new();
        while killers.len() <= max_ply
            invariant
                killers.len() <= max_ply + 1,
                max_ply < MAX_PLY_LIMIT,
            decreases max_ply + 1 - killers.len(),
        {
            killers.push((None, None));
        }
        let mut history: Vec<i32> = Vec::new();
        while history.len() < H::HISTORY_BUCKETS
            invariant
                history.len() <= H::HISTORY_BUCKETS,
            decreases H::HISTORY_BUCKETS - history.len(),
        {
            history.push(0);
        }
        let mut ctx = SearchContext {
            tt,
            killers,
            history,
            nodes: 0,
            quiescence_nodes: 0,
            tt_hits: 0,
            beta_cutoffs: 0,
            pvs_researches: 0,
            lmr_reductions: 0,
            lmr_researches: 0,
            quiescence_max_extra_ply: self.config.quiescence_max_extra_ply,
            pvs: self.config.pvs,
            killer_moves: self.config.killer_moves,
            history_heuristic: self.config.history_heuristic,
            history_bonus: self.config.history_bonus,
            lmr: self.config.lmr,
            root_policy: usable_policy,
            node_limit,
            deadline,
            aborted: false,
            path: Vec::new(),
            max_ply,
            use_tt: self.config.tt_megabytes > 0,
        };
        let ghost ctx0 = ctx;
        let ghost v_hooks = self.hooks;
        let ghost cfg = self.config;
        let mut best = AlphaBetaAnalysis {
            best_move: legal[0],
            score: 0,
            completed_depth: 0,
            selective_depth: 0,
            nodes: 0,
            quiescence_nodes: 0,
            tt_hits: 0,
            beta_cutoffs: 0,
            pvs_researches: 0,
            aspiration_researches: 0,
            lmr_reductions: 0,
            lmr_researches: 0,
            root_policy_calls,
            root_policy_used,
            root_policy_time,
            elapsed: clock::zero_duration(),
            principal_variation: Vec::new(),
        };
        assert(legal@.contains(legal@[0]));
        let full_alpha: i32 = -MATE - 1;
        let full_beta: i32 = MATE + 1;
        let mut aspiration_researches: u64 = 0;
        let mut depth: u8 = 1;
        let mut finished = false;
        while !finished
            invariant
                ctx.wf(),
                ctx.same_settings(&ctx0),
                ctx.path@ == Seq::<G::PositionKey>::empty(),
                ctx.history.len() == H::HISTORY_BUCKETS,
                ctx.max_ply == cfg.max_ply,
                ctx.quiescence_max_extra_ply == cfg.quiescence_max_extra_ply,
                ctx.lmr == cfg.lmr,
                ctx0.tt@.slots.len() == old(self).tt@.slots.len(),
                self.hooks == v_hooks,
                v_hooks == old(self).hooks,
                self.config == cfg,
                cfg == old(self).config,
                self.tt.wf(),
                hooks_wf::<G, H>(v_hooks),
                game_eq_laws::<G>(),
                game_wf::<G>(),
                legal@ == G::spec_legal_moves(*state),
                legal.len() > 1,
                max_depth_limit == (match cfg.limit {
                    SearchLimit::Depth(d) => Some(d),
                    _ => None,
                }),
                cfg.aspiration_window matches Some(w) ==> w > i32::MIN + crate::scores::score_bound(),
                depth >= 1,
                full_alpha == -MATE - 1,
                full_beta == MATE + 1,
                max_ply == cfg.max_ply,
                max_ply < MAX_PLY_LIMIT,
                !finished ==> best.completed_depth + 1 == depth,
                !finished ==> (max_depth_limit matches Some(d) ==> depth <= d),
                best.completed_depth < depth || finished,
                max_depth_limit matches Some(d) ==> best.completed_depth <= d,
                legal@.contains(best.best_move),
                best.root_policy_calls == root_policy_calls,
                best.root_policy_time == root_policy_time,
                root_policy matches Some(r) ==> root_policy_time == r.time,
                best.root_policy_used == root_policy_used,
                best.principal_variation.len() <= best.completed_depth,
                best.selective_depth == best.completed_depth,
                best.completed_depth == 0 ==> best.score == 0 && best.best_move == legal@[0],
                best.completed_depth >= 1 ==> -crate::scores::score_bound() <= best.score <= crate::scores::score_bound(),
                reports_search_value(v_hooks, cfg, *state, best),
                ctx0.node_limit == node_limit,
                ctx0.deadline == deadline,
                node_limit == (match cfg.limit {
                    SearchLimit::Nodes(n) => Some(n),
                    _ => None,
                }),
                deadline is Some ==> cfg.limit is MoveTime,
                deepening_progress(v_hooks, cfg, *state, best, depth, finished, ctx.nodes),
                counters_advance(ctx0, ctx),
                (cfg.limit is Depth && best.completed_depth >= 1) ==> best.principal_variation@ == pv_spec(
                    ctx.tt@,
                    *state,
                    best.completed_depth as nat,
                ),
                ctx0.nodes == 0 && ctx0.quiescence_nodes == 0 && ctx0.tt_hits == 0,
                ctx0.pvs_researches == 0 && ctx0.lmr_reductions == 0 && ctx0.lmr_researches == 0,
                ctx0.pvs == cfg.pvs && ctx0.lmr == cfg.lmr && ctx0.use_tt == (cfg.tt_megabytes > 0),
                cfg.aspiration_window is None ==> aspiration_researches == 0
                    && best.aspiration_researches == 0,
                best.completed_depth >= 1 ==> best.nodes >= 1 && ctx.nodes >= 1,
            decreases 256 - depth + (if finished { 0int } else { 1int }),
        {
            ctx.aborted = false;
            let ghost ctx_d = ctx;
            let mut result: Option<(i32, Option<G::Move>, bool)> = None;
            let mut searched = false;
            match self.config.aspiration_window {
                Some(window) => {
                    if depth >= 2 {
                        let low = best.score as i64 - window as i64;
                        let low = if low > i32::MAX as i64 {
                            i32::MAX
                        } else if low < i32::MIN as i64 {
                            i32::MIN
                        } else {
                            low as i32
                        };
                        let alpha = if low < full_alpha { full_alpha } else { low };
                        let high = best.score as i64 + window as i64;
                        let high = if high < i32::MIN as i64 { i32::MIN } else if high > i32::MAX as i64 { i32::MAX } else { high as i32 };
                        let beta = if high > full_beta { full_beta } else { high };
                        let narrow = negamax(&self.hooks, &mut ctx, state, depth, alpha, beta, 0);
                        proof {
                            lemma_counters_advance_trans(ctx0, ctx_d, ctx);
                        }
                        match narrow {
                            Some((score, mv, tainted)) => {
                                if score > alpha && score < beta {
                                    result = Some((score, mv, tainted));
                                } else {
                                    aspiration_researches = aspiration_researches.saturating_add(1);
                                    let ghost ctx_n = ctx;
                                    result = negamax(&self.hooks, &mut ctx, state, depth, full_alpha, full_beta, 0);
                                    proof {
                                        lemma_counters_advance_trans(ctx0, ctx_n, ctx);
                                    }
                                }
                            },
                            None => {},
                        }
                        searched = true;
                    }
                },
                None => {},
            }
            if !searched {
                result = negamax(&self.hooks, &mut ctx, state, depth, full_alpha, full_beta, 0);
                proof {
                    lemma_counters_advance_trans(ctx0, ctx_d, ctx);
                }
            }
            match result {
                Some((score, root_move, _)) => {
                    let mv = match root_move {
                        Some(m) => m,
                        None => best.best_move,
                    };
                    let principal_variation = reconstruct_pv(&ctx.tt, state, depth);
                    best = AlphaBetaAnalysis {
                        best_move: mv,
                        score,
                        completed_depth: depth,
                        selective_depth: depth,
                        nodes: ctx.nodes,
                        quiescence_nodes: ctx.quiescence_nodes,
                        tt_hits: ctx.tt_hits,
                        beta_cutoffs: ctx.beta_cutoffs,
                        pvs_researches: ctx.pvs_researches,
                        aspiration_researches,
                        lmr_reductions: ctx.lmr_reductions,
                        lmr_researches: ctx.lmr_researches,
                        root_policy_calls,
                        root_policy_used,
                        root_policy_time,
                        elapsed: clock::elapsed_since(&start),
                        principal_variation,
                    };
                    proof {
                        if !cfg.lmr {
                            assert(reports_search_value(v_hooks, cfg, *state, best));
                            lemma_decisive_bound(
                                score as int,
                                nm_value(
                                    v_hooks,
                                    cfg.max_ply as int,
                                    cfg.quiescence_max_extra_ply,
                                    *state,
                                    depth as nat,
                                    0,
                                    Seq::empty(),
                                ),
                                cfg.max_ply,
                            );
                        }
                    }
                    let mut deadline_passed = false;
                    match &deadline {
                        Some(dl) => {
                            let now = clock::now();
                            deadline_passed = clock::at_or_after(&now, dl);
                        },
                        None => {},
                    }
                    if keeps_deepening(score, depth, max_depth_limit, max_ply, ctx.nodes, node_limit, deadline_passed) {
                        depth = depth + 1;
                    } else {
                        finished = true;
                    }
                },
                None => {
                    finished = true;
                },
            }
        }
        best.nodes = ctx.nodes;
        best.quiescence_nodes = ctx.quiescence_nodes;
        best.tt_hits = ctx.tt_hits;
        best.beta_cutoffs = ctx.beta_cutoffs;
        best.pvs_researches = ctx.pvs_researches;
        best.lmr_reductions = ctx.lmr_reductions;
        best.lmr_researches = ctx.lmr_researches;
        best.elapsed = clock::elapsed_since(&start);
        self.tt = ctx.tt;
        best
    }

    /// A literal zero-ply search: every legal move's resulting position
    /// scored statically, the first best kept.
    fn analyze_depth_zero(&self, state: &G::State, legal: &Vec<G::Move>, start: &web_time::Instant) -> (analysis: AlphaBetaAnalysis<G>)
        requires
            legal@ == G::spec_legal_moves(*state),
            legal.len() > 0,
            hooks_wf::<G, H>(self.hooks),
            game_eq_laws::<G>(),
        ensures
            is_first_static_best(self.hooks, *state, legal@, analysis.best_move, analysis.score as int),
            analysis.nodes == legal.len(),
            analysis.completed_depth == 0,
            analysis.selective_depth == 0,
            zero_search_counters(analysis),
            analysis.root_policy_calls == 0,
            !analysis.root_policy_used,
            analysis.principal_variation@ == seq![analysis.best_move],
    {
        let mut best_score = i32::MIN;
        let mut best_move = legal[0];
        let ghost mut best_index: int = 0;
        let current = G::current_player(state);
        let mut i: usize = 0;
        while i < legal.len()
            invariant
                hooks_wf::<G, H>(self.hooks),
                game_eq_laws::<G>(),
                current == G::spec_current_player(*state),
                i <= legal.len(),
                legal.len() > 0,
                0 <= best_index < legal.len(),
                legal@[best_index] == best_move,
                i == 0 ==> best_index == 0 && best_score == i32::MIN,
                i > 0 ==> best_index < i && static_move_score(self.hooks, *state, legal@[best_index])
                    == best_score,
                forall|k: int|
                    0 <= k < i ==> #[trigger] static_move_score(self.hooks, *state, legal@[k])
                        <= best_score,
                forall|k: int|
                    0 <= k < best_index ==> #[trigger] static_move_score(self.hooks, *state, legal@[k])
                        < best_score,
            decreases legal.len() - i,
        {
            let mv = legal[i];
            let child = G::apply_move(state, mv);
            let score = match G::result(&child) {
                GameResult::Win(winner) => {
                    if same_value(&winner, &current) {
                        MATE - 1
                    } else {
                        -(MATE - 1)
                    }
                },
                GameResult::Draw => 0,
                GameResult::InProgress => -hooks_eval(&self.hooks, &child),
            };
            if score > best_score {
                best_score = score;
                best_move = mv;
                proof {
                    best_index = i as int;
                }
            }
            i = i + 1;
        }
        let nodes = legal.len() as u64;
        let mut principal_variation: Vec<G::Move> = Vec::new();
        principal_variation.push(best_move);
        AlphaBetaAnalysis {
            best_move,
            score: best_score,
            completed_depth: 0,
            selective_depth: 0,
            nodes,
            quiescence_nodes: 0,
            tt_hits: 0,
            beta_cutoffs: 0,
            pvs_researches: 0,
            aspiration_researches: 0,
            lmr_reductions: 0,
            lmr_researches: 0,
            root_policy_calls: 0,
            root_policy_used: false,
            root_policy_time: clock::zero_duration(),
            elapsed: clock::elapsed_since(start),
            principal_variation,
        }
    }
}

/// The hooks' static evaluation of `state`.
fn hooks_eval<G: Game, H: SearchHooks<G>>(hooks: &H, state: &G::State) -> (score: i32)
    requires
        hooks_wf::<G, H>(*hooks),
    ensures
        score == hooks.spec_evaluate(*state),
        -crate::scores::score_bound() <= score <= crate::scores::score_bound(),
{
    hooks.evaluate(state)
}

} // verus!
