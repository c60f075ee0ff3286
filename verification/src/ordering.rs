//! Move ordering: which move the search tries first at a node.

use crate::game::Game;
use crate::hooks::{hooks_wf, MoveFeatures, MovePriority, SearchHooks};
use crate::sort::{is_stable_desc_sort, law_stable_sort_follows_keys, stable_sort_desc};
use vstd::prelude::*;

verus! {

/// Minimum remaining depth (before reduction) for a late-move reduction.
pub const LMR_MIN_DEPTH: u8 = 4;

/// Minimum 0-based move index before a move counts as "late".
pub const LMR_MIN_MOVE_INDEX: usize = 3;

/// Ply reduction applied to an eligible move's trial search.
pub const LMR_REDUCTION: u8 = 1;

/// The two killer moves remembered for one ply, most recent first.
pub type Killers<M> = (Option<M>, Option<M>);

/// A root policy whose probabilities are replaced by ranks that order
/// exactly as the probabilities do (equal probabilities, equal ranks),
/// together with the ranks of the two fixed tiers placed above or among
/// them and of the score a move missing from the policy gets.
pub struct RankedPolicy<M> {
    /// Each policy move with the rank of its probability.
    pub entries: Vec<(M, u32)>,
    /// Rank of the tier of non-capturing immediate wins.
    pub win_rank: u32,
    /// Rank of the tier of the transposition table's move.
    pub tt_rank: u32,
    /// Rank given to a move the policy does not list.
    pub absent_rank: u32,
}

/// Whether `opt` holds exactly `mv`.
pub fn holds_move<M: Copy + Eq>(opt: &Option<M>, mv: &M) -> (same: bool)
    requires
        vstd::laws_eq::obeys_concrete_eq::<M>(),
    ensures
        same == (*opt == Some(*mv)),
{
    proof {
        reveal(vstd::laws_eq::obeys_concrete_eq);
    }
    match opt {
        Some(m) => *m == *mv,
        None => false,
    }
}

/// The key by which `order_moves` ranks `mv` (higher first).
pub open spec fn move_order_key<G: Game, H: SearchHooks<G>>(
    hooks: H,
    state: G::State,
    tt_move: Option<G::Move>,
    killers: Killers<G::Move>,
    history: Seq<i32>,
    use_killers: bool,
    use_history: bool,
    mv: G::Move,
) -> i64 {
    if tt_move == Some(mv) {
        1_000_000
    } else {
        let features = hooks.spec_move_features(state, mv);
        match features.priority {
            MovePriority::ImmediateWin => 900_000,
            MovePriority::Capture => 500_000,
            MovePriority::Ordinary => if use_killers && (killers.0 == Some(mv) || killers.1 == Some(
                mv,
            )) {
                100_000
            } else if use_history {
                match features.history_bucket {
                    Some(b) => history[b as int] as i64,
                    None => 0,
                }
            } else {
                0
            },
            MovePriority::Pass => -1_000_000i64,
        }
    }
}

/// The keys of `moves` under `move_order_key`.
pub open spec fn move_order_keys<G: Game, H: SearchHooks<G>>(
    hooks: H,
    state: G::State,
    tt_move: Option<G::Move>,
    killers: Killers<G::Move>,
    history: Seq<i32>,
    use_killers: bool,
    use_history: bool,
    moves: Seq<G::Move>,
) -> Seq<i64> {
    moves.map_values(
        |m: G::Move|
            move_order_key(hooks, state, tt_move, killers, history, use_killers, use_history, m),
    )
}

/// Below the root, the tiers of move ordering for two moves neither of
/// which is the table's move: an immediate win outranks a capture, and a
/// capture outranks a killer move and a quiet move whose history entry is
/// below the capture tier (or with history off, or without a bucket).
pub proof fn law_move_order_tiers<G: Game, H: SearchHooks<G>>(
    hooks: H,
    state: G::State,
    tt_move: Option<G::Move>,
    killers: Killers<G::Move>,
    history: Seq<i32>,
    use_killers: bool,
    use_history: bool,
    a: G::Move,
    b: G::Move,
)
    requires
        tt_move != Some(a),
        tt_move != Some(b),
    ensures
        (hooks.spec_move_features(state, a).priority is ImmediateWin && hooks.spec_move_features(
            state,
            b,
        ).priority is Capture) ==> move_order_key(
            hooks,
            state,
            tt_move,
            killers,
            history,
            use_killers,
            use_history,
            a,
        ) > move_order_key(hooks, state, tt_move, killers, history, use_killers, use_history, b),
        (hooks.spec_move_features(state, a).priority is Capture && hooks.spec_move_features(
            state,
            b,
        ).priority is Ordinary && ((use_killers && (killers.0 == Some(b) || killers.1 == Some(b)))
            || !use_history || hooks.spec_move_features(state, b).history_bucket is None
            || history[hooks.spec_move_features(state, b).history_bucket->0 as int] < 500_000))
            ==> move_order_key(hooks, state, tt_move, killers, history, use_killers, use_history, a)
            > move_order_key(hooks, state, tt_move, killers, history, use_killers, use_history, b),
{
}

/// `order_moves` never tries a capture before an immediate win (neither
/// being the table's move).
pub proof fn law_order_moves_tries_wins_before_captures<G: Game, H: SearchHooks<G>>(
    hooks: H,
    state: G::State,
    tt_move: Option<G::Move>,
    killers: Killers<G::Move>,
    history: Seq<i32>,
    use_killers: bool,
    use_history: bool,
    moves: Seq<G::Move>,
    out: Seq<G::Move>,
    i: int,
    j: int,
)
    requires
        is_stable_desc_sort(
            moves,
            move_order_keys(hooks, state, tt_move, killers, history, use_killers, use_history, moves),
            out,
        ),
        0 <= i < j < out.len(),
        tt_move != Some(out[i]),
        tt_move != Some(out[j]),
        hooks.spec_move_features(state, out[i]).priority is Capture,
    ensures
        !(hooks.spec_move_features(state, out[j]).priority is ImmediateWin),
{
    let key = |m: G::Move|
        move_order_key(hooks, state, tt_move, killers, history, use_killers, use_history, m);
    assert(move_order_keys(hooks, state, tt_move, killers, history, use_killers, use_history, moves)
        =~= moves.map_values(key));
    law_stable_sort_follows_keys(moves, key, out, i, j);
    law_move_order_tiers(hooks, state, tt_move, killers, history, use_killers, use_history, out[j], out[i]);
}

/// Orders `moves` best-guess-first: the transposition table's move, then
/// immediate wins, then captures, then killer moves (if `use_killers`),
/// then by history score (if `use_history`); a pass last. Equal keys keep
/// their generation order. Only the order changes, never which moves.
pub fn order_moves<G: Game, H: SearchHooks<G>>(
    hooks: &H,
    moves: &mut Vec<G::Move>,
    state: &G::State,
    tt_move: Option<G::Move>,
    killers: Killers<G::Move>,
    history: &Vec<i32>,
    use_killers: bool,
    use_history: bool,
)
    requires
        hooks_wf::<G, H>(*hooks),
        crate::game::game_eq_laws::<G>(),
        history.len() == H::HISTORY_BUCKETS,
    ensures
        is_stable_desc_sort(
            old(moves)@,
            move_order_keys(
                *hooks,
                *state,
                tt_move,
                killers,
                history@,
                use_killers,
                use_history,
                old(moves)@,
            ),
            final(moves)@,
        ),
{
    let mut keys: Vec<i64> = Vec::new();
    let mut i: usize = 0;
    while i < moves.len()
        invariant
            hooks_wf::<G, H>(*hooks),
            crate::game::game_eq_laws::<G>(),
            history.len() == H::HISTORY_BUCKETS,
            i <= moves.len(),
            keys.len() == i,
            forall|j: int|
                0 <= j < i ==> keys@[j] == move_order_key(
                    *hooks,
                    *state,
                    tt_move,
                    killers,
                    history@,
                    use_killers,
                    use_history,
                    #[trigger] moves@[j],
                ),
        decreases moves.len() - i,
    {
        let mv = moves[i];
        let key: i64 = if holds_move(&tt_move, &mv) {
            1_000_000
        } else {
            let features = hooks.move_features(state, &mv);
            match features.priority {
                MovePriority::ImmediateWin => 900_000,
                MovePriority::Capture => 500_000,
                MovePriority::Ordinary => {
                    if use_killers && (holds_move(&killers.0, &mv) || holds_move(&killers.1, &mv)) {
                        100_000
                    } else if use_history {
                        match features.history_bucket {
                            Some(b) => history[b] as i64,
                            None => 0,
                        }
                    } else {
                        0
                    }
                },
                MovePriority::Pass => -1_000_000,
            }
        };
        keys.push(key);
        i = i + 1;
    }
    let ghost spec_keys = move_order_keys(
        *hooks,
        *state,
        tt_move,
        killers,
        history@,
        use_killers,
        use_history,
        moves@,
    );
    assert(keys@ =~= spec_keys);
    let sorted = stable_sort_desc(moves, &keys);
    *moves = sorted;
}

/// The key by which quiescence ranks a noisy move: immediate wins first.
pub open spec fn noisy_order_key<G: Game, H: SearchHooks<G>>(
    hooks: H,
    state: G::State,
    mv: G::Move,
) -> i64 {
    if hooks.spec_move_features(state, mv).priority == MovePriority::ImmediateWin {
        1
    } else {
        0
    }
}

/// Immediate wins first, then every other move, each group in its
/// original order.
pub fn order_noisy_moves<G: Game, H: SearchHooks<G>>(
    hooks: &H,
    moves: &mut Vec<G::Move>,
    state: &G::State,
)
    ensures
        is_stable_desc_sort(
            old(moves)@,
            old(moves)@.map_values(|m: G::Move| noisy_order_key(*hooks, *state, m)),
            final(moves)@,
        ),
{
    let mut keys: Vec<i64> = Vec::new();
    let mut i: usize = 0;
    while i < moves.len()
        invariant
            i <= moves.len(),
            keys.len() == i,
            forall|j: int|
                0 <= j < i ==> keys@[j] == noisy_order_key(*hooks, *state, #[trigger] moves@[j]),
        decreases moves.len() - i,
    {
        let features = hooks.move_features(state, &moves[i]);
        let key: i64 = match features.priority {
            MovePriority::ImmediateWin => 1,
            _ => 0,
        };
        keys.push(key);
        i = i + 1;
    }
    assert(keys@ =~= moves@.map_values(|m: G::Move| noisy_order_key(*hooks, *state, m)));
    let sorted = stable_sort_desc(moves, &keys);
    *moves = sorted;
}

/// The rank the policy gives `mv`: that of its first entry, or
/// `absent` if it has none.
pub open spec fn policy_rank<M>(entries: Seq<(M, u32)>, mv: M, absent: u32) -> u32
    decreases entries.len(),
{
    if entries.len() == 0 {
        absent
    } else if entries[0].0 == mv {
        entries[0].1
    } else {
        policy_rank(entries.drop_first(), mv, absent)
    }
}

/// The key by which the root ranks `mv` when a policy is in use.
pub open spec fn root_order_key<G: Game, H: SearchHooks<G>>(
    hooks: H,
    state: G::State,
    tt_move: Option<G::Move>,
    policy: RankedPolicy<G::Move>,
    mv: G::Move,
) -> i64 {
    let features = hooks.spec_move_features(state, mv);
    if features.priority == MovePriority::ImmediateWin && !features.is_capture {
        policy.win_rank as i64
    } else if tt_move == Some(mv) {
        policy.tt_rank as i64
    } else {
        policy_rank(policy.entries@, mv, policy.absent_rank) as i64
    }
}

/// The rank the policy's first entry for `mv` carries is the rank the
/// policy gives `mv`; a move the policy does not list gets `absent`.
proof fn lemma_policy_rank_first_entry<M>(entries: Seq<(M, u32)>, mv: M, absent: u32, j: int)
    requires
        j == -1 ==> forall|k: int| 0 <= k < entries.len() ==> #[trigger] entries[k].0 != mv,
        j != -1 ==> 0 <= j < entries.len() && entries[j].0 == mv && forall|k: int|
            0 <= k < j ==> #[trigger] entries[k].0 != mv,
    ensures
        policy_rank(entries, mv, absent) == (if j == -1 {
            absent
        } else {
            entries[j].1
        }),
    decreases entries.len(),
{
    if entries.len() > 0 && j != 0 {
        let rest = entries.drop_first();
        let j2 = if j == -1 {
            -1
        } else {
            j - 1
        };
        assert forall|k: int| 0 <= k < rest.len() && (j2 == -1 || k < j2) implies #[trigger] rest[k].0
            != mv by {
            assert(rest[k] == entries[k + 1]);
        }
        if j2 != -1 {
            assert(rest[j2] == entries[j]);
        }
        lemma_policy_rank_first_entry(rest, mv, absent, j2);
    }
}

/// At the root with a usable policy, a move that is neither a
/// non-capturing immediate win nor the table's move is ranked by the
/// policy alone, capture or not: its key is the rank of the policy's
/// first entry for it, or the absent rank if the policy lists none.
pub proof fn law_root_order_ranks_by_policy<G: Game, H: SearchHooks<G>>(
    hooks: H,
    state: G::State,
    tt_move: Option<G::Move>,
    policy: RankedPolicy<G::Move>,
    mv: G::Move,
    j: int,
)
    requires
        !(hooks.spec_move_features(state, mv).priority is ImmediateWin
            && !hooks.spec_move_features(state, mv).is_capture),
        tt_move != Some(mv),
        j == -1 ==> forall|k: int|
            0 <= k < policy.entries@.len() ==> #[trigger] policy.entries@[k].0 != mv,
        j != -1 ==> 0 <= j < policy.entries@.len() && policy.entries@[j].0 == mv && forall|k: int|
            0 <= k < j ==> #[trigger] policy.entries@[k].0 != mv,
    ensures
        root_order_key(hooks, state, tt_move, policy, mv) == (if j == -1 {
            policy.absent_rank as i64
        } else {
            policy.entries@[j].1 as i64
        }),
{
    lemma_policy_rank_first_entry(policy.entries@, mv, policy.absent_rank, j);
}

/// At the root with a usable policy, of two moves that are neither
/// non-capturing immediate wins nor the table's move, `order_root_moves`
/// never tries the one the policy ranks lower first, whichever of them
/// is a capture.
pub proof fn law_order_root_moves_follows_the_policy<G: Game, H: SearchHooks<G>>(
    hooks: H,
    state: G::State,
    tt_move: Option<G::Move>,
    policy: RankedPolicy<G::Move>,
    moves: Seq<G::Move>,
    out: Seq<G::Move>,
    i: int,
    j: int,
    ri: int,
    rj: int,
)
    requires
        is_stable_desc_sort(
            moves,
            moves.map_values(|m: G::Move| root_order_key(hooks, state, tt_move, policy, m)),
            out,
        ),
        0 <= i < j < out.len(),
        !(hooks.spec_move_features(state, out[i]).priority is ImmediateWin
            && !hooks.spec_move_features(state, out[i]).is_capture),
        !(hooks.spec_move_features(state, out[j]).priority is ImmediateWin
            && !hooks.spec_move_features(state, out[j]).is_capture),
        tt_move != Some(out[i]),
        tt_move != Some(out[j]),
        0 <= ri < policy.entries@.len() && policy.entries@[ri].0 == out[i] && forall|k: int|
            0 <= k < ri ==> #[trigger] policy.entries@[k].0 != out[i],
        0 <= rj < policy.entries@.len() && policy.entries@[rj].0 == out[j] && forall|k: int|
            0 <= k < rj ==> #[trigger] policy.entries@[k].0 != out[j],
    ensures
        policy.entries@[ri].1 >= policy.entries@[rj].1,
{
    let key = |m: G::Move| root_order_key(hooks, state, tt_move, policy, m);
    law_stable_sort_follows_keys(moves, key, out, i, j);
    law_root_order_ranks_by_policy(hooks, state, tt_move, policy, out[i], ri);
    law_root_order_ranks_by_policy(hooks, state, tt_move, policy, out[j], rj);
}

/// The rank of `mv` in `entries`.
fn find_policy_rank<M: Copy + Eq>(entries: &Vec<(M, u32)>, mv: &M, absent: u32) -> (rank: u32)
    requires
        vstd::laws_eq::obeys_concrete_eq::<M>(),
    ensures
        rank == policy_rank(entries@, *mv, absent),
{
    let mut i: usize = 0;
    assert(entries@.skip(0) =~= entries@);
    while i < entries.len()
        invariant
            vstd::laws_eq::obeys_concrete_eq::<M>(),
            i <= entries.len(),
            policy_rank(entries@, *mv, absent) == policy_rank(entries@.skip(i as int), *mv, absent),
        decreases entries.len() - i,
    {
        let e = entries[i];
        assert(entries@.skip(i as int)[0] == e);
        if holds_move(&Some(e.0), mv) {
            return e.1;
        }
        assert(entries@.skip(i as int).drop_first() =~= entries@.skip(i + 1));
        i = i + 1;
    }
    assert(entries@.skip(i as int).len() == 0);
    absent
}

/// Root-only ordering with a policy: non-capturing immediate wins, then
/// the transposition table's move, then every other move by its policy
/// rank; equal keys keep their generation order.
pub fn order_root_moves<G: Game, H: SearchHooks<G>>(
    hooks: &H,
    moves: &mut Vec<G::Move>,
    state: &G::State,
    tt_move: Option<G::Move>,
    policy: &RankedPolicy<G::Move>,
)
    requires
        crate::game::game_eq_laws::<G>(),
    ensures
        is_stable_desc_sort(
            old(moves)@,
            old(moves)@.map_values(|m: G::Move| root_order_key(*hooks, *state, tt_move, *policy, m)),
            final(moves)@,
        ),
{
    let mut keys: Vec<i64> = Vec::new();
    let mut i: usize = 0;
    while i < moves.len()
        invariant
            crate::game::game_eq_laws::<G>(),
            i <= moves.len(),
            keys.len() == i,
            forall|j: int|
                0 <= j < i ==> keys@[j] == root_order_key(
                    *hooks,
                    *state,
                    tt_move,
                    *policy,
                    #[trigger] moves@[j],
                ),
        decreases moves.len() - i,
    {
        let mv = moves[i];
        let features = hooks.move_features(state, &mv);
        let win = match features.priority {
            MovePriority::ImmediateWin => !features.is_capture,
            _ => false,
        };
        let key: i64 = if win {
            policy.win_rank as i64
        } else if holds_move(&tt_move, &mv) {
            policy.tt_rank as i64
        } else {
            find_policy_rank(&policy.entries, &mv, policy.absent_rank) as i64
        };
        keys.push(key);
        i = i + 1;
    }
    assert(keys@ =~= moves@.map_values(
        |m: G::Move| root_order_key(*hooks, *state, tt_move, *policy, m),
    ));
    let sorted = stable_sort_desc(moves, &keys);
    *moves = sorted;
}

/// The moves a policy lists.
pub open spec fn policy_moves<M>(entries: Seq<(M, u32)>) -> Seq<M> {
    entries.map_values(|e: (M, u32)| e.0)
}

/// Whether `entries` lists exactly the moves of `legal`, as a multiset:
/// no duplicates, extras or omissions.
pub fn policy_matches_moves<M: Copy + Eq>(entries: &Vec<(M, u32)>, legal: &Vec<M>) -> (usable: bool)
    requires
        vstd::laws_eq::obeys_concrete_eq::<M>(),
    ensures
        usable == (policy_moves(entries@).to_multiset() == legal@.to_multiset()),
{
    let ghost pm = policy_moves(entries@);
    proof {
        pm.to_multiset_ensures();
        legal@.to_multiset_ensures();
    }
    assert(pm.len() == entries.len());
    if entries.len() != legal.len() {
        assert(pm.to_multiset().len() != legal@.to_multiset().len());
        return false;
    }
    let mut remaining: Vec<M> = Vec::new();
    let mut k: usize = 0;
    while k < legal.len()
        invariant
            k <= legal.len(),
            remaining@ == legal@.take(k as int),
        decreases legal.len() - k,
    {
        remaining.push(legal[k]);
        assert(legal@.take(k + 1) =~= legal@.take(k as int).push(legal@[k as int]));
        k = k + 1;
    }
    assert(remaining@ =~= legal@);
    assert(pm.take(0) =~= Seq::<M>::empty());
    proof {
        pm.take(0).to_multiset_ensures();
        assert(pm.take(0).to_multiset() =~= vstd::multiset::Multiset::empty());
    }
    let mut i: usize = 0;
    while i < entries.len()
        invariant
            vstd::laws_eq::obeys_concrete_eq::<M>(),
            pm == policy_moves(entries@),
            pm.len() == entries.len(),
            i <= entries.len(),
            pm.take(i as int).to_multiset().add(remaining@.to_multiset()) =~= legal@.to_multiset(),
        decreases entries.len() - i,
    {
        let mv = entries[i].0;
        let mut pos: usize = 0;
        while pos < remaining.len() && !holds_move(&Some(remaining[pos]), &mv)
            invariant
                vstd::laws_eq::obeys_concrete_eq::<M>(),
                pos <= remaining.len(),
                forall|q: int| 0 <= q < pos ==> remaining@[q] != mv,
            decreases remaining.len() - pos,
        {
            pos = pos + 1;
        }
        assert(pm[i as int] == mv);
        assert(pm.take(i + 1) =~= pm.take(i as int).push(mv));
        proof {
            pm.take(i as int).to_multiset_ensures();
            remaining@.to_multiset_ensures();
        }
        if pos == remaining.len() {
            proof {
                assert(!remaining@.contains(mv));
                assert(remaining@.to_multiset().count(mv) == 0);
                lemma_prefix_count_le(pm, i + 1, mv);
                assert(pm.to_multiset().count(mv) > legal@.to_multiset().count(mv));
                assert(pm.to_multiset() != legal@.to_multiset());
            }
            return false;
        }
        let ghost before = remaining@;
        remaining.remove(pos);
        proof {
            assert(before[pos as int] == mv);
            assert(before.remove(pos as int).to_multiset() =~= before.to_multiset().remove(mv));
            assert(before.contains(mv));
            assert(before.to_multiset().count(mv) > 0);
        }
        i = i + 1;
    }
    assert(pm.take(i as int) =~= pm);
    proof {
        remaining@.to_multiset_ensures();
    }
    if remaining.len() == 0 {
        assert(remaining@.to_multiset() =~= vstd::multiset::Multiset::empty()) by {
            assert(remaining@ =~= Seq::<M>::empty());
        }
        assert(pm.to_multiset().add(vstd::multiset::Multiset::empty()) =~= pm.to_multiset());
        assert(pm.to_multiset() =~= legal@.to_multiset());
        true
    } else {
        assert(remaining@.to_multiset().len() > 0);
        assert(pm.to_multiset().add(remaining@.to_multiset()).len() == pm.to_multiset().len()
            + remaining@.to_multiset().len());
        assert(pm.to_multiset().len() != legal@.to_multiset().len());
        false
    }
}

/// A prefix's count of a value never exceeds the whole sequence's.
proof fn lemma_prefix_count_le<M>(s: Seq<M>, n: int, x: M)
    requires
        0 <= n <= s.len(),
    ensures
        s.take(n).to_multiset().count(x) <= s.to_multiset().count(x),
    decreases s.len() - n,
{
    if n < s.len() {
        lemma_prefix_count_le(s, n + 1, x);
        assert(s.take(n + 1) =~= s.take(n).push(s[n]));
        s.take(n).to_multiset_ensures();
    } else {
        assert(s.take(n) =~= s);
    }
}

/// Whether a late-move reduction may apply to `mv`, the `move_index`th
/// move tried: enough remaining depth, late enough, not the TT move, not
/// noisy, not a killer, and neither player facing an immediate threat.
pub open spec fn lmr_eligible<G: Game, H: SearchHooks<G>>(
    hooks: H,
    state: G::State,
    mv: G::Move,
    depth: u8,
    move_index: usize,
    tt_move: Option<G::Move>,
    killers: Killers<G::Move>,
) -> bool {
    let a = G::spec_current_player(state);
    let b = G::spec_other_player(a);
    &&& depth >= LMR_MIN_DEPTH
    &&& move_index >= LMR_MIN_MOVE_INDEX
    &&& tt_move != Some(mv)
    &&& !hooks.spec_move_features(state, mv).is_noisy
    &&& killers.0 != Some(mv)
    &&& killers.1 != Some(mv)
    &&& !hooks.spec_has_immediate_threat(state, a)
    &&& !hooks.spec_has_immediate_threat(state, b)
}

/// Whether `mv` is safe to search at a reduced depth under late-move
/// reductions.
pub fn is_lmr_eligible<G: Game, H: SearchHooks<G>>(
    hooks: &H,
    state: &G::State,
    mv: &G::Move,
    depth: u8,
    move_index: usize,
    tt_move: Option<G::Move>,
    killers: Killers<G::Move>,
) -> (eligible: bool)
    requires
        crate::game::game_eq_laws::<G>(),
    ensures
        eligible == lmr_eligible(*hooks, *state, *mv, depth, move_index, tt_move, killers),
{
    if depth < LMR_MIN_DEPTH || move_index < LMR_MIN_MOVE_INDEX {
        return false;
    }
    if holds_move(&tt_move, mv) || hooks.move_features(state, mv).is_noisy {
        return false;
    }
    if holds_move(&killers.0, mv) || holds_move(&killers.1, mv) {
        return false;
    }
    let a = G::current_player(state);
    let b = G::other_player(a);
    if hooks.has_immediate_threat(state, a) || hooks.has_immediate_threat(state, b) {
        return false;
    }
    true
}

} // verus!
