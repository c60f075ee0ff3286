//! Move ordering, the transposition table, the stable sort and the
//! late-move-reduction gate, each on concrete values.

use game_ai::ordering::{
    is_lmr_eligible, order_moves, order_noisy_moves, order_root_moves, policy_matches_moves,
};
use game_ai::search::{limits_reached, negamax, reconstruct_pv, SearchContext};
use game_ai::sort::{stable_desc_order, stable_sort_desc};
use game_ai::tt::{Bound, TranspositionTable};
use game_ai::{
    AlphaBetaConfig, AlphaBetaPlayer, Game, GameResult, HistoryBonus, MoveFeatures, MovePriority,
    RankedPolicy, SearchHooks, SearchLimit, MATE,
};

#[derive(Copy, Clone, Debug, PartialEq, Eq)]
enum NimPlayer {
    A,
    B,
}

#[derive(Copy, Clone, Debug, PartialEq, Eq)]
struct NimState {
    pile: u8,
    to_move: NimPlayer,
}

/// `Clone` only so that `AlphaBetaAnalysis<NimGame>` can be cloned.
#[derive(Clone)]
struct NimGame;

impl Game for NimGame {
    type State = NimState;
    type Move = u8;
    type Player = NimPlayer;
    type PositionKey = (u8, u8);

    fn current_player(state: &Self::State) -> Self::Player {
        state.to_move
    }

    fn other_player(player: Self::Player) -> Self::Player {
        match player {
            NimPlayer::A => NimPlayer::B,
            NimPlayer::B => NimPlayer::A,
        }
    }

    fn legal_moves(state: &Self::State) -> Vec<Self::Move> {
        (1..=2u8).filter(|&take| take <= state.pile).collect()
    }

    fn apply_move(state: &Self::State, mv: Self::Move) -> Self::State {
        NimState { pile: state.pile - mv, to_move: Self::other_player(state.to_move) }
    }

    fn result(state: &Self::State) -> GameResult<Self::Player> {
        if state.pile == 0 {
            GameResult::Win(Self::other_player(state.to_move))
        } else {
            GameResult::InProgress
        }
    }

    fn position_key(state: &Self::State) -> Self::PositionKey {
        (state.pile, state.to_move as u8)
    }

    fn tt_hash(key: &Self::PositionKey) -> u64 {
        ((key.0 as u64) << 8 | key.1 as u64).wrapping_mul(0x9E3779B97F4A7C15)
    }
}

struct NimHooks;

impl SearchHooks<NimGame> for NimHooks {
    const HISTORY_BUCKETS: usize = 3;

    fn evaluate(&self, state: &NimState) -> i32 {
        if state.pile % 3 == 0 {
            -1
        } else {
            1
        }
    }

    fn move_features(&self, state: &NimState, mv: &u8) -> MoveFeatures {
        let wins_immediately = *mv as u16 >= state.pile as u16;
        MoveFeatures {
            priority: if wins_immediately { MovePriority::ImmediateWin } else { MovePriority::Ordinary },
            is_noisy: wins_immediately,
            is_capture: false,
            history_bucket: if wins_immediately { None } else { Some(*mv as usize) },
        }
    }

    fn has_immediate_threat(&self, state: &NimState, _player: NimPlayer) -> bool {
        state.pile <= 2
    }
}

fn nim(pile: u8) -> NimState {
    NimState { pile, to_move: NimPlayer::A }
}

#[test]
fn history_bonus_formulas() {
    assert_eq!(HistoryBonus::DepthSquared.value(5), 25);
    assert_eq!(HistoryBonus::Depth.value(5), 5);
    assert_eq!(HistoryBonus::Flat.value(5), 1);
    assert_eq!(HistoryBonus::DepthSquaredCapped(10).value(5), 10);
    assert_eq!(HistoryBonus::DepthSquaredCapped(100).value(5), 25);
    assert_eq!(HistoryBonus::DepthSquared.value(255), 65025);
}

#[test]
fn default_config_values() {
    let config = AlphaBetaConfig::default();
    assert!(matches!(config.limit, SearchLimit::Depth(4)));
    assert_eq!(config.tt_megabytes, 32);
    assert_eq!(config.max_ply, 64);
    assert_eq!(config.quiescence_max_extra_ply, Some(4));
    assert!(!config.pvs);
    assert_eq!(config.aspiration_window, None);
    assert!(config.killer_moves && config.history_heuristic);
    assert_eq!(config.history_bonus, HistoryBonus::DepthSquared);
    assert!(!config.lmr);
}

#[test]
fn a_probe_finds_what_a_store_wrote() {
    let mut tt: TranspositionTable<NimGame> = TranspositionTable::new(1);
    assert!(tt.probe((5, 0)).is_none());
    tt.store((5, 0), 3, Bound::Exact, 10, Some(1));
    let entry = tt.probe((5, 0)).expect("stored entry");
    assert_eq!(entry.key, (5, 0));
    assert_eq!(entry.depth, 3);
    assert_eq!(entry.bound, Bound::Exact);
    assert_eq!(entry.score, 10);
    assert_eq!(entry.best_move, Some(1));
    assert_eq!(entry.generation, 0);
    assert!(tt.probe((6, 0)).is_none());
}

#[test]
fn a_shallower_store_keeps_a_deeper_entry_of_the_same_generation() {
    let mut tt: TranspositionTable<NimGame> = TranspositionTable::new(1);
    tt.store((9, 1), 5, Bound::Lower, 7, Some(2));
    tt.store((9, 1), 3, Bound::Upper, -4, Some(1));
    assert_eq!(tt.probe((9, 1)).unwrap().depth, 5);
    tt.store((9, 1), 5, Bound::Upper, -4, Some(1));
    assert_eq!(tt.probe((9, 1)).unwrap().score, -4);
    tt.new_generation();
    tt.store((9, 1), 1, Bound::Exact, 2, None);
    let entry = tt.probe((9, 1)).unwrap();
    assert_eq!((entry.depth, entry.generation, entry.best_move), (1, 1, None));
}

#[test]
fn the_slot_of_a_key_is_stable() {
    let tt: TranspositionTable<NimGame> = TranspositionTable::new(1);
    assert_eq!(tt.index((3, 1)), tt.index((3, 1)));
}

#[test]
fn a_stable_sort_orders_by_descending_key_keeping_ties_in_order() {
    let items = vec!['a', 'b', 'c', 'd', 'e'];
    let keys = vec![1i64, 3, 1, 3, -2];
    assert_eq!(stable_sort_desc(&items, &keys), vec!['b', 'd', 'a', 'c', 'e']);
    assert_eq!(stable_desc_order(&keys), vec![1, 3, 0, 2, 4]);
    assert_eq!(stable_desc_order(&vec![]), Vec::<usize>::new());
}

#[test]
fn order_moves_ranks_tt_move_wins_killers_then_history() {
    let history = vec![0, 3, 7];
    let mut moves = vec![1u8, 2];
    order_moves(&NimHooks, &mut moves, &nim(5), None, (None, None), &history, true, true);
    assert_eq!(moves, vec![2, 1]); // history 7 before 3
    let mut moves = vec![1u8, 2];
    order_moves(&NimHooks, &mut moves, &nim(5), None, (None, None), &history, true, false);
    assert_eq!(moves, vec![1, 2]); // no history: generation order
    let mut moves = vec![1u8, 2];
    order_moves(&NimHooks, &mut moves, &nim(5), Some(1), (None, None), &history, true, true);
    assert_eq!(moves, vec![1, 2]); // TT move first
    let mut moves = vec![1u8, 2];
    order_moves(&NimHooks, &mut moves, &nim(5), None, (None, Some(1)), &history, true, true);
    assert_eq!(moves, vec![1, 2]); // killer before history
    let mut moves = vec![1u8, 2];
    order_moves(&NimHooks, &mut moves, &nim(2), None, (None, None), &vec![0, 9, 0], true, true);
    assert_eq!(moves, vec![2, 1]); // immediate win first
}

#[test]
fn order_noisy_moves_puts_immediate_wins_first() {
    let mut moves = vec![1u8, 2];
    order_noisy_moves(&NimHooks, &mut moves, &nim(2));
    assert_eq!(moves, vec![2, 1]);
    let mut moves = vec![1u8, 2];
    order_noisy_moves(&NimHooks, &mut moves, &nim(9));
    assert_eq!(moves, vec![1, 2]);
}

#[test]
fn order_root_moves_follows_the_policy_below_the_tt_move() {
    let policy = RankedPolicy { entries: vec![(1u8, 1u32), (2, 2)], win_rank: 4, tt_rank: 3, absent_rank: 0 };
    let mut moves = vec![1u8, 2];
    order_root_moves(&NimHooks, &mut moves, &nim(5), None, &policy);
    assert_eq!(moves, vec![2, 1]);
    let mut moves = vec![1u8, 2];
    order_root_moves(&NimHooks, &mut moves, &nim(5), Some(1), &policy);
    assert_eq!(moves, vec![1, 2]);
    let low = RankedPolicy { entries: vec![(1u8, 2u32), (2, 1)], win_rank: 4, tt_rank: 3, absent_rank: 0 };
    let mut moves = vec![1u8, 2];
    order_root_moves(&NimHooks, &mut moves, &nim(2), None, &low);
    assert_eq!(moves, vec![2, 1]); // the immediate win outranks the policy
}

#[test]
fn a_policy_is_usable_only_for_exactly_the_legal_moves() {
    assert!(policy_matches_moves(&vec![(1u8, 0u32), (2, 0)], &vec![1u8, 2]));
    assert!(policy_matches_moves(&vec![(2u8, 0u32), (1, 0)], &vec![1u8, 2]));
    assert!(!policy_matches_moves(&vec![(1u8, 0u32), (1, 0)], &vec![1u8, 2]));
    assert!(!policy_matches_moves(&vec![(1u8, 0u32)], &vec![1u8, 2]));
    assert!(!policy_matches_moves(&vec![(1u8, 0u32), (3, 0)], &vec![1u8, 2]));
    assert!(policy_matches_moves(&Vec::<(u8, u32)>::new(), &Vec::new()));
}

#[test]
fn lmr_applies_only_to_late_quiet_moves_in_calm_positions() {
    let calm = nim(10);
    assert!(is_lmr_eligible(&NimHooks, &calm, &1, 4, 3, None, (None, None)));
    assert!(!is_lmr_eligible(&NimHooks, &calm, &1, 3, 3, None, (None, None)));
    assert!(!is_lmr_eligible(&NimHooks, &calm, &1, 4, 2, None, (None, None)));
    assert!(!is_lmr_eligible(&NimHooks, &calm, &1, 4, 3, Some(1), (None, None)));
    assert!(!is_lmr_eligible(&NimHooks, &calm, &1, 4, 3, None, (None, Some(1))));
    assert!(!is_lmr_eligible(&NimHooks, &nim(2), &1, 4, 3, None, (None, None)));
}

#[test]
fn the_principal_variation_follows_stored_best_moves() {
    let mut tt: TranspositionTable<NimGame> = TranspositionTable::new(1);
    let root = nim(4);
    tt.store((4, 0), 3, Bound::Exact, 1, Some(1));
    tt.store((3, 1), 2, Bound::Exact, -1, Some(2));
    assert_eq!(reconstruct_pv(&tt, &root, 5), vec![1, 2]);
    assert_eq!(reconstruct_pv(&tt, &root, 1), vec![1]);
    assert_eq!(reconstruct_pv(&tt, &root, 0), Vec::<u8>::new());
    tt.store((1, 0), 1, Bound::Exact, 1, Some(1));
    assert_eq!(reconstruct_pv(&tt, &root, 5), vec![1, 2, 1]); // stops at the win
}

#[test]
fn a_lost_position_reports_the_mate_distance() {
    let mut player: AlphaBetaPlayer<NimGame, NimHooks> =
        AlphaBetaPlayer::new(AlphaBetaConfig { limit: SearchLimit::Depth(6), ..AlphaBetaConfig::default() }, NimHooks);
    let analysis = player.analyze(&nim(3), None);
    assert_eq!(analysis.score, -(MATE - 2));
    assert_eq!(analysis.completed_depth, 1);
    let copy = analysis.clone();
    assert_eq!(copy.elapsed, analysis.elapsed);
    assert_eq!(copy.root_policy_time, analysis.root_policy_time);
}

fn fresh_context() -> SearchContext<NimGame> {
    SearchContext {
        tt: TranspositionTable::new(1),
        killers: vec![(None, None); 65],
        history: vec![0; 3],
        nodes: 0,
        quiescence_nodes: 0,
        tt_hits: 0,
        beta_cutoffs: 0,
        pvs_researches: 0,
        lmr_reductions: 0,
        lmr_researches: 0,
        quiescence_max_extra_ply: None,
        pvs: false,
        killer_moves: true,
        history_heuristic: true,
        history_bonus: HistoryBonus::DepthSquared,
        lmr: false,
        root_policy: None,
        node_limit: None,
        deadline: None,
        aborted: false,
        path: Vec::new(),
        max_ply: 64,
        use_tt: true,
    }
}

#[test]
fn a_win_in_one_is_found_and_scored_for_the_mover() {
    let mut ctx = fresh_context();
    let result = negamax(&NimHooks, &mut ctx, &nim(2), 1, -MATE - 1, MATE + 1, 0);
    assert_eq!(result, Some((MATE - 1, Some(2), false)));
    assert_eq!(ctx.nodes, 3);
    assert!(ctx.path.is_empty());
}

#[test]
fn a_terminal_position_counts_one_node_and_leaves_the_table_alone() {
    let mut ctx = fresh_context();
    let over = NimState { pile: 0, to_move: NimPlayer::A };
    let result = negamax(&NimHooks, &mut ctx, &over, 3, -MATE - 1, MATE + 1, 2);
    assert_eq!(result, Some((-(MATE - 2), None, false)));
    assert_eq!(ctx.nodes, 1);
    assert!(ctx.tt.probe((0, 0)).is_none());
}

#[test]
fn a_repeated_position_is_a_path_dependent_draw() {
    let mut ctx = fresh_context();
    ctx.path.push((5, 0));
    let result = negamax(&NimHooks, &mut ctx, &nim(5), 3, -MATE - 1, MATE + 1, 1);
    assert_eq!(result, Some((0, None, true)));
    assert_eq!(ctx.nodes, 1);
    assert_eq!(ctx.tt_hits, 0);
    assert_eq!(ctx.killers[1], (None, None));
}

#[test]
fn the_ply_cap_returns_the_static_evaluation() {
    let mut ctx = fresh_context();
    ctx.max_ply = 1;
    ctx.killers = vec![(None, None); 2];
    let result = negamax(&NimHooks, &mut ctx, &nim(6), 4, -MATE - 1, MATE + 1, 1);
    assert_eq!(result, Some((-1, None, false)));
}

#[test]
fn a_quiet_cutoff_becomes_the_first_killer() {
    let mut ctx = fresh_context();
    ctx.killers[0] = (Some(1), None);
    let result = negamax(&NimHooks, &mut ctx, &nim(4), 1, -MATE - 1, -MATE, 0);
    let (score, best, _) = result.unwrap();
    assert!(score >= -MATE);
    let best = best.unwrap();
    if best == 1 {
        assert_eq!(ctx.killers[0], (Some(1), None));
    } else {
        assert_eq!(ctx.killers[0], (Some(best), Some(1)));
    }
}

#[test]
fn a_search_without_the_table_leaves_it_empty() {
    let mut ctx = fresh_context();
    ctx.use_tt = false;
    let result = negamax(&NimHooks, &mut ctx, &nim(5), 3, -MATE - 1, MATE + 1, 0);
    assert!(result.is_some());
    assert_eq!(ctx.tt_hits, 0);
    assert!(ctx.tt.probe((5, 0)).is_none());
}

#[test]
fn limits_are_reached_by_nodes_or_by_the_clock() {
    assert!(limits_reached(10, Some(10), false));
    assert!(!limits_reached(9, Some(10), false));
    assert!(limits_reached(0, None, true));
    assert!(!limits_reached(100, None, false));
}

#[test]
fn a_new_generation_makes_old_entries_replaceable() {
    let mut tt: TranspositionTable<NimGame> = TranspositionTable::new(1);
    tt.store((4, 0), 9, Bound::Exact, 5, Some(1));
    tt.store((4, 0), 1, Bound::Exact, 7, Some(2));
    assert_eq!(tt.probe((4, 0)).unwrap().score, 5);
    tt.new_generation();
    tt.store((4, 0), 1, Bound::Exact, 7, Some(2));
    assert_eq!(tt.probe((4, 0)).unwrap().score, 7);
}

#[test]
fn a_node_limit_not_yet_reached_still_answers_a_leaf() {
    let over = NimState { pile: 0, to_move: NimPlayer::A };
    let mut ctx = fresh_context();
    ctx.node_limit = Some(1);
    assert!(negamax(&NimHooks, &mut ctx, &over, 3, -MATE - 1, MATE + 1, 0).is_some());
    assert_eq!(ctx.nodes, 1);
    let mut reached = fresh_context();
    reached.node_limit = Some(0);
    assert!(negamax(&NimHooks, &mut reached, &over, 3, -MATE - 1, MATE + 1, 0).is_none());
    assert_eq!(reached.nodes, 0);
}

#[test]
fn an_expanded_node_stores_its_result() {
    let mut ctx = fresh_context();
    let (score, best, _) = negamax(&NimHooks, &mut ctx, &nim(4), 2, -MATE - 1, MATE + 1, 0).unwrap();
    let entry = ctx.tt.probe((4, 0)).unwrap();
    assert_eq!(entry.depth, 2);
    assert_eq!(entry.best_move, best);
    assert_eq!(entry.score, game_ai::score_to_tt(score, 0));
    assert_eq!(entry.bound, Bound::Exact);
}

#[test]
fn a_quiet_cutoff_raises_its_history_bucket() {
    let mut ctx = fresh_context();
    ctx.killer_moves = false;
    let (_, best, _) = negamax(&NimHooks, &mut ctx, &nim(4), 1, -MATE - 1, -MATE, 0).unwrap();
    let bucket = best.unwrap() as usize;
    assert_eq!(ctx.history[bucket], 1);
    assert_eq!(ctx.beta_cutoffs, 1);
}
