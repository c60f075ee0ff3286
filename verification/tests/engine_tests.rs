//! Exercises the generic engine end to end against a toy game (Nim:
//! subtract 1 or 2 from a shared pile, whoever takes the last token
//! wins -- optimal play always leaves a multiple of 3 for the opponent).

use game_ai::{
    AlphaBetaConfig, AlphaBetaPlayer, Game, GameResult, HistoryBonus, MoveFeatures, MovePriority,
    RankedPolicy, RootPolicyReport, SearchHooks, SearchLimit, MATE,
};
use std::time::Duration;
use web_time::Instant;

#[derive(Copy, Clone, Debug, PartialEq, Eq)]
enum NimPlayer {
    A,
    B,
}

#[derive(Copy, Clone, Debug, PartialEq, Eq)]
struct NimState {
    pile: u8,
    to_move: NimPlayer,
}

struct NimGame;

impl Game for NimGame {
    type State = NimState;
    type Move = u8;
    type Player = NimPlayer;
    type PositionKey = (u8, u8);

    fn current_player(state: &Self::State) -> Self::Player {
        state.to_move
    }

    fn other_player(player: Self::Player) -> Self::Player {
        match player {
            NimPlayer::A => NimPlayer::B,
            NimPlayer::B => NimPlayer::A,
        }
    }

    fn legal_moves(state: &Self::State) -> Vec<Self::Move> {
        (1..=2u8).filter(|&take| take <= state.pile).collect()
    }

    fn apply_move(state: &Self::State, mv: Self::Move) -> Self::State {
        NimState { pile: state.pile - mv, to_move: Self::other_player(state.to_move) }
    }

    fn result(state: &Self::State) -> GameResult<Self::Player> {
        if state.pile == 0 {
            GameResult::Win(Self::other_player(state.to_move))
        } else {
            GameResult::InProgress
        }
    }

    fn position_key(state: &Self::State) -> Self::PositionKey {
        (state.pile, state.to_move as u8)
    }

    fn tt_hash(key: &Self::PositionKey) -> u64 {
        ((key.0 as u64) << 8 | key.1 as u64).wrapping_mul(0x9E3779B97F4A7C15)
    }
}

#[derive(Default)]
struct NimHooks;

impl SearchHooks<NimGame> for NimHooks {
    const HISTORY_BUCKETS: usize = 3;

    fn evaluate(&self, state: &NimState) -> i32 {
        // A pile that's a multiple of 3 is bad for the player to move.
        if state.pile % 3 == 0 {
            -1
        } else {
            1
        }
    }

    fn move_features(&self, state: &NimState, mv: &u8) -> MoveFeatures {
        let wins_immediately = *mv as u16 >= state.pile as u16;
        MoveFeatures {
            priority: if wins_immediately { MovePriority::ImmediateWin } else { MovePriority::Ordinary },
            is_noisy: wins_immediately,
            is_capture: false,
            history_bucket: if wins_immediately { None } else { Some(*mv as usize) },
        }
    }

    fn has_immediate_threat(&self, state: &NimState, _player: NimPlayer) -> bool {
        state.pile <= 2
    }
}

fn player_with(config: AlphaBetaConfig) -> AlphaBetaPlayer<NimGame, NimHooks> {
    AlphaBetaPlayer::new(config, NimHooks)
}

#[test]
fn analyze_finds_the_optimal_nim_move_leaving_a_multiple_of_three() {
    let mut player = player_with(AlphaBetaConfig { limit: SearchLimit::Depth(10), ..AlphaBetaConfig::default() });
    // Pile of 7: optimal play takes 1, leaving 6 (a multiple of 3).
    let state = NimState { pile: 7, to_move: NimPlayer::A };
    let analysis = player.analyze(&state, None);
    assert_eq!(analysis.best_move, 1);
    assert!(analysis.score > 0);
}

#[test]
fn analyze_reports_a_losing_score_from_a_multiple_of_three() {
    let mut player = player_with(AlphaBetaConfig { limit: SearchLimit::Depth(10), ..AlphaBetaConfig::default() });
    // Pile of 6: whatever A takes (1 or 2), B can always restore a
    // multiple of 3 -- a theoretical loss for A under optimal play.
    let state = NimState { pile: 6, to_move: NimPlayer::A };
    let analysis = player.analyze(&state, None);
    assert!(analysis.score < 0);
}

#[test]
fn single_legal_move_short_circuits_with_no_search() {
    let mut player = player_with(AlphaBetaConfig::default());
    let state = NimState { pile: 1, to_move: NimPlayer::A }; // only "take 1" is legal
    let analysis = player.analyze(&state, None);
    assert_eq!(analysis.best_move, 1);
    assert_eq!(analysis.nodes, 0);
}

#[test]
fn depth_zero_evaluates_each_move_statically_with_no_recursion() {
    let mut player = player_with(AlphaBetaConfig { limit: SearchLimit::Depth(0), ..AlphaBetaConfig::default() });
    let state = NimState { pile: 7, to_move: NimPlayer::A };
    let analysis = player.analyze(&state, None);
    assert_eq!(analysis.nodes, 2); // exactly the two legal moves, no recursion
}

#[test]
fn reset_for_new_game_clears_the_transposition_table_without_losing_config() {
    let mut player = player_with(AlphaBetaConfig { limit: SearchLimit::Depth(6), ..AlphaBetaConfig::default() });
    let state = NimState { pile: 7, to_move: NimPlayer::A };
    let before = player.analyze(&state, None);
    player.reset_for_new_game();
    let after = player.analyze(&state, None);
    assert_eq!(before.best_move, after.best_move);
    assert_eq!(before.score, after.score);
}

/// The report a root-policy evaluator's call gives once its
/// probabilities are ranked among themselves and the tiers 2.0 (TT move)
/// and 3.0 (immediate win), with 0.0 for an absent move.
fn ranked(entries: Vec<(u8, u32)>, absent_rank: u32, tt_rank: u32, win_rank: u32) -> RootPolicyReport<u8> {
    RootPolicyReport {
        policy: Some(RankedPolicy { entries, win_rank, tt_rank, absent_rank }),
        time: Duration::ZERO,
        started: Instant::now(),
    }
}

#[test]
fn root_policy_evaluator_is_consulted_when_provided() {
    let mut player = player_with(AlphaBetaConfig { limit: SearchLimit::Depth(4), ..AlphaBetaConfig::default() });
    let state = NimState { pile: 5, to_move: NimPlayer::A };
    // Policy [(1, 0.01), (2, 0.99)]: ranks 0.0 < 0.01 < 0.99 < 2.0 < 3.0.
    let policy = ranked(vec![(1, 1), (2, 2)], 0, 3, 4);
    let analysis = player.analyze(&state, Some(policy));
    assert_eq!(analysis.root_policy_calls, 1);
    assert!(analysis.root_policy_used);
}

#[test]
fn an_unusable_policy_falls_back_to_classical_ordering() {
    let mut player = player_with(AlphaBetaConfig { limit: SearchLimit::Depth(4), ..AlphaBetaConfig::default() });
    let state = NimState { pile: 7, to_move: NimPlayer::A };
    // Policy [(1, 0.5), (3, 0.5)]: a wrong move set (includes an illegal
    // "3") -- must be rejected.
    let policy = ranked(vec![(1, 1), (3, 1)], 0, 2, 3);
    let analysis = player.analyze(&state, Some(policy));
    assert_eq!(analysis.root_policy_calls, 1);
    assert!(!analysis.root_policy_used);
    assert_eq!(analysis.best_move, 1); // still finds the true optimal move
}

#[test]
fn a_non_finite_policy_is_counted_but_not_used() {
    let mut player = player_with(AlphaBetaConfig { limit: SearchLimit::Depth(4), ..AlphaBetaConfig::default() });
    let state = NimState { pile: 7, to_move: NimPlayer::A };
    let report = RootPolicyReport { policy: None, time: Duration::ZERO, started: Instant::now() };
    let analysis = player.analyze(&state, Some(report));
    assert_eq!(analysis.root_policy_calls, 1);
    assert!(!analysis.root_policy_used);
    assert_eq!(analysis.best_move, 1);
}

#[test]
fn wants_root_policy_exactly_when_more_than_one_move_is_legal() {
    let player = player_with(AlphaBetaConfig::default());
    assert!(!player.wants_root_policy(&NimState { pile: 1, to_move: NimPlayer::A }));
    assert!(player.wants_root_policy(&NimState { pile: 7, to_move: NimPlayer::A }));
    let zero = player_with(AlphaBetaConfig { limit: SearchLimit::Depth(0), ..AlphaBetaConfig::default() });
    assert!(zero.wants_root_policy(&NimState { pile: 7, to_move: NimPlayer::A }));
}

#[test]
fn a_zero_ply_limit_counts_the_policy_call_but_orders_nothing() {
    let mut player = player_with(AlphaBetaConfig { limit: SearchLimit::Depth(0), ..AlphaBetaConfig::default() });
    let state = NimState { pile: 7, to_move: NimPlayer::A };
    let report = RootPolicyReport { policy: None, time: Duration::from_millis(3), started: Instant::now() };
    let analysis = player.analyze(&state, Some(report));
    assert_eq!(analysis.root_policy_calls, 1);
    assert!(!analysis.root_policy_used);
    assert_eq!(analysis.root_policy_time, Duration::from_millis(3));
    assert_eq!(analysis.completed_depth, 0);
    assert_eq!(analysis.nodes, 2);
    assert_eq!(analysis.tt_hits, 0);
    let without = player.analyze(&state, None);
    assert_eq!(without.root_policy_calls, 0);
    assert_eq!(without.score, analysis.score);
}

#[test]
fn a_fixed_depth_search_stops_early_only_on_a_decisive_score() {
    let max_ply = AlphaBetaConfig::default().max_ply as i32;
    let mut player = player_with(AlphaBetaConfig { limit: SearchLimit::Depth(10), ..AlphaBetaConfig::default() });
    let winning = player.analyze(&NimState { pile: 7, to_move: NimPlayer::A }, None);
    assert!(winning.completed_depth >= 1 && winning.completed_depth <= 10);
    assert!(winning.score > 0);
    if winning.completed_depth < 10 {
        assert!(winning.score.abs() >= MATE - max_ply);
    }
    let losing = player.analyze(&NimState { pile: 6, to_move: NimPlayer::A }, None);
    assert!(losing.score < 0);
    assert!(losing.completed_depth >= 1 && losing.completed_depth <= 10);
    if losing.completed_depth < 10 {
        assert!(losing.score.abs() >= MATE - max_ply);
    }
}

#[test]
fn search_options_do_not_change_a_fixed_depth_result() {
    let plain = AlphaBetaConfig {
        limit: SearchLimit::Depth(5),
        pvs: false,
        killer_moves: false,
        history_heuristic: false,
        aspiration_window: None,
        tt_megabytes: 0,
        ..AlphaBetaConfig::default()
    };
    let tuned = AlphaBetaConfig { limit: SearchLimit::Depth(5), ..AlphaBetaConfig::default() };
    for pile in 2..12u8 {
        let state = NimState { pile, to_move: NimPlayer::A };
        let a = player_with(plain.clone()).analyze(&state, None);
        let b = player_with(tuned.clone()).analyze(&state, None);
        assert_eq!(a.completed_depth, b.completed_depth);
        assert_eq!(a.score, b.score);
        assert_eq!(a.pvs_researches, 0);
        assert_eq!(a.tt_hits, 0);
        assert_eq!(a.aspiration_researches, 0);
        assert!(b.quiescence_nodes <= b.nodes);
        assert!(b.lmr_researches <= b.lmr_reductions);
    }
}

#[test]
fn pile_eleven_is_answered_by_leaving_nine() {
    let mut player = player_with(AlphaBetaConfig { limit: SearchLimit::Depth(8), ..AlphaBetaConfig::default() });
    let state = NimState { pile: 11, to_move: NimPlayer::A };
    let analysis = player.analyze(&state, None);
    assert_eq!(analysis.best_move, 2); // leaves 9, a multiple of 3
}

#[test]
fn transposition_table_on_or_off_gives_the_same_scores() {
    for pile in 1..=40u8 {
        for to_move in [NimPlayer::A, NimPlayer::B] {
            let state = NimState { pile, to_move };
            for depth in [4u8, 10] {
                let mut baseline = player_with(AlphaBetaConfig {
                    limit: SearchLimit::Depth(depth),
                    tt_megabytes: 0,
                    ..AlphaBetaConfig::default()
                });
                let mut candidate = player_with(AlphaBetaConfig {
                    limit: SearchLimit::Depth(depth),
                    tt_megabytes: 1,
                    ..AlphaBetaConfig::default()
                });
                let a = baseline.analyze(&state, None);
                let b = candidate.analyze(&state, None);
                assert_eq!(a.score, b.score, "pile {pile}, {to_move:?}, depth {depth}");
            }
        }
    }
}

#[test]
fn search_efficiency_options_never_change_the_score() {
    for pile in 2..=20u8 {
        let state = NimState { pile, to_move: NimPlayer::A };
        let plain = player_with(AlphaBetaConfig {
            limit: SearchLimit::Depth(7),
            killer_moves: false,
            history_heuristic: false,
            ..AlphaBetaConfig::default()
        })
        .analyze(&state, None);
        for (pvs, window, bonus) in [
            (true, None, HistoryBonus::Depth),
            (false, Some(1), HistoryBonus::Flat),
            (true, Some(50), HistoryBonus::DepthSquaredCapped(9)),
        ] {
            let tuned = player_with(AlphaBetaConfig {
                limit: SearchLimit::Depth(7),
                pvs,
                aspiration_window: window,
                history_bonus: bonus,
                ..AlphaBetaConfig::default()
            })
            .analyze(&state, None);
            assert_eq!(plain.score, tuned.score, "pile {pile}");
        }
    }
}

#[test]
fn a_forced_win_reports_a_mate_score_and_stops_deepening() {
    let mut player = player_with(AlphaBetaConfig { limit: SearchLimit::Depth(20), ..AlphaBetaConfig::default() });
    // Pile 2: taking both tokens wins at ply 1.
    let state = NimState { pile: 2, to_move: NimPlayer::A };
    let analysis = player.analyze(&state, None);
    assert_eq!(analysis.best_move, 2);
    assert_eq!(analysis.score, MATE - 1);
    assert_eq!(analysis.completed_depth, 1);
    assert_eq!(analysis.principal_variation, vec![2]);
}

#[test]
fn a_node_limit_keeps_the_last_completed_depth() {
    let mut player = player_with(AlphaBetaConfig { limit: SearchLimit::Nodes(30), ..AlphaBetaConfig::default() });
    let state = NimState { pile: 30, to_move: NimPlayer::A };
    let analysis = player.analyze(&state, None);
    assert!(analysis.completed_depth >= 1);
    assert!(analysis.nodes >= 30);
    assert!(analysis.best_move == 1 || analysis.best_move == 2);
}

#[test]
fn a_move_time_limit_still_returns_a_legal_move() {
    let mut player = player_with(AlphaBetaConfig {
        limit: SearchLimit::MoveTime(Duration::from_millis(20)),
        ..AlphaBetaConfig::default()
    });
    let state = NimState { pile: 40, to_move: NimPlayer::A };
    let analysis = player.analyze(&state, None);
    assert!(analysis.best_move == 1 || analysis.best_move == 2);
}

#[test]
fn depth_zero_prefers_the_immediate_win() {
    let mut player = player_with(AlphaBetaConfig { limit: SearchLimit::Depth(0), ..AlphaBetaConfig::default() });
    let state = NimState { pile: 2, to_move: NimPlayer::B };
    let analysis = player.analyze(&state, None);
    assert_eq!(analysis.best_move, 2);
    assert_eq!(analysis.score, MATE - 1);
    assert_eq!(analysis.principal_variation, vec![2]);
}

#[test]
fn late_move_reductions_still_find_a_legal_move() {
    let mut player = player_with(AlphaBetaConfig {
        limit: SearchLimit::Depth(9),
        lmr: true,
        ..AlphaBetaConfig::default()
    });
    let state = NimState { pile: 13, to_move: NimPlayer::A };
    let analysis = player.analyze(&state, None);
    assert!(analysis.best_move == 1 || analysis.best_move == 2);
    assert!(analysis.lmr_researches <= analysis.lmr_reductions);
}

#[test]
fn a_reset_player_searches_like_a_fresh_one() {
    let config = AlphaBetaConfig { limit: SearchLimit::Depth(6), ..AlphaBetaConfig::default() };
    let mut used = player_with(config.clone());
    let _ = used.analyze(&NimState { pile: 10, to_move: NimPlayer::A }, None);
    used.reset_for_new_game();
    let state = NimState { pile: 8, to_move: NimPlayer::B };
    let after_reset = used.analyze(&state, None);
    let fresh = player_with(config).analyze(&state, None);
    assert_eq!(after_reset.best_move, fresh.best_move);
    assert_eq!(after_reset.score, fresh.score);
    assert_eq!(after_reset.completed_depth, fresh.completed_depth);
    assert_eq!(after_reset.nodes, fresh.nodes);
    assert_eq!(after_reset.tt_hits, fresh.tt_hits);
}

#[test]
fn reductions_change_nothing_when_no_move_is_late_enough() {
    let plain = AlphaBetaConfig { limit: SearchLimit::Depth(6), ..AlphaBetaConfig::default() };
    let reduced = AlphaBetaConfig { limit: SearchLimit::Depth(6), lmr: true, ..AlphaBetaConfig::default() };
    for pile in 2..10u8 {
        let state = NimState { pile, to_move: NimPlayer::A };
        let a = player_with(plain.clone()).analyze(&state, None);
        let b = player_with(reduced.clone()).analyze(&state, None);
        assert_eq!(a.score, b.score);
        assert_eq!(b.lmr_reductions, 0);
        assert_eq!(b.lmr_researches, 0);
    }
}

#[test]
fn a_node_limited_search_stops_early_only_at_the_limit_or_a_decisive_score() {
    let max_ply = AlphaBetaConfig::default().max_ply as i32;
    let mut player = player_with(AlphaBetaConfig { limit: SearchLimit::Nodes(50), ..AlphaBetaConfig::default() });
    let analysis = player.analyze(&NimState { pile: 40, to_move: NimPlayer::A }, None);
    assert!(analysis.completed_depth as i32 <= max_ply);
    let decisive = analysis.completed_depth >= 1 && analysis.score.abs() >= MATE - max_ply;
    if (analysis.completed_depth as i32) < max_ply && !decisive {
        assert!(analysis.nodes >= 50);
    }
}
