use game_ai::{score_from_tt, score_to_tt, MATE, MATE_THRESHOLD};

#[test]
fn score_to_tt_and_score_from_tt_round_trip() {
    for (score, ply) in [(0, 0), (100, 5), (-100, 5), (MATE - 1, 3), (-(MATE - 1), 3)] {
        assert_eq!(score_from_tt(score_to_tt(score, ply), ply), score);
    }
}

#[test]
fn mate_scores_move_away_from_zero_when_stored() {
    assert_eq!(MATE_THRESHOLD, 29_000);
    assert_eq!(score_to_tt(MATE - 3, 3), MATE);
    assert_eq!(score_to_tt(-(MATE - 3), 3), -MATE);
    assert_eq!(score_to_tt(MATE_THRESHOLD - 1, 7), MATE_THRESHOLD - 1);
    assert_eq!(score_from_tt(MATE, 3), MATE - 3);
    assert_eq!(score_from_tt(-MATE, 3), -(MATE - 3));
    assert_eq!(score_from_tt(-5, 9), -5);
}
