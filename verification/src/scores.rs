//! Mate scores and their conversion at the transposition-table boundary.

use vstd::prelude::*;

verus! {

/// Score just below the largest terminal value ever produced
/// (`MATE - ply`), so a window of `[-MATE-1, MATE+1]` brackets every
/// terminal score.
pub const MATE: i32 = 30_000;

/// Any score at least this close to `MATE` is a mate score.
pub const MATE_THRESHOLD: i32 = MATE - 1000;

/// The exclusive upper bound on a configured ply bound. It keeps
/// `MATE - max_ply` and every score shifted by a ply well inside `i32`,
/// and with it the size of the per-ply killer table. Nothing is lost
/// below it: with a ply bound of `MATE` or more every score counts as
/// decisive, so deepening stops after depth 1 whatever the bound.
pub const MAX_PLY_LIMIT: usize = 1_000_000;

/// Every score the search produces, static evaluations included, lies
/// within `±score_bound()`: far enough from the `i32` limits that a score
/// can be negated and shifted by any ply.
pub open spec fn score_bound() -> int {
    MATE + MAX_PLY_LIMIT
}

/// Ply-relative score to ply-independent ("mate in k from this position").
pub open spec fn spec_score_to_tt(score: int, ply: int) -> int {
    if score >= MATE_THRESHOLD {
        score + ply
    } else if score <= -MATE_THRESHOLD {
        score - ply
    } else {
        score
    }
}

/// Ply-independent score back to what it means at `ply`.
pub open spec fn spec_score_from_tt(score: int, ply: int) -> int {
    if score >= MATE_THRESHOLD {
        score - ply
    } else if score <= -MATE_THRESHOLD {
        score + ply
    } else {
        score
    }
}

/// Converts a ply-relative score to the ply-independent form stored in
/// the transposition table.
pub fn score_to_tt(score: i32, ply: usize) -> (stored: i32)
    requires
        ply <= i32::MAX,
        i32::MIN <= spec_score_to_tt(score as int, ply as int) <= i32::MAX,
    ensures
        stored == spec_score_to_tt(score as int, ply as int),
{
    let p = ply as i32;
    if score >= MATE_THRESHOLD {
        score + p
    } else if score <= -MATE_THRESHOLD {
        score - p
    } else {
        score
    }
}

/// Inverse of `score_to_tt`.
pub fn score_from_tt(score: i32, ply: usize) -> (live: i32)
    requires
        ply <= i32::MAX,
        i32::MIN <= spec_score_from_tt(score as int, ply as int) <= i32::MAX,
    ensures
        live == spec_score_from_tt(score as int, ply as int),
{
    let p = ply as i32;
    if score >= MATE_THRESHOLD {
        score - p
    } else if score <= -MATE_THRESHOLD {
        score + p
    } else {
        score
    }
}

/// Reading a stored score back at the ply it was stored from gives the
/// original score: `score_from_tt` undoes `score_to_tt`.
pub proof fn law_score_tt_round_trip(score: int, ply: int)
    requires
        ply >= 0,
    ensures
        spec_score_from_tt(spec_score_to_tt(score, ply), ply) == score,
{
}

/// Storing leaves non-mate scores unchanged and moves mate scores
/// further from zero, never across the mate threshold.
pub proof fn law_score_to_tt_keeps_mate_class(score: int, ply: int)
    requires
        ply >= 0,
    ensures
        score >= MATE_THRESHOLD ==> spec_score_to_tt(score, ply) >= score,
        score <= -MATE_THRESHOLD ==> spec_score_to_tt(score, ply) <= score,
        -MATE_THRESHOLD < score < MATE_THRESHOLD ==> spec_score_to_tt(score, ply) == score,
{
}

} // verus!
