//! The per-game extension point the search runs against: evaluation and
//! the tactical classification of moves.

use crate::game::Game;
use crate::scores::score_bound;
use vstd::prelude::*;

verus! {

/// How move ordering should rank a move before any learned statistics.
#[derive(Copy, Clone, Debug, PartialEq, Eq)]
pub enum MovePriority {
    /// Ends the game in the mover's favour.
    ImmediateWin,
    /// Captures something.
    Capture,
    /// Anything else.
    Ordinary,
    /// A pass: legal only when nothing else is, never worth trying first.
    Pass,
}

/// What a game tells the search about one move.
#[derive(Copy, Clone, Debug, PartialEq, Eq)]
pub struct MoveFeatures {
    pub priority: MovePriority,
    /// Whether quiescence search should follow this move.
    pub is_noisy: bool,
    pub is_capture: bool,
    /// The history-table entry this move accumulates into, if any.
    pub history_bucket: Option<usize>,
}

/// Per-game search hooks. Unlike `Game`, an implementor may carry state
/// (evaluation weights); each method is deterministic in `self` and its
/// arguments, its result being the corresponding `spec_*` function (whose
/// default body, as in `Game`, only serves implementations not checked by
/// Verus).
pub trait SearchHooks<G: Game> {
    /// Number of history-table entries; every `history_bucket` a move
    /// reports is below it.
    const HISTORY_BUCKETS: usize;

    open spec fn spec_evaluate(&self, state: G::State) -> i32 {
        arbitrary()
    }

    open spec fn spec_move_features(&self, state: G::State, mv: G::Move) -> MoveFeatures {
        arbitrary()
    }

    open spec fn spec_has_immediate_threat(&self, state: G::State, player: G::Player) -> bool {
        arbitrary()
    }

    /// Static evaluation from the side to move's perspective.
    fn evaluate(&self, state: &G::State) -> (score: i32)
        ensures
            score == self.spec_evaluate(*state),
    ;

    /// The tactical classification of `mv` in `state`.
    fn move_features(&self, state: &G::State, mv: &G::Move) -> (features: MoveFeatures)
        ensures
            features == self.spec_move_features(*state, *mv),
    ;

    /// Whether `player` has a move that wins immediately in `state`.
    fn has_immediate_threat(&self, state: &G::State, player: G::Player) -> (threat: bool)
        ensures
            threat == self.spec_has_immediate_threat(*state, player),
    ;
}

/// What the search needs of a set of hooks: every static evaluation lies
/// within `±score_bound()` (so that negating a score, or shifting it by a
/// ply at the table boundary, cannot overflow), and every history bucket
/// indexes the history table.
pub open spec fn hooks_wf<G: Game, H: SearchHooks<G>>(hooks: H) -> bool {
    &&& forall|s: G::State|
        -score_bound() <= #[trigger] hooks.spec_evaluate(s) <= score_bound()
    &&& forall|s: G::State, m: G::Move|
        (#[trigger] hooks.spec_move_features(s, m)).history_bucket matches Some(b)
            ==> b < H::HISTORY_BUCKETS
}

} // verus!
