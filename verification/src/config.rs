//! Search configuration.

use vstd::prelude::*;
use web_time::Duration;

verus! {

/// What bounds an `analyze` call. Node and depth limits are the
/// deterministic controls; `MoveTime` checks its deadline inside the
/// search and keeps the last fully completed depth.
#[derive(Clone, Copy, Debug)]
pub enum SearchLimit {
    Depth(u8),
    Nodes(u64),
    MoveTime(Duration),
}

/// How much a quiet move's history entry grows on a beta cutoff, as a
/// function of the remaining depth at which the cutoff occurred.
#[derive(Clone, Copy, Debug, PartialEq, Eq)]
pub enum HistoryBonus {
    /// `depth²`.
    DepthSquared,
    /// `depth`.
    Depth,
    /// `1`: a plain cutoff counter.
    Flat,
    /// `min(depth², cap)`.
    DepthSquaredCapped(i32),
}

impl HistoryBonus {
    pub open spec fn spec_value(self, depth: u8) -> int {
        let d = depth as int;
        match self {
            HistoryBonus::DepthSquared => d * d,
            HistoryBonus::Depth => d,
            HistoryBonus::Flat => 1,
            HistoryBonus::DepthSquaredCapped(cap) => if d * d <= cap {
                d * d
            } else {
                cap as int
            },
        }
    }

    /// The bonus for a cutoff at remaining depth `depth`.
    pub fn value(self, depth: u8) -> (bonus: i32)
        ensures
            bonus == self.spec_value(depth),
    {
        let d = depth as i32;
        assert(0 <= d * d <= 255 * 255) by (nonlinear_arith)
            requires
                0 <= d <= 255,
        ;
        match self {
            HistoryBonus::DepthSquared => d * d,
            HistoryBonus::Depth => d,
            HistoryBonus::Flat => 1,
            HistoryBonus::DepthSquaredCapped(cap) => {
                let sq = d * d;
                if sq <= cap {
                    sq
                } else {
                    cap
                }
            },
        }
    }
}

/// Every knob of the search.
#[derive(Clone, Debug)]
pub struct AlphaBetaConfig {
    pub limit: SearchLimit,
    /// Table size; `0` turns the transposition table off entirely.
    pub tt_megabytes: usize,
    /// Absolute ply bound of the search.
    pub max_ply: usize,
    /// Extra plies quiescence may search past the horizon; `None`
    /// disables quiescence.
    pub quiescence_max_extra_ply: Option<u8>,
    /// Principal variation search (null-window scouts).
    pub pvs: bool,
    /// Half-width of the root's aspiration window from depth 2 on.
    pub aspiration_window: Option<i32>,
    /// Killer-move ordering.
    pub killer_moves: bool,
    /// History-heuristic ordering.
    pub history_heuristic: bool,
    pub history_bonus: HistoryBonus,
    /// Late-move reductions (not score-preserving).
    pub lmr: bool,
    /// Kept for configuration compatibility; both sorting strategies give
    /// the identical order.
    pub order_moves_use_cached_key: bool,
}

impl Default for AlphaBetaConfig {
    fn default() -> (config: Self)
        ensures
            config.limit matches SearchLimit::Depth(d) && d == 4,
            config.tt_megabytes == 32,
            config.max_ply == 64,
            config.quiescence_max_extra_ply == Some(4u8),
            !config.pvs,
            config.aspiration_window is None,
            config.killer_moves,
            config.history_heuristic,
            config.history_bonus == HistoryBonus::DepthSquared,
            !config.lmr,
            config.order_moves_use_cached_key,
    {
        AlphaBetaConfig {
            limit: SearchLimit::Depth(4),
            tt_megabytes: 32,
            max_ply: 64,
            quiescence_max_extra_ply: Some(4),
            pvs: false,
            aspiration_window: None,
            killer_moves: true,
            history_heuristic: true,
            history_bonus: HistoryBonus::DepthSquared,
            lmr: false,
            order_moves_use_cached_key: true,
        }
    }
}

} // verus!
