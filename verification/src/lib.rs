//! Iterative-deepening negamax search generic over a game's rules
//! engine (`Game`) and its per-game search hooks (`SearchHooks`), for
//! deterministic, alternating, two-player, zero-sum, perfect-information
//! games.

pub mod clock;
pub mod config;
pub mod game;
pub mod hooks;
pub mod ordering;
pub mod player;
pub mod scores;
pub mod search;
pub mod search_model;
pub mod sort;
pub mod tt;
pub mod value;

pub use config::{AlphaBetaConfig, HistoryBonus, SearchLimit};
pub use game::{Game, GameResult};
pub use hooks::{MoveFeatures, MovePriority, SearchHooks};
pub use ordering::RankedPolicy;
pub use player::{AlphaBetaAnalysis, AlphaBetaPlayer, RootPolicyReport};
pub use scores::{score_from_tt, score_to_tt, MATE, MATE_THRESHOLD};
