//! Quiescence step by step, as spec functions over an abstract search
//! state: every node it visits and counts, the order it tries its noisy
//! moves in, where it stands pat and where it cuts off, and where the
//! node limit stops it. `search::quiescence` proves that it follows these
//! steps exactly whenever no deadline is set.

use crate::config::HistoryBonus;
use crate::game::{Game, GameResult};
use crate::hooks::SearchHooks;
use crate::ordering::{noisy_order_key, Killers, RankedPolicy};
use crate::sort::sorted_desc;
use crate::tt::TtView;
use crate::value::{mate_value, noisy_moves};
use vstd::prelude::*;

verus! {

/// What a search call changes: the table, killers, history and counters.
#[verifier::ext_equal]
pub ghost struct SearchModel<G: Game> {
    pub tt: TtView<G>,
    pub killers: Seq<Killers<G::Move>>,
    pub history: Seq<i32>,
    pub nodes: u64,
    pub quiescence_nodes: u64,
    pub tt_hits: u64,
    pub beta_cutoffs: u64,
    pub pvs_researches: u64,
    pub lmr_reductions: u64,
    pub lmr_researches: u64,
}

/// What a search call reads and never changes.
pub ghost struct SearchSettings<G: Game> {
    pub max_ply: usize,
    pub qext: Option<u8>,
    pub pvs: bool,
    pub killer_moves: bool,
    pub history_heuristic: bool,
    pub history_bonus: HistoryBonus,
    pub lmr: bool,
    pub root_policy: Option<RankedPolicy<G::Move>>,
    pub node_limit: Option<u64>,
    pub use_tt: bool,
}

/// `n + 1`, saturating at `u64::MAX`.
pub open spec fn inc(n: u64) -> u64 {
    if n == u64::MAX {
        n
    } else {
        (n + 1) as u64
    }
}

/// A quiescence result with its score as an integer.
pub open spec fn lift_score(res: Option<i32>) -> Option<int> {
    match res {
        Some(v) => Some(v as int),
        None => None,
    }
}

/// Whether the node limit stops a search about to visit a node.
pub open spec fn limit_hit<G: Game>(s: SearchSettings<G>, m: SearchModel<G>) -> bool {
    s.node_limit matches Some(l) && m.nodes >= l
}

/// Quiescence from `state`: the model after it and its score (`None`
/// when the node limit stopped it).
pub open spec fn q_search<G: Game, H: SearchHooks<G>>(
    h: H,
    s: SearchSettings<G>,
    m: SearchModel<G>,
    path: Seq<G::PositionKey>,
    state: G::State,
    alpha: int,
    beta: int,
    ply: int,
    extra: nat,
) -> (SearchModel<G>, Option<int>)
    decreases extra, 1nat, 0int,
{
    if limit_hit(s, m) {
        (m, None)
    } else {
        let m1 = SearchModel { nodes: inc(m.nodes), quiescence_nodes: inc(m.quiescence_nodes), ..m };
        match G::spec_result(state) {
            GameResult::Win(w) => (m1, Some(mate_value::<G>(state, w, ply))),
            GameResult::Draw => (m1, Some(0)),
            GameResult::InProgress => {
                let key = G::spec_position_key(state);
                let stand_pat = h.spec_evaluate(state) as int;
                if path.contains(key) {
                    (m1, Some(0))
                } else if stand_pat >= beta {
                    (m1, Some(stand_pat))
                } else if extra == 0 || ply >= s.max_ply {
                    (m1, Some(stand_pat))
                } else {
                    let noisy = noisy_moves(h, state);
                    if noisy.len() == 0 {
                        (m1, Some(stand_pat))
                    } else {
                        let ordered = sorted_desc(
                            noisy,
                            noisy.map_values(|mv: G::Move| noisy_order_key(h, state, mv)),
                        );
                        q_loop(
                            h,
                            s,
                            m1,
                            path.push(key),
                            state,
                            ordered,
                            0,
                            if stand_pat > alpha {
                                stand_pat
                            } else {
                                alpha
                            },
                            beta,
                            stand_pat,
                            ply,
                            extra,
                        )
                    }
                }
            },
        }
    }
}

/// Quiescence's move loop from the `i`th of `moves` on, with the current
/// `alpha` and `best`; `path` already ends with `state`'s key.
pub open spec fn q_loop<G: Game, H: SearchHooks<G>>(
    h: H,
    s: SearchSettings<G>,
    m: SearchModel<G>,
    path: Seq<G::PositionKey>,
    state: G::State,
    moves: Seq<G::Move>,
    i: int,
    alpha: int,
    beta: int,
    best: int,
    ply: int,
    extra: nat,
) -> (SearchModel<G>, Option<int>)
    decreases extra, 0nat, moves.len() - i,
{
    if i >= moves.len() || i < 0 || extra == 0 {
        (m, Some(best))
    } else {
        let (m2, r) = q_search(
            h,
            s,
            m,
            path,
            G::spec_apply_move(state, moves[i]),
            -beta,
            -alpha,
            ply + 1,
            (extra - 1) as nat,
        );
        match r {
            None => (m2, None),
            Some(v) => {
                let best2 = if -v > best {
                    -v
                } else {
                    best
                };
                let alpha2 = if best2 > alpha {
                    best2
                } else {
                    alpha
                };
                if alpha2 >= beta {
                    (m2, Some(best2))
                } else {
                    q_loop(h, s, m2, path, state, moves, i + 1, alpha2, beta, best2, ply, extra)
                }
            },
        }
    }
}


} // verus!
