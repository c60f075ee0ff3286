//! The narrow interface a deterministic, alternating, two-player,
//! zero-sum, perfect-information game implements to be searched.

use vstd::prelude::*;

verus! {

/// The outcome of a game at a given state. `Draw` is a first-class
/// variant even for games that never produce it.
#[derive(Copy, Clone, Debug, PartialEq, Eq)]
pub enum GameResult<Player> {
    InProgress,
    Win(Player),
    Draw,
}

impl<Player> GameResult<Player> {
    /// Whether the game has ended: a win for either side or a draw.
    pub fn is_over(&self) -> (over: bool)
        ensures
            over <==> !(*self is InProgress),
    {
        match self {
            GameResult::InProgress => false,
            _ => true,
        }
    }
}

/// A game's rules engine. Implementors are zero-sized marker types;
/// every operation is an associated function of the state alone, and
/// each is deterministic: its result is the corresponding `spec_*`
/// function of its arguments. An implementation checked by Verus defines
/// those functions; the default bodies only let an implementation that
/// is not checked by Verus compile, and the search, which reasons about
/// an arbitrary `G`, never sees them.
pub trait Game {
    type State: Copy;
    type Move: Copy + Eq;
    type Player: Copy + Eq;
    /// A key distinguishing positions exactly.
    type PositionKey: Copy + Eq;

    open spec fn spec_current_player(state: Self::State) -> Self::Player {
        arbitrary()
    }

    open spec fn spec_other_player(player: Self::Player) -> Self::Player {
        arbitrary()
    }

    open spec fn spec_legal_moves(state: Self::State) -> Seq<Self::Move> {
        arbitrary()
    }

    open spec fn spec_apply_move(state: Self::State, mv: Self::Move) -> Self::State {
        arbitrary()
    }

    open spec fn spec_result(state: Self::State) -> GameResult<Self::Player> {
        arbitrary()
    }

    open spec fn spec_position_key(state: Self::State) -> Self::PositionKey {
        arbitrary()
    }

    open spec fn spec_tt_hash(key: Self::PositionKey) -> u64 {
        arbitrary()
    }

    /// Whose turn it is to move in `state`.
    fn current_player(state: &Self::State) -> (player: Self::Player)
        ensures
            player == Self::spec_current_player(*state),
    ;

    /// The other player, independent of any particular state.
    fn other_player(player: Self::Player) -> (other: Self::Player)
        ensures
            other == Self::spec_other_player(player),
    ;

    /// Every legal move for the side to move.
    fn legal_moves(state: &Self::State) -> (moves: Vec<Self::Move>)
        ensures
            moves@ == Self::spec_legal_moves(*state),
    ;

    /// The state after playing `mv` (assumed legal) in `state`.
    fn apply_move(state: &Self::State, mv: Self::Move) -> (next: Self::State)
        ensures
            next == Self::spec_apply_move(*state, mv),
    ;

    /// Whether the game is over, and who (if anyone) won.
    fn result(state: &Self::State) -> (res: GameResult<Self::Player>)
        ensures
            res == Self::spec_result(*state),
    ;

    /// An exact key for `state`.
    fn position_key(state: &Self::State) -> (key: Self::PositionKey)
        ensures
            key == Self::spec_position_key(*state),
    ;

    /// A deterministic hash of `key`, used only to pick a slot in a
    /// bounded transposition table.
    fn tt_hash(key: &Self::PositionKey) -> (hash: u64)
        ensures
            hash == Self::spec_tt_hash(*key),
    ;
}

/// The equality that `==` computes on moves, players and position keys
/// is the mathematical equality of their values.
pub open spec fn game_eq_laws<G: Game>() -> bool {
    &&& vstd::laws_eq::obeys_concrete_eq::<G::Move>()
    &&& vstd::laws_eq::obeys_concrete_eq::<G::Player>()
    &&& vstd::laws_eq::obeys_concrete_eq::<G::PositionKey>()
}

/// A game whose `legal_moves` is empty only once `result` says the game
/// is over (a stalemate being reported by `result` as a loss).
pub open spec fn game_wf<G: Game>() -> bool {
    forall|s: G::State|
        (#[trigger] G::spec_result(s)) is InProgress ==> G::spec_legal_moves(s).len() > 0
}

/// Whether two values are equal, by their `==`.
pub fn same_value<T: Copy + Eq>(a: &T, b: &T) -> (same: bool)
    requires
        vstd::laws_eq::obeys_concrete_eq::<T>(),
    ensures
        same == (*a == *b),
{
    proof {
        reveal(vstd::laws_eq::obeys_concrete_eq);
    }
    *a == *b
}

} // verus!
