//! Entity model of the game: players, phases, actions, events, errors, and
//! the authoritative `GameState`, together with the spec-level vocabulary the
//! transition contracts are written in.
use crate::dice::Dice;
use vstd::prelude::*;

verus! {

/// Total number of rounds a game lasts.
pub const ROUNDS: usize = 10;
/// Fixed cap on the number of players.
pub const MAX_PLAYERS: usize = 20;
/// Largest deposit a player may register with.
pub const MAX_DEPOSIT: u64 = 10000000;
/// Length of the betting window, in milliseconds.
pub const BET_WINDOW_MS: u128 = 30000;
/// Length of the registration window, in milliseconds.
pub const REGISTRATION_WINDOW_MS: u128 = 55000;
/// Stall window after which the backend may force the game to end.
pub const BACKEND_TIMEOUT_MS: u128 = 120000;
/// Stall window after which anyone may force the game to end.
pub const STALL_TIMEOUT_MS: u128 = 600000;
/// Coins taken from an active player who failed to bet in time.
pub const BET_PENALTY: i32 = 10;

/// A registered player. The identity is the unique key; the display name is
/// unique too. A balance never goes below zero; a player whose coins reach
/// zero stays in the list but is out of play.
#[derive(Debug)]
pub struct Player {
    pub id: String,
    pub name: String,
    pub position: usize,
    pub coins: i32,
    pub used_uuids: Vec<u128>,
}

/// The single active stage of the game's state machine.
#[derive(Debug, Clone, PartialEq, Eq)]
pub enum GamePhase {
    Registration,
    Betting,
    WheelSpin,
    StartMinigame(String),
    InMinigame(String),
    FinalMinigame(String),
    RewardsDistribution,
    GameOver,
}

/// The verdict an external minigame reports for one player.
#[derive(Debug, Clone, PartialEq)]
pub struct PlayerMinigameResult {
    pub player_id: String,
    pub coins_delta: i32,
}

/// The verdict an external minigame reports: a signed coin delta per player.
#[derive(Debug, Clone, PartialEq)]
pub struct MinigameResult {
    pub contract_name: String,
    pub player_results: Vec<PlayerMinigameResult>,
}

/// The ordered bettor manifest handed to a minigame: identity, name, wager.
pub type MinigameSetup = Vec<(String, String, u64)>;

/// One action submitted to the transition function.
#[derive(Debug, Clone, PartialEq)]
pub enum GameAction {
    EndGame,
    Initialize { minigames: Vec<String>, random_seed: u64 },
    RegisterPlayer { name: String, deposit: u64 },
    StartGame,
    PlaceBet { amount: u64 },
    SpinWheel,
    StartMinigame { minigame: String, players: MinigameSetup },
    EndMinigame { result: MinigameResult },
    EndTurn,
    DistributeRewards,
}

/// The ordered, append-only log one action's processing emits.
#[derive(Debug, Clone, PartialEq)]
pub enum GameEvent {
    DiceRolled { player_id: String, value: u8 },
    PlayerMoved { player_id: String, new_position: usize },
    CoinsChanged { player_id: String, amount: i32 },
    MinigameReady { minigame_type: String },
    MinigameStarted { minigame_type: String },
    MinigameEnded { result: MinigameResult },
    TurnEnded { next_player: String },
    GameEnded { winner_id: String, final_coins: i32 },
    GameInitialized { random_seed: u64 },
    PlayerRegistered { name: String, player_id: String },
    GameStarted { player_count: usize },
    BetPlaced { player_id: String, amount: u64 },
    WheelSpun { round: usize, outcome: u8 },
    PlayersSwappedCoins { swaps: Vec<(String, String)> },
    AllOrNothingActivated,
}

/// Why an action was rejected. Every rejection leaves the state unchanged.
#[derive(Debug, Clone, Copy, PartialEq, Eq, Structural)]
pub enum GameError {
    /// The action is not valid in the current phase.
    PhaseMismatch,
    /// The caller is not allowed to perform the action yet.
    AuthorizationError,
    /// The registration list is full.
    CapacityError,
    /// The identity or name is already registered, or the bet already placed.
    DuplicateError,
    /// A supplied amount is out of its allowed bounds.
    RangeError,
    /// The action fell outside its timing window.
    TimingError,
    /// A supplied manifest or player reference does not match the state.
    ConsistencyError,
    /// The state machine reached a condition a correct driver never produces.
    InvariantViolation,
}

/// The entire authoritative game state.
#[derive(Debug)]
pub struct GameState {
    pub players: Vec<Player>,
    pub max_players: usize,
    pub minigames: Vec<String>,
    pub dice: Dice,
    pub phase: GamePhase,
    pub round_started_at: u128,
    pub round: usize,
    pub bets: Vec<(String, u64)>,
    pub all_or_nothing: bool,
    pub backend_identity: String,
    pub last_interaction_time: u128,
    pub lane_id: String,
}

/// Sum of all balances in a player list.
pub open spec fn sum_coins(ps: Seq<Player>) -> int
    decreases ps.len(),
{
    if ps.len() == 0 {
        0
    } else {
        sum_coins(ps.drop_last()) + ps.last().coins
    }
}

/// Number of players still holding a positive balance.
pub open spec fn num_active(ps: Seq<Player>) -> int
    decreases ps.len(),
{
    if ps.len() == 0 {
        0
    } else {
        num_active(ps.drop_last()) + if ps.last().coins > 0 {
            1int
        } else {
            0int
        }
    }
}

/// Some player carries this identity.
pub open spec fn has_id(ps: Seq<Player>, id: Seq<char>) -> bool {
    exists|j: int| 0 <= j < ps.len() && ps[j].id@ == id
}

/// Some player with a positive balance carries this identity.
pub open spec fn has_active_id(ps: Seq<Player>, id: Seq<char>) -> bool {
    exists|j: int| 0 <= j < ps.len() && ps[j].id@ == id && ps[j].coins > 0
}

/// Some player carries this display name.
pub open spec fn has_name(ps: Seq<Player>, name: Seq<char>) -> bool {
    exists|j: int| 0 <= j < ps.len() && ps[j].name@ == name
}

/// The position of the player carrying this identity (meaningful when
/// `has_id` holds; unique under `ids_unique`).
pub open spec fn idx_of_id(ps: Seq<Player>, id: Seq<char>) -> int {
    choose|j: int| 0 <= j < ps.len() && ps[j].id@ == id
}

/// No two players share an identity.
pub open spec fn ids_unique(ps: Seq<Player>) -> bool {
    forall|i: int, j: int| 0 <= i < j < ps.len() ==> ps[i].id@ != ps[j].id@
}

/// No two players share a display name.
pub open spec fn names_unique(ps: Seq<Player>) -> bool {
    forall|i: int, j: int| 0 <= i < j < ps.len() ==> ps[i].name@ != ps[j].name@
}

/// No balance is negative.
pub open spec fn coins_nonneg(ps: Seq<Player>) -> bool {
    forall|i: int| 0 <= i < ps.len() ==> ps[i].coins >= 0
}

/// The ledger holds a bet from this identity.
pub open spec fn bets_has(bets: Seq<(String, u64)>, id: Seq<char>) -> bool {
    exists|k: int| 0 <= k < bets.len() && bets[k].0@ == id
}

/// No identity appears twice in the ledger.
pub open spec fn bet_keys_unique(bets: Seq<(String, u64)>) -> bool {
    forall|i: int, j: int| 0 <= i < j < bets.len() ==> bets[i].0@ != bets[j].0@
}

/// Lexicographic order on identities, by code point. For Unicode text this
/// is the same order as the byte-wise comparison of the identities' UTF-8
/// encodings, i.e. the order an identity-keyed ordered map iterates in.
pub open spec fn str_lt(a: Seq<char>, b: Seq<char>) -> bool
    decreases a.len(),
{
    if b.len() == 0 {
        false
    } else if a.len() == 0 {
        true
    } else if (a[0] as u32) < (b[0] as u32) {
        true
    } else if (a[0] as u32) > (b[0] as u32) {
        false
    } else {
        str_lt(a.drop_first(), b.drop_first())
    }
}

/// The ledger is kept in strictly ascending identity order, so walking it
/// visits bettors exactly as an identity-keyed ordered map would.
pub open spec fn bets_sorted(bets: Seq<(String, u64)>) -> bool {
    forall|i: int, j: int|
        0 <= i < j < bets.len() ==> str_lt((#[trigger] bets[i]).0@, (#[trigger] bets[j]).0@)
}

/// Position `j` holds a player with a positive balance that covers bet `k`.
pub open spec fn bet_backed_at(ps: Seq<Player>, bets: Seq<(String, u64)>, k: int, j: int) -> bool {
    0 <= j < ps.len() && ps[j].id@ == bets[k].0@ && ps[j].coins > 0 && bets[k].1 <= ps[j].coins
}

/// Some player with a positive balance covers bet `k`.
pub open spec fn bet_backed(ps: Seq<Player>, bets: Seq<(String, u64)>, k: int) -> bool {
    exists|j: int| #[trigger] bet_backed_at(ps, bets, k, j)
}

/// Every bet comes from a player with a positive balance that covers it.
pub open spec fn bets_backed(ps: Seq<Player>, bets: Seq<(String, u64)>) -> bool {
    forall|k: int| 0 <= k < bets.len() ==> #[trigger] bet_backed(ps, bets, k)
}

/// The phases in which the bet ledger is still to be consumed.
pub open spec fn phase_uses_bets(phase: GamePhase) -> bool {
    match phase {
        GamePhase::Betting => true,
        GamePhase::WheelSpin => true,
        GamePhase::StartMinigame(_) => true,
        GamePhase::FinalMinigame(_) => true,
        _ => false,
    }
}

impl GameState {
    /// Well-formedness: the invariants every reachable state satisfies and
    /// every transition preserves.
    pub open spec fn wf(self) -> bool {
        &&& self.players@.len() <= self.max_players
        &&& ids_unique(self.players@)
        &&& names_unique(self.players@)
        &&& coins_nonneg(self.players@)
        &&& (self.phase == GamePhase::Registration ==> forall|i: int|
            0 <= i < self.players@.len() ==> #[trigger] self.players@[i].coins > 0)
        &&& (self.phase == GamePhase::Registration ==> self.bets@.len() == 0)
        &&& bet_keys_unique(self.bets@)
        &&& bets_sorted(self.bets@)
        &&& (phase_uses_bets(self.phase) ==> bets_backed(self.players@, self.bets@))
        &&& self.round < ROUNDS
        &&& (self.phase != GamePhase::GameOver ==> self.minigames@.len() > 0)
        &&& self.dice.inv()
    }
}

/// Milliseconds elapsed between two timestamps, clamped below at zero.
pub open spec fn elapsed(now: u128, since: u128) -> int {
    if now >= since {
        now - since
    } else {
        0
    }
}

/// `a + b` saturating at the top of the timestamp range.
pub open spec fn sat_add_ts(a: u128, b: u128) -> int {
    if a + b > u128::MAX {
        u128::MAX as int
    } else {
        a + b
    }
}

/// A balance after a signed delta, clamped to a floor of zero and to the
/// top of the coin range.
pub open spec fn apply_delta(c: i32, delta: int) -> i32 {
    if c + delta < 0 {
        0
    } else if c + delta > i32::MAX {
        i32::MAX
    } else {
        (c + delta) as i32
    }
}

/// The round counter advanced by one, capped at the last round.
pub open spec fn adv_round(round: usize) -> usize {
    if round + 1 < ROUNDS {
        (round + 1) as usize
    } else {
        round
    }
}

} // verus!
