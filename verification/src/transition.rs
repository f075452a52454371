//! Spec-level statement of the transition function: for every (phase, action)
//! pair, which error is returned — `None` meaning the action is accepted —
//! and, on acceptance, exactly what the successor state and the emitted event
//! log are. `process_action` is proved to implement this relation.
use crate::dice::{next_state, shuffled, Dice};
use crate::types::{
    adv_round, apply_delta, bets_has, elapsed, has_active_id, has_id, has_name, idx_of_id,
    num_active, sat_add_ts, str_lt, GameAction, GameError, GameEvent, GamePhase, GameState,
    MinigameResult, Player, PlayerMinigameResult, BACKEND_TIMEOUT_MS, BET_PENALTY, BET_WINDOW_MS,
    MAX_DEPOSIT, MAX_PLAYERS, REGISTRATION_WINDOW_MS, ROUNDS, STALL_TIMEOUT_MS,
};
use vstd::prelude::*;

verus! {

/// Players after the failed-to-bet penalty: every player with a positive
/// balance and no recorded bet is zeroed out (first round or all-or-nothing
/// round) or docked the fixed penalty, clamped at zero.
pub open spec fn penalize(ps: Seq<Player>, bets: Seq<(String, u64)>, zero_out: bool) -> Seq<
    Player,
> {
    ps.map(
        |i: int, p: Player|
            if p.coins > 0 && !bets_has(bets, p.id@) {
                Player {
                    coins: if zero_out {
                        0
                    } else {
                        apply_delta(p.coins, -(BET_PENALTY as int))
                    },
                    ..p
                }
            } else {
                p
            },
    )
}

/// The `CoinsChanged` events the penalty emits, in player order (the zero-out
/// penalty emits none).
pub open spec fn penalty_events(ps: Seq<Player>, bets: Seq<(String, u64)>) -> Seq<GameEvent>
    decreases ps.len(),
{
    if ps.len() == 0 {
        Seq::empty()
    } else {
        let rest = penalty_events(ps.drop_last(), bets);
        if ps.last().coins > 0 && !bets_has(bets, ps.last().id@) {
            rest.push(
                GameEvent::CoinsChanged { player_id: ps.last().id, amount: -(BET_PENALTY as int) as i32 },
            )
        } else {
            rest
        }
    }
}

/// The positions of the players with a positive balance, in player order.
pub open spec fn active_indices(ps: Seq<Player>) -> Seq<usize>
    decreases ps.len(),
{
    if ps.len() == 0 {
        Seq::empty()
    } else {
        let rest = active_indices(ps.drop_last());
        if ps.last().coins > 0 {
            rest.push((ps.len() - 1) as usize)
        } else {
            rest
        }
    }
}

/// One redistribution step: the bettor pays the wagered amount, the player at
/// position `w` receives it (both clamped into the balance range).
pub open spec fn apply_bet(ps: Seq<Player>, bet: (String, u64), w: int) -> Seq<Player> {
    let b = idx_of_id(ps, bet.0@);
    let ps1 = ps.update(b, Player { coins: apply_delta(ps[b].coins, -(bet.1 as int)), ..ps[b] });
    ps1.update(w, Player { coins: apply_delta(ps1[w].coins, bet.1 as int), ..ps1[w] })
}

/// Players after the first `k` bets have been redistributed along `order`.
pub open spec fn redist_players(
    ps: Seq<Player>,
    bets: Seq<(String, u64)>,
    order: Seq<usize>,
    k: int,
) -> Seq<Player>
    decreases k,
{
    if k <= 0 {
        ps
    } else {
        apply_bet(
            redist_players(ps, bets, order, k - 1),
            bets[k - 1],
            order[(k - 1) % (order.len() as int)] as int,
        )
    }
}

/// The two `CoinsChanged` events each redistributed bet emits, for the first
/// `k` bets. Identities never change during redistribution, so the events are
/// stated over the players as they stood when the wheel was spun.
pub open spec fn redist_events(
    ps: Seq<Player>,
    bets: Seq<(String, u64)>,
    order: Seq<usize>,
    k: int,
) -> Seq<GameEvent>
    decreases k,
{
    if k <= 0 {
        Seq::empty()
    } else {
        let prev = redist_events(ps, bets, order, k - 1);
        let b = idx_of_id(ps, bets[k - 1].0@);
        let w = order[(k - 1) % (order.len() as int)] as int;
        prev + seq![
            GameEvent::CoinsChanged { player_id: ps[b].id, amount: -(bets[k - 1].1 as int) as i32 },
            GameEvent::CoinsChanged { player_id: ps[w].id, amount: bets[k - 1].1 as i32 },
        ]
    }
}

/// Players after a minigame result's deltas are applied in order (a zero
/// delta changes nothing and emits nothing).
pub open spec fn apply_results(ps: Seq<Player>, rs: Seq<PlayerMinigameResult>) -> Seq<Player>
    decreases rs.len(),
{
    if rs.len() == 0 {
        ps
    } else {
        let ps1 = apply_results(ps, rs.drop_last());
        let r = rs.last();
        if r.coins_delta != 0 {
            let j = idx_of_id(ps1, r.player_id@);
            ps1.update(j, Player { coins: apply_delta(ps1[j].coins, r.coins_delta as int), ..ps1[j] })
        } else {
            ps1
        }
    }
}

/// The `CoinsChanged` events a minigame result emits, one per nonzero delta,
/// in result order.
pub open spec fn result_events(ps: Seq<Player>, rs: Seq<PlayerMinigameResult>) -> Seq<GameEvent>
    decreases rs.len(),
{
    if rs.len() == 0 {
        Seq::empty()
    } else {
        let prev = result_events(ps, rs.drop_last());
        let r = rs.last();
        if r.coins_delta != 0 {
            prev.push(
                GameEvent::CoinsChanged {
                    player_id: ps[idx_of_id(ps, r.player_id@)].id,
                    amount: r.coins_delta,
                },
            )
        } else {
            prev
        }
    }
}

/// The ordered bettor manifest: for each ledger entry whose identity matches
/// a player with a positive balance, that player's identity, name and wager.
/// The ledger is kept in ascending identity order, so the manifest lists
/// bettors in that order.
pub open spec fn setup_of(ps: Seq<Player>, bets: Seq<(String, u64)>) -> Seq<(String, String, u64)>
    decreases bets.len(),
{
    if bets.len() == 0 {
        Seq::empty()
    } else {
        let rest = setup_of(ps, bets.drop_last());
        let b = bets.last();
        if has_active_id(ps, b.0@) {
            let j = idx_of_id(ps, b.0@);
            rest.push((ps[j].id, ps[j].name, b.1))
        } else {
            rest
        }
    }
}

/// Two manifests agree entry by entry, in order and in content.
pub open spec fn setup_matches(a: Seq<(String, String, u64)>, b: Seq<(String, String, u64)>) -> bool {
    a.len() == b.len() && forall|k: int|
        0 <= k < a.len() ==> (#[trigger] a[k]).0@ == b[k].0@ && a[k].1@ == b[k].1@ && a[k].2
            == b[k].2
}

/// Position `j` holds the winner at game end: no player has more coins, and
/// every earlier player has strictly fewer (the first maximum in player order).
pub open spec fn is_first_max(ps: Seq<Player>, j: int) -> bool {
    &&& 0 <= j < ps.len()
    &&& forall|k: int| 0 <= k < ps.len() ==> (#[trigger] ps[k]).coins <= ps[j].coins
    &&& forall|k: int| 0 <= k < j ==> (#[trigger] ps[k]).coins < ps[j].coins
}

/// The event closing a game that still has a winner among `ps`.
pub open spec fn winner_event(ps: Seq<Player>, e: GameEvent) -> bool {
    exists|j: int|
        0 <= j < ps.len() && (#[trigger] ps[j]).coins > 0 && e == (GameEvent::GameEnded {
            winner_id: ps[j].id,
            final_coins: ps[j].coins,
        })
}

/// The event closing a game with no winner left.
pub open spec fn no_winner_event(e: GameEvent) -> bool {
    &&& e matches GameEvent::GameEnded { winner_id, final_coins } && winner_id@ == Seq::<
        char,
    >::empty() && final_coins == 0
}

/// The settlement policy fires on `ps`: either exactly one of several players
/// still holds coins, or none does.
pub open spec fn game_over_fires(ps: Seq<Player>) -> bool {
    (num_active(ps) == 1 && ps.len() > 1) || num_active(ps) == 0
}

/// A state reset: fresh empty game carrying over the backend identity, the
/// last interaction time and the lane, with the given minigame list and seed.
pub open spec fn reset_rel(
    pre: GameState,
    post: GameState,
    minigames: Seq<String>,
    seed: u64,
    phase: GamePhase,
    started_at: u128,
) -> bool {
    &&& post.players@.len() == 0
    &&& post.max_players == MAX_PLAYERS
    &&& post.minigames@ == minigames
    &&& post.dice == Dice::spec_new(1, 10, seed)
    &&& post.phase == phase
    &&& post.round_started_at == started_at
    &&& post.round == 0
    &&& post.bets@.len() == 0
    &&& post.all_or_nothing == false
    &&& post.backend_identity == pre.backend_identity
    &&& post.last_interaction_time == pre.last_interaction_time
    &&& post.lane_id == pre.lane_id
}

/// `EndGame` is allowed for anyone once the game is over or long stalled, and
/// for the backend after a shorter stall.
pub open spec fn end_game_err(pre: GameState, caller: String, ts: u128) -> Option<GameError> {
    let authorized = pre.phase == GamePhase::GameOver || (pre.backend_identity@ == caller@
        && elapsed(ts, pre.last_interaction_time) > BACKEND_TIMEOUT_MS) || elapsed(
        ts,
        pre.last_interaction_time,
    ) > STALL_TIMEOUT_MS;
    if authorized {
        None
    } else {
        Some(GameError::AuthorizationError)
    }
}

pub open spec fn end_game_ok(pre: GameState, post: GameState, ev: Seq<GameEvent>) -> bool {
    &&& reset_rel(pre, post, pre.minigames@, pre.dice.seed, GamePhase::GameOver, 0)
    &&& ev.len() == 1
    &&& no_winner_event(ev[0])
}

pub open spec fn init_err(minigames: Seq<String>) -> Option<GameError> {
    if minigames.len() == 0 {
        Some(GameError::RangeError)
    } else {
        None
    }
}

pub open spec fn init_ok(
    pre: GameState,
    post: GameState,
    ev: Seq<GameEvent>,
    minigames: Seq<String>,
    seed: u64,
    ts: u128,
) -> bool {
    &&& reset_rel(pre, post, minigames, seed, GamePhase::Registration, ts)
    &&& ev == seq![GameEvent::GameInitialized { random_seed: seed }]
}

pub open spec fn register_err(
    pre: GameState,
    caller: String,
    name: String,
    deposit: u64,
) -> Option<GameError> {
    if pre.players@.len() >= pre.max_players {
        Some(GameError::CapacityError)
    } else if has_active_id(pre.players@, caller@) {
        Some(GameError::DuplicateError)
    } else if has_name(pre.players@, name@) {
        Some(GameError::DuplicateError)
    } else if deposit == 0 {
        Some(GameError::RangeError)
    } else if deposit > MAX_DEPOSIT {
        Some(GameError::RangeError)
    } else {
        None
    }
}

pub open spec fn register_ok(
    pre: GameState,
    post: GameState,
    ev: Seq<GameEvent>,
    caller: String,
    name: String,
    deposit: u64,
) -> bool {
    &&& post.players@.len() == pre.players@.len() + 1
    &&& post.players@.take(pre.players@.len() as int) == pre.players@
    &&& post.players@.last().id == caller
    &&& post.players@.last().name == name
    &&& post.players@.last().position == 0
    &&& post.players@.last().coins == deposit as i32
    &&& post.players@.last().used_uuids@.len() == 0
    &&& post == (GameState { players: post.players, ..pre })
    &&& ev == seq![GameEvent::PlayerRegistered { name: name, player_id: caller }]
}

pub open spec fn start_game_err(pre: GameState, ts: u128) -> Option<GameError> {
    let full = pre.players@.len() == pre.max_players;
    let window_over = sat_add_ts(pre.round_started_at, REGISTRATION_WINDOW_MS) < ts;
    if !full && !window_over {
        Some(GameError::TimingError)
    } else {
        None
    }
}

pub open spec fn start_game_ok(
    pre: GameState,
    post: GameState,
    ev: Seq<GameEvent>,
    ts: u128,
) -> bool {
    &&& post == (GameState {
        phase: GamePhase::Betting,
        round_started_at: ts,
        round: 0,
        ..pre
    })
    &&& ev == seq![GameEvent::GameStarted { player_count: pre.players@.len() as usize }]
}

pub open spec fn place_bet_err(
    pre: GameState,
    caller: String,
    amount: u64,
    ts: u128,
) -> Option<GameError> {
    if elapsed(ts, pre.round_started_at) > BET_WINDOW_MS {
        Some(GameError::TimingError)
    } else if bets_has(pre.bets@, caller@) {
        Some(GameError::DuplicateError)
    } else if !has_id(pre.players@, caller@) {
        Some(GameError::ConsistencyError)
    } else {
        let j = idx_of_id(pre.players@, caller@);
        if pre.players@[j].coins == 0 {
            Some(GameError::ConsistencyError)
        } else if pre.all_or_nothing && amount != pre.players@[j].coins as u64 {
            Some(GameError::RangeError)
        } else if !pre.all_or_nothing && pre.players@[j].coins < amount {
            Some(GameError::RangeError)
        } else {
            None
        }
    }
}

/// The new bet stands at position `k` of the ledger: after everything that
/// sorts below the caller's identity, before everything above it. The ledger
/// is kept in ascending identity order, so this is an ordered-map insert.
pub open spec fn bet_inserted_at(
    pre: Seq<(String, u64)>,
    post: Seq<(String, u64)>,
    caller: String,
    amount: u64,
    k: int,
) -> bool {
    &&& 0 <= k <= pre.len()
    &&& post == pre.insert(k, (caller, amount))
    &&& forall|j: int| 0 <= j < k ==> str_lt((#[trigger] pre[j]).0@, caller@)
    &&& forall|j: int| k <= j < pre.len() ==> str_lt(caller@, (#[trigger] pre[j]).0@)
}

pub open spec fn place_bet_ok(
    pre: GameState,
    post: GameState,
    ev: Seq<GameEvent>,
    caller: String,
    amount: u64,
) -> bool {
    let bet_ev = GameEvent::BetPlaced { player_id: caller, amount: amount };
    let filled = pre.bets@.len() + 1 == num_active(pre.players@);
    &&& exists|k: int| #[trigger] bet_inserted_at(pre.bets@, post.bets@, caller, amount, k)
    &&& if !filled {
        &&& post == (GameState { bets: post.bets, phase: GamePhase::Betting, ..pre })
        &&& ev == seq![bet_ev]
    } else if pre.round >= ROUNDS - 1 {
        &&& post == (GameState {
            bets: post.bets,
            phase: GamePhase::FinalMinigame(pre.minigames@[0]),
            ..pre
        })
        &&& ev == seq![bet_ev, GameEvent::MinigameReady { minigame_type: pre.minigames@[0] }]
    } else {
        &&& post == (GameState { bets: post.bets, phase: GamePhase::WheelSpin, ..pre })
        &&& ev == seq![bet_ev]
    }
}

pub open spec fn spin_err(pre: GameState, ts: u128) -> Option<GameError> {
    if pre.phase == GamePhase::Betting && elapsed(ts, pre.round_started_at) < BET_WINDOW_MS {
        Some(GameError::TimingError)
    } else {
        None
    }
}

/// The players once a `SpinWheel` has applied its penalty (arriving from the
/// betting phase penalizes everyone active who did not bet).
pub open spec fn spin_penalized(pre: GameState) -> Seq<Player> {
    if pre.phase == GamePhase::Betting {
        penalize(pre.players@, pre.bets@, pre.round == 0 || pre.all_or_nothing)
    } else {
        pre.players@
    }
}

/// The events that penalty emits.
pub open spec fn spin_penalty_events(pre: GameState) -> Seq<GameEvent> {
    if pre.phase == GamePhase::Betting && !(pre.round == 0 || pre.all_or_nothing) {
        penalty_events(pre.players@, pre.bets@)
    } else {
        Seq::empty()
    }
}

pub open spec fn spin_ok(pre: GameState, post: GameState, ev: Seq<GameEvent>, ts: u128) -> bool {
    let ps1 = spin_penalized(pre);
    let pev = spin_penalty_events(pre);
    let n = num_active(ps1);
    if n == 1 && ps1.len() > 1 {
        &&& post == (GameState {
            players: post.players,
            all_or_nothing: false,
            phase: GamePhase::RewardsDistribution,
            ..pre
        })
        &&& post.players@ == ps1
        &&& ev.len() == pev.len() + 1
        &&& ev.take(pev.len() as int) == pev
        &&& winner_event(ps1, ev.last())
    } else if n == 0 {
        &&& post == (GameState {
            players: post.players,
            all_or_nothing: false,
            phase: GamePhase::GameOver,
            ..pre
        })
        &&& post.players@ == ps1
        &&& ev.len() == pev.len() + 1
        &&& ev.take(pev.len() as int) == pev
        &&& no_winner_event(ev.last())
    } else {
        let outcome = pre.dice.roll_of() % 5;
        let d2 = Dice { state: next_state(pre.dice.state), ..pre.dice };
        let wev = pev.push(
            GameEvent::WheelSpun { round: pre.round, outcome: outcome as u8 },
        );
        if outcome == 0 {
            &&& post == (GameState {
                players: post.players,
                bets: post.bets,
                dice: d2,
                phase: GamePhase::Betting,
                round: adv_round(pre.round),
                round_started_at: ts,
                all_or_nothing: false,
                ..pre
            })
            &&& post.players@ == ps1
            &&& post.bets@.len() == 0
            &&& ev == wev
        } else if outcome == 1 {
            let idxs = active_indices(ps1);
            let shuffle = shuffled(idxs, d2.state, idxs.len() - 1);
            let nbets = pre.bets@.len() as int;
            &&& post == (GameState {
                players: post.players,
                bets: post.bets,
                dice: (Dice { state: shuffle.1, ..pre.dice }),
                phase: GamePhase::Betting,
                round: adv_round(pre.round),
                round_started_at: ts,
                all_or_nothing: false,
                ..pre
            })
            &&& post.players@ == redist_players(ps1, pre.bets@, shuffle.0, nbets)
            &&& post.bets@.len() == 0
            &&& ev == wev + redist_events(ps1, pre.bets@, shuffle.0, nbets)
        } else if outcome == 2 {
            &&& post == (GameState {
                players: post.players,
                bets: post.bets,
                dice: d2,
                phase: GamePhase::Betting,
                round: adv_round(pre.round),
                round_started_at: ts,
                all_or_nothing: true,
                ..pre
            })
            &&& post.players@ == ps1
            &&& post.bets@.len() == 0
            &&& ev == wev.push(GameEvent::AllOrNothingActivated)
        } else {
            &&& post == (GameState {
                players: post.players,
                dice: d2,
                phase: GamePhase::StartMinigame(pre.minigames@[0]),
                all_or_nothing: false,
                ..pre
            })
            &&& post.players@ == ps1
            &&& ev == wev.push(GameEvent::MinigameReady { minigame_type: pre.minigames@[0] })
        }
    }
}

pub open spec fn start_minigame_err(
    pre: GameState,
    expected: String,
    minigame: String,
    setup: Seq<(String, String, u64)>,
) -> Option<GameError> {
    if minigame@ != expected@ {
        Some(GameError::ConsistencyError)
    } else if !setup_matches(setup_of(pre.players@, pre.bets@), setup) {
        Some(GameError::ConsistencyError)
    } else {
        None
    }
}

pub open spec fn start_minigame_ok(
    pre: GameState,
    post: GameState,
    ev: Seq<GameEvent>,
    minigame: String,
) -> bool {
    &&& post == (GameState { phase: GamePhase::InMinigame(minigame), ..pre })
    &&& ev == seq![GameEvent::MinigameStarted { minigame_type: minigame }]
}

pub open spec fn end_minigame_err(pre: GameState, result: MinigameResult) -> Option<GameError> {
    if forall|k: int|
        0 <= k < result.player_results@.len() ==> has_id(
            pre.players@,
            (#[trigger] result.player_results@[k]).player_id@,
        ) {
        None
    } else {
        Some(GameError::ConsistencyError)
    }
}

pub open spec fn end_minigame_ok(
    pre: GameState,
    post: GameState,
    ev: Seq<GameEvent>,
    result: MinigameResult,
    ts: u128,
) -> bool {
    let ps1 = apply_results(pre.players@, result.player_results@);
    let rev = result_events(pre.players@, result.player_results@);
    let n = num_active(ps1);
    if n == 1 && ps1.len() > 1 {
        &&& post == (GameState {
            players: post.players,
            phase: GamePhase::RewardsDistribution,
            ..pre
        })
        &&& post.players@ == ps1
        &&& ev.len() == rev.len() + 1
        &&& ev.take(rev.len() as int) == rev
        &&& winner_event(ps1, ev.last())
    } else if n == 0 {
        &&& post == (GameState { players: post.players, phase: GamePhase::GameOver, ..pre })
        &&& post.players@ == ps1
        &&& ev.len() == rev.len() + 1
        &&& ev.take(rev.len() as int) == rev
        &&& no_winner_event(ev.last())
    } else {
        let mev = rev.push(GameEvent::MinigameEnded { result: result });
        if pre.round >= ROUNDS - 1 {
            &&& post == (GameState {
                players: post.players,
                phase: GamePhase::RewardsDistribution,
                ..pre
            })
            &&& post.players@ == ps1
            &&& exists|j: int|
                is_first_max(ps1, j) && ev == mev.push(
                    GameEvent::GameEnded { winner_id: ps1[j].id, final_coins: ps1[j].coins },
                )
        } else {
            &&& post == (GameState {
                players: post.players,
                bets: post.bets,
                round: (pre.round + 1) as usize,
                round_started_at: ts,
                phase: GamePhase::Betting,
                ..pre
            })
            &&& post.players@ == ps1
            &&& post.bets@.len() == 0
            &&& ev == mev
        }
    }
}

pub open spec fn distribute_ok(pre: GameState, post: GameState, ev: Seq<GameEvent>) -> bool {
    &&& post == (GameState { phase: GamePhase::GameOver, ..pre })
    &&& ev == Seq::<GameEvent>::empty()
}

/// The error `process_action` returns for this input, `None` when the action
/// is accepted. Any (phase, action) pair not handled below is a phase
/// mismatch.
pub open spec fn action_err(
    pre: GameState,
    caller: String,
    action: GameAction,
    ts: u128,
) -> Option<GameError> {
    match action {
        GameAction::EndGame => end_game_err(pre, caller, ts),
        GameAction::Initialize { minigames, random_seed } => {
            if pre.phase == GamePhase::GameOver {
                init_err(minigames@)
            } else {
                Some(GameError::PhaseMismatch)
            }
        },
        GameAction::RegisterPlayer { name, deposit } => {
            if pre.phase == GamePhase::Registration {
                register_err(pre, caller, name, deposit)
            } else {
                Some(GameError::PhaseMismatch)
            }
        },
        GameAction::StartGame => {
            if pre.phase == GamePhase::Registration {
                start_game_err(pre, ts)
            } else {
                Some(GameError::PhaseMismatch)
            }
        },
        GameAction::PlaceBet { amount } => {
            if pre.phase == GamePhase::Betting {
                place_bet_err(pre, caller, amount, ts)
            } else {
                Some(GameError::PhaseMismatch)
            }
        },
        GameAction::SpinWheel => {
            if pre.phase == GamePhase::Betting || pre.phase == GamePhase::WheelSpin {
                spin_err(pre, ts)
            } else {
                Some(GameError::PhaseMismatch)
            }
        },
        GameAction::StartMinigame { minigame, players } => {
            match pre.phase {
                GamePhase::StartMinigame(expected) => start_minigame_err(
                    pre,
                    expected,
                    minigame,
                    players@,
                ),
                GamePhase::FinalMinigame(expected) => start_minigame_err(
                    pre,
                    expected,
                    minigame,
                    players@,
                ),
                _ => Some(GameError::PhaseMismatch),
            }
        },
        GameAction::EndMinigame { result } => {
            match pre.phase {
                GamePhase::InMinigame(_) => end_minigame_err(pre, result),
                _ => Some(GameError::PhaseMismatch),
            }
        },
        GameAction::EndTurn => Some(GameError::PhaseMismatch),
        GameAction::DistributeRewards => {
            if pre.phase == GamePhase::RewardsDistribution {
                None
            } else {
                Some(GameError::PhaseMismatch)
            }
        },
    }
}

/// What an accepted action did: the successor state and the event log, per
/// (phase, action) pair.
pub open spec fn action_ok(
    pre: GameState,
    post: GameState,
    ev: Seq<GameEvent>,
    caller: String,
    action: GameAction,
    ts: u128,
) -> bool {
    match action {
        GameAction::EndGame => end_game_ok(pre, post, ev),
        GameAction::Initialize { minigames, random_seed } => init_ok(
            pre,
            post,
            ev,
            minigames@,
            random_seed,
            ts,
        ),
        GameAction::RegisterPlayer { name, deposit } => register_ok(
            pre,
            post,
            ev,
            caller,
            name,
            deposit,
        ),
        GameAction::StartGame => start_game_ok(pre, post, ev, ts),
        GameAction::PlaceBet { amount } => place_bet_ok(pre, post, ev, caller, amount),
        GameAction::SpinWheel => spin_ok(pre, post, ev, ts),
        GameAction::StartMinigame { minigame, players } => start_minigame_ok(
            pre,
            post,
            ev,
            minigame,
        ),
        GameAction::EndMinigame { result } => end_minigame_ok(pre, post, ev, result, ts),
        GameAction::EndTurn => false,
        GameAction::DistributeRewards => distribute_ok(pre, post, ev),
    }
}

} // verus!
