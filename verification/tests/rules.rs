use board_game::types::{GameAction, GameError, GamePhase, GameState};

fn backend() -> String {
    "backend".to_string()
}

fn register(name: &str, deposit: u64) -> GameAction {
    GameAction::RegisterPlayer { name: name.to_string(), deposit }
}

fn fresh_registration() -> GameState {
    let mut g = GameState::new(backend());
    g.process_action(
        &backend(),
        0,
        GameAction::Initialize { minigames: vec!["mg1".to_string()], random_seed: 7 },
        1000,
    )
    .unwrap();
    assert_eq!(g.phase, GamePhase::Registration);
    g
}

#[test]
fn initialize_rejects_empty_minigame_list() {
    let mut g = GameState::new(backend());
    let r = g.process_action(
        &backend(),
        0,
        GameAction::Initialize { minigames: vec![], random_seed: 7 },
        1000,
    );
    assert_eq!(r.unwrap_err(), GameError::RangeError);
    assert_eq!(g.phase, GamePhase::GameOver);
}

#[test]
fn register_same_identity_twice_fails() {
    let mut g = fresh_registration();
    g.process_action(&"p1".to_string(), 0, register("One", 100), 2000).unwrap();
    let r = g.process_action(&"p1".to_string(), 0, register("Other", 100), 2100);
    assert_eq!(r.unwrap_err(), GameError::DuplicateError);
    assert_eq!(g.players.len(), 1);
}

#[test]
fn register_taken_name_fails() {
    let mut g = fresh_registration();
    g.process_action(&"p1".to_string(), 0, register("One", 100), 2000).unwrap();
    let r = g.process_action(&"p2".to_string(), 0, register("One", 100), 2100);
    assert_eq!(r.unwrap_err(), GameError::DuplicateError);
}

#[test]
fn register_zero_deposit_fails() {
    let mut g = fresh_registration();
    let r = g.process_action(&"p1".to_string(), 0, register("One", 0), 2000);
    assert_eq!(r.unwrap_err(), GameError::RangeError);
}

#[test]
fn register_excessive_deposit_fails() {
    let mut g = fresh_registration();
    let r = g.process_action(&"p1".to_string(), 0, register("One", 10000001), 2000);
    assert_eq!(r.unwrap_err(), GameError::RangeError);
    // The maximum itself is accepted.
    g.process_action(&"p1".to_string(), 0, register("One", 10000000), 2100).unwrap();
}

#[test]
fn register_when_full_fails() {
    let mut g = fresh_registration();
    for i in 0..20u32 {
        let id = format!("p{}", i);
        let name = format!("Name{}", i);
        g.process_action(&id, 0, register(&name, 10), 2000).unwrap();
    }
    let r = g.process_action(&"p20".to_string(), 0, register("Name20", 10), 2100);
    assert_eq!(r.unwrap_err(), GameError::CapacityError);
}

#[test]
fn start_game_before_window_with_open_seats_fails() {
    let mut g = fresh_registration();
    g.process_action(&"p1".to_string(), 0, register("One", 100), 2000).unwrap();
    let r = g.process_action(&backend(), 0, GameAction::StartGame, 30000);
    assert_eq!(r.unwrap_err(), GameError::TimingError);
    // Once the registration window has passed the start is accepted.
    g.process_action(&backend(), 0, GameAction::StartGame, 56001).unwrap();
    assert_eq!(g.phase, GamePhase::Betting);
}

fn betting_pair() -> GameState {
    let mut g = fresh_registration();
    g.process_action(&"p1".to_string(), 0, register("One", 100), 2000).unwrap();
    g.process_action(&"p2".to_string(), 0, register("Two", 50), 3000).unwrap();
    g.process_action(&backend(), 0, GameAction::StartGame, 60000).unwrap();
    g
}

#[test]
fn second_bet_same_round_fails() {
    let mut g = betting_pair();
    g.process_action(&"p1".to_string(), 0, GameAction::PlaceBet { amount: 10 }, 61000).unwrap();
    let r = g.process_action(&"p1".to_string(), 0, GameAction::PlaceBet { amount: 5 }, 62000);
    assert_eq!(r.unwrap_err(), GameError::DuplicateError);
    assert_eq!(g.bets.len(), 1);
}

#[test]
fn bet_above_balance_fails() {
    let mut g = betting_pair();
    let r = g.process_action(&"p2".to_string(), 0, GameAction::PlaceBet { amount: 51 }, 61000);
    assert_eq!(r.unwrap_err(), GameError::RangeError);
}

#[test]
fn bet_after_window_fails() {
    let mut g = betting_pair();
    let r = g.process_action(&"p1".to_string(), 0, GameAction::PlaceBet { amount: 10 }, 90001);
    assert_eq!(r.unwrap_err(), GameError::TimingError);
}

#[test]
fn bet_from_unregistered_identity_fails() {
    let mut g = betting_pair();
    let r = g.process_action(&"ghost".to_string(), 0, GameAction::PlaceBet { amount: 1 }, 61000);
    assert_eq!(r.unwrap_err(), GameError::ConsistencyError);
}

#[test]
fn all_or_nothing_requires_full_balance() {
    let mut g = betting_pair();
    g.all_or_nothing = true;
    let r = g.process_action(&"p2".to_string(), 0, GameAction::PlaceBet { amount: 10 }, 61000);
    assert_eq!(r.unwrap_err(), GameError::RangeError);
    g.process_action(&"p2".to_string(), 0, GameAction::PlaceBet { amount: 50 }, 61000).unwrap();
}

#[test]
fn spin_wheel_from_betting_before_window_closes_fails() {
    let mut g = betting_pair();
    let r = g.process_action(&backend(), 0, GameAction::SpinWheel, 61000);
    assert_eq!(r.unwrap_err(), GameError::TimingError);
}

#[test]
fn action_in_wrong_phase_fails() {
    let mut g = fresh_registration();
    let r = g.process_action(&"p1".to_string(), 0, GameAction::PlaceBet { amount: 1 }, 2000);
    assert_eq!(r.unwrap_err(), GameError::PhaseMismatch);
    let r = g.process_action(&backend(), 0, GameAction::DistributeRewards, 2000);
    assert_eq!(r.unwrap_err(), GameError::PhaseMismatch);
    let r = g.process_action(&backend(), 0, GameAction::EndTurn, 2000);
    assert_eq!(r.unwrap_err(), GameError::PhaseMismatch);
}

#[test]
fn early_end_game_by_stranger_fails_but_backend_may_after_stall() {
    let mut g = fresh_registration();
    // Too early for anyone but the backend, and too early for the backend too.
    let r = g.process_action(&"p1".to_string(), 0, GameAction::EndGame, 100000);
    assert_eq!(r.unwrap_err(), GameError::AuthorizationError);
    let r = g.process_action(&backend(), 0, GameAction::EndGame, 100000);
    assert_eq!(r.unwrap_err(), GameError::AuthorizationError);
    // After two stalled minutes the backend may force the end.
    g.process_action(&backend(), 0, GameAction::EndGame, 120001).unwrap();
    assert_eq!(g.phase, GamePhase::GameOver);
    assert!(g.players.is_empty());
}

#[test]
fn anyone_may_end_a_long_stalled_game() {
    let mut g = fresh_registration();
    g.process_action(&"p1".to_string(), 0, GameAction::EndGame, 600001).unwrap();
    assert_eq!(g.phase, GamePhase::GameOver);
}
