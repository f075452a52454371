use board_game::types::{GameAction, GameError, GameEvent, GamePhase, GameState};
use board_game::types::{MinigameResult, PlayerMinigameResult};

fn backend() -> String {
    "backend".to_string()
}

fn alice() -> String {
    "alice".to_string()
}

fn bob() -> String {
    "bob".to_string()
}

/// A game with players alice (100 coins) and bob (50 coins), started, in the
/// betting phase with `round_started_at == 60000`.
fn started_game(seed: u64) -> GameState {
    let mut g = GameState::new(backend());
    g.process_action(
        &backend(),
        0,
        GameAction::Initialize { minigames: vec!["mg1".to_string()], random_seed: seed },
        1000,
    )
    .unwrap();
    g.process_action(
        &alice(),
        0,
        GameAction::RegisterPlayer { name: "Alice".to_string(), deposit: 100 },
        2000,
    )
    .unwrap();
    g.process_action(
        &bob(),
        0,
        GameAction::RegisterPlayer { name: "Bob".to_string(), deposit: 50 },
        3000,
    )
    .unwrap();
    g.process_action(&backend(), 0, GameAction::StartGame, 60000).unwrap();
    assert_eq!(g.phase, GamePhase::Betting);
    assert_eq!(g.round_started_at, 60000);
    g
}

#[test]
fn two_players_bet_then_wheel_outcome_zero_changes_nothing() {
    // Seed 1 makes the first roll land on outcome 0.
    let mut g = started_game(1);
    g.process_action(&alice(), 0, GameAction::PlaceBet { amount: 10 }, 61000).unwrap();
    assert_eq!(g.phase, GamePhase::Betting);
    g.process_action(&bob(), 0, GameAction::PlaceBet { amount: 10 }, 62000).unwrap();
    assert_eq!(g.phase, GamePhase::WheelSpin);
    let ev = g.process_action(&backend(), 0, GameAction::SpinWheel, 63000).unwrap();
    assert_eq!(ev[0], GameEvent::WheelSpun { round: 0, outcome: 0 });
    assert_eq!(g.phase, GamePhase::Betting);
    assert_eq!(g.round, 1);
    assert_eq!(g.players[0].coins, 100);
    assert_eq!(g.players[1].coins, 50);
    assert!(g.bets.is_empty());
}

#[test]
fn penalty_leaving_one_player_ends_game_with_that_winner() {
    let mut g = started_game(1);
    g.process_action(&alice(), 0, GameAction::PlaceBet { amount: 10 }, 61000).unwrap();
    // Bob never bets; the betting window closes, and round 0 zeroes him out.
    let ev = g.process_action(&backend(), 0, GameAction::SpinWheel, 90001).unwrap();
    assert_eq!(g.players[1].coins, 0);
    assert_eq!(g.phase, GamePhase::RewardsDistribution);
    assert_eq!(
        ev.last().unwrap(),
        &GameEvent::GameEnded { winner_id: alice(), final_coins: 100 }
    );
}

#[test]
fn wheel_outcome_one_redistributes_bets_conserving_the_total() {
    // Seed 2 makes the first roll land on outcome 1.
    let mut g = started_game(2);
    g.process_action(&alice(), 0, GameAction::PlaceBet { amount: 10 }, 61000).unwrap();
    g.process_action(&bob(), 0, GameAction::PlaceBet { amount: 20 }, 62000).unwrap();
    assert_eq!(g.phase, GamePhase::WheelSpin);
    let ev = g.process_action(&backend(), 0, GameAction::SpinWheel, 63000).unwrap();
    assert_eq!(ev[0], GameEvent::WheelSpun { round: 0, outcome: 1 });
    // The deterministic shuffle pays alice's 10 to bob and bob's 20 to alice.
    assert_eq!(g.players[0].coins, 110);
    assert_eq!(g.players[1].coins, 40);
    assert_eq!(g.players[0].coins + g.players[1].coins, 150);
    assert_eq!(g.phase, GamePhase::Betting);
    assert_eq!(g.round, 1);
}

#[test]
fn wheel_outcome_two_forces_all_or_nothing() {
    // Seed 4 makes the first roll land on outcome 2.
    let mut g = started_game(4);
    g.process_action(&alice(), 0, GameAction::PlaceBet { amount: 10 }, 61000).unwrap();
    g.process_action(&bob(), 0, GameAction::PlaceBet { amount: 10 }, 62000).unwrap();
    let ev = g.process_action(&backend(), 0, GameAction::SpinWheel, 63000).unwrap();
    assert_eq!(ev[0], GameEvent::WheelSpun { round: 0, outcome: 2 });
    assert_eq!(ev[1], GameEvent::AllOrNothingActivated);
    assert!(g.all_or_nothing);
    assert_eq!(g.phase, GamePhase::Betting);
}

#[test]
fn wheel_outcome_three_offers_the_first_minigame() {
    // Seed 0 makes the first roll land on outcome 3.
    let mut g = started_game(0);
    g.process_action(&alice(), 0, GameAction::PlaceBet { amount: 10 }, 61000).unwrap();
    g.process_action(&bob(), 0, GameAction::PlaceBet { amount: 20 }, 62000).unwrap();
    let ev = g.process_action(&backend(), 0, GameAction::SpinWheel, 63000).unwrap();
    assert_eq!(ev[0], GameEvent::WheelSpun { round: 0, outcome: 3 });
    assert_eq!(ev[1], GameEvent::MinigameReady { minigame_type: "mg1".to_string() });
    assert_eq!(g.phase, GamePhase::StartMinigame("mg1".to_string()));
    // The manifest lists the bettors in ascending identity order with their wagers.
    let setup = g.get_minigame_setup();
    assert_eq!(
        setup,
        vec![
            (alice(), "Alice".to_string(), 10),
            (bob(), "Bob".to_string(), 20),
        ]
    );
}

#[test]
fn start_minigame_rejects_any_other_manifest() {
    let mut g = started_game(0);
    g.process_action(&alice(), 0, GameAction::PlaceBet { amount: 10 }, 61000).unwrap();
    g.process_action(&bob(), 0, GameAction::PlaceBet { amount: 20 }, 62000).unwrap();
    g.process_action(&backend(), 0, GameAction::SpinWheel, 63000).unwrap();
    // Reordered manifest: rejected.
    let swapped = vec![
        (bob(), "Bob".to_string(), 20),
        (alice(), "Alice".to_string(), 10),
    ];
    let r = g.process_action(
        &backend(),
        0,
        GameAction::StartMinigame { minigame: "mg1".to_string(), players: swapped },
        64000,
    );
    assert_eq!(r.unwrap_err(), GameError::ConsistencyError);
    // Wrong wager: rejected.
    let wrong_amount = vec![
        (alice(), "Alice".to_string(), 11),
        (bob(), "Bob".to_string(), 20),
    ];
    let r = g.process_action(
        &backend(),
        0,
        GameAction::StartMinigame { minigame: "mg1".to_string(), players: wrong_amount },
        64000,
    );
    assert_eq!(r.unwrap_err(), GameError::ConsistencyError);
    // Wrong minigame: rejected.
    let r = g.process_action(
        &backend(),
        0,
        GameAction::StartMinigame { minigame: "mg2".to_string(), players: g.get_minigame_setup() },
        64000,
    );
    assert_eq!(r.unwrap_err(), GameError::ConsistencyError);
    // The exact manifest: accepted.
    let setup = g.get_minigame_setup();
    g.process_action(
        &backend(),
        0,
        GameAction::StartMinigame { minigame: "mg1".to_string(), players: setup },
        64000,
    )
    .unwrap();
    assert_eq!(g.phase, GamePhase::InMinigame("mg1".to_string()));
}

#[test]
fn end_minigame_applies_deltas_clamped_at_zero() {
    let mut g = started_game(0);
    g.process_action(&alice(), 0, GameAction::PlaceBet { amount: 10 }, 61000).unwrap();
    g.process_action(&bob(), 0, GameAction::PlaceBet { amount: 20 }, 62000).unwrap();
    g.process_action(&backend(), 0, GameAction::SpinWheel, 63000).unwrap();
    let setup = g.get_minigame_setup();
    g.process_action(
        &backend(),
        0,
        GameAction::StartMinigame { minigame: "mg1".to_string(), players: setup },
        64000,
    )
    .unwrap();
    let result = MinigameResult {
        contract_name: "mg1".to_string(),
        player_results: vec![
            PlayerMinigameResult { player_id: alice(), coins_delta: 25 },
            PlayerMinigameResult { player_id: bob(), coins_delta: -1000 },
        ],
    };
    let ev = g
        .process_action(&backend(), 0, GameAction::EndMinigame { result }, 65000)
        .unwrap();
    assert_eq!(g.players[0].coins, 125);
    // Bob's penalty overshoots his balance: clamped to zero, never negative.
    assert_eq!(g.players[1].coins, 0);
    // One player left with coins among several: settlement fires at once and
    // short-circuits the rest of the transition.
    assert_eq!(g.phase, GamePhase::RewardsDistribution);
    assert_eq!(
        ev.last().unwrap(),
        &GameEvent::GameEnded { winner_id: alice(), final_coins: 125 }
    );
    assert!(!ev.iter().any(|e| matches!(e, GameEvent::MinigameEnded { .. })));
}

#[test]
fn end_minigame_rejects_unknown_player_and_changes_nothing() {
    let mut g = started_game(0);
    g.process_action(&alice(), 0, GameAction::PlaceBet { amount: 10 }, 61000).unwrap();
    g.process_action(&bob(), 0, GameAction::PlaceBet { amount: 20 }, 62000).unwrap();
    g.process_action(&backend(), 0, GameAction::SpinWheel, 63000).unwrap();
    let setup = g.get_minigame_setup();
    g.process_action(
        &backend(),
        0,
        GameAction::StartMinigame { minigame: "mg1".to_string(), players: setup },
        64000,
    )
    .unwrap();
    let result = MinigameResult {
        contract_name: "mg1".to_string(),
        player_results: vec![
            PlayerMinigameResult { player_id: alice(), coins_delta: 5 },
            PlayerMinigameResult { player_id: "nobody".to_string(), coins_delta: -5 },
        ],
    };
    let r = g.process_action(&backend(), 0, GameAction::EndMinigame { result }, 65000);
    assert_eq!(r.unwrap_err(), GameError::ConsistencyError);
    // The rejection is atomic: no delta was applied.
    assert_eq!(g.players[0].coins, 100);
    assert_eq!(g.players[1].coins, 50);
}

#[test]
fn final_round_ends_with_first_max_player_as_winner() {
    let mut g = started_game(0);
    g.round = 9;
    g.process_action(&alice(), 0, GameAction::PlaceBet { amount: 10 }, 61000).unwrap();
    let ev = g
        .process_action(&bob(), 0, GameAction::PlaceBet { amount: 20 }, 62000)
        .unwrap();
    // In the last round a full bet set goes straight to the final minigame.
    assert_eq!(g.phase, GamePhase::FinalMinigame("mg1".to_string()));
    assert!(ev.iter().any(|e| matches!(e, GameEvent::MinigameReady { .. })));
    let setup = g.get_minigame_setup();
    g.process_action(
        &backend(),
        0,
        GameAction::StartMinigame { minigame: "mg1".to_string(), players: setup },
        64000,
    )
    .unwrap();
    // Bob draws level with alice: the tie goes to the first in player order.
    let result = MinigameResult {
        contract_name: "mg1".to_string(),
        player_results: vec![PlayerMinigameResult { player_id: bob(), coins_delta: 50 }],
    };
    let ev = g
        .process_action(&backend(), 0, GameAction::EndMinigame { result }, 65000)
        .unwrap();
    assert_eq!(g.players[0].coins, 100);
    assert_eq!(g.players[1].coins, 100);
    assert_eq!(
        ev.last().unwrap(),
        &GameEvent::GameEnded { winner_id: alice(), final_coins: 100 }
    );
    assert_eq!(g.phase, GamePhase::RewardsDistribution);
    // Settlement closes the game.
    g.process_action(&backend(), 0, GameAction::DistributeRewards, 66000).unwrap();
    assert_eq!(g.phase, GamePhase::GameOver);
}

#[test]
fn missed_bet_after_the_first_round_costs_ten_coins() {
    // Seed 1: outcome 0 in round 0, outcome 4 (minigame) in round 1.
    let mut g = started_game(1);
    g.process_action(&alice(), 0, GameAction::PlaceBet { amount: 10 }, 61000).unwrap();
    g.process_action(&bob(), 0, GameAction::PlaceBet { amount: 10 }, 62000).unwrap();
    g.process_action(&backend(), 0, GameAction::SpinWheel, 63000).unwrap();
    assert_eq!(g.round, 1);
    // Round 1: only alice bets; after the window closes bob is docked 10.
    g.process_action(&alice(), 0, GameAction::PlaceBet { amount: 10 }, 64000).unwrap();
    let ev = g.process_action(&backend(), 0, GameAction::SpinWheel, 93001).unwrap();
    assert_eq!(ev[0], GameEvent::CoinsChanged { player_id: bob(), amount: -10 });
    assert_eq!(g.players[0].coins, 100);
    assert_eq!(g.players[1].coins, 40);
    assert_eq!(ev[1], GameEvent::WheelSpun { round: 1, outcome: 4 });
    assert_eq!(g.phase, GamePhase::StartMinigame("mg1".to_string()));
}

#[test]
fn ledger_and_manifest_are_ordered_by_identity_not_arrival() {
    // Bob bets before alice; the ledger and the manifest still come out in
    // ascending identity order, as an identity-keyed ordered map would.
    let mut g = started_game(0);
    g.process_action(&bob(), 0, GameAction::PlaceBet { amount: 20 }, 61000).unwrap();
    g.process_action(&alice(), 0, GameAction::PlaceBet { amount: 10 }, 62000).unwrap();
    assert_eq!(g.bets[0].0, alice());
    assert_eq!(g.bets[1].0, bob());
    g.process_action(&backend(), 0, GameAction::SpinWheel, 63000).unwrap();
    assert_eq!(g.phase, GamePhase::StartMinigame("mg1".to_string()));
    assert_eq!(
        g.get_minigame_setup(),
        vec![
            (alice(), "Alice".to_string(), 10),
            (bob(), "Bob".to_string(), 20),
        ]
    );
}

#[test]
fn redistribution_does_not_depend_on_bet_arrival_order() {
    // Same bets in either arrival order leave the same ledger, so the same
    // deterministic shuffle pays out to the same recipients.
    let mut g = started_game(2);
    g.process_action(&bob(), 0, GameAction::PlaceBet { amount: 20 }, 61000).unwrap();
    g.process_action(&alice(), 0, GameAction::PlaceBet { amount: 10 }, 62000).unwrap();
    g.process_action(&backend(), 0, GameAction::SpinWheel, 63000).unwrap();
    assert_eq!(g.players[0].coins, 110);
    assert_eq!(g.players[1].coins, 40);
}
