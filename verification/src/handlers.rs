//! The per-action handlers of the transition function. Each one owns a single
//! (phase, action) pair and is proved against the matching case of
//! `crate::transition`.
use crate::engine::{
    bets_contain, clone_strings, count_active, find_idx, lemma_idx_of_id, lemma_str_lt_irrefl,
    lemma_str_lt_total, lemma_str_lt_trans, str_less,
};
use crate::dice::{next_state, shuffled, Dice};
use crate::transition::{
    action_err, action_ok, active_indices, apply_bet, apply_results, distribute_ok, end_game_err,
    end_game_ok, end_minigame_err,
    bet_inserted_at, end_minigame_ok, init_err, init_ok, is_first_max, penalize, penalty_events,
    place_bet_err,
    place_bet_ok, redist_events,
    redist_players, register_err, register_ok, result_events, setup_matches, spin_err,
    spin_ok, spin_penalized, spin_penalty_events, start_game_err, start_game_ok,
    start_minigame_err, start_minigame_ok,
};
use crate::types::{
    bet_backed, bet_backed_at, bets_backed, bets_has, bets_sorted, coins_nonneg, has_active_id,
    has_id, has_name, str_lt,
    idx_of_id, ids_unique, num_active, GameAction, GameError, GameEvent, GamePhase, GameState,
    MinigameResult, MinigameSetup, Player, BACKEND_TIMEOUT_MS, BET_PENALTY, BET_WINDOW_MS,
    MAX_DEPOSIT, REGISTRATION_WINDOW_MS, ROUNDS, STALL_TIMEOUT_MS,
};
use vstd::prelude::*;

verus! {

/// Whether some player already carries this display name.
pub fn name_taken(players: &Vec<Player>, name: &String) -> (r: bool)
    ensures
        r == has_name(players@, name@),
{
    let mut i: usize = 0;
    while i < players.len()
        invariant
            i <= players@.len(),
            forall|j: int| 0 <= j < i ==> (#[trigger] players@[j]).name@ != name@,
        decreases players@.len() - i,
    {
        if players[i].name == *name {
            return true;
        }
        i = i + 1;
    }
    false
}

/// Whether two bettor manifests agree entry by entry.
pub fn setups_equal(a: &MinigameSetup, b: &MinigameSetup) -> (r: bool)
    ensures
        r == setup_matches(a@, b@),
{
    if a.len() != b.len() {
        return false;
    }
    let mut i: usize = 0;
    while i < a.len()
        invariant
            i <= a@.len(),
            a@.len() == b@.len(),
            forall|k: int|
                0 <= k < i ==> (#[trigger] a@[k]).0@ == b@[k].0@ && a@[k].1@ == b@[k].1@
                    && a@[k].2 == b@[k].2,
        decreases a@.len() - i,
    {
        if a[i].0 != b[i].0 || a[i].1 != b[i].1 || a[i].2 != b[i].2 {
            return false;
        }
        i = i + 1;
    }
    true
}

impl GameState {
    /// `EndGame`: close and clear a finished or stalled game, keeping the
    /// minigame list and the seed.
    fn do_end_game(&mut self, caller: &String, timestamp: u128) -> (r: Result<
        Vec<GameEvent>,
        GameError,
    >)
        requires
            old(self).wf(),
        ensures
            match r {
                Ok(ev) => end_game_err(*old(self), *caller, timestamp) is None && end_game_ok(
                    *old(self),
                    *final(self),
                    ev@,
                ) && final(self).wf(),
                Err(e) => end_game_err(*old(self), *caller, timestamp) == Some(e) && *final(self)
                    == *old(self),
            },
    {
        let is_ended = matches!(self.phase, GamePhase::GameOver);
        let is_backend = self.backend_identity == *caller;
        let since = timestamp.saturating_sub(self.last_interaction_time);
        let backend_timed_out = since > BACKEND_TIMEOUT_MS;
        let game_timed_out = since > STALL_TIMEOUT_MS;
        if is_ended || (is_backend && backend_timed_out) || game_timed_out {
            let mut events: Vec<GameEvent> = Vec::new();
            events.push(GameEvent::GameEnded { winner_id: String::new(), final_coins: 0 });
            let minigames = clone_strings(&self.minigames);
            let seed = self.dice.seed;
            self.reset(minigames, seed);
            Ok(events)
        } else {
            Err(GameError::AuthorizationError)
        }
    }

    /// `Initialize`: start a fresh game with the given minigame list and seed.
    fn do_initialize(&mut self, minigames: Vec<String>, random_seed: u64, timestamp: u128) -> (r:
        Result<Vec<GameEvent>, GameError>)
        requires
            old(self).wf(),
            old(self).phase == GamePhase::GameOver,
        ensures
            match r {
                Ok(ev) => init_err(minigames@) is None && init_ok(
                    *old(self),
                    *final(self),
                    ev@,
                    minigames@,
                    random_seed,
                    timestamp,
                ) && final(self).wf(),
                Err(e) => init_err(minigames@) == Some(e) && *final(self) == *old(self),
            },
    {
        if minigames.len() == 0 {
            return Err(GameError::RangeError);
        }
        self.reset(minigames, random_seed);
        self.round_started_at = timestamp;
        self.phase = GamePhase::Registration;
        let mut events: Vec<GameEvent> = Vec::new();
        events.push(GameEvent::GameInitialized { random_seed });
        Ok(events)
    }

    /// `RegisterPlayer`: add a new player with a deposit in range, a fresh
    /// identity and a fresh display name.
    fn do_register(&mut self, caller: &String, name: String, deposit: u64) -> (r: Result<
        Vec<GameEvent>,
        GameError,
    >)
        requires
            old(self).wf(),
            old(self).phase == GamePhase::Registration,
        ensures
            match r {
                Ok(ev) => register_err(*old(self), *caller, name, deposit) is None && register_ok(
                    *old(self),
                    *final(self),
                    ev@,
                    *caller,
                    name,
                    deposit,
                ) && final(self).wf(),
                Err(e) => register_err(*old(self), *caller, name, deposit) == Some(e)
                    && *final(self) == *old(self),
            },
    {
        if self.players.len() >= self.max_players {
            return Err(GameError::CapacityError);
        }
        if self.is_registered(caller) {
            return Err(GameError::DuplicateError);
        }
        if name_taken(&self.players, &name) {
            return Err(GameError::DuplicateError);
        }
        if deposit == 0 {
            return Err(GameError::RangeError);
        }
        if deposit > MAX_DEPOSIT {
            return Err(GameError::RangeError);
        }
        let mut events: Vec<GameEvent> = Vec::new();
        events.push(GameEvent::PlayerRegistered { name: name.clone(), player_id: caller.clone() });
        let ghost pre = *self;
        self.players.push(
            Player {
                id: caller.clone(),
                name,
                position: 0,
                coins: deposit as i32,
                used_uuids: Vec::new(),
            },
        );
        proof {
            assert(self.players@.take(pre.players@.len() as int) =~= pre.players@);
            assert forall|j: int| 0 <= j < pre.players@.len() implies (
            #[trigger] pre.players@[j]).id@ != caller@ by {
                if pre.players@[j].id@ == caller@ {
                    assert(pre.players@[j].coins > 0);
                    assert(has_active_id(pre.players@, caller@));
                }
            }
            assert(ids_unique(self.players@)) by {
                assert forall|x: int, y: int|
                    0 <= x < y < self.players@.len() implies self.players@[x].id@
                    != self.players@[y].id@ by {
                    if y == pre.players@.len() as int {
                        assert(self.players@[x] == pre.players@[x]);
                    } else {
                        assert(self.players@[x] == pre.players@[x]);
                        assert(self.players@[y] == pre.players@[y]);
                    }
                }
            }
            assert(crate::types::names_unique(self.players@)) by {
                assert forall|x: int, y: int|
                    0 <= x < y < self.players@.len() implies self.players@[x].name@
                    != self.players@[y].name@ by {
                    if y == pre.players@.len() as int {
                        assert(self.players@[x] == pre.players@[x]);
                        assert(!has_name(pre.players@, self.players@[y].name@));
                    } else {
                        assert(self.players@[x] == pre.players@[x]);
                        assert(self.players@[y] == pre.players@[y]);
                    }
                }
            }
        }
        Ok(events)
    }

    /// `StartGame`: move a full or timed-out registration into the first
    /// betting round.
    fn do_start_game(&mut self, timestamp: u128) -> (r: Result<Vec<GameEvent>, GameError>)
        requires
            old(self).wf(),
            old(self).phase == GamePhase::Registration,
        ensures
            match r {
                Ok(ev) => start_game_err(*old(self), timestamp) is None && start_game_ok(
                    *old(self),
                    *final(self),
                    ev@,
                    timestamp,
                ) && final(self).wf(),
                Err(e) => start_game_err(*old(self), timestamp) == Some(e)
                    && *final(self) == *old(self),
            },
    {
        let is_full = self.players.len() == self.max_players;
        let registration_period_done = self.round_started_at.saturating_add(
            REGISTRATION_WINDOW_MS,
        ) < timestamp;
        if !is_full && !registration_period_done {
            return Err(GameError::TimingError);
        }
        self.phase = GamePhase::Betting;
        self.round_started_at = timestamp;
        self.round = 0;
        let mut events: Vec<GameEvent> = Vec::new();
        events.push(GameEvent::GameStarted { player_count: self.players.len() });
        Ok(events)
    }

    /// `StartMinigame`: hand play over to the expected minigame, provided the
    /// caller supplies the exact current bettor manifest.
    fn do_start_minigame(&mut self, expected: String, minigame: String, players: MinigameSetup) -> (r:
        Result<Vec<GameEvent>, GameError>)
        requires
            old(self).wf(),
            old(self).phase == GamePhase::StartMinigame(expected) || old(self).phase
                == GamePhase::FinalMinigame(expected),
        ensures
            match r {
                Ok(ev) => start_minigame_err(*old(self), expected, minigame, players@) is None
                    && start_minigame_ok(*old(self), *final(self), ev@, minigame)
                    && final(self).wf(),
                Err(e) => start_minigame_err(*old(self), expected, minigame, players@) == Some(e)
                    && *final(self) == *old(self),
            },
    {
        if minigame != expected {
            return Err(GameError::ConsistencyError);
        }
        let minigame_players = self.get_minigame_setup();
        if !setups_equal(&minigame_players, &players) {
            return Err(GameError::ConsistencyError);
        }
        let mut events: Vec<GameEvent> = Vec::new();
        events.push(GameEvent::MinigameStarted { minigame_type: minigame.clone() });
        self.phase = GamePhase::InMinigame(minigame);
        Ok(events)
    }

    /// `PlaceBet`: record one wager per active player per round, inside the
    /// betting window, at the bet's identity-sorted position in the ledger;
    /// once every active player has bet the phase advances on its own, to the
    /// final minigame in the last round and to the wheel otherwise.
    fn do_place_bet(&mut self, caller: &String, amount: u64, timestamp: u128) -> (r: Result<
        Vec<GameEvent>,
        GameError,
    >)
        requires
            old(self).wf(),
            old(self).phase == GamePhase::Betting,
        ensures
            match r {
                Ok(ev) => place_bet_err(*old(self), *caller, amount, timestamp) is None
                    && place_bet_ok(*old(self), *final(self), ev@, *caller, amount)
                    && final(self).wf(),
                Err(e) => place_bet_err(*old(self), *caller, amount, timestamp) == Some(e)
                    && *final(self) == *old(self),
            },
    {
        if timestamp.saturating_sub(self.round_started_at) > BET_WINDOW_MS {
            return Err(GameError::TimingError);
        }
        if bets_contain(&self.bets, caller) {
            return Err(GameError::DuplicateError);
        }
        match find_idx(&self.players, caller) {
            None => Err(GameError::ConsistencyError),
            Some(i) => {
                proof {
                    lemma_idx_of_id(self.players@, caller@, i as int);
                }
                let coins = self.players[i].coins;
                if coins == 0 {
                    return Err(GameError::ConsistencyError);
                }
                if self.all_or_nothing {
                    if amount != coins as u64 {
                        return Err(GameError::RangeError);
                    }
                } else if (coins as u64) < amount {
                    return Err(GameError::RangeError);
                }
                let ghost pre = *self;
                let n = self.bets.len();
                let mut k: usize = 0;
                while k < n && !str_less(caller, &self.bets[k].0)
                    invariant
                        k <= n,
                        n == self.bets@.len(),
                        *self == pre,
                        pre.wf(),
                        !bets_has(pre.bets@, caller@),
                        forall|j: int|
                            0 <= j < k ==> str_lt((#[trigger] pre.bets@[j]).0@, caller@),
                    decreases n - k,
                {
                    proof {
                        assert(pre.bets@[k as int].0@ != caller@);
                        lemma_str_lt_total(caller@, pre.bets@[k as int].0@);
                    }
                    k = k + 1;
                }
                proof {
                    assert forall|j: int| k <= j < pre.bets@.len() implies str_lt(
                        caller@,
                        (#[trigger] pre.bets@[j]).0@,
                    ) by {
                        assert(str_lt(caller@, pre.bets@[k as int].0@));
                        if j > k {
                            assert(str_lt(pre.bets@[k as int].0@, pre.bets@[j].0@));
                            lemma_str_lt_trans(
                                caller@,
                                pre.bets@[k as int].0@,
                                pre.bets@[j].0@,
                            );
                        }
                    }
                }
                let key = caller.clone();
                proof {
                    assert(key == *caller);
                }
                self.bets.insert(k, (key, amount));
                proof {
                    assert(self.bets@ == pre.bets@.insert(k as int, ((*caller), amount)));
                    assert(bet_inserted_at(pre.bets@, self.bets@, *caller, amount, k as int));
                    assert(coins > 0);
                    assert(amount <= coins);
                }
                let mut events: Vec<GameEvent> = Vec::new();
                events.push(GameEvent::BetPlaced { player_id: caller.clone(), amount });
                let active = count_active(&self.players);
                if self.bets.len() == active {
                    if self.round >= ROUNDS - 1 {
                        proof {
                            assert(self.minigames@.len() > 0);
                        }
                        let m0 = self.minigames[0].clone();
                        events.push(GameEvent::MinigameReady { minigame_type: m0.clone() });
                        self.phase = GamePhase::FinalMinigame(m0);
                        proof {
                            assert(events@ =~= seq![
                                GameEvent::BetPlaced { player_id: *caller, amount },
                                GameEvent::MinigameReady { minigame_type: pre.minigames@[0] },
                            ]);
                        }
                    } else {
                        self.phase = GamePhase::WheelSpin;
                    }
                } else {
                    self.phase = GamePhase::Betting;
                }
                proof {
                    let kk = k as int;
                    assert(bets_sorted(self.bets@)) by {
                        assert forall|x: int, y: int|
                            0 <= x < y < self.bets@.len() implies str_lt(
                            (#[trigger] self.bets@[x]).0@,
                            (#[trigger] self.bets@[y]).0@,
                        ) by {
                            if y < kk {
                                assert(self.bets@[x] == pre.bets@[x]);
                                assert(self.bets@[y] == pre.bets@[y]);
                            } else if x < kk && y == kk {
                                assert(self.bets@[x] == pre.bets@[x]);
                                assert(self.bets@[y].0@ == caller@);
                            } else if x < kk && y > kk {
                                assert(self.bets@[x] == pre.bets@[x]);
                                assert(self.bets@[y] == pre.bets@[y - 1]);
                            } else if x == kk {
                                assert(self.bets@[x].0@ == caller@);
                                assert(self.bets@[y] == pre.bets@[y - 1]);
                            } else {
                                assert(self.bets@[x] == pre.bets@[x - 1]);
                                assert(self.bets@[y] == pre.bets@[y - 1]);
                            }
                        }
                    }
                    assert(crate::types::bet_keys_unique(self.bets@)) by {
                        assert forall|x: int, y: int|
                            0 <= x < y < self.bets@.len() implies self.bets@[x].0@
                            != self.bets@[y].0@ by {
                            assert(str_lt(self.bets@[x].0@, self.bets@[y].0@));
                            lemma_str_lt_irrefl(self.bets@[x].0@);
                        }
                    }
                    assert(bets_backed(self.players@, self.bets@)) by {
                        assert forall|q: int| 0 <= q < self.bets@.len() implies #[trigger] bet_backed(
                            self.players@,
                            self.bets@,
                            q,
                        ) by {
                            if q < kk {
                                assert(self.bets@[q] == pre.bets@[q]);
                                assert(bet_backed(pre.players@, pre.bets@, q));
                                let w = choose|w: int|
                                    bet_backed_at(pre.players@, pre.bets@, q, w);
                                assert(bet_backed_at(self.players@, self.bets@, q, w));
                            } else if q == kk {
                                assert(self.bets@[q] == (*caller, amount));
                                assert(self.players@[i as int].id@ == caller@);
                                assert(bet_backed_at(self.players@, self.bets@, q, i as int));
                            } else {
                                assert(self.bets@[q] == pre.bets@[q - 1]);
                                let qq = q - 1;
                                assert(bet_backed(pre.players@, pre.bets@, qq));
                                let w = choose|w: int|
                                    bet_backed_at(pre.players@, pre.bets@, qq, w);
                                assert(bet_backed_at(pre.players@, pre.bets@, qq, w));
                                assert(bet_backed_at(self.players@, self.bets@, q, w));
                            }
                        }
                    }
                }
                Ok(events)
            },
        }
    }

    /// `SpinWheel`: penalize active players who missed the betting window,
    /// settle if needed, then draw the wheel outcome: advance the round, pay
    /// every pending bet out to a deterministically shuffled recipient, force
    /// an all-or-nothing round, or hand over to a minigame.
    #[verifier::rlimit(100)]
    fn do_spin_wheel(&mut self, timestamp: u128) -> (r: Result<Vec<GameEvent>, GameError>)
        requires
            old(self).wf(),
            old(self).phase == GamePhase::Betting || old(self).phase == GamePhase::WheelSpin,
        ensures
            match r {
                Ok(ev) => spin_err(*old(self), timestamp) is None && spin_ok(
                    *old(self),
                    *final(self),
                    ev@,
                    timestamp,
                ) && final(self).wf(),
                Err(e) => spin_err(*old(self), timestamp) == Some(e)
                    && *final(self) == *old(self),
            },
    {
        let from_betting = matches!(self.phase, GamePhase::Betting);
        if from_betting && timestamp.saturating_sub(self.round_started_at) < BET_WINDOW_MS {
            return Err(GameError::TimingError);
        }
        let ghost pre = *self;
        let mut events: Vec<GameEvent> = Vec::new();
        if from_betting {
            let zero_out = self.round == 0 || self.all_or_nothing;
            let mut i: usize = 0;
            while i < self.players.len()
                invariant
                    i <= self.players@.len(),
                    self.players@.len() == pre.players@.len(),
                    pre.wf(),
                    zero_out == (pre.round == 0 || pre.all_or_nothing),
                    *self == (GameState { players: self.players, ..pre }),
                    forall|j: int|
                        0 <= j < i ==> self.players@[j] == penalize(
                            pre.players@,
                            pre.bets@,
                            zero_out,
                        )[j],
                    forall|j: int|
                        i <= j < self.players@.len() ==> self.players@[j] == pre.players@[j],
                    events@ == if zero_out {
                        Seq::<GameEvent>::empty()
                    } else {
                        penalty_events(pre.players@.take(i as int), pre.bets@)
                    },
                decreases self.players@.len() - i,
            {
                let ghost ii = i as int;
                proof {
                    assert(pre.players@.take(ii + 1).drop_last() =~= pre.players@.take(ii));
                    assert(pre.players@.take(ii + 1).last() == pre.players@[ii]);
                }
                let hit = self.players[i].coins > 0 && !bets_contain(
                    &self.bets,
                    &self.players[i].id,
                );
                if hit {
                    if zero_out {
                        let p = &mut self.players[i];
                        p.coins = 0;
                    } else {
                        self.update_player_coins(i, -BET_PENALTY, &mut events);
                    }
                }
                proof {
                    assert(self.players@[ii] == penalize(pre.players@, pre.bets@, zero_out)[ii]);
                }
                i = i + 1;
            }
            proof {
                assert(self.players@ =~= penalize(pre.players@, pre.bets@, zero_out));
                assert(pre.players@.take(pre.players@.len() as int) =~= pre.players@);
            }
        }
        self.all_or_nothing = false;
        let ghost ps1 = self.players@;
        proof {
            assert(ps1 == spin_penalized(pre));
            assert(events@ == spin_penalty_events(pre));
            assert(coins_nonneg(ps1)) by {
                assert forall|j: int| 0 <= j < ps1.len() implies ps1[j].coins >= 0 by {
                    if from_betting {
                        assert(ps1[j] == penalize(pre.players@, pre.bets@, pre.round == 0
                            || pre.all_or_nothing)[j]);
                    }
                }
            }
            assert forall|j: int| 0 <= j < ps1.len() implies (#[trigger] ps1[j]).id
                == pre.players@[j].id && ps1[j].name == pre.players@[j].name by {
                if from_betting {
                    assert(ps1[j] == penalize(pre.players@, pre.bets@, pre.round == 0
                        || pre.all_or_nothing)[j]);
                }
            }
            assert(ids_unique(ps1));
            assert(crate::types::names_unique(ps1));
        }
        let ghost pev = events@;
        let fired = self.check_and_handle_game_over(&mut events);
        if fired {
            proof {
                assert(events@.take(pev.len() as int) == pev);
            }
            return Ok(events);
        }
        let outcome_raw = self.dice.roll();
        let outcome = outcome_raw % 5;
        events.push(GameEvent::WheelSpun { round: self.round, outcome });
        proof {
            assert(outcome as int == pre.dice.roll_of() % 5);
            assert(0 <= pre.dice.roll_of() % 5 < 5);
        }
        let ghost wev = events@;
        if outcome == 0 {
            self.advance_and_clear(timestamp);
            Ok(events)
        } else if outcome == 1 {
            let mut idxs: Vec<usize> = Vec::new();
            let mut j: usize = 0;
            while j < self.players.len()
                invariant
                    j <= self.players@.len(),
                    self.players@ == ps1,
                    idxs@ == active_indices(ps1.take(j as int)),
                    idxs@.len() == num_active(ps1.take(j as int)),
                    forall|q: int| 0 <= q < idxs@.len() ==> (#[trigger] idxs@[q]) < ps1.len(),
                decreases self.players@.len() - j,
            {
                let ghost jj = j as int;
                proof {
                    assert(ps1.take(jj + 1).drop_last() =~= ps1.take(jj));
                    assert(ps1.take(jj + 1).last() == ps1[jj]);
                }
                if self.players[j].coins > 0 {
                    idxs.push(j);
                }
                j = j + 1;
            }
            proof {
                assert(ps1.take(ps1.len() as int) =~= ps1);
                assert(idxs@ == active_indices(ps1));
                assert(idxs@.len() == num_active(ps1));
                assert(num_active(ps1) != 0);
            }
            let ghost idxs0 = idxs@;
            let ghost d2state = self.dice.state;
            self.dice.shuffle(&mut idxs);
            let ghost order = idxs@;
            proof {
                assert((order, self.dice.state) == shuffled(idxs0, d2state, idxs0.len() - 1));
                assert forall|q: int| 0 <= q < order.len() implies (#[trigger] order[q])
                    < ps1.len() by {
                    assert(idxs0.contains(order[q]));
                    let w = choose|w: int| 0 <= w < idxs0.len() && idxs0[w] == order[q];
                    assert(idxs0[w] < ps1.len());
                }
            }
            let ghost mid = *self;
            let nbets = self.bets.len();
            let mut k: usize = 0;
            while k < nbets
                invariant
                    k <= nbets,
                    nbets == self.bets@.len(),
                    self.bets@ == pre.bets@,
                    pre.wf(),
                    bets_backed(pre.players@, pre.bets@),
                    mid.players@ == ps1,
                    mid.bets@ == pre.bets@,
                    *self == (GameState { players: self.players, ..mid }),
                    self.players@.len() == ps1.len(),
                    ps1.len() == pre.players@.len(),
                    forall|q: int|
                        0 <= q < ps1.len() ==> (#[trigger] ps1[q]).id == pre.players@[q].id,
                    forall|q: int|
                        0 <= q < self.players@.len() ==> (#[trigger] self.players@[q]).id
                            == ps1[q].id && self.players@[q].name == ps1[q].name,
                    ids_unique(self.players@),
                    crate::types::names_unique(self.players@),
                    coins_nonneg(self.players@),
                    ids_unique(ps1),
                    idxs@ == order,
                    order.len() > 0,
                    forall|q: int| 0 <= q < order.len() ==> (#[trigger] order[q]) < ps1.len(),
                    self.players@ == redist_players(ps1, pre.bets@, order, k as int),
                    events@ == wev + redist_events(ps1, pre.bets@, order, k as int),
                decreases nbets - k,
            {
                let ghost kk = k as int;
                let amount = self.bets[k].1;
                proof {
                    assert(bet_backed(pre.players@, pre.bets@, kk));
                    let bj = choose|bj: int| bet_backed_at(pre.players@, pre.bets@, kk, bj);
                    assert(bet_backed_at(pre.players@, pre.bets@, kk, bj));
                    assert(amount <= i32::MAX);
                    assert(self.players@[bj].id@ == pre.bets@[kk].0@);
                    assert(has_id(self.players@, pre.bets@[kk].0@));
                }
                match find_idx(&self.players, &self.bets[k].0) {
                    Some(b) => {
                        let ghost cur = self.players@;
                        proof {
                            lemma_idx_of_id(cur, pre.bets@[kk].0@, b as int);
                            assert(ps1[b as int].id@ == pre.bets@[kk].0@);
                            lemma_idx_of_id(ps1, pre.bets@[kk].0@, b as int);
                        }
                        let delta: i32 = amount as i32;
                        self.update_player_coins(b, -delta, &mut events);
                        let widx = idxs[k % idxs.len()];
                        self.update_player_coins(widx, delta, &mut events);
                        proof {
                            assert(self.players@ == apply_bet(
                                cur,
                                pre.bets@[kk],
                                order[kk % (order.len() as int)] as int,
                            ));
                            assert(self.players@ == redist_players(
                                ps1,
                                pre.bets@,
                                order,
                                kk + 1,
                            ));
                            assert(events@ == wev + redist_events(ps1, pre.bets@, order, kk + 1));
                        }
                    },
                    None => {
                        proof {
                            assert(false);
                        }
                        return Err(GameError::InvariantViolation);
                    },
                }
                k = k + 1;
            }
            self.advance_and_clear(timestamp);
            proof {
                assert(self.dice == (Dice {
                    state: shuffled(active_indices(ps1), next_state(pre.dice.state), active_indices(
                        ps1,
                    ).len() - 1).1,
                    ..pre.dice
                }));
            }
            Ok(events)
        } else if outcome == 2 {
            self.all_or_nothing = true;
            events.push(GameEvent::AllOrNothingActivated);
            self.advance_and_clear(timestamp);
            Ok(events)
        } else {
            proof {
                assert(self.minigames@.len() > 0);
            }
            let m0_event = self.minigames[0].clone();
            let m0_phase = self.minigames[0].clone();
            events.push(GameEvent::MinigameReady { minigame_type: m0_event });
            self.phase = GamePhase::StartMinigame(m0_phase);
            proof {
                assert(bets_backed(self.players@, self.bets@)) by {
                    assert forall|q: int| 0 <= q < self.bets@.len() implies #[trigger] bet_backed(
                        self.players@,
                        self.bets@,
                        q,
                    ) by {
                        assert(bet_backed(pre.players@, pre.bets@, q));
                        let w = choose|w: int| bet_backed_at(pre.players@, pre.bets@, q, w);
                        assert(bet_backed_at(pre.players@, pre.bets@, q, w));
                        assert(bets_has(pre.bets@, pre.bets@[q].0@));
                        if from_betting {
                            assert(self.players@[w] == penalize(pre.players@, pre.bets@, pre.round
                                == 0 || pre.all_or_nothing)[w]);
                        }
                        assert(self.players@[w].coins == pre.players@[w].coins);
                        assert(bet_backed_at(self.players@, self.bets@, q, w));
                    }
                }
            }
            Ok(events)
        }
    }

    /// `EndMinigame`: apply an external minigame's signed coin deltas, then
    /// settle or move to the next round (or close the final round with the
    /// first player holding the maximum balance as winner).
    fn do_end_minigame(&mut self, result: MinigameResult, timestamp: u128) -> (r: Result<
        Vec<GameEvent>,
        GameError,
    >)
        requires
            old(self).wf(),
            old(self).phase is InMinigame,
        ensures
            match r {
                Ok(ev) => end_minigame_err(*old(self), result) is None && end_minigame_ok(
                    *old(self),
                    *final(self),
                    ev@,
                    result,
                    timestamp,
                ) && final(self).wf(),
                Err(e) => end_minigame_err(*old(self), result) == Some(e)
                    && *final(self) == *old(self),
            },
    {
        let n = result.player_results.len();
        let mut k: usize = 0;
        while k < n
            invariant
                k <= n,
                n == result.player_results@.len(),
                forall|j: int|
                    0 <= j < k ==> has_id(
                        self.players@,
                        (#[trigger] result.player_results@[j]).player_id@,
                    ),
            decreases n - k,
        {
            match find_idx(&self.players, &result.player_results[k].player_id) {
                Some(_) => {},
                None => {
                    return Err(GameError::ConsistencyError);
                },
            }
            k = k + 1;
        }
        let ghost orig = *self;
        let ghost rs = result.player_results@;
        let mut events: Vec<GameEvent> = Vec::new();
        let mut k: usize = 0;
        while k < n
            invariant
                k <= n,
                n == rs.len(),
                rs == result.player_results@,
                orig.wf(),
                forall|j: int| 0 <= j < n ==> has_id(orig.players@, (#[trigger] rs[j]).player_id@),
                self.players@ == apply_results(orig.players@, rs.take(k as int)),
                events@ == result_events(orig.players@, rs.take(k as int)),
                *self == (GameState { players: self.players, ..orig }),
                self.players@.len() == orig.players@.len(),
                forall|j: int|
                    0 <= j < self.players@.len() ==> (#[trigger] self.players@[j]).id
                        == orig.players@[j].id && self.players@[j].name == orig.players@[j].name,
                ids_unique(self.players@),
                coins_nonneg(self.players@),
            decreases n - k,
        {
            let ghost kk = k as int;
            let delta = result.player_results[k].coins_delta;
            proof {
                assert(rs.take(kk + 1).drop_last() =~= rs.take(kk));
                assert(rs.take(kk + 1).last() == rs[kk]);
            }
            if delta != 0 {
                match find_idx(&self.players, &result.player_results[k].player_id) {
                    Some(i) => {
                        let ghost pid = rs[kk].player_id@;
                        let ghost pre_players = self.players@;
                        proof {
                            lemma_idx_of_id(self.players@, pid, i as int);
                            assert(orig.players@[i as int].id@ == pid);
                            lemma_idx_of_id(orig.players@, pid, i as int);
                        }
                        self.update_player_coins(i, delta, &mut events);
                        proof {
                            assert(self.players@ == apply_results(orig.players@, rs.take(kk + 1)));
                            assert(events@ == result_events(orig.players@, rs.take(kk + 1)));
                        }
                    },
                    None => {
                        proof {
                            assert(has_id(orig.players@, rs[kk].player_id@));
                            let j = crate::types::idx_of_id(orig.players@, rs[kk].player_id@);
                            assert(self.players@[j].id@ == rs[kk].player_id@);
                            assert(false);
                        }
                        return Err(GameError::InvariantViolation);
                    },
                }
            }
            k = k + 1;
        }
        proof {
            assert(rs.take(n as int) =~= rs);
        }
        let fired = self.check_and_handle_game_over(&mut events);
        if fired {
            return Ok(events);
        }
        events.push(GameEvent::MinigameEnded { result });
        if self.round >= ROUNDS - 1 {
            let len = self.players.len();
            proof {
                if len == 0 {
                    assert(num_active(self.players@) == 0);
                }
            }
            let mut best: usize = 0;
            let mut i: usize = 1;
            while i < len
                invariant
                    1 <= i <= len,
                    len == self.players@.len(),
                    best < i,
                    forall|q: int|
                        0 <= q < i ==> (#[trigger] self.players@[q]).coins
                            <= self.players@[best as int].coins,
                    forall|q: int|
                        0 <= q < best ==> (#[trigger] self.players@[q]).coins
                            < self.players@[best as int].coins,
                decreases len - i,
            {
                if self.players[i].coins > self.players[best].coins {
                    best = i;
                }
                i = i + 1;
            }
            let winner_id = self.players[best].id.clone();
            let winner_coins = self.players[best].coins;
            events.push(GameEvent::GameEnded { winner_id, final_coins: winner_coins });
            self.phase = GamePhase::RewardsDistribution;
            proof {
                assert(is_first_max(self.players@, best as int));
            }
            Ok(events)
        } else {
            self.round = self.round + 1;
            self.bets.clear();
            self.round_started_at = timestamp;
            self.phase = GamePhase::Betting;
            Ok(events)
        }
    }

    /// The transition function: validates `action` against the current phase
    /// and state, applies it, and returns the ordered event log — or rejects
    /// it with an error, leaving the state untouched. Everything is a pure
    /// function of (state, caller, action, timestamp); the idempotency token
    /// is carried but not yet enforced.
    pub fn process_action(
        &mut self,
        caller: &String,
        _uuid: u128,
        action: GameAction,
        timestamp: u128,
    ) -> (r: Result<Vec<GameEvent>, GameError>)
        requires
            old(self).wf(),
        ensures
            final(self).wf(),
            match r {
                Ok(ev) => action_err(*old(self), *caller, action, timestamp) is None && action_ok(
                    *old(self),
                    *final(self),
                    ev@,
                    *caller,
                    action,
                    timestamp,
                ),
                Err(e) => action_err(*old(self), *caller, action, timestamp) == Some(e)
                    && *final(self) == *old(self),
            },
    {
        match action {
            GameAction::EndGame => self.do_end_game(caller, timestamp),
            GameAction::Initialize { minigames, random_seed } => {
                if matches!(self.phase, GamePhase::GameOver) {
                    self.do_initialize(minigames, random_seed, timestamp)
                } else {
                    Err(GameError::PhaseMismatch)
                }
            },
            GameAction::RegisterPlayer { name, deposit } => {
                if matches!(self.phase, GamePhase::Registration) {
                    self.do_register(caller, name, deposit)
                } else {
                    Err(GameError::PhaseMismatch)
                }
            },
            GameAction::StartGame => {
                if matches!(self.phase, GamePhase::Registration) {
                    self.do_start_game(timestamp)
                } else {
                    Err(GameError::PhaseMismatch)
                }
            },
            GameAction::PlaceBet { amount } => {
                if matches!(self.phase, GamePhase::Betting) {
                    self.do_place_bet(caller, amount, timestamp)
                } else {
                    Err(GameError::PhaseMismatch)
                }
            },
            GameAction::SpinWheel => {
                if matches!(self.phase, GamePhase::Betting) || matches!(
                    self.phase,
                    GamePhase::WheelSpin,
                ) {
                    self.do_spin_wheel(timestamp)
                } else {
                    Err(GameError::PhaseMismatch)
                }
            },
            GameAction::StartMinigame { minigame, players } => {
                let expected: Option<String> = match &self.phase {
                    GamePhase::StartMinigame(e) => Some(e.clone()),
                    GamePhase::FinalMinigame(e) => Some(e.clone()),
                    _ => None,
                };
                match expected {
                    Some(e) => self.do_start_minigame(e, minigame, players),
                    None => Err(GameError::PhaseMismatch),
                }
            },
            GameAction::EndMinigame { result } => {
                if matches!(self.phase, GamePhase::InMinigame(_)) {
                    self.do_end_minigame(result, timestamp)
                } else {
                    Err(GameError::PhaseMismatch)
                }
            },
            GameAction::EndTurn => Err(GameError::PhaseMismatch),
            GameAction::DistributeRewards => {
                if matches!(self.phase, GamePhase::RewardsDistribution) {
                    self.do_distribute()
                } else {
                    Err(GameError::PhaseMismatch)
                }
            },
        }
    }

    /// `DistributeRewards`: close the settled game (the distribution itself
    /// is validated by the surrounding settlement layer).
    fn do_distribute(&mut self) -> (r: Result<Vec<GameEvent>, GameError>)
        requires
            old(self).wf(),
            old(self).phase == GamePhase::RewardsDistribution,
        ensures
            match r {
                Ok(ev) => crate::transition::distribute_ok(*old(self), *final(self), ev@)
                    && final(self).wf(),
                Err(e) => false,
            },
    {
        self.phase = GamePhase::GameOver;
        Ok(Vec::new())
    }
}

} // verus!
