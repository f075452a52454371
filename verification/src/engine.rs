//! Executable engine: the authoritative state's constructors, accessors and
//! the settlement policy, proved against the spec vocabulary of
//! `crate::transition`.
use crate::dice::Dice;
use crate::transition::{game_over_fires, no_winner_event, reset_rel, setup_of, winner_event};
use crate::types::{
    adv_round, apply_delta, bets_has, has_active_id, has_id, idx_of_id, ids_unique, num_active,
    str_lt, GameEvent, GamePhase, GameState, MinigameSetup, Player, MAX_PLAYERS, ROUNDS,
};
use vstd::prelude::*;

verus! {

/// A fresh copy of a list of strings, equal to it element by element.
pub fn clone_strings(v: &Vec<String>) -> (r: Vec<String>)
    ensures
        r@ == v@,
{
    let mut r: Vec<String> = Vec::new();
    let mut i: usize = 0;
    while i < v.len()
        invariant
            i <= v@.len(),
            r@ == v@.take(i as int),
        decreases v@.len() - i,
    {
        r.push(v[i].clone());
        proof {
            assert(v@.take(i + 1) =~= v@.take(i as int).push(v@[i as int]));
        }
        i = i + 1;
    }
    proof {
        assert(v@.take(v@.len() as int) =~= v@);
    }
    r
}

/// The code-point cast is injective: equal code points mean equal characters.
pub proof fn lemma_char_cast_injective(c1: char, c2: char)
    requires
        c1 as u32 == c2 as u32,
    ensures
        c1 == c2,
{
}

/// The identity order is total: two distinct identities compare one way or
/// the other.
pub proof fn lemma_str_lt_total(a: Seq<char>, b: Seq<char>)
    requires
        a != b,
    ensures
        str_lt(a, b) || str_lt(b, a),
    decreases a.len(),
{
    if b.len() == 0 {
        assert(a.len() > 0) by {
            if a.len() == 0 {
                assert(a =~= b);
            }
        }
    } else if a.len() == 0 {
    } else if (a[0] as u32) < (b[0] as u32) {
    } else if (a[0] as u32) > (b[0] as u32) {
    } else {
        lemma_char_cast_injective(a[0], b[0]);
        assert(a[0] == b[0]);
        if a.drop_first() == b.drop_first() {
            assert(a.drop_first().len() == a.len() - 1);
            assert(b.drop_first().len() == b.len() - 1);
            assert(a.len() == b.len());
            assert forall|k: int| 0 <= k < a.len() implies a[k] == b[k] by {
                if k > 0 {
                    assert(a.drop_first()[k - 1] == a[k]);
                    assert(b.drop_first()[k - 1] == b[k]);
                }
            }
            assert(a =~= b);
        } else {
            lemma_str_lt_total(a.drop_first(), b.drop_first());
        }
    }
}

/// Nothing sorts strictly before itself.
pub proof fn lemma_str_lt_irrefl(a: Seq<char>)
    ensures
        !str_lt(a, a),
    decreases a.len(),
{
    if a.len() > 0 {
        lemma_str_lt_irrefl(a.drop_first());
    }
}

/// The identity order is transitive.
pub proof fn lemma_str_lt_trans(a: Seq<char>, b: Seq<char>, c: Seq<char>)
    requires
        str_lt(a, b),
        str_lt(b, c),
    ensures
        str_lt(a, c),
    decreases a.len(),
{
    if c.len() == 0 {
    } else if b.len() == 0 {
    } else if a.len() == 0 {
    } else {
        if (a[0] as u32) == (b[0] as u32) && (b[0] as u32) == (c[0] as u32) {
            lemma_str_lt_trans(a.drop_first(), b.drop_first(), c.drop_first());
        }
    }
}

/// Whether `a` comes strictly before `b` in the identity order.
pub fn str_less(a: &String, b: &String) -> (r: bool)
    ensures
        r == str_lt(a@, b@),
{
    let alen = a.as_str().unicode_len();
    let blen = b.as_str().unicode_len();
    let mut i: usize = 0;
    proof {
        assert(a@.skip(0) =~= a@);
        assert(b@.skip(0) =~= b@);
    }
    while i < alen && i < blen
        invariant
            i <= alen,
            i <= blen,
            alen == a@.len(),
            blen == b@.len(),
            str_lt(a@, b@) == str_lt(a@.skip(i as int), b@.skip(i as int)),
        decreases alen - i,
    {
        let ca = a.as_str().get_char(i);
        let cb = b.as_str().get_char(i);
        proof {
            assert(a@.skip(i as int)[0] == a@[i as int]);
            assert(b@.skip(i as int)[0] == b@[i as int]);
        }
        if (ca as u32) < (cb as u32) {
            return true;
        }
        if (ca as u32) > (cb as u32) {
            return false;
        }
        proof {
            assert(a@.skip(i as int).drop_first() =~= a@.skip(i + 1));
            assert(b@.skip(i as int).drop_first() =~= b@.skip(i + 1));
        }
        i = i + 1;
    }
    proof {
        assert(a@.skip(i as int).len() == alen - i);
        assert(b@.skip(i as int).len() == blen - i);
    }
    alen < blen
}

/// Under unique identities, any position carrying an identity is the one
/// `idx_of_id` denotes.
pub proof fn lemma_idx_of_id(ps: Seq<Player>, id: Seq<char>, i: int)
    requires
        ids_unique(ps),
        0 <= i < ps.len(),
        ps[i].id@ == id,
    ensures
        idx_of_id(ps, id) == i,
{
    assert(0 <= i < ps.len() && ps[i].id@ == id);
    let j = idx_of_id(ps, id);
    assert(0 <= j < ps.len() && ps[j].id@ == id);
    if i < j {
        assert(ps[i].id@ != ps[j].id@);
    } else if j < i {
        assert(ps[j].id@ != ps[i].id@);
    }
}

/// Counting step: one more player extends the active count by one exactly
/// when that player holds coins.
pub proof fn lemma_num_active_take(ps: Seq<Player>, i: int)
    requires
        0 <= i < ps.len(),
    ensures
        num_active(ps.take(i + 1)) == num_active(ps.take(i)) + if ps[i].coins > 0 {
            1int
        } else {
            0int
        },
{
    assert(ps.take(i + 1).drop_last() =~= ps.take(i));
    assert(ps.take(i + 1).last() == ps[i]);
}

/// The position of the player carrying this identity, if any.
pub fn find_idx(players: &Vec<Player>, id: &String) -> (r: Option<usize>)
    ensures
        match r {
            Some(i) => 0 <= i < players@.len() && players@[i as int].id@ == id@,
            None => !has_id(players@, id@),
        },
{
    let mut i: usize = 0;
    while i < players.len()
        invariant
            i <= players@.len(),
            forall|j: int| 0 <= j < i ==> (#[trigger] players@[j]).id@ != id@,
        decreases players@.len() - i,
    {
        if players[i].id == *id {
            return Some(i);
        }
        i = i + 1;
    }
    None
}

/// The number of players still holding a positive balance.
pub fn count_active(players: &Vec<Player>) -> (n: usize)
    ensures
        n == num_active(players@),
{
    let mut n: usize = 0;
    let mut i: usize = 0;
    while i < players.len()
        invariant
            i <= players@.len(),
            n == num_active(players@.take(i as int)),
            n <= i,
        decreases players@.len() - i,
    {
        proof {
            lemma_num_active_take(players@, i as int);
        }
        if players[i].coins > 0 {
            n = n + 1;
        }
        i = i + 1;
    }
    proof {
        assert(players@.take(players@.len() as int) =~= players@);
    }
    n
}

/// Whether the ledger already holds a bet from this identity.
pub fn bets_contain(bets: &Vec<(String, u64)>, id: &String) -> (r: bool)
    ensures
        r == bets_has(bets@, id@),
{
    let mut i: usize = 0;
    while i < bets.len()
        invariant
            i <= bets@.len(),
            forall|j: int| 0 <= j < i ==> (#[trigger] bets@[j]).0@ != id@,
        decreases bets@.len() - i,
    {
        if bets[i].0 == *id {
            return true;
        }
        i = i + 1;
    }
    false
}

impl GameState {
    /// A fresh, not yet initialized game owned by the given backend identity.
    pub fn new(backend_identity: String) -> (r: GameState)
        ensures
            r.players@.len() == 0,
            r.phase == GamePhase::GameOver,
            r.max_players == MAX_PLAYERS,
            r.minigames@.len() == 0,
            r.dice == Dice::spec_new(1, 10, 0),
            r.round_started_at == 0,
            r.round == 0,
            r.bets@.len() == 0,
            r.all_or_nothing == false,
            r.backend_identity == backend_identity,
            r.last_interaction_time == 0,
            r.lane_id@ == Seq::<char>::empty(),
            r.wf(),
    {
        GameState {
            players: Vec::new(),
            phase: GamePhase::GameOver,
            max_players: MAX_PLAYERS,
            minigames: Vec::new(),
            dice: Dice::new(1, 10, 0),
            round_started_at: 0,
            round: 0,
            bets: Vec::new(),
            all_or_nothing: false,
            backend_identity,
            last_interaction_time: 0,
            lane_id: String::new(),
        }
    }

    /// Clears the game back to an empty, game-over state with the given
    /// minigame list and seed, preserving backend identity, last interaction
    /// time and lane.
    pub fn reset(&mut self, minigames: Vec<String>, random_seed: u64)
        ensures
            reset_rel(*old(self), *final(self), minigames@, random_seed, GamePhase::GameOver, 0),
            final(self).wf(),
    {
        let backend = self.backend_identity.clone();
        let last = self.last_interaction_time;
        let lane = self.lane_id.clone();
        *self = GameState {
            players: Vec::new(),
            phase: GamePhase::GameOver,
            max_players: MAX_PLAYERS,
            minigames,
            dice: Dice::new(1, 10, random_seed),
            round_started_at: 0,
            round: 0,
            bets: Vec::new(),
            all_or_nothing: false,
            backend_identity: backend,
            last_interaction_time: last,
            lane_id: lane,
        };
    }

    /// True iff a player with this identity still holds a positive balance.
    pub fn is_registered(&self, caller: &String) -> (r: bool)
        ensures
            r == has_active_id(self.players@, caller@),
    {
        let mut i: usize = 0;
        while i < self.players.len()
            invariant
                i <= self.players@.len(),
                forall|j: int|
                    0 <= j < i ==> !((#[trigger] self.players@[j]).id@ == caller@
                        && self.players@[j].coins > 0),
            decreases self.players@.len() - i,
        {
            if self.players[i].id == *caller && self.players[i].coins > 0 {
                return true;
            }
            i = i + 1;
        }
        false
    }

    /// Adds a signed delta to the balance at `i`, clamped into the balance
    /// range, and logs the requested delta.
    pub(crate) fn update_player_coins(&mut self, i: usize, delta: i32, events: &mut Vec<GameEvent>)
        requires
            i < old(self).players@.len(),
        ensures
            final(self).players@ == old(self).players@.update(
                i as int,
                Player {
                    coins: apply_delta(old(self).players@[i as int].coins, delta as int),
                    ..old(self).players@[i as int]
                },
            ),
            *final(self) == (GameState { players: final(self).players, ..*old(self) }),
            final(events)@ == old(events)@.push(
                GameEvent::CoinsChanged {
                    player_id: old(self).players@[i as int].id,
                    amount: delta,
                },
            ),
    {
        let c = self.players[i].coins;
        let nv: i64 = c as i64 + delta as i64;
        let clamped: i32 = if nv < 0 {
            0
        } else if nv > i32::MAX as i64 {
            i32::MAX
        } else {
            nv as i32
        };
        let id = self.players[i].id.clone();
        let p = &mut self.players[i];
        p.coins = clamped;
        events.push(GameEvent::CoinsChanged { player_id: id, amount: delta });
    }

    /// Builds the ordered bettor manifest from the ledger: each bet whose
    /// identity matches a player still holding coins yields that player's
    /// identity, name and wager.
    pub fn get_minigame_setup(&self) -> (r: MinigameSetup)
        requires
            ids_unique(self.players@),
        ensures
            r@ == setup_of(self.players@, self.bets@),
    {
        let mut r: MinigameSetup = Vec::new();
        let mut k: usize = 0;
        while k < self.bets.len()
            invariant
                k <= self.bets@.len(),
                ids_unique(self.players@),
                r@ == setup_of(self.players@, self.bets@.take(k as int)),
            decreases self.bets@.len() - k,
        {
            let ghost pre_r = r@;
            match find_idx(&self.players, &self.bets[k].0) {
                Some(i) => {
                    if self.players[i].coins > 0 {
                        r.push(
                            (self.players[i].id.clone(), self.players[i].name.clone(), self.bets[k].1),
                        );
                        proof {
                            lemma_idx_of_id(self.players@, self.bets@[k as int].0@, i as int);
                            assert(has_active_id(self.players@, self.bets@[k as int].0@));
                        }
                    } else {
                        proof {
                            assert forall|j: int|
                                0 <= j < self.players@.len() implies !((
                            #[trigger] self.players@[j]).id@ == self.bets@[k as int].0@
                                && self.players@[j].coins > 0) by {
                                if self.players@[j].id@ == self.bets@[k as int].0@ {
                                    lemma_idx_of_id(self.players@, self.bets@[k as int].0@, j);
                                    lemma_idx_of_id(self.players@, self.bets@[k as int].0@, i as int);
                                }
                            }
                        }
                    }
                },
                None => {
                    proof {
                        assert(!has_active_id(self.players@, self.bets@[k as int].0@));
                    }
                },
            }
            proof {
                let kk = k as int;
                assert(self.bets@.take(kk + 1).drop_last() =~= self.bets@.take(kk));
                assert(self.bets@.take(kk + 1).last() == self.bets@[kk]);
                assert(r@ == setup_of(self.players@, self.bets@.take(kk + 1)));
            }
            k = k + 1;
        }
        proof {
            assert(self.bets@.take(self.bets@.len() as int) =~= self.bets@);
        }
        r
    }

    /// Advances the round counter (capped at the last round), clears the
    /// ledger and restarts the betting window.
    pub(crate) fn advance_and_clear(&mut self, timestamp: u128)
        requires
            old(self).round < ROUNDS,
        ensures
            *final(self) == (GameState {
                bets: final(self).bets,
                round: adv_round(old(self).round),
                round_started_at: timestamp,
                phase: GamePhase::Betting,
                ..*old(self)
            }),
            final(self).bets@.len() == 0,
    {
        if self.round + 1 < ROUNDS {
            self.round = self.round + 1;
        }
        self.bets.clear();
        self.round_started_at = timestamp;
        self.phase = GamePhase::Betting;
    }

    /// Settlement policy, evaluated after any coin change: if exactly one of
    /// several players still holds coins the game closes with that winner;
    /// if none does it closes with no winner; otherwise nothing happens.
    pub fn check_and_handle_game_over(&mut self, events: &mut Vec<GameEvent>) -> (r: bool)
        ensures
            r == game_over_fires(old(self).players@),
            !r ==> *final(self) == *old(self) && final(events)@ == old(events)@,
            (num_active(old(self).players@) == 1 && old(self).players@.len() > 1) ==> {
                &&& *final(self) == (GameState {
                    phase: GamePhase::RewardsDistribution,
                    ..*old(self)
                })
                &&& final(events)@.len() == old(events)@.len() + 1
                &&& final(events)@.take(old(events)@.len() as int) == old(events)@
                &&& winner_event(old(self).players@, final(events)@.last())
            },
            num_active(old(self).players@) == 0 ==> {
                &&& *final(self) == (GameState { phase: GamePhase::GameOver, ..*old(self) })
                &&& final(events)@.len() == old(events)@.len() + 1
                &&& final(events)@.take(old(events)@.len() as int) == old(events)@
                &&& no_winner_event(final(events)@.last())
            },
    {
        let mut cnt: usize = 0;
        let mut first_active: Option<usize> = None;
        let mut i: usize = 0;
        while i < self.players.len()
            invariant
                i <= self.players@.len(),
                cnt == num_active(self.players@.take(i as int)),
                cnt <= i,
                (cnt > 0) == first_active is Some,
                match first_active {
                    Some(fa) => fa < i && self.players@[fa as int].coins > 0,
                    None => true,
                },
            decreases self.players@.len() - i,
        {
            proof {
                lemma_num_active_take(self.players@, i as int);
            }
            if self.players[i].coins > 0 {
                cnt = cnt + 1;
                if first_active.is_none() {
                    first_active = Some(i);
                }
            }
            i = i + 1;
        }
        proof {
            assert(self.players@.take(self.players@.len() as int) =~= self.players@);
        }
        if cnt == 1 && self.players.len() > 1 {
            match first_active {
                Some(fa) => {
                    let winner_id = self.players[fa].id.clone();
                    let winner_coins = self.players[fa].coins;
                    events.push(
                        GameEvent::GameEnded { winner_id, final_coins: winner_coins },
                    );
                    self.phase = GamePhase::RewardsDistribution;
                    proof {
                        assert(final(events)@.take(old(events)@.len() as int) =~= old(events)@);
                    }
                    true
                },
                None => {
                    proof {
                        assert(false);
                    }
                    false
                },
            }
        } else if cnt == 0 {
            events.push(GameEvent::GameEnded { winner_id: String::new(), final_coins: 0 });
            self.phase = GamePhase::GameOver;
            proof {
                assert(final(events)@.take(old(events)@.len() as int) =~= old(events)@);
            }
            true
        } else {
            false
        }
    }
}

} // verus!
