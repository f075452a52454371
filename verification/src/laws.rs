//! Laws of the game engine, stated and proved over the spec-level transition
//! relation: seed replayability, registration and betting rules, the
//! automatic phase advance, manifest checking, and coin conservation.
use crate::dice::Dice;
use crate::dice::{draw, shuffle_step, shuffled};
use crate::transition::{
    active_indices, apply_bet, apply_results, end_game_ok, init_ok, penalize, place_bet_err,
    place_bet_ok, redist_players, register_err, setup_matches, setup_of, spin_ok, spin_penalized,
    start_minigame_err,
};
use crate::engine::lemma_idx_of_id;
use crate::types::{
    apply_delta, bet_backed, bet_backed_at, bet_keys_unique, bets_backed, bets_has, bets_sorted,
    coins_nonneg, str_lt,
    has_active_id, has_id, has_name, idx_of_id, ids_unique, num_active, sum_coins, GameError,
    GameEvent, GamePhase, GameState, Player, PlayerMinigameResult, BET_WINDOW_MS, MAX_DEPOSIT,
    ROUNDS,
};
use vstd::prelude::*;

verus! {

/// Re-seeding is replayable: initializing a game, force-ending it (which
/// keeps the seed), and initializing again with the same seed leaves the
/// generator exactly as after the first initialization, so every later wheel
/// outcome and shuffle is identical.
pub proof fn lemma_replay_same_seed(
    s0: GameState,
    s1: GameState,
    s2: GameState,
    s3: GameState,
    ev1: Seq<GameEvent>,
    ev2: Seq<GameEvent>,
    ev3: Seq<GameEvent>,
    m1: Seq<String>,
    m2: Seq<String>,
    seed: u64,
    t1: u128,
    t2: u128,
)
    requires
        init_ok(s0, s1, ev1, m1, seed, t1),
        end_game_ok(s1, s2, ev2),
        init_ok(s2, s3, ev3, m2, seed, t2),
    ensures
        s3.dice == s1.dice,
        s3.dice == Dice::spec_new(1, 10, seed),
{
}

/// Registration rules: a second registration under an identity that still
/// holds coins, a taken display name, and a deposit of zero or above the cap
/// are each rejected; with none of these, and room left, registration is owed.
pub proof fn lemma_register_rules(s: GameState, caller: String, name: String, deposit: u64)
    ensures
        has_active_id(s.players@, caller@) ==> register_err(s, caller, name, deposit) is Some,
        has_name(s.players@, name@) ==> register_err(s, caller, name, deposit) is Some,
        deposit == 0 ==> register_err(s, caller, name, deposit) is Some,
        deposit > MAX_DEPOSIT ==> register_err(s, caller, name, deposit) is Some,
        (s.players@.len() < s.max_players && !has_active_id(s.players@, caller@) && !has_name(
            s.players@,
            name@,
        ) && 0 < deposit <= MAX_DEPOSIT) ==> register_err(s, caller, name, deposit) is None,
{
}

/// Betting rules: after an accepted bet, a second bet from the same identity
/// in the same round is rejected as a duplicate; and in an all-or-nothing
/// round a bet that is not the caller's full balance is rejected.
pub proof fn lemma_bet_rules(
    s: GameState,
    s1: GameState,
    ev: Seq<GameEvent>,
    caller: String,
    amount: u64,
    amount2: u64,
    ts2: u128,
)
    requires
        place_bet_ok(s, s1, ev, caller, amount),
        crate::types::elapsed(ts2, s1.round_started_at) <= BET_WINDOW_MS,
    ensures
        place_bet_err(s1, caller, amount2, ts2) == Some(GameError::DuplicateError),
{
    let k = choose|k: int| crate::transition::bet_inserted_at(s.bets@, s1.bets@, caller, amount, k);
    assert(crate::transition::bet_inserted_at(s.bets@, s1.bets@, caller, amount, k));
    assert(s1.bets@[k] == (caller, amount));
    assert(bets_has(s1.bets@, caller@));
}

/// In an all-or-nothing round, a bet that is not the caller's entire balance
/// is rejected out of range.
pub proof fn lemma_all_or_nothing_rule(s: GameState, caller: String, amount: u64, ts: u128)
    requires
        s.all_or_nothing,
        crate::types::elapsed(ts, s.round_started_at) <= BET_WINDOW_MS,
        !bets_has(s.bets@, caller@),
        crate::types::has_id(s.players@, caller@),
        ({
            let j = crate::types::idx_of_id(s.players@, caller@);
            s.players@[j].coins > 0 && amount != s.players@[j].coins as u64
        }),
    ensures
        place_bet_err(s, caller, amount, ts) == Some(GameError::RangeError),
{
}

/// Once every player holding coins has bet, the accepted bet itself advances
/// the phase: to the wheel in an ordinary round, to the final minigame in the
/// last round. No further trigger is needed.
pub proof fn lemma_full_betting_advances(
    s: GameState,
    s1: GameState,
    ev: Seq<GameEvent>,
    caller: String,
    amount: u64,
)
    requires
        place_bet_ok(s, s1, ev, caller, amount),
        s.bets@.len() + 1 == num_active(s.players@),
    ensures
        s.round < ROUNDS - 1 ==> s1.phase == GamePhase::WheelSpin,
        s.round >= ROUNDS - 1 ==> s1.phase == GamePhase::FinalMinigame(s.minigames@[0]),
{
}

/// A minigame may start only on the exact current manifest: a supplied
/// manifest differing from `get_minigame_setup`'s computation in order or
/// content is rejected, as is the wrong minigame; otherwise the start is owed.
pub proof fn lemma_manifest_must_match(
    s: GameState,
    expected: String,
    minigame: String,
    setup: Seq<(String, String, u64)>,
)
    ensures
        !setup_matches(setup_of(s.players@, s.bets@), setup) ==> start_minigame_err(
            s,
            expected,
            minigame,
            setup,
        ) == Some(GameError::ConsistencyError),
        start_minigame_err(s, expected, minigame, setup) is None <==> (minigame@ == expected@
            && setup_matches(setup_of(s.players@, s.bets@), setup)),
{
}

/// The bettor manifest inherits the ledger's order: on a sorted ledger,
/// `get_minigame_setup`'s entries come out in strictly ascending bettor
/// identity — exactly the order an identity-keyed ordered map would yield —
/// and every entry's identity is a ledger key.
pub proof fn lemma_manifest_ordered_by_identity(ps: Seq<Player>, bets: Seq<(String, u64)>)
    requires
        bets_sorted(bets),
    ensures
        forall|i: int|
            0 <= i < setup_of(ps, bets).len() ==> bets_has(
                bets,
                (#[trigger] setup_of(ps, bets)[i]).0@,
            ),
        forall|i: int, j: int|
            0 <= i < j < setup_of(ps, bets).len() ==> str_lt(
                (#[trigger] setup_of(ps, bets)[i]).0@,
                (#[trigger] setup_of(ps, bets)[j]).0@,
            ),
    decreases bets.len(),
{
    if bets.len() > 0 {
        assert(bets_sorted(bets.drop_last())) by {
            assert(forall|i: int|
                0 <= i < bets.drop_last().len() ==> bets.drop_last()[i] == bets[i]);
        }
        lemma_manifest_ordered_by_identity(ps, bets.drop_last());
        let rest = setup_of(ps, bets.drop_last());
        let b = bets.last();
        let cur = setup_of(ps, bets);
        assert forall|i: int| 0 <= i < rest.len() implies bets_has(
            bets,
            (#[trigger] rest[i]).0@,
        ) by {
            assert(bets_has(bets.drop_last(), rest[i].0@));
            let k = choose|k: int|
                0 <= k < bets.drop_last().len() && bets.drop_last()[k].0@ == rest[i].0@;
            assert(bets[k] == bets.drop_last()[k]);
        }
        if has_active_id(ps, b.0@) {
            let j = idx_of_id(ps, b.0@);
            assert(0 <= j < ps.len() && ps[j].id@ == b.0@) by {
                let w = choose|w: int| 0 <= w < ps.len() && ps[w].id@ == b.0@ && ps[w].coins > 0;
                assert(0 <= w < ps.len() && ps[w].id@ == b.0@);
            }
            assert(cur == rest.push((ps[j].id, ps[j].name, b.1)));
            assert forall|x: int, y: int|
                0 <= x < y < cur.len() implies str_lt(
                (#[trigger] cur[x]).0@,
                (#[trigger] cur[y]).0@,
            ) by {
                if y < rest.len() {
                    assert(cur[x] == rest[x] && cur[y] == rest[y]);
                } else {
                    assert(cur[x] == rest[x]);
                    assert(cur[y].0@ == b.0@);
                    assert(bets_has(bets.drop_last(), rest[x].0@));
                    let k = choose|k: int|
                        0 <= k < bets.drop_last().len() && bets.drop_last()[k].0@ == rest[x].0@;
                    assert(bets.drop_last()[k] == bets[k]);
                    assert(str_lt(bets[k].0@, bets[bets.len() - 1].0@));
                }
            }
        } else {
            assert(cur == rest);
        }
    }
}

/// Registration injects exactly the deposit: the table total after an
/// accepted registration is the total before plus the new player's deposit.
pub proof fn lemma_register_adds_deposit(
    s: GameState,
    s1: GameState,
    ev: Seq<GameEvent>,
    caller: String,
    name: String,
    deposit: u64,
)
    requires
        register_err(s, caller, name, deposit) is None,
        crate::transition::register_ok(s, s1, ev, caller, name, deposit),
    ensures
        sum_coins(s1.players@) == sum_coins(s.players@) + deposit,
{
    assert(s1.players@.drop_last() =~= s.players@);
    assert(s1.players@.len() > 0);
    assert(sum_coins(s1.players@) == sum_coins(s1.players@.drop_last())
        + s1.players@.last().coins);
    assert(s1.players@.last().coins == deposit as i32);
}

/// Summing is pointwise: replacing one player changes the sum by the
/// difference of the balances.
pub proof fn lemma_sum_update(ps: Seq<Player>, j: int, p: Player)
    requires
        0 <= j < ps.len(),
    ensures
        sum_coins(ps.update(j, p)) == sum_coins(ps) - ps[j].coins + p.coins,
    decreases ps.len(),
{
    if j == ps.len() - 1 {
        assert(ps.update(j, p).drop_last() =~= ps.drop_last());
        assert(ps.update(j, p).last() == p);
    } else {
        assert(ps.update(j, p).drop_last() =~= ps.drop_last().update(j, p));
        assert(ps.update(j, p).last() == ps.last());
        lemma_sum_update(ps.drop_last(), j, p);
    }
}

/// A sum of nonnegative balances is nonnegative.
pub proof fn lemma_sum_nonneg(ps: Seq<Player>)
    requires
        coins_nonneg(ps),
    ensures
        sum_coins(ps) >= 0,
    decreases ps.len(),
{
    if ps.len() > 0 {
        assert(coins_nonneg(ps.drop_last())) by {
            assert(forall|i: int|
                0 <= i < ps.drop_last().len() ==> ps.drop_last()[i] == ps[i]);
        }
        lemma_sum_nonneg(ps.drop_last());
    }
}

/// No nonnegative balance exceeds the total.
pub proof fn lemma_coins_le_sum(ps: Seq<Player>, j: int)
    requires
        coins_nonneg(ps),
        0 <= j < ps.len(),
    ensures
        ps[j].coins <= sum_coins(ps),
    decreases ps.len(),
{
    assert(coins_nonneg(ps.drop_last())) by {
        assert(forall|i: int| 0 <= i < ps.drop_last().len() ==> ps.drop_last()[i] == ps[i]);
    }
    if j == ps.len() - 1 {
        lemma_sum_nonneg(ps.drop_last());
    } else {
        lemma_coins_le_sum(ps.drop_last(), j);
    }
}

/// What the missed-bet penalty removes from the table, player by player: the
/// whole balance in a zero-out round, else the fixed penalty clamped to the
/// balance.
pub open spec fn penalty_total(ps: Seq<Player>, bets: Seq<(String, u64)>, zero_out: bool) -> int
    decreases ps.len(),
{
    if ps.len() == 0 {
        0
    } else {
        penalty_total(ps.drop_last(), bets, zero_out) + {
            let p = ps.last();
            if p.coins > 0 && !bets_has(bets, p.id@) {
                if zero_out {
                    p.coins as int
                } else if p.coins >= 10 {
                    10int
                } else {
                    p.coins as int
                }
            } else {
                0int
            }
        }
    }
}

/// Penalties are conservative: the sum after the penalty is the sum before,
/// less exactly what the penalty removed — nothing else appears or vanishes,
/// and what is removed is never negative.
pub proof fn lemma_penalty_conserves(ps: Seq<Player>, bets: Seq<(String, u64)>, zero_out: bool)
    requires
        coins_nonneg(ps),
    ensures
        sum_coins(penalize(ps, bets, zero_out)) == sum_coins(ps) - penalty_total(
            ps,
            bets,
            zero_out,
        ),
        penalty_total(ps, bets, zero_out) >= 0,
    decreases ps.len(),
{
    if ps.len() == 0 {
        assert(penalize(ps, bets, zero_out) =~= Seq::<Player>::empty());
    } else {
        assert(coins_nonneg(ps.drop_last())) by {
            assert(forall|i: int|
                0 <= i < ps.drop_last().len() ==> ps.drop_last()[i] == ps[i]);
        }
        lemma_penalty_conserves(ps.drop_last(), bets, zero_out);
        assert(penalize(ps, bets, zero_out).drop_last() =~= penalize(
            ps.drop_last(),
            bets,
            zero_out,
        ));
        assert(penalize(ps, bets, zero_out).last() == penalize(ps, bets, zero_out)[ps.len() - 1]);
    }
}


/// Redistribution is conservative: paying every pending bet from its bettor
/// to a shuffled recipient moves coins around but creates and destroys none,
/// as long as the table total fits the balance range (so no clamping fires).
/// Identities and balances stay well formed throughout.
pub proof fn lemma_redistribution_conserves(
    ps: Seq<Player>,
    bets: Seq<(String, u64)>,
    order: Seq<usize>,
    k: int,
)
    requires
        0 <= k <= bets.len(),
        ids_unique(ps),
        coins_nonneg(ps),
        bet_keys_unique(bets),
        forall|q: int| 0 <= q < bets.len() ==> #[trigger] bet_backed(ps, bets, q),
        sum_coins(ps) <= i32::MAX,
        order.len() > 0,
        forall|q: int| 0 <= q < order.len() ==> (#[trigger] order[q]) < ps.len(),
    ensures
        ({
            let r = redist_players(ps, bets, order, k);
            &&& sum_coins(r) == sum_coins(ps)
            &&& r.len() == ps.len()
            &&& coins_nonneg(r)
            &&& forall|q: int| 0 <= q < r.len() ==> (#[trigger] r[q]).id == ps[q].id
            &&& forall|q: int|
                k <= q < bets.len() ==> bet_backed_at(r, bets, q, idx_of_id(ps, bets[q].0@))
        }),
    decreases k,
{
    if k == 0 {
        assert forall|q: int| 0 <= q < bets.len() implies bet_backed_at(
            ps,
            bets,
            q,
            idx_of_id(ps, bets[q].0@),
        ) by {
            assert(bet_backed(ps, bets, q));
            let w = choose|w: int| bet_backed_at(ps, bets, q, w);
            assert(bet_backed_at(ps, bets, q, w));
            lemma_idx_of_id(ps, bets[q].0@, w);
        }
    } else {
        lemma_redistribution_conserves(ps, bets, order, k - 1);
        let mid = redist_players(ps, bets, order, k - 1);
        let bet = bets[k - 1];
        let w = order[(k - 1) % (order.len() as int)] as int;
        let bi = idx_of_id(ps, bet.0@);
        assert(bet_backed_at(mid, bets, k - 1, bi));
        assert(ids_unique(mid)) by {
            assert(forall|x: int, y: int|
                0 <= x < y < mid.len() ==> mid[x].id@ != mid[y].id@);
        }
        lemma_idx_of_id(mid, bet.0@, bi);
        assert(idx_of_id(mid, bet.0@) == bi);
        let paid = Player {
            coins: crate::types::apply_delta(mid[bi].coins, -(bet.1 as int)),
            ..mid[bi]
        };
        let mid1 = mid.update(bi, paid);
        assert(mid[bi].coins >= bet.1);
        assert(paid.coins == mid[bi].coins - bet.1);
        lemma_sum_update(mid, bi, paid);
        assert(sum_coins(mid1) == sum_coins(ps) - bet.1);
        assert(coins_nonneg(mid1)) by {
            assert(forall|x: int| 0 <= x < mid1.len() && x != bi ==> mid1[x] == mid[x]);
        }
        lemma_coins_le_sum(mid1, w);
        assert(mid1[w].coins + bet.1 <= sum_coins(ps));
        let won = Player {
            coins: crate::types::apply_delta(mid1[w].coins, bet.1 as int),
            ..mid1[w]
        };
        assert(won.coins == mid1[w].coins + bet.1);
        let mid2 = mid1.update(w, won);
        lemma_sum_update(mid1, w, won);
        assert(sum_coins(mid2) == sum_coins(ps));
        assert(mid2 == apply_bet(mid, bet, w));
        assert(redist_players(ps, bets, order, k) == mid2);
        assert(coins_nonneg(mid2)) by {
            assert(forall|x: int| 0 <= x < mid2.len() && x != w ==> mid2[x] == mid1[x]);
        }
        assert forall|q: int| k <= q < bets.len() implies bet_backed_at(
            mid2,
            bets,
            q,
            idx_of_id(ps, bets[q].0@),
        ) by {
            let bq = idx_of_id(ps, bets[q].0@);
            assert(bet_backed_at(mid, bets, q, bq));
            assert(bets[q].0@ != bet.0@);
            assert(mid[bq].id@ == bets[q].0@ && mid[bi].id@ == bet.0@);
            assert(bq != bi);
            assert(mid1[bq].coins == mid[bq].coins);
            if bq == w {
                assert(mid2[bq].coins == mid1[bq].coins + bet.1);
            } else {
                assert(mid2[bq] == mid1[bq]);
            }
        }
    }
}


/// The active-position list is one entry per player holding coins, each a
/// valid position.
pub proof fn lemma_active_indices(ps: Seq<Player>)
    ensures
        active_indices(ps).len() == num_active(ps),
        forall|q: int|
            0 <= q < active_indices(ps).len() ==> (#[trigger] active_indices(ps)[q]) < ps.len(),
    decreases ps.len(),
{
    if ps.len() > 0 {
        lemma_active_indices(ps.drop_last());
    }
}

/// There are never more active players than players.
pub proof fn lemma_num_active_le_len(ps: Seq<Player>)
    ensures
        0 <= num_active(ps) <= ps.len(),
    decreases ps.len(),
{
    if ps.len() > 0 {
        lemma_num_active_le_len(ps.drop_last());
    }
}

/// A shuffle only rearranges: the length is kept and every entry stays below
/// any bound the input respected.
pub proof fn lemma_shuffled_bounds(v: Seq<usize>, s: u64, i: int, n: int)
    requires
        i < v.len(),
        v.len() <= u64::MAX,
        forall|q: int| 0 <= q < v.len() ==> (#[trigger] v[q]) < n,
    ensures
        shuffled(v, s, i).0.len() == v.len(),
        forall|q: int| 0 <= q < v.len() ==> (#[trigger] shuffled(v, s, i).0[q]) < n,
    decreases i,
{
    if i > 0 {
        reveal(draw);
        let s2 = crate::dice::next_state(s);
        let j = draw(s2, (i + 1) as u64) as int;
        assert(0 <= j <= i);
        let v2 = v.update(i, v[j]).update(j, v[i]);
        assert(forall|q: int| 0 <= q < v2.len() ==> (#[trigger] v2[q]) < n) by {
            assert(forall|q: int|
                0 <= q < v2.len() && q != i && q != j ==> v2[q] == v[q]);
        }
        assert(shuffle_step(v, s, i) == (v2, s2));
        lemma_shuffled_bounds(v2, s2, i - 1, n);
    }
}

/// Spinning the wheel conserves the coins on the table up to exactly the
/// penalty it charges: whatever the outcome — nothing, redistribution,
/// all-or-nothing, a minigame hand-over, or immediate settlement — no coin
/// appears or vanishes beyond the missed-bet penalty, as long as the table
/// total fits the balance range (so no clamp fires during redistribution).
pub proof fn lemma_spin_conserves_coins(
    pre: GameState,
    post: GameState,
    ev: Seq<GameEvent>,
    ts: u128,
)
    requires
        pre.wf(),
        pre.phase == GamePhase::Betting || pre.phase == GamePhase::WheelSpin,
        spin_ok(pre, post, ev, ts),
        sum_coins(pre.players@) <= i32::MAX,
    ensures
        sum_coins(post.players@) == sum_coins(pre.players@) - (if pre.phase == GamePhase::Betting {
            penalty_total(pre.players@, pre.bets@, pre.round == 0 || pre.all_or_nothing)
        } else {
            0
        }),
{
    let zero_out = pre.round == 0 || pre.all_or_nothing;
    let ps1 = spin_penalized(pre);
    let ptotal: int = if pre.phase == GamePhase::Betting {
        penalty_total(pre.players@, pre.bets@, zero_out)
    } else {
        0
    };
    if pre.phase == GamePhase::Betting {
        lemma_penalty_conserves(pre.players@, pre.bets@, zero_out);
    }
    assert(sum_coins(ps1) == sum_coins(pre.players@) - ptotal);
    assert(ptotal >= 0);
    assert(coins_nonneg(ps1)) by {
        assert forall|j: int| 0 <= j < ps1.len() implies ps1[j].coins >= 0 by {
            if pre.phase == GamePhase::Betting {
                assert(ps1[j] == penalize(pre.players@, pre.bets@, zero_out)[j]);
            }
        }
    }
    assert forall|j: int| 0 <= j < ps1.len() implies (#[trigger] ps1[j]).id
        == pre.players@[j].id by {
        if pre.phase == GamePhase::Betting {
            assert(ps1[j] == penalize(pre.players@, pre.bets@, zero_out)[j]);
        }
    }
    let n = num_active(ps1);
    if n == 1 && ps1.len() > 1 {
    } else if n == 0 {
    } else {
        let outcome = pre.dice.roll_of() % 5;
        if outcome == 1 {
            let idxs = active_indices(ps1);
            lemma_active_indices(ps1);
            lemma_num_active_le_len(ps1);
            assert(idxs.len() == n);
            assert(pre.players@.len() == pre.players.len());
            assert(ps1.len() <= u64::MAX);
            assert(idxs.len() <= u64::MAX);
            let d2s = crate::dice::next_state(pre.dice.state);
            lemma_shuffled_bounds(idxs, d2s, idxs.len() - 1, ps1.len() as int);
            let order = shuffled(idxs, d2s, idxs.len() - 1).0;
            assert(ids_unique(ps1)) by {
                assert(forall|x: int, y: int|
                    0 <= x < y < ps1.len() ==> ps1[x].id@ != ps1[y].id@);
            }
            assert(bets_backed(ps1, pre.bets@)) by {
                assert forall|q: int| 0 <= q < pre.bets@.len() implies #[trigger] bet_backed(
                    ps1,
                    pre.bets@,
                    q,
                ) by {
                    assert(bet_backed(pre.players@, pre.bets@, q));
                    let w = choose|w: int| bet_backed_at(pre.players@, pre.bets@, q, w);
                    assert(bet_backed_at(pre.players@, pre.bets@, q, w));
                    assert(bets_has(pre.bets@, pre.bets@[q].0@));
                    if pre.phase == GamePhase::Betting {
                        assert(ps1[w] == penalize(pre.players@, pre.bets@, zero_out)[w]);
                    }
                    assert(ps1[w].coins == pre.players@[w].coins);
                    assert(bet_backed_at(ps1, pre.bets@, q, w));
                }
            }
            lemma_redistribution_conserves(ps1, pre.bets@, order, pre.bets@.len() as int);
        }
    }
}


/// What a minigame result effectively moves on the table: each entry's
/// requested delta as it lands after clamping, applied in order against the
/// balances as they then stand.
pub open spec fn results_delta(ps: Seq<Player>, rs: Seq<PlayerMinigameResult>) -> int
    decreases rs.len(),
{
    if rs.len() == 0 {
        0
    } else {
        let ps1 = apply_results(ps, rs.drop_last());
        let r = rs.last();
        results_delta(ps, rs.drop_last()) + if r.coins_delta != 0 {
            let j = idx_of_id(ps1, r.player_id@);
            apply_delta(ps1[j].coins, r.coins_delta as int) - ps1[j].coins
        } else {
            0
        }
    }
}

/// Ending a minigame is conservative: the sum of balances changes by exactly
/// the effective deltas the external result carried — coins appear or vanish
/// only where the result says so (and clamping cuts a delta short).
/// Identities are untouched.
pub proof fn lemma_minigame_deltas_conserve(ps: Seq<Player>, rs: Seq<PlayerMinigameResult>)
    requires
        forall|k: int| 0 <= k < rs.len() ==> has_id(ps, (#[trigger] rs[k]).player_id@),
    ensures
        apply_results(ps, rs).len() == ps.len(),
        forall|q: int|
            0 <= q < ps.len() ==> (#[trigger] apply_results(ps, rs)[q]).id == ps[q].id,
        sum_coins(apply_results(ps, rs)) == sum_coins(ps) + results_delta(ps, rs),
    decreases rs.len(),
{
    if rs.len() > 0 {
        assert(forall|k: int|
            0 <= k < rs.drop_last().len() ==> rs.drop_last()[k] == rs[k]);
        lemma_minigame_deltas_conserve(ps, rs.drop_last());
        let ps1 = apply_results(ps, rs.drop_last());
        let r = rs.last();
        if r.coins_delta != 0 {
            assert(has_id(ps, r.player_id@));
            let w = choose|w: int| 0 <= w < ps.len() && ps[w].id@ == r.player_id@;
            assert(ps1[w].id == ps[w].id);
            assert(has_id(ps1, r.player_id@));
            let j = idx_of_id(ps1, r.player_id@);
            assert(0 <= j < ps1.len() && ps1[j].id@ == r.player_id@);
            lemma_sum_update(
                ps1,
                j,
                Player { coins: apply_delta(ps1[j].coins, r.coins_delta as int), ..ps1[j] },
            );
        }
    }
}

} // verus!
