//! Deterministic pseudo-random engine: a 64-bit linear congruential generator
//! producing bounded rolls and in-place Fisher–Yates shuffles. Every draw is a
//! pure function of the stored state, so re-execution from a serialized state
//! reproduces the identical stream.
use vstd::prelude::*;

verus! {

/// Multiplier of the linear congruential step (Knuth's MMIX constants).
pub const MULTIPLIER: u64 = 6364136223846793005;
/// Increment of the linear congruential step.
pub const INCREMENT: u64 = 1442695040888963407;

/// Seeded deterministic generator. `seed` keeps the value the generator was
/// created from (so a game reset can re-seed identically); `state` evolves
/// with every draw.
#[derive(Debug, Clone, Copy, PartialEq, Eq)]
pub struct Dice {
    pub min: u8,
    pub max: u8,
    pub seed: u64,
    pub state: u64,
}

/// One linear congruential step of the generator state.
#[verifier::opaque]
pub open spec fn next_state(s: u64) -> u64 {
    s.wrapping_mul(MULTIPLIER).wrapping_add(INCREMENT)
}

/// The bounded draw taken from a generator state: high bits reduced modulo `bound`.
#[verifier::opaque]
pub open spec fn draw(s: u64, bound: u64) -> u64
    recommends
        bound > 0,
{
    (s >> 33) % bound
}

impl Dice {
    /// The generator is well formed when its range is non-empty.
    pub open spec fn inv(self) -> bool {
        self.min <= self.max
    }

    /// The value a fresh generator holds for a given range and seed.
    pub open spec fn spec_new(min: u8, max: u8, seed: u64) -> Dice {
        Dice { min, max, seed, state: seed }
    }

    /// Width of the inclusive range `[min, max]`.
    pub open spec fn span(self) -> u64 {
        (self.max - self.min + 1) as u64
    }

    /// The value the next `roll` returns, as a function of the current state.
    pub open spec fn roll_of(self) -> int {
        self.min + draw(next_state(self.state), self.span())
    }

    /// Advances the state once and draws a value below `bound` from it.
    fn step_draw(&mut self, bound: u64) -> (r: u64)
        requires
            bound > 0,
        ensures
            *final(self) == (Dice { state: next_state(old(self).state), ..*old(self) }),
            r == draw(final(self).state, bound),
            r < bound,
    {
        let ns = self.state.wrapping_mul(MULTIPLIER).wrapping_add(INCREMENT);
        self.state = ns;
        proof {
            reveal(next_state);
            reveal(draw);
        }
        (ns >> 33) % bound
    }

    pub fn new(min: u8, max: u8, seed: u64) -> (r: Dice)
        requires
            min <= max,
        ensures
            r == Dice::spec_new(min, max, seed),
            r.inv(),
    {
        Dice { min, max, seed, state: seed }
    }

    /// Advances the state once and returns a value in `[min, max]`.
    pub fn roll(&mut self) -> (r: u8)
        requires
            old(self).inv(),
        ensures
            *final(self) == (Dice { state: next_state(old(self).state), ..*old(self) }),
            r as int == old(self).roll_of(),
            old(self).min <= r <= old(self).max,
            final(self).inv(),
    {
        let bound: u64 = (self.max - self.min) as u64 + 1;
        let off = self.step_draw(bound);
        self.min + (off as u8)
    }
}

/// One Fisher–Yates step at position `i`: advance the state, pick `j <= i`,
/// swap the elements at `i` and `j`.
pub open spec fn shuffle_step(v: Seq<usize>, s: u64, i: int) -> (Seq<usize>, u64)
    recommends
        0 < i < v.len(),
{
    let s2 = next_state(s);
    let j = draw(s2, (i + 1) as u64) as int;
    (v.update(i, v[j]).update(j, v[i]), s2)
}

/// Fisher–Yates from position `i` down to 1, as a function of the sequence and
/// the generator state.
pub open spec fn shuffled(v: Seq<usize>, s: u64, i: int) -> (Seq<usize>, u64)
    decreases i,
{
    if i <= 0 {
        (v, s)
    } else {
        let (v2, s2) = shuffle_step(v, s, i);
        shuffled(v2, s2, i - 1)
    }
}

impl Dice {
    /// Deterministic in-place Fisher–Yates permutation consuming the same stream.
    #[verifier::rlimit(100)]
    pub fn shuffle(&mut self, v: &mut Vec<usize>)
        requires
            old(self).inv(),
        ensures
            ({
                let (rv, rs) = shuffled(old(v)@, old(self).state, old(v)@.len() - 1);
                final(v)@ == rv && final(self).state == rs
            }),
            *final(self) == (Dice { state: final(self).state, ..*old(self) }),
            final(v)@.len() == old(v)@.len(),
            forall|k: int| 0 <= k < final(v)@.len() ==> old(v)@.contains(#[trigger] final(v)@[k]),
            final(self).inv(),
    {
        let len = v.len();
        if len == 0 {
            return ;
        }
        let mut i: usize = len - 1;
        while i > 0
            invariant
                i < usize::MAX,
                i < v@.len(),
                v@.len() == old(v)@.len(),
                self.min == old(self).min,
                self.max == old(self).max,
                self.seed == old(self).seed,
                shuffled(old(v)@, old(self).state, old(v)@.len() - 1) == shuffled(
                    v@,
                    self.state,
                    i as int,
                ),
                forall|k: int| 0 <= k < v@.len() ==> old(v)@.contains(#[trigger] v@[k]),
            decreases i,
        {
            let ghost pre_v = v@;
            let ghost pre_s = self.state;
            let bound: u64 = (i as u64) + 1;
            let j64: u64 = self.step_draw(bound);
            let ghost ns = self.state;
            let j: usize = j64 as usize;
            let vi = v[i];
            let vj = v[j];
            v.set(i, vj);
            v.set(j, vi);
            proof {
                let ii = i as int;
                let jj = j as int;
                assert(v@ == pre_v.update(ii, pre_v[jj]).update(jj, pre_v[ii]));
                assert(shuffle_step(pre_v, pre_s, ii) == (v@, ns));
                assert(shuffled(pre_v, pre_s, ii) == shuffled(v@, ns, ii - 1));
                assert(forall|k: int|
                    0 <= k < v@.len() ==> old(v)@.contains(#[trigger] v@[k])) by {
                    assert forall|k: int| 0 <= k < v@.len() implies old(v)@.contains(
                        #[trigger] v@[k],
                    ) by {
                        if k == i as int {
                            assert(v@[k] == pre_v[j as int]);
                        } else if k == j as int {
                            assert(v@[k] == pre_v[i as int]);
                        } else {
                            assert(v@[k] == pre_v[k]);
                        }
                    }
                }
            }
            i = i - 1;
        }
    }
}

} // verus!
