//! The injected source of randomness for tie-breaks and probabilistic
//! ignition: a small deterministic xorshift generator, so that a fixed seed
//! reproduces a simulation bit for bit. A fresh seed can be drawn from the
//! process-wide generator of the `rand` crate.

use vstd::prelude::*;

verus! {

/// The state a zero seed is replaced with, so the generator never sits in
/// the xorshift fixed point at zero.
pub const FALLBACK_SEED: u64 = 0x9e3779b97f4a7c15;

/// One xorshift step of the generator state.
pub open spec fn spec_next_state(s: u64) -> u64 {
    let a = s ^ (s << 13u64);
    let b = a ^ (a >> 7u64);
    b ^ (b << 17u64)
}

/// The value one step hands out: the next state scrambled by an odd
/// multiplier, so that even a small seed's first draws use every bit.
pub open spec fn spec_output(s: u64) -> u64 {
    (((spec_next_state(s) as int) * 0x2545f4914f6cdd1d) % 0x10000000000000000) as u64
}

/// The coin toss drawn by one step: the top bit of the step's output.
pub open spec fn spec_coin(s: u64) -> bool {
    (spec_output(s) >> 63u64) == 1u64
}

/// The bounded draw taken from one step.
pub open spec fn spec_below(s: u64, n: u64) -> u64 {
    spec_output(s) % n
}

/// The once-in-`n` event drawn by one step.
pub open spec fn spec_one_in(s: u64, n: u64) -> bool {
    spec_below(s, n) == 0
}

/// Relies on rand::random: draws one machine word from the thread-local
/// generator; nothing is promised of the value.
#[verifier::external_body]
fn system_seed() -> u64 {
    rand::random::<u64>()
}

/// A deterministic xorshift pseudo-random generator. Every draw advances
/// `state` by exactly one `spec_next_state` step, so the whole stream is a
/// function of the seed.
pub struct Prng {
    pub state: u64,
}

impl Prng {
    /// A generator at the given seed; a zero seed is replaced by
    /// `FALLBACK_SEED`, since zero is a fixed point of xorshift.
    pub fn from_seed(seed: u64) -> (r: Prng)
        ensures
            r.state == if seed == 0 { FALLBACK_SEED } else { seed },
            r.state != 0,
    {
        if seed == 0 {
            Prng { state: FALLBACK_SEED }
        } else {
            Prng { state: seed }
        }
    }

    /// A generator seeded from the process-wide source of the `rand` crate.
    pub fn from_entropy() -> (r: Prng)
        ensures
            r.state != 0,
    {
        let seed = system_seed();
        Prng::from_seed(seed)
    }

    /// Advances the generator one step and hands out the step's output.
    fn next(&mut self) -> (r: u64)
        ensures
            final(self).state == spec_next_state(old(self).state),
            r == spec_output(old(self).state),
    {
        let a = self.state ^ (self.state << 13u64);
        let b = a ^ (a >> 7u64);
        self.state = b ^ (b << 17u64);
        let prod: u128 = (self.state as u128) * 0x2545f4914f6cdd1du128;
        (prod % 0x10000000000000000u128) as u64
    }

    /// Draws a coin toss.
    pub fn coin(&mut self) -> (r: bool)
        ensures
            final(self).state == spec_next_state(old(self).state),
            r == spec_coin(old(self).state),
    {
        let v = self.next();
        (v >> 63u64) == 1
    }

    /// Draws a value below `n`.
    pub fn below(&mut self, n: u64) -> (r: u64)
        requires
            1 <= n,
        ensures
            final(self).state == spec_next_state(old(self).state),
            r == spec_below(old(self).state, n),
            r < n,
    {
        let v = self.next();
        v % n
    }

    /// Draws a once-in-`n` event: true with one chance in `n`.
    pub fn one_in(&mut self, n: u64) -> (r: bool)
        requires
            1 <= n,
        ensures
            final(self).state == spec_next_state(old(self).state),
            r == spec_one_in(old(self).state, n),
    {
        let v = self.below(n);
        v == 0
    }
}

} // verus!
