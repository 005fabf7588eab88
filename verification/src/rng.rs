//! The injected random source.
//!
//! Strategies never reach for a hidden global generator: they all draw from
//! an explicitly passed `Rng`.  A seeded `Rng` is a deterministic linear
//! congruential generator, which makes every randomized strategy replayable
//! in tests; `from_entropy` seeds one from the process random source.

use vstd::prelude::*;

verus! {

/// Multiplier of the linear congruential step.
pub const LCG_MUL: u64 = 6364136223846793005;
/// Increment of the linear congruential step.
pub const LCG_INC: u64 = 1442695040888963407;

/// A deterministic pseudo-random generator with an explicit seed.
pub struct Rng {
    pub state: u64,
}

impl Rng {
    /// A generator that will replay the same draws for the same seed.
    pub fn new(seed: u64) -> (r: Rng)
        ensures
            r.state == seed,
    {
        Rng { state: seed }
    }

    /// A generator seeded from the process random source.
    pub fn from_entropy() -> (r: Rng) {
        Rng { state: entropy_seed() }
    }

    /// Advances the generator and returns the next raw draw.
    pub fn next_u64(&mut self) -> (r: u64) {
        self.state = self.state.wrapping_mul(LCG_MUL).wrapping_add(LCG_INC);
        self.state ^ (self.state >> 29)
    }

    /// A draw over `0..n`, taken from the next raw draw by remainder (the
    /// residual modulo bias is negligible for the small ranges used here).
    pub fn below(&mut self, n: usize) -> (r: usize)
        requires
            n > 0,
        ensures
            r < n,
    {
        let x = self.next_u64();
        let m = x % (n as u64);
        proof {
            assert(m < n as u64);
        }
        m as usize
    }

    /// A draw over `0..n`, taken from the next raw draw by remainder.
    pub fn below_u64(&mut self, n: u64) -> (r: u64)
        requires
            n > 0,
        ensures
            r < n,
    {
        let x = self.next_u64();
        x % n
    }

    /// A draw over `lo..=hi`.
    pub fn range_u64(&mut self, lo: u64, hi: u64) -> (r: u64)
        requires
            lo <= hi,
            hi < u64::MAX,
        ensures
            lo <= r <= hi,
    {
        let width = hi - lo + 1;
        let d = self.below_u64(width);
        lo + d
    }

    /// A draw over `0..1000`, used against permille thresholds.
    pub fn permille(&mut self) -> (r: u32)
        ensures
            r < 1000,
    {
        let d = self.below_u64(1000);
        d as u32
    }
}

/// Shuffles the elements in place, preserving them as a multiset.
pub fn shuffle_vec(rng: &mut Rng, v: &mut Vec<usize>)
    ensures
        final(v)@.to_multiset() == old(v)@.to_multiset(),
        final(v)@.len() == old(v)@.len(),
{
    if v.len() <= 1 {
        return ;
    }
    let len = v.len();
    let mut k: usize = len - 1;
    while k > 0
        invariant
            k < len,
            len == v@.len(),
            v@.to_multiset() == old(v)@.to_multiset(),
        decreases k,
    {
        let j = rng.below(k + 1);
        if j != k {
            let ghost s = v@;
            let a = v[j];
            let b = v[k];
            v.set(j, b);
            v.set(k, a);
            proof {
                crate::model::lemma_swap_multiset(s, j as int, k as int);
                assert(v@ =~= s.update(j as int, s[k as int]).update(k as int, s[j as int]));
            }
        }
        k -= 1;
    }
    proof {
        vstd::seq_lib::to_multiset_len(v@);
        vstd::seq_lib::to_multiset_len(old(v)@);
    }
}

/// Relies on `rand::random::<u64>`: a fresh value from the thread-local
/// generator, used only to seed the engine's own generator.  Nothing can be
/// promised of a random value.
#[verifier::external_body]
fn entropy_seed() -> u64 {
    rand::random::<u64>()
}

} // verus!
