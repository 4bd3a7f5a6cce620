//! A seedable, deterministic pseudo-random source.
//!
//! Wall draws and start/end selection are driven by an explicit, seedable
//! generator owned by the world, so that map generation and the
//! retry-on-unsolvable-map behavior are reproducible. The generator is a
//! 64-bit linear congruential generator; every draw is fully pinned down by
//! the seed, which is what makes the generation contracts exact.

use vstd::prelude::*;

verus! {

/// Multiplier of the linear congruential step.
pub const LCG_MUL: u64 = 6364136223846793005;

/// Increment of the linear congruential step.
pub const LCG_INC: u64 = 1442695040888963407;

/// One step of the generator: `state * LCG_MUL + LCG_INC`, modulo 2^64.
/// Opaque: callers reason about generator states only through the contracts
/// of the drawing methods, never through this arithmetic.
#[verifier::opaque]
pub open spec fn lcg_next(s: u64) -> u64 {
    (((s as int) * (LCG_MUL as int) + (LCG_INC as int)) % 0x1_0000_0000_0000_0000) as u64
}

/// The state after `n` steps from `s`.
pub open spec fn lcg_nth(s: u64, n: nat) -> u64
    decreases n,
{
    if n == 0 {
        s
    } else {
        lcg_next(lcg_nth(s, (n - 1) as nat))
    }
}

/// The value a draw below `bound` yields from state `s`: the next state's
/// upper bits reduced modulo `bound`.
pub open spec fn lcg_below(s: u64, bound: u64) -> u64 {
    ((lcg_next(s) as int / 0x1_0000) % (bound as int)) as u64
}

/// The value a draw in `min..=max` yields from state `s`.
pub open spec fn lcg_range(s: u64, min: int, max: int) -> int {
    min + lcg_below(s, ((max - min + 1) as u64)) as int
}

/// A seedable linear congruential pseudo-random generator.
pub struct Lcg {
    pub state: u64,
}

impl Lcg {
    pub fn new(seed: u64) -> (r: Lcg)
        ensures
            r.state == seed,
    {
        Lcg { state: seed }
    }

    /// Advance the generator one step.
    fn next(&mut self) -> (r: u64)
        ensures
            final(self).state == lcg_next(old(self).state),
            r == lcg_next(old(self).state),
    {
        let s128: u128 = self.state as u128;
        proof {
            reveal(lcg_next);
            assert(s128 * (LCG_MUL as u128) <= 0xFFFF_FFFF_FFFF_FFFFu128 * (LCG_MUL as u128))
                by (nonlinear_arith)
                requires
                    s128 <= 0xFFFF_FFFF_FFFF_FFFFu128,
            ;
        }
        let wide: u128 = s128 * (LCG_MUL as u128) + (LCG_INC as u128);
        let next: u64 = (wide % 0x1_0000_0000_0000_0000u128) as u64;
        self.state = next;
        next
    }

    /// Draw a value in `0..bound`.
    pub fn next_below(&mut self, bound: u64) -> (r: u64)
        requires
            1 <= bound,
        ensures
            final(self).state == lcg_next(old(self).state),
            r == lcg_below(old(self).state, bound),
            r < bound,
    {
        let s = self.next();
        (s / 0x1_0000) % bound
    }

    /// Draw a value in `min..=max`, inclusive on both ends.
    pub fn random_range(&mut self, min: i32, max: i32) -> (r: i32)
        requires
            min <= max,
        ensures
            final(self).state == lcg_next(old(self).state),
            r == lcg_range(old(self).state, min as int, max as int),
            min <= r <= max,
    {
        let span: u64 = (max as i64 - min as i64 + 1) as u64;
        let below: u64 = self.next_below(span);
        (min as i64 + below as i64) as i32
    }
}

/// Unfolding step for `lcg_nth` from the left: one more draw extends the
/// iterated state by one application of `lcg_next`.
pub proof fn lemma_lcg_nth_step(s: u64, n: nat)
    ensures
        lcg_nth(s, n + 1) == lcg_next(lcg_nth(s, n)),
{
}

/// Iterating the generator `a` steps and then `b` more is iterating it
/// `a + b` steps.
pub proof fn lemma_lcg_nth_add(s: u64, a: nat, b: nat)
    ensures
        lcg_nth(lcg_nth(s, a), b) == lcg_nth(s, a + b),
    decreases b,
{
    if b > 0 {
        lemma_lcg_nth_add(s, a, (b - 1) as nat);
    }
}

} // verus!
