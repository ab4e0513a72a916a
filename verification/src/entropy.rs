//! Deterministic pseudo-random source for gameplay decisions.
//!
//! The simulation never reads a clock or the machine: every random choice
//! (storm shapes, plant branching, powerup selection) is drawn from this
//! stream, which the embedding seeds once per session.  The generator is
//! the splitmix64 mixer; nothing is claimed about its distribution, only
//! that each draw is a pure function of the state, so every run from the
//! same seed makes the same decisions.

use vstd::prelude::*;

verus! {

pub const GOLDEN_GAMMA: u64 = 0x9E3779B97F4A7C15;
pub const MIX_A: u64 = 0xBF58476D1CE4E5B9;
pub const MIX_B: u64 = 0x94D049BB133111EB;

/// One splitmix64 state advance.
pub open spec fn spec_advance(state: u64) -> u64 {
    vstd::wrapping::u64_specs::wrapping_add(state, GOLDEN_GAMMA)
}

/// The splitmix64 output mix of a state value.
pub open spec fn spec_mix(z0: u64) -> u64 {
    let z1 = vstd::wrapping::u64_specs::wrapping_mul(z0 ^ (z0 >> 30), MIX_A);
    let z2 = vstd::wrapping::u64_specs::wrapping_mul(z1 ^ (z1 >> 27), MIX_B);
    z2 ^ (z2 >> 31)
}

/// The value the stream hands out when its state is `state`.
pub open spec fn spec_draw(state: u64) -> u64 {
    spec_mix(spec_advance(state))
}

/// The gameplay random stream: a single `u64` state seeded by the caller.
pub struct Entropy {
    pub state: u64,
}

impl Entropy {
    pub fn new(seed: u64) -> (r: Entropy)
        ensures
            r.state == seed,
    {
        Entropy { state: seed }
    }

    /// Draw the next value and advance the state.
    pub fn next_u64(&mut self) -> (r: u64)
        ensures
            final(self).state == spec_advance(old(self).state),
            r == spec_draw(old(self).state),
    {
        let s = self.state.wrapping_add(GOLDEN_GAMMA);
        self.state = s;
        let z1 = (s ^ (s >> 30)).wrapping_mul(MIX_A);
        let z2 = (z1 ^ (z1 >> 27)).wrapping_mul(MIX_B);
        z2 ^ (z2 >> 31)
    }

    /// Draw a value in `lo..hi`; when the range is empty the low bound
    /// itself comes back.
    pub fn next_in_range(&mut self, lo: u64, hi: u64) -> (r: u64)
        ensures
            final(self).state == spec_advance(old(self).state),
            lo < hi ==> lo <= r < hi,
            lo >= hi ==> r == lo,
            lo < hi ==> r == lo + spec_draw(old(self).state) % ((hi - lo) as u64),
    {
        let d = self.next_u64();
        if lo < hi {
            lo + d % (hi - lo)
        } else {
            lo
        }
    }

    /// A draw read as a coin with `num` in a thousand odds of `true`.
    pub fn chance_in_thousand(&mut self, num: u64) -> (r: bool)
        ensures
            final(self).state == spec_advance(old(self).state),
            r == (spec_draw(old(self).state) % 1000 < num),
    {
        let d = self.next_u64();
        d % 1000 < num
    }
}

} // verus!
