//! A small deterministic pseudo-random generator (the SplitMix64 stream),
//! used to draw the initial biases and weights. The caller supplies the
//! seed, so construction is reproducible; every draw is specified exactly.

use vstd::prelude::*;
use crate::fp;

verus! {

/// The SplitMix64 state step: addition of the golden-ratio increment,
/// modulo 2^64.
pub open spec fn sm_step(s: u64) -> u64 {
    ((s + 0x9E37_79B9_7F4A_7C15) % 0x1_0000_0000_0000_0000) as u64
}

/// The SplitMix64 output mix of a state.
pub open spec fn sm_mix(s: u64) -> u64 {
    let z0 = (((s ^ (s >> 30)) * 0xBF58_476D_1CE4_E5B9) % 0x1_0000_0000_0000_0000) as u64;
    let z1 = (((z0 ^ (z0 >> 27)) * 0x94D0_49BB_1331_11EB) % 0x1_0000_0000_0000_0000) as u64;
    z1 ^ (z1 >> 31)
}

/// The state after `k` steps from `s0`.
pub open spec fn sm_state_at(s0: u64, k: nat) -> u64
    decreases k,
{
    if k == 0 {
        s0
    } else {
        sm_step(sm_state_at(s0, (k - 1) as nat))
    }
}

/// A raw 64-bit word is turned into a binary32 value in [-1, 1): the top 23
/// bits become the significand of a value in [2, 4), and 3.0 is subtracted.
/// Both steps are exact.
pub open spec fn unit_of(z: u64) -> u32 {
    fp::sub_bits_of(0x4000_0000 | ((z >> 41) as u32), fp::THREE_BITS)
}

/// The `k`-th value (0-based) of the [-1, 1) stream seeded with `s0`.
pub open spec fn unit_at(s0: u64, k: nat) -> u32 {
    unit_of(sm_mix(sm_state_at(s0, k + 1)))
}

/// The generator; one value of the stream is drawn per call of
/// `next_unit`.
#[derive(Debug)]
pub struct Rng {
    pub state: u64,
}

impl Rng {
    pub fn new(seed: u64) -> (r: Rng)
        ensures
            r.state == seed,
    {
        Rng { state: seed }
    }

    /// Draws the next binary32 value in [-1, 1) of the stream.
    pub fn next_unit(&mut self) -> (r: u32)
        ensures
            final(self).state == sm_step(old(self).state),
            r == unit_of(sm_mix(final(self).state)),
    {
        let s: u64 = (((self.state as u128) + 0x9E37_79B9_7F4A_7C15u128)
            % 0x1_0000_0000_0000_0000u128) as u64;
        self.state = s;
        let z0: u64 = (((s ^ (s >> 30)) as u128 * 0xBF58_476D_1CE4_E5B9u128)
            % 0x1_0000_0000_0000_0000u128) as u64;
        let z1: u64 = (((z0 ^ (z0 >> 27)) as u128 * 0x94D0_49BB_1331_11EBu128)
            % 0x1_0000_0000_0000_0000u128) as u64;
        let z2: u64 = z1 ^ (z1 >> 31);
        let top: u32 = (z2 >> 41) as u32;
        fp::sub_bits(0x4000_0000 | top, fp::THREE_BITS)
    }
}

/// Advancing one more step extends the stream by its next value.
pub proof fn lemma_sm_state_unfold(s0: u64, k: nat)
    ensures
        sm_state_at(s0, k + 1) == sm_step(sm_state_at(s0, k)),
    decreases k,
{
    if k > 0 {
        lemma_sm_state_unfold(s0, (k - 1) as nat);
    }
}

} // verus!
