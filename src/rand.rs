//! Seeded random streams. Each node draws from a stream of its own, seeded
//! from the simulation's seed and the node's identity, so what a node draws
//! depends on nothing that other nodes do.
use vstd::prelude::*;

verus! {

/// The step by which the generator's state advances on each draw.
pub const GAMMA: u64 = 0x9E37_79B9_7F4A_7C15;

const MIX1: u64 = 0xBF58_476D_1CE4_E5B9;

const MIX2: u64 = 0x94D0_49BB_1331_11EB;

/// `x + y` modulo 2^64.
pub open spec fn add_mod(x: u64, y: u64) -> u64 {
    if x + y > u64::MAX {
        (x + y - 0x1_0000_0000_0000_0000) as u64
    } else {
        (x + y) as u64
    }
}

/// `x * y` modulo 2^64.
pub open spec fn mul_mod(x: u64, y: u64) -> u64 {
    ((x as nat * y as nat) % 0x1_0000_0000_0000_0000) as u64
}

/// The value drawn when the state has just become `s`.
pub open spec fn mix(s: u64) -> u64 {
    let z1 = mul_mod(s ^ (s >> 30u64), 0xBF58_476D_1CE4_E5B9);
    let z2 = mul_mod(z1 ^ (z1 >> 27u64), 0x94D0_49BB_1331_11EB);
    z2 ^ (z2 >> 31u64)
}

/// The state after `k` draws from the initial state `s0`.
pub open spec fn state_after(s0: u64, k: nat) -> u64
    decreases k,
{
    if k == 0 {
        s0
    } else {
        add_mod(state_after(s0, (k - 1) as nat), GAMMA)
    }
}

/// The `k`-th value (counting from zero) of the stream that starts at `s0`.
pub open spec fn draw(s0: u64, k: nat) -> u64 {
    mix(state_after(s0, k + 1))
}

/// The initial state of the stream of node `node` under the seed `seed`.
pub open spec fn node_seed(seed: u64, node: u64) -> u64 {
    seed ^ node
}

/// Scrambles `s` into a well-spread 64-bit value.
pub fn mix64(s: u64) -> (r: u64)
    ensures
        r == mix(s),
{
    let z1 = (s ^ (s >> 30u64)).wrapping_mul(MIX1);
    let z2 = (z1 ^ (z1 >> 27u64)).wrapping_mul(MIX2);
    z2 ^ (z2 >> 31u64)
}

/// A reproducible stream of 64-bit values.
#[derive(Clone, Copy, Debug)]
pub struct Rng {
    pub state: u64,
}

impl Rng {
    /// The stream of node `node` under the simulation seed `seed`.
    pub fn new(seed: u64, node: u64) -> (r: Rng)
        ensures
            r.state == node_seed(seed, node),
    {
        Rng { state: seed ^ node }
    }

    /// The next value of the stream.
    pub fn next_u64(&mut self) -> (r: u64)
        ensures
            final(self).state == add_mod(old(self).state, GAMMA),
            r == mix(final(self).state),
    {
        self.state = self.state.wrapping_add(GAMMA);
        mix64(self.state)
    }

    /// The high half of the next value of the stream.
    pub fn next_u32(&mut self) -> (r: u32)
        ensures
            final(self).state == add_mod(old(self).state, GAMMA),
            r == (mix(final(self).state) >> 32u64) as u32,
    {
        let v = self.next_u64();
        (v >> 32u64) as u32
    }

    /// A value below `n`: the next value of the stream modulo `n`.
    pub fn next_below(&mut self, n: u64) -> (r: u64)
        requires
            n > 0,
        ensures
            final(self).state == add_mod(old(self).state, GAMMA),
            r == mix(final(self).state) % n,
            r < n,
    {
        let v = self.next_u64();
        v % n
    }
}

} // verus!
