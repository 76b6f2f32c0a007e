use vstd::prelude::*;

verus! {

/// Increment of the generator's state on each draw.
pub const GOLDEN_GAMMA: u64 = 0x9E37_79B9_7F4A_7C15;

/// The state that follows `s`.
pub open spec fn next_state(s: u64) -> u64 {
    ((s as int + GOLDEN_GAMMA as int) % 0x1_0000_0000_0000_0000) as u64
}

/// Product of two words, reduced modulo 2^64.
pub open spec fn mul64(a: u64, b: u64) -> u64 {
    ((a as int * b as int) % 0x1_0000_0000_0000_0000) as u64
}

/// The output word drawn from state `s` (a SplitMix64 finaliser).
pub open spec fn mix(s: u64) -> u64 {
    let z1 = mul64(s ^ (s >> 30u64), 0xBF58_476D_1CE4_E5B9);
    let z2 = mul64(z1 ^ (z1 >> 27u64), 0x94D0_49BB_1331_11EB);
    z2 ^ (z2 >> 31u64)
}

/// The face shown by a die with `sides` faces drawn at state `s` (which then
/// advances to `next_state(s)`).
pub open spec fn face(s: u64, sides: u32) -> u32
    recommends
        sides >= 1,
{
    (mix(next_state(s)) % (sides as u64) + 1) as u32
}

/// Every face lies in `1..=sides`.
pub proof fn lemma_face_bounds(s: u64, sides: u32)
    requires
        sides >= 1,
    ensures
        1 <= face(s, sides) <= sides,
{
    let m = mix(next_state(s));
    assert(m % (sides as u64) < sides as u64);
}

/// A small deterministic source of dice rolls, seeded by its caller.
pub struct DiceRng {
    pub state: u64,
}

impl DiceRng {
    pub fn new(seed: u64) -> (r: DiceRng)
        ensures
            r.state == seed,
    {
        DiceRng { state: seed }
    }

    /// Draws one face of a die with `sides` faces, in `1..=sides`.
    pub fn roll(&mut self, sides: u32) -> (r: u32)
        requires
            sides >= 1,
        ensures
            final(self).state == next_state(old(self).state),
            r == face(old(self).state, sides),
            1 <= r <= sides,
    {
        let s = self.state.wrapping_add(GOLDEN_GAMMA);
        self.state = s;
        let z1 = (s ^ (s >> 30u64)).wrapping_mul(0xBF58_476D_1CE4_E5B9);
        let z2 = (z1 ^ (z1 >> 27u64)).wrapping_mul(0x94D0_49BB_1331_11EB);
        let z = z2 ^ (z2 >> 31u64);
        let r = z % (sides as u64) + 1;
        r as u32
    }
}

} // verus!
