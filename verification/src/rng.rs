use vstd::prelude::*;

verus! {

/// The linear-congruential step of the random source: the state
/// scaled and shifted by fixed constants, wrapping modulo two to the
/// sixty-fourth.
pub open spec fn lcg_next(s: u64) -> u64 {
    vstd::wrapping::u64_specs::wrapping_add(
        vstd::wrapping::u64_specs::wrapping_mul(s, 6364136223846793005),
        1442695040888963407,
    )
}

/// The value drawn after one step from state `s`: the fresh state's
/// upper bits, reduced below `n`.
pub open spec fn draw_below(s: u64, n: u32) -> u32 {
    ((lcg_next(s) >> 33u64) as u32) % n
}

/// A small deterministic random source for board generation. Its
/// whole behaviour is a function of the seed, so every generated
/// board is reproducible.
pub struct WalkRng {
    state: u64,
}

impl View for WalkRng {
    type V = u64;

    closed spec fn view(&self) -> u64 {
        self.state
    }
}

impl WalkRng {
    /// A random source starting from the given seed.
    pub fn new(seed: u64) -> (result: WalkRng)
        ensures
            result@ == seed,
    {
        WalkRng { state: seed }
    }

    /// The next pseudo-random value below `n`: the source advances by
    /// one step and reduces the fresh state's upper bits.
    pub fn next_below(&mut self, n: u32) -> (r: u32)
        requires
            1 <= n,
        ensures
            final(self)@ == lcg_next(old(self)@),
            r == draw_below(old(self)@, n),
            r < n,
    {
        self.state = self.state.wrapping_mul(6364136223846793005).wrapping_add(
            1442695040888963407,
        );
        let s = self.state;
        let shifted = s >> 33u64;
        proof {
            assert(s >> 33u64 < 0x1_0000_0000u64) by (bit_vector);
        }
        let x = shifted as u32;
        x % n
    }
}

} // verus!
