//! The integer random-number step used when terrain is laid on a height map.

use vstd::prelude::*;

verus! {

/// The generator state after one step: `state * 1103515245 + 12345`,
/// wrapping at 2^64.
pub open spec fn rng_next_state(state: u64) -> u64 {
    ((state as nat * 1103515245 + 12345) % 0x1_0000_0000_0000_0000) as u64
}

/// One step of the terrain generator's linear congruential generator:
/// returns the new state and the 15-bit sample `(new_state >> 16) & 0x7FFF`
/// that the generator scales into `[0, 1]`.
pub fn next_rand_bits(state: u64) -> (r: (u64, u32))
    ensures
        r.0 == rng_next_state(state),
        r.1 == ((r.0 >> 16u64) & 0x7fffu64) as u32,
        r.1 <= 0x7fff,
{
    let next = state.wrapping_mul(1103515245).wrapping_add(12345);
    proof {
        let m = (state as nat * 1103515245) % 0x1_0000_0000_0000_0000;
        assert(state.wrapping_mul(1103515245) == m);
        vstd::arithmetic::div_mod::lemma_add_mod_noop(
            (state as nat * 1103515245) as int,
            12345,
            0x1_0000_0000_0000_0000,
        );
        vstd::arithmetic::div_mod::lemma_mod_twice(12345, 0x1_0000_0000_0000_0000);
    }
    let sample = ((next >> 16) & 0x7FFF) as u32;
    assert(((next >> 16u64) & 0x7fffu64) <= 0x7fff) by (bit_vector);
    (next, sample)
}

} // verus!
