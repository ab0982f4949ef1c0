//! The linear congruential generator behind the pseudo-random kernels.
use vstd::arithmetic::div_mod::lemma_add_mod_noop;
use vstd::prelude::*;

verus! {

/// The state after `seed`: `seed * 1103515245 + 12345`, reduced modulo 2^32.
pub open spec fn lcg_next(seed: u32) -> u32 {
    ((seed * 1103515245 + 12345) % 0x1_0000_0000) as u32
}

/// The state reached from `seed` after `steps` steps.
pub open spec fn lcg_state(seed: u32, steps: nat) -> u32
    decreases steps,
{
    if steps == 0 {
        seed
    } else {
        lcg_next(lcg_state(seed, (steps - 1) as nat))
    }
}

/// Advances the generator by one step. Overflow wraps around.
pub fn lcg_step(seed: u32) -> (next: u32)
    ensures
        next == lcg_next(seed),
{
    proof {
        lemma_add_mod_noop(seed * 1103515245, 12345, 0x1_0000_0000);
    }
    seed.wrapping_mul(1103515245).wrapping_add(12345)
}

} // verus!
