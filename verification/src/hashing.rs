//! An integer hash mixer: rounds of multiply, add and xor-shift on 32 bits.
use vstd::prelude::*;

verus! {

/// The value every hash chain starts from.
pub const HASH_SEED: u32 = 0x12345678;

/// One round on state `hash`, the round's number being `round`. All
/// arithmetic is modulo 2^32.
pub open spec fn mix(hash: u32, round: u32) -> u32 {
    let a = hash.wrapping_mul(1103515245).wrapping_add(12345);
    let b = (a ^ (a >> 16)).wrapping_mul(0x85ebca6b);
    let c = (b ^ (b >> 13)).wrapping_mul(0xc2b2ae35);
    (c ^ (c >> 16)).wrapping_add(round)
}

/// The state after rounds `0` to `rounds - 1`.
pub open spec fn hash_chain(rounds: nat) -> u32
    decreases rounds,
{
    if rounds == 0 {
        HASH_SEED
    } else {
        mix(hash_chain((rounds - 1) as nat), (rounds - 1) as u32)
    }
}

/// Runs one round of the mixer.
pub fn mix_round(hash: u32, round: u32) -> (mixed: u32)
    ensures
        mixed == mix(hash, round),
{
    let mut h = hash.wrapping_mul(1103515245).wrapping_add(12345);
    h ^= h >> 16;
    h = h.wrapping_mul(0x85ebca6b);
    h ^= h >> 13;
    h = h.wrapping_mul(0xc2b2ae35);
    h ^= h >> 16;
    h.wrapping_add(round)
}

/// Runs `iterations` rounds of the mixer from the fixed seed and returns the
/// final state.
pub fn compute_hashes(iterations: u32) -> (hash: u32)
    ensures
        hash == hash_chain(iterations as nat),
{
    let mut hash: u32 = HASH_SEED;
    let mut i: u32 = 0;
    while i < iterations
        invariant
            i <= iterations,
            hash == hash_chain(i as nat),
        decreases iterations - i,
    {
        hash = mix_round(hash, i);
        i += 1;
    }
    hash
}

} // verus!
