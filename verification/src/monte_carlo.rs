//! Monte Carlo estimate of π from pseudo-random points in a square.
//!
//! Whether a drawn point falls inside the unit circle is real-valued
//! arithmetic and comes in as the function `inside`; this module draws the
//! points, counts the hits and forms the estimate as an exact fraction.
use vstd::prelude::*;
use crate::lcg::{lcg_state, lcg_step};

verus! {

/// Seed of the generator that draws the sample points.
pub const SAMPLE_SEED: u32 = 123456789;

/// An estimate of π, kept as the fraction `numerator / denominator`.
#[derive(Clone, Copy, Debug, PartialEq, Eq)]
pub struct PiEstimate {
    /// Four times the number of points that fell inside the circle.
    pub numerator: u64,
    /// The number of points drawn, or 1 if none was drawn.
    pub denominator: u32,
}

/// The denominator for `samples` points drawn: `samples`, or 1 if none was drawn.
pub open spec fn denominator_for(samples: u32) -> u32 {
    if samples == 0 {
        1
    } else {
        samples
    }
}

impl PiEstimate {
    /// The fraction is defined and lies between 0 and 4.
    pub open spec fn well_formed(&self) -> bool {
        self.denominator >= 1 && self.numerator <= 4 * self.denominator
    }

    /// The estimate for `hits` points inside the circle out of `samples`
    /// drawn. With no samples the estimate is 0.
    pub fn from_counts(hits: u32, samples: u32) -> (estimate: PiEstimate)
        requires
            hits <= samples,
        ensures
            estimate.well_formed(),
            estimate.numerator == 4 * hits,
            estimate.denominator == denominator_for(samples),
    {
        PiEstimate {
            numerator: 4 * (hits as u64),
            denominator: if samples == 0 {
                1
            } else {
                samples
            },
        }
    }
}

/// Horizontal coordinate of sample point `i`, as a raw generator state.
pub open spec fn sample_x(i: nat) -> u32 {
    lcg_state(SAMPLE_SEED, 2 * i + 1)
}

/// Vertical coordinate of sample point `i`, as a raw generator state.
pub open spec fn sample_y(i: nat) -> u32 {
    lcg_state(SAMPLE_SEED, 2 * i + 2)
}

/// Number of `true` entries.
pub open spec fn count_hits(outcomes: Seq<bool>) -> nat
    decreases outcomes.len(),
{
    if outcomes.len() == 0 {
        0
    } else {
        count_hits(outcomes.drop_last()) + if outcomes.last() {
            1nat
        } else {
            0nat
        }
    }
}

/// `outcomes[i]` is an answer that `inside` may give for sample point `i`.
pub open spec fn judged<F: Fn(u32, u32) -> bool>(inside: F, outcomes: Seq<bool>) -> bool {
    forall|i: int|
        0 <= i < outcomes.len() ==> inside.ensures(
            (sample_x(i as nat), sample_y(i as nat)),
            #[trigger] outcomes[i],
        )
}

/// Draws `samples` points, asks `inside` of each whether it lies in the unit
/// circle, and returns four times the share of hits as a fraction. Each point
/// is handed over as two consecutive generator states, which stand for
/// coordinates spread evenly over `-1..=1`.
pub fn estimate_pi<F: Fn(u32, u32) -> bool>(samples: u32, inside: F) -> (estimate: PiEstimate)
    requires
        forall|x: u32, y: u32| inside.requires((x, y)),
    ensures
        estimate.well_formed(),
        estimate.denominator == denominator_for(samples),
        exists|outcomes: Seq<bool>|
            outcomes.len() == samples && #[trigger] judged(inside, outcomes) && estimate.numerator
                == 4 * count_hits(outcomes),
{
    let mut hits: u32 = 0;
    let mut seed: u32 = SAMPLE_SEED;
    let mut drawn: u32 = 0;
    let ghost mut outcomes: Seq<bool> = Seq::empty();
    while drawn < samples
        invariant
            forall|x: u32, y: u32| inside.requires((x, y)),
            drawn <= samples,
            seed == lcg_state(SAMPLE_SEED, 2 * (drawn as nat)),
            outcomes.len() == drawn,
            judged(inside, outcomes),
            hits == count_hits(outcomes),
            hits <= drawn,
        decreases samples - drawn,
    {
        let x = lcg_step(seed);
        let y = lcg_step(x);
        seed = y;
        let hit = inside(x, y);
        proof {
            assert(x == sample_x(drawn as nat));
            assert(y == sample_y(drawn as nat));
            assert(outcomes.push(hit).drop_last() =~= outcomes);
            outcomes = outcomes.push(hit);
        }
        if hit {
            hits += 1;
        }
        drawn += 1;
    }
    PiEstimate::from_counts(hits, samples)
}

} // verus!
