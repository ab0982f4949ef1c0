//! Sorting a pseudo-random array.
use vstd::prelude::*;
use vstd::relations::{sorted_by, total_ordering};
use vstd::seq_lib::lemma_sorted_unique;
use crate::lcg::{lcg_state, lcg_step};

verus! {

/// Seed of the generator that fills the array.
pub const ARRAY_SEED: u32 = 42;

/// Element `i` of the unsorted array: generator state `i + 1`, reduced
/// modulo 10000.
pub open spec fn drawn_value(i: nat) -> i32 {
    (lcg_state(ARRAY_SEED, i + 1) % 10000) as i32
}

/// The unsorted array of `size` elements.
pub open spec fn drawn_values(size: nat) -> Seq<i32> {
    Seq::new(size, |i: int| drawn_value(i as nat))
}

/// No element is larger than a later one.
pub open spec fn ascending(s: Seq<i32>) -> bool {
    forall|i: int, j: int| 0 <= i <= j < s.len() ==> s[i] <= s[j]
}

/// There is only one way to put given elements in ascending order: two
/// ascending sequences that hold the same elements, each as often as the
/// other, are equal.
pub proof fn lemma_ascending_unique(a: Seq<i32>, b: Seq<i32>)
    requires
        ascending(a),
        ascending(b),
        a.to_multiset() == b.to_multiset(),
    ensures
        a == b,
{
    let at_most = |x: i32, y: i32| x <= y;
    assert(total_ordering(at_most));
    assert(sorted_by(a, at_most));
    assert(sorted_by(b, at_most));
    lemma_sorted_unique(a, b, at_most);
}

/// Sorts through `sort_unstable` of the standard library, which rearranges
/// the slice into ascending order: the elements stay the same, each as often
/// as before, and none ends up before a smaller one.
#[verifier::external_body]
fn sort_ascending(values: &mut Vec<i32>)
    ensures
        final(values)@.to_multiset() == old(values)@.to_multiset(),
        ascending(final(values)@),
{
    values.sort_unstable();
}

/// Generates the unsorted array.
pub fn draw_values(size: u32) -> (values: Vec<i32>)
    ensures
        values@ == drawn_values(size as nat),
{
    let mut values: Vec<i32> = Vec::with_capacity(size as usize);
    let mut seed: u32 = ARRAY_SEED;
    let mut i: u32 = 0;
    while i < size
        invariant
            i <= size,
            seed == lcg_state(ARRAY_SEED, i as nat),
            values.len() == i,
            forall|j: int| 0 <= j < i ==> values[j] == drawn_value(j as nat),
        decreases size - i,
    {
        seed = lcg_step(seed);
        values.push((seed % 10000) as i32);
        i += 1;
    }
    values
}

/// Generates `size` pseudo-random numbers below 10000 and returns them in
/// ascending order.
pub fn sort_array(size: u32) -> (sorted: Vec<i32>)
    ensures
        ascending(sorted@),
        sorted@.to_multiset() == drawn_values(size as nat).to_multiset(),
        sorted.len() == size,
{
    let mut values = draw_values(size);
    sort_ascending(&mut values);
    proof {
        values@.to_multiset_ensures();
        drawn_values(size as nat).to_multiset_ensures();
    }
    values
}

} // verus!
