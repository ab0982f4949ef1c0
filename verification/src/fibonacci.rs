//! The Fibonacci sequence in 64-bit words.
use vstd::arithmetic::div_mod::{lemma_add_mod_noop, lemma_small_mod};
use vstd::prelude::*;

verus! {

/// Term `n` of the Fibonacci sequence 0, 1, 1, 2, 3, 5, ...: the first two
/// terms are 0 and 1, every later term is the sum of the two before it.
pub open spec fn fib(n: nat) -> nat
    decreases n,
{
    if n < 2 {
        n
    } else {
        fib((n - 1) as nat) + fib((n - 2) as nat)
    }
}

/// Number of values of a 64-bit word.
pub open spec fn word_range() -> nat {
    0x1_0000_0000_0000_0000
}

/// No term is larger than the next.
proof fn lemma_fib_step(n: nat)
    ensures
        fib(n) <= fib(n + 1),
{
}

/// Later terms are not smaller than earlier ones.
pub proof fn lemma_fib_monotonic(i: nat, j: nat)
    requires
        i <= j,
    ensures
        fib(i) <= fib(j),
    decreases j - i,
{
    if i < j {
        lemma_fib_monotonic(i, (j - 1) as nat);
        lemma_fib_step((j - 1) as nat);
    }
}

/// Ten steps at once: from two neighbouring terms to the two terms ten places on.
proof fn lemma_fib_skip(n: nat, a: nat, b: nat)
    requires
        fib(n) == a,
        fib(n + 1) == b,
    ensures
        fib(n + 10) == 34 * a + 55 * b,
        fib(n + 11) == 55 * a + 89 * b,
{
    assert(fib(n + 2) == a + b);
    assert(fib(n + 3) == a + 2 * b);
    assert(fib(n + 4) == 2 * a + 3 * b);
    assert(fib(n + 5) == 3 * a + 5 * b);
    assert(fib(n + 6) == 5 * a + 8 * b);
    assert(fib(n + 7) == 8 * a + 13 * b);
    assert(fib(n + 8) == 13 * a + 21 * b);
    assert(fib(n + 9) == 21 * a + 34 * b);
    assert(fib(n + 10) == 34 * a + 55 * b);
}

/// The first 94 terms, `fib(0)` to `fib(93)`, fit in a 64-bit word.
pub proof fn lemma_fib_fits_word(n: nat)
    requires
        n <= 93,
    ensures
        fib(n) < word_range(),
{
    lemma_fib_skip(0, 0, 1);
    lemma_fib_skip(10, 55, 89);
    lemma_fib_skip(20, 6765, 10946);
    lemma_fib_skip(30, 832040, 1346269);
    lemma_fib_skip(40, 102334155, 165580141);
    lemma_fib_skip(50, 12586269025, 20365011074);
    lemma_fib_skip(60, 1548008755920, 2504730781961);
    lemma_fib_skip(70, 190392490709135, 308061521170129);
    lemma_fib_skip(80, 23416728348467685, 37889062373143906);
    assert(fib(92) == 7540113804746346429);
    lemma_fib_monotonic(n, 93);
}

/// Returns the first `count` terms of the Fibonacci sequence. A term that
/// does not fit in 64 bits is reduced modulo 2^64; the first 94 terms fit.
pub fn fibonacci_sequence(count: u32) -> (sequence: Vec<u64>)
    ensures
        sequence.len() == count,
        forall|i: int| 0 <= i < count ==> #[trigger] sequence[i] == fib(i as nat) % word_range(),
        forall|i: int| 0 <= i < count && i < 94 ==> #[trigger] sequence[i] == fib(i as nat),
{
    let total = count as usize;
    let mut sequence: Vec<u64> = Vec::with_capacity(total);
    if count >= 1 {
        sequence.push(0);
    }
    if count >= 2 {
        sequence.push(1);
    }
    let mut i: usize = 2;
    while i < total
        invariant
            total == count,
            2 <= i,
            total < i ==> sequence.len() == total,
            i <= total ==> sequence.len() == i,
            forall|j: int|
                0 <= j < sequence.len() ==> #[trigger] sequence[j] == fib(j as nat) % word_range(),
        decreases total - i,
    {
        let next = sequence[i - 1].wrapping_add(sequence[i - 2]);
        proof {
            lemma_add_mod_noop(
                fib((i - 1) as nat) as int,
                fib((i - 2) as nat) as int,
                word_range() as int,
            );
        }
        sequence.push(next);
        i += 1;
    }
    assert forall|j: int| 0 <= j < count && j < 94 implies #[trigger] sequence[j] == fib(
        j as nat,
    ) by {
        lemma_fib_fits_word(j as nat);
        lemma_small_mod(fib(j as nat), word_range());
    }
    sequence
}

} // verus!
