//! Prime numbers by trial division.
use vstd::arithmetic::div_mod::{lemma_fundamental_div_mod, lemma_fundamental_div_mod_converse_mod};
use vstd::prelude::*;

verus! {

/// `n` is at least 2 and no number between 2 and `n - 1` divides it.
pub open spec fn prime(n: int) -> bool {
    n >= 2 && forall|d: int| 2 <= d < n ==> #[trigger] (n % d) != 0
}

/// The primes from 2 to `limit`, in ascending order.
pub open spec fn primes_up_to(limit: nat) -> Seq<u32>
    decreases limit,
{
    if limit < 2 {
        Seq::empty()
    } else if prime(limit as int) {
        primes_up_to((limit - 1) as nat).push(limit as u32)
    } else {
        primes_up_to((limit - 1) as nat)
    }
}

/// `primes_up_to(limit)` is strictly ascending, holds only primes up to
/// `limit`, and holds every one of them.
pub proof fn lemma_primes_up_to(limit: nat)
    requires
        limit <= u32::MAX,
    ensures
        forall|i: int|
            0 <= i < primes_up_to(limit).len() ==> prime(#[trigger] primes_up_to(limit)[i] as int)
                && primes_up_to(limit)[i] <= limit,
        forall|i: int, j: int|
            0 <= i < j < primes_up_to(limit).len() ==> primes_up_to(limit)[i] < primes_up_to(
                limit,
            )[j],
        forall|n: int|
            2 <= n <= limit && prime(n) ==> primes_up_to(limit).contains(#[trigger] (n as u32)),
    decreases limit,
{
    if limit >= 2 {
        let before = primes_up_to((limit - 1) as nat);
        lemma_primes_up_to((limit - 1) as nat);
        assert forall|n: int| 2 <= n <= limit && prime(n) implies primes_up_to(limit).contains(
            #[trigger] (n as u32),
        ) by {
            if n == limit {
                assert(primes_up_to(limit)[before.len() as int] == n as u32);
            } else {
                let at = choose|at: int| 0 <= at < before.len() && before[at] == n as u32;
                assert(primes_up_to(limit)[at] == n as u32);
            }
        }
    }
}

/// A number with a proper divisor has one whose square does not exceed it:
/// if `d` divides `n` and `n < bound * bound`, some divisor lies below `bound`.
proof fn lemma_small_divisor(n: int, d: int, bound: int) -> (e: int)
    requires
        2 <= d < n,
        n % d == 0,
        2 <= bound,
        n < bound * bound,
    ensures
        2 <= e < bound,
        e < n,
        n % e == 0,
{
    if d < bound {
        d
    } else {
        let e = n / d;
        lemma_fundamental_div_mod(n, d);
        assert(2 <= e) by (nonlinear_arith)
            requires
                n == d * e,
                2 <= d < n,
        ;
        assert(e < bound) by (nonlinear_arith)
            requires
                n == d * e,
                2 <= bound <= d,
                n < bound * bound,
        ;
        assert(e < n) by (nonlinear_arith)
            requires
                n == d * e,
                2 <= d,
                2 <= e,
        ;
        lemma_fundamental_div_mod_converse_mod(n, e, d, 0);
        e
    }
}

/// Tests one number by dividing it by 2, 3, ... up to its square root.
pub fn is_prime(num: u32) -> (answer: bool)
    ensures
        answer == prime(num as int),
{
    if num < 2 {
        return false;
    }
    let n: u64 = num as u64;
    let mut i: u64 = 2;
    while i * i <= n
        invariant
            n == num,
            2 <= i <= 0x1_0000,
            i * i <= 0x1_0000_0000,
            forall|d: int| 2 <= d < i ==> #[trigger] (n as int % d) != 0,
        decreases 0x1_0000 - i,
    {
        if n % i == 0 {
            assert(i < n) by (nonlinear_arith)
                requires
                    2 <= i,
                    i * i <= n,
            ;
            return false;
        }
        assert(i < 0x1_0000) by (nonlinear_arith)
            requires
                i * i <= n,
                n <= 0xffff_ffff,
                0 <= i,
        ;
        i += 1;
        assert(i * i <= 0x1_0000_0000) by (nonlinear_arith)
            requires
                0 <= i <= 0x1_0000,
        ;
    }
    assert forall|d: int| 2 <= d < n implies #[trigger] (n as int % d) != 0 by {
        if n as int % d == 0 {
            let e = lemma_small_divisor(n as int, d, i as int);
            assert(n as int % e != 0);
        }
    }
    true
}

/// Lists the primes from 2 to `limit`, in ascending order.
pub fn calculate_primes(limit: u32) -> (primes: Vec<u32>)
    ensures
        primes@ == primes_up_to(limit as nat),
        forall|i: int|
            0 <= i < primes.len() ==> prime(#[trigger] primes[i] as int) && primes[i] <= limit,
        forall|i: int, j: int| 0 <= i < j < primes.len() ==> primes[i] < primes[j],
        forall|n: int| 2 <= n <= limit && prime(n) ==> primes@.contains(#[trigger] (n as u32)),
{
    let mut primes: Vec<u32> = Vec::new();
    let mut num: u32 = 1;
    while num < limit
        invariant
            1 <= num,
            num <= limit || num == 1,
            primes@ == primes_up_to(num as nat),
        decreases limit - num,
    {
        num += 1;
        if is_prime(num) {
            primes.push(num);
        }
    }
    proof {
        lemma_primes_up_to(limit as nat);
    }
    primes
}

} // verus!
