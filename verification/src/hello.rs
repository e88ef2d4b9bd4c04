//! Addition and the factorial.
//!
//! A result that does not fit in its type wraps; each contract gives the
//! wrapped result in general and the exact one where it fits.
use crate::wrap::{lemma_congruent_mul, lemma_wrap_u32, wrap_i32, wrap_u32};
use vstd::arithmetic::mul::lemma_mul_is_commutative;
use vstd::prelude::*;

verus! {

/// The product `1 * 2 * ... * n`: 1 for `n` of 0 or 1, and `n` times the
/// factorial of `n - 1` above that.
pub open spec fn fact(n: nat) -> nat
    decreases n,
{
    if n <= 1 {
        1
    } else {
        n * fact((n - 1) as nat)
    }
}

/// The sum of `a` and `b`, wrapped into `i32` on overflow.
pub fn add_numbers(a: i32, b: i32) -> (r: i32)
    ensures
        r == wrap_i32(a + b),
        i32::MIN <= a + b <= i32::MAX ==> r == a + b,
{
    a.wrapping_add(b)
}

/// The factorial of `n`, wrapped into `u32` on overflow.
///
/// The result is exact up to `n == 12`, and zero from `n == 34` on, where the
/// factorial has become a multiple of 2^32. The loop stops as soon as the
/// running product is zero, which is after fewer than 34 rounds.
pub fn factorial(n: u32) -> (r: u32)
    ensures
        r == wrap_u32(fact(n as nat) as int),
        n <= 12 ==> r == fact(n as nat),
        n <= 1 ==> r == 1,
        n >= 34 ==> r == 0,
{
    let mut acc: u32 = 1;
    let mut k: u32 = 1;
    while k < n && acc != 0
        invariant
            1 <= k,
            k <= n || k == 1,
            acc == wrap_u32(fact(k as nat) as int),
        decreases n - k,
    {
        proof {
            let next: nat = (k + 1) as nat;
            assert(fact(next) == next * fact(k as nat));
            lemma_wrap_u32(fact(k as nat) as int);
            lemma_congruent_mul(acc as int, next as int, fact(k as nat) as int, next as int);
            lemma_mul_is_commutative(fact(k as nat) as int, next as int);
        }
        k = k + 1;
        acc = acc.wrapping_mul(k);
    }
    proof {
        if k < n {
            lemma_fact_stays_multiple(k as nat, n as nat);
        }
        if n <= 12 {
            lemma_fact_fits(n as nat);
        }
        if n >= 34 {
            lemma_fact_34();
            lemma_fact_stays_multiple(34, n as nat);
        }
    }
    acc
}

/// The factorial never shrinks as its argument grows.
pub proof fn lemma_fact_increases(i: nat, j: nat)
    requires
        i <= j,
    ensures
        1 <= fact(i) <= fact(j),
    decreases j,
{
    if j > 1 {
        if i < j {
            lemma_fact_increases(i, (j - 1) as nat);
        } else {
            lemma_fact_increases((i - 1) as nat, (j - 1) as nat);
        }
        assert(fact((j - 1) as nat) <= j * fact((j - 1) as nat)) by (nonlinear_arith)
            requires
                j >= 1,
                fact((j - 1) as nat) >= 1,
        {
        }
    }
}

/// Up to 12 the factorial fits in `u32`, so `factorial` returns it unwrapped.
pub proof fn lemma_fact_fits(n: nat)
    requires
        n <= 12,
    ensures
        fact(n) <= 479_001_600,
        wrap_u32(fact(n) as int) == fact(n),
{
    lemma_fact_12();
    lemma_fact_increases(n, 12);
}

/// 12! is 479 001 600.
proof fn lemma_fact_12()
    ensures
        fact(12) == 479_001_600nat,
{
    reveal_with_fuel(fact, 13);
}

/// 17! is 355 687 428 096 000.
proof fn lemma_fact_17()
    ensures
        fact(17) == 355_687_428_096_000nat,
{
    reveal_with_fuel(fact, 18);
}

/// 34! is 17! times the factors from 18 to 34.
proof fn lemma_fact_34_over_17()
    ensures
        fact(34) == 34 * (33 * (32 * (31 * (30 * (29 * (28 * (27 * (26 * (25 * (24 * (23 * (22 * (21
            * (20 * (19 * (18 * fact(17))))))))))))))))),
{
    reveal_with_fuel(fact, 18);
}

/// 34! is a multiple of 2^32: the factors 2, 4, ..., 34 hold 32 twos between
/// them.
pub proof fn lemma_fact_34()
    ensures
        wrap_u32(fact(34) as int) == 0,
{
    lemma_fact_17();
    lemma_fact_34_over_17();
}

/// Once a factorial is a multiple of 2^32, every later one is too.
pub proof fn lemma_fact_stays_multiple(i: nat, j: nat)
    requires
        i <= j,
        wrap_u32(fact(i) as int) == 0,
    ensures
        wrap_u32(fact(j) as int) == 0,
    decreases j,
{
    if i < j {
        let below: nat = (j - 1) as nat;
        lemma_fact_stays_multiple(i, below);
        lemma_congruent_mul(j as int, fact(below) as int, j as int, 0);
    }
}

/// Each result of `factorial` above the first two is the argument times the
/// result before it, in wrapping arithmetic.
pub proof fn lemma_factorial_recurrence(n: u32)
    requires
        n > 1,
    ensures
        wrap_u32(fact(n as nat) as int) == wrap_u32(n * wrap_u32(fact((n - 1) as nat) as int)),
{
    let below: nat = (n - 1) as nat;
    lemma_wrap_u32(fact(below) as int);
    lemma_congruent_mul(n as int, wrap_u32(fact(below) as int), n as int, fact(below) as int);
}

} // verus!
