//! The model of 32-bit wrapping arithmetic.
//!
//! A machine integer holds an unbounded mathematical result only up to a
//! multiple of 2^32. `wrap_i32` and `wrap_u32` name the one representative of
//! that result which the signed or the unsigned type can hold; every contract
//! in this crate that speaks of overflow is phrased through them.
use vstd::arithmetic::div_mod::{lemma_add_mod_noop, lemma_mul_mod_noop_general};
use vstd::arithmetic::power::{lemma_pow_mod_noop, pow};
use vstd::prelude::*;

verus! {

/// How many values a 32-bit integer has.
pub open spec fn modulus() -> int {
    0x1_0000_0000
}

/// Two integers that a 32-bit register cannot tell apart: they differ by a
/// multiple of 2^32.
pub open spec fn congruent(x: int, y: int) -> bool {
    x % modulus() == y % modulus()
}

/// The value in `0 ..= u32::MAX` that is congruent to `x`.
pub open spec fn wrap_u32(x: int) -> int {
    x % modulus()
}

/// The value in `i32::MIN ..= i32::MAX` that is congruent to `x`.
pub open spec fn wrap_i32(x: int) -> int {
    let low: int = x % modulus();
    if low <= i32::MAX {
        low
    } else {
        low - modulus()
    }
}

/// `wrap_i32(x)` is a value of `i32`, it is congruent to `x`, and it is the
/// only such value. So what already fits is left alone.
pub proof fn lemma_wrap_i32(x: int)
    ensures
        i32::MIN <= wrap_i32(x) <= i32::MAX,
        congruent(wrap_i32(x), x),
        forall|y: int|
            i32::MIN <= y <= i32::MAX && #[trigger] congruent(y, x) ==> y == wrap_i32(x),
        i32::MIN <= x <= i32::MAX ==> wrap_i32(x) == x,
{
}

/// `wrap_u32(x)` is a value of `u32`, it is congruent to `x`, and it is the
/// only such value. So what already fits is left alone.
pub proof fn lemma_wrap_u32(x: int)
    ensures
        0 <= wrap_u32(x) <= u32::MAX,
        congruent(wrap_u32(x), x),
        forall|y: int| 0 <= y <= u32::MAX && #[trigger] congruent(y, x) ==> y == wrap_u32(x),
        0 <= x <= u32::MAX ==> wrap_u32(x) == x,
{
}

/// Sums of congruent terms are congruent.
pub proof fn lemma_congruent_add(x1: int, y1: int, x2: int, y2: int)
    requires
        congruent(x1, x2),
        congruent(y1, y2),
    ensures
        congruent(x1 + y1, x2 + y2),
{
    lemma_add_mod_noop(x1, y1, modulus());
    lemma_add_mod_noop(x2, y2, modulus());
}

/// Products of congruent factors are congruent.
pub proof fn lemma_congruent_mul(x1: int, y1: int, x2: int, y2: int)
    requires
        congruent(x1, x2),
        congruent(y1, y2),
    ensures
        congruent(x1 * y1, x2 * y2),
{
    lemma_mul_mod_noop_general(x1, y1, modulus());
    lemma_mul_mod_noop_general(x2, y2, modulus());
}

/// Equal powers of congruent bases are congruent.
pub proof fn lemma_congruent_pow(x: int, y: int, e: nat)
    requires
        congruent(x, y),
    ensures
        congruent(pow(x, e), pow(y, e)),
{
    lemma_pow_mod_noop(x, e, modulus());
    lemma_pow_mod_noop(y, e, modulus());
}

} // verus!
