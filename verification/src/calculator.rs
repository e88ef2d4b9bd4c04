//! Integer arithmetic on `i32`: the four basic operations, powers, and the
//! sum of a slice.
//!
//! Every operation is total but `divide`, which needs a nonzero divisor.
//! A result that does not fit in `i32` wraps; each contract gives the wrapped
//! result in general and the exact one where it fits.
use crate::wrap::{
    congruent, lemma_congruent_add, lemma_congruent_mul, lemma_congruent_pow, lemma_wrap_i32,
    wrap_i32,
};
use vstd::arithmetic::div_mod::{
    lemma_div_decreases, lemma_div_nonincreasing, lemma_div_pos_is_pos, lemma_fundamental_div_mod,
    lemma_mod_bound,
};
use vstd::arithmetic::mul::{
    lemma_mul_basics, lemma_mul_is_associative, lemma_mul_is_commutative,
};
use vstd::arithmetic::power::{lemma_pow0, lemma_pow1, lemma_pow_adds, lemma_pow_multiplies, pow};
use vstd::prelude::*;

verus! {

// ---------------------------------------------------------------------------
// The mathematical model
// ---------------------------------------------------------------------------

/// The size of `x` without its sign.
#[verifier::inline]
pub open spec fn magnitude(x: int) -> int {
    if x >= 0 {
        x
    } else {
        -x
    }
}

/// The quotient of `a` by `b` rounded toward zero: the magnitudes are divided
/// and the result is negative exactly when the signs of `a` and `b` differ.
pub open spec fn trunc_div(a: int, b: int) -> int
    recommends
        b != 0,
{
    let q: int = magnitude(a) / magnitude(b);
    if (a >= 0) == (b > 0) {
        q
    } else {
        -q
    }
}

/// The remainder that goes with `trunc_div`: it has the magnitude of
/// `|a| mod |b|` and the sign of `a`.
pub open spec fn trunc_rem(a: int, b: int) -> int
    recommends
        b != 0,
{
    let r: int = magnitude(a) % magnitude(b);
    if a >= 0 {
        r
    } else {
        -r
    }
}

/// The exact sum of the elements of `s`; zero for the empty sequence.
pub open spec fn total(s: Seq<i32>) -> int
    decreases s.len(),
{
    if s.len() == 0 {
        0
    } else {
        s.first() + total(s.drop_first())
    }
}

// ---------------------------------------------------------------------------
// The operations
// ---------------------------------------------------------------------------

/// The sum of `a` and `b`, wrapped into `i32` on overflow.
pub fn add(a: i32, b: i32) -> (r: i32)
    ensures
        r == wrap_i32(a + b),
        i32::MIN <= a + b <= i32::MAX ==> r == a + b,
{
    a.wrapping_add(b)
}

/// The difference `a - b`, wrapped into `i32` on overflow.
pub fn subtract(a: i32, b: i32) -> (r: i32)
    ensures
        r == wrap_i32(a - b),
        i32::MIN <= a - b <= i32::MAX ==> r == a - b,
{
    a.wrapping_sub(b)
}

/// The product of `a` and `b`, wrapped into `i32` on overflow.
pub fn multiply(a: i32, b: i32) -> (r: i32)
    ensures
        r == wrap_i32(a * b),
        i32::MIN <= a * b <= i32::MAX ==> r == a * b,
{
    a.wrapping_mul(b)
}

/// The quotient of `a` by `b`, rounded toward zero.
///
/// `b` must not be zero. The one quotient that does not fit, `i32::MIN / -1`,
/// wraps to `i32::MIN`.
pub fn divide(a: i32, b: i32) -> (q: i32)
    requires
        b != 0,
    ensures
        q == wrap_i32(trunc_div(a as int, b as int)),
        !(a == i32::MIN && b == -1) ==> q == trunc_div(a as int, b as int),
{
    if a == i32::MIN && b == -1 {
        assert(trunc_div(a as int, b as int) == 0x8000_0000int) by {
            assert(magnitude(b as int) == 1);
            assert(magnitude(a as int) / 1 == magnitude(a as int));
        }
        i32::MIN
    } else {
        proof {
            lemma_trunc_div_fits(a, b);
            if b < 0 {
                lemma_div_negated_divisor(magnitude(a as int), -(b as int));
            }
        }
        a / b
    }
}

/// `base` raised to `exp`, wrapped into `i32` on overflow. Anything raised to
/// zero is 1.
///
/// Squares and multiplies, so the number of rounds is the bit length of
/// `exp`.
pub fn power(base: i32, exp: u32) -> (r: i32)
    ensures
        r == wrap_i32(pow(base as int, exp as nat)),
        i32::MIN <= pow(base as int, exp as nat) <= i32::MAX ==> r == pow(
            base as int,
            exp as nat,
        ),
        exp == 0 ==> r == 1,
{
    let mut acc: i32 = 1;
    let mut square: i32 = base;
    let mut left: u32 = exp;
    while left > 0
        invariant
            congruent(acc * pow(square as int, left as nat), pow(base as int, exp as nat)),
        decreases left,
    {
        let ghost before: (int, int, nat) = (acc as int, square as int, left as nat);
        if left % 2 == 1 {
            acc = acc.wrapping_mul(square);
        }
        square = square.wrapping_mul(square);
        left = left / 2;
        proof {
            lemma_power_step(before.0, before.1, before.2, acc as int, square as int);
        }
    }
    proof {
        lemma_pow0(square as int);
        lemma_pow0(base as int);
        lemma_wrap_i32(pow(base as int, exp as nat));
    }
    acc
}

/// The sum of `numbers`, wrapped into `i32` on overflow; zero when there are
/// none.
pub fn sum_vector(numbers: &[i32]) -> (r: i32)
    ensures
        r == wrap_i32(total(numbers@)),
        i32::MIN <= total(numbers@) <= i32::MAX ==> r == total(numbers@),
        numbers@.len() == 0 ==> r == 0,
{
    let mut acc: i32 = 0;
    let mut i: usize = 0;
    while i < numbers.len()
        invariant
            i <= numbers@.len(),
            acc == wrap_i32(total(numbers@.take(i as int))),
        decreases numbers@.len() - i,
    {
        proof {
            let seen: Seq<i32> = numbers@.take(i as int);
            let next: i32 = numbers@[i as int];
            assert(numbers@.take(i + 1) =~= seen.push(next));
            lemma_total_push(seen, next);
            lemma_wrap_i32(total(seen));
            lemma_congruent_add(acc as int, next as int, total(seen), next as int);
        }
        acc = acc.wrapping_add(numbers[i]);
        i = i + 1;
    }
    assert(numbers@.take(i as int) =~= numbers@);
    acc
}

/// The numerator and the denominator of the mean of `numbers`: their wrapped
/// sum and their count. There is no mean of nothing, so an empty slice gives
/// `None`.
pub fn average_terms(numbers: &[i32]) -> (r: Option<(i32, usize)>)
    ensures
        r is None <==> numbers@.len() == 0,
        r matches Some((sum, count)) ==> sum == wrap_i32(total(numbers@)) && count
            == numbers@.len(),
{
    if numbers.len() == 0 {
        None
    } else {
        Some((sum_vector(numbers), numbers.len()))
    }
}

// ---------------------------------------------------------------------------
// Laws
// ---------------------------------------------------------------------------

/// `add` gives the same result whichever way round its arguments stand.
pub proof fn lemma_add_commutes(a: i32, b: i32)
    ensures
        wrap_i32(a + b) == wrap_i32(b + a),
{
}

/// `multiply` gives the same result whichever way round its arguments stand.
pub proof fn lemma_multiply_commutes(a: i32, b: i32)
    ensures
        wrap_i32(a * b) == wrap_i32(b * a),
{
    lemma_mul_is_commutative(a as int, b as int);
}

/// Truncated division splits the dividend exactly: the quotient times the
/// divisor, plus the remainder, is the dividend again. The remainder is
/// smaller in magnitude than the divisor and never has the sign opposite to
/// the dividend's.
pub proof fn lemma_trunc_div_rem(a: int, b: int)
    requires
        b != 0,
    ensures
        trunc_div(a, b) * b + trunc_rem(a, b) == a,
        magnitude(trunc_rem(a, b)) < magnitude(b),
        a >= 0 ==> trunc_rem(a, b) >= 0,
        a <= 0 ==> trunc_rem(a, b) <= 0,
{
    let q: int = magnitude(a) / magnitude(b);
    let r: int = magnitude(a) % magnitude(b);
    lemma_fundamental_div_mod(magnitude(a), magnitude(b));
    lemma_mod_bound(magnitude(a), magnitude(b));
    let t: int = trunc_div(a, b);
    let u: int = trunc_rem(a, b);
    assert(t * b + u == a) by (nonlinear_arith)
        requires
            b != 0,
            magnitude(a) == magnitude(b) * q + r,
            (a >= 0) == (b > 0) ==> t == q,
            (a >= 0) != (b > 0) ==> t == -q,
            a >= 0 ==> u == r,
            a < 0 ==> u == -r,
    {
    }
}

/// A truncated quotient of two `i32` values fits in `i32`, except for
/// `i32::MIN / -1`.
pub proof fn lemma_trunc_div_fits(a: i32, b: i32)
    requires
        b != 0,
        !(a == i32::MIN && b == -1),
    ensures
        i32::MIN <= trunc_div(a as int, b as int) <= i32::MAX,
{
    lemma_quotient_bound(magnitude(a as int), magnitude(b as int));
}

/// What `divide` returns, times the divisor, plus the truncated remainder, is
/// the dividend. The pair `i32::MIN`, `-1` is left out: its quotient does not
/// fit, so the equation holds for it only after wrapping.
pub proof fn lemma_divide_recomposes(a: i32, b: i32)
    requires
        b != 0,
        !(a == i32::MIN && b == -1),
    ensures
        wrap_i32(trunc_div(a as int, b as int)) * b + trunc_rem(a as int, b as int) == a,
{
    lemma_trunc_div_fits(a, b);
    lemma_wrap_i32(trunc_div(a as int, b as int));
    lemma_trunc_div_rem(a as int, b as int);
}

/// In wrapping arithmetic what `divide` returns, times the divisor, plus the
/// truncated remainder, is the dividend for every nonzero divisor.
pub proof fn lemma_divide_recomposes_wrapping(a: i32, b: i32)
    requires
        b != 0,
    ensures
        wrap_i32(wrap_i32(trunc_div(a as int, b as int)) * b + trunc_rem(a as int, b as int))
            == a,
{
    let q: int = trunc_div(a as int, b as int);
    let r: int = trunc_rem(a as int, b as int);
    lemma_trunc_div_rem(a as int, b as int);
    lemma_wrap_i32(q);
    lemma_congruent_mul(wrap_i32(q), b as int, q, b as int);
    lemma_congruent_add(wrap_i32(q) * b, r, q * b, r);
    lemma_wrap_i32(a as int);
}

/// Raising the exponent by one multiplies the result of `power` by the base
/// once more, in wrapping arithmetic: `power` is repeated multiplication.
pub proof fn lemma_power_recurrence(base: i32, exp: u32)
    requires
        exp < u32::MAX,
    ensures
        wrap_i32(pow(base as int, (exp + 1) as nat)) == wrap_i32(
            base * wrap_i32(pow(base as int, exp as nat)),
        ),
{
    let below: int = pow(base as int, exp as nat);
    assert(pow(base as int, (exp + 1) as nat) == base * below) by {
        reveal(pow);
    }
    lemma_wrap_i32(below);
    lemma_congruent_mul(base as int, wrap_i32(below), base as int, below);
}

/// Appending an element adds it to the total.
pub proof fn lemma_total_push(s: Seq<i32>, x: i32)
    ensures
        total(s.push(x)) == total(s) + x,
    decreases s.len(),
{
    if s.len() == 0 {
        assert(s.push(x).drop_first() =~= s);
    } else {
        assert(s.push(x).drop_first() =~= s.drop_first().push(x));
        lemma_total_push(s.drop_first(), x);
    }
}

/// Taking one element out lowers the total by that element.
pub proof fn lemma_total_remove(s: Seq<i32>, i: int)
    requires
        0 <= i < s.len(),
    ensures
        total(s) == total(s.remove(i)) + s[i],
    decreases s.len(),
{
    if i == 0 {
        assert(s.remove(0) =~= s.drop_first());
    } else {
        lemma_total_remove(s.drop_first(), i - 1);
        assert(s.remove(i).drop_first() =~= s.drop_first().remove(i - 1));
    }
}

/// The total depends on which elements there are and how often, not on their
/// order: two sequences with the same elements have the same total, and so
/// `sum_vector` gives the same result for both.
pub proof fn lemma_total_any_order(s: Seq<i32>, t: Seq<i32>)
    requires
        s.to_multiset() == t.to_multiset(),
    ensures
        total(s) == total(t),
        wrap_i32(total(s)) == wrap_i32(total(t)),
    decreases s.len(),
{
    s.to_multiset_ensures();
    t.to_multiset_ensures();
    if s.len() > 0 {
        let x: i32 = s.first();
        assert(s.contains(x));
        assert(t.to_multiset().count(x) > 0);
        assert(t.contains(x));
        let j: int = choose|j: int| 0 <= j < t.len() && t[j] == x;
        assert(s.drop_first() =~= s.remove(0));
        lemma_total_any_order(s.drop_first(), t.remove(j));
        lemma_total_remove(t, j);
    }
}

// ---------------------------------------------------------------------------
// Steps of the proofs above
// ---------------------------------------------------------------------------

/// Dividing by `-d` negates the quotient.
proof fn lemma_div_negated_divisor(x: int, d: int)
    requires
        d > 0,
    ensures
        x / (-d) == -(x / d),
{
    let q: int = x / d;
    let r: int = x % d;
    let q_neg: int = x / (-d);
    let r_neg: int = x % (-d);
    lemma_fundamental_div_mod(x, d);
    lemma_mod_bound(x, d);
    assert(x == (-d) * q_neg + r_neg && 0 <= r_neg < d) by (nonlinear_arith)
        requires
            d > 0,
            q_neg == x / (-d),
            r_neg == x % (-d),
    {
    }
    assert(d * (q + q_neg) == r_neg - r) by (nonlinear_arith)
        requires
            x == d * q + r,
            x == (-d) * q_neg + r_neg,
    {
    }
    assert(q + q_neg == 0) by (nonlinear_arith)
        requires
            d > 0,
            -d < d * (q + q_neg) < d,
    {
    }
}

/// A quotient of magnitudes is no larger than the dividend's, and smaller
/// once the divisor is at least two.
proof fn lemma_quotient_bound(x: int, d: int)
    requires
        x >= 0,
        d >= 1,
    ensures
        0 <= x / d <= x,
        d >= 2 && x > 0 ==> x / d < x,
{
    lemma_div_pos_is_pos(x, d);
    lemma_div_nonincreasing(x, d);
    if d >= 2 && x > 0 {
        lemma_div_decreases(x, d);
    }
}

/// One round of square-and-multiply keeps the pending product unchanged
/// modulo 2^32.
proof fn lemma_power_step(acc: int, square: int, left: nat, acc2: int, square2: int)
    requires
        left > 0,
        left % 2 == 1 ==> congruent(acc2, acc * square),
        left % 2 == 0 ==> congruent(acc2, acc),
        congruent(square2, square * square),
    ensures
        congruent(acc2 * pow(square2, left / 2), acc * pow(square, left)),
{
    let half: nat = left / 2;
    let odd: nat = left % 2;
    assert(pow(square, left) == pow(square, odd) * pow(square * square, half)) by {
        assert(pow(square, 2) == square * square) by {
            reveal_with_fuel(pow, 3);
        }
        lemma_pow_multiplies(square, 2, half);
        lemma_pow_adds(square, odd, 2 * half);
    }
    assert(congruent(acc2, acc * pow(square, odd))) by {
        if odd == 1 {
            lemma_pow1(square);
        } else {
            lemma_pow0(square);
            lemma_mul_basics(acc);
        }
    }
    lemma_congruent_pow(square2, square * square, half);
    lemma_congruent_mul(
        acc2,
        pow(square2, half),
        acc * pow(square, odd),
        pow(square * square, half),
    );
    lemma_mul_is_associative(acc, pow(square, odd), pow(square * square, half));
}

} // verus!
