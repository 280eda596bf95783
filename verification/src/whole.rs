//! Whole and half numbers among the single-precision ones, and what an arithmetic
//! unit that rounds to the nearest number makes of them.

use crate::arithmetic::{count_of, hypot, minus, over, plus, times, Operation};
use crate::camera::grid::{stands_for, whole_numbers_are_ordered};
use crate::scalar::{Scalar, BINADE, HALF, INFINITY};
use vstd::arithmetic::mul::lemma_mul_is_associative;
use vstd::arithmetic::power2::{lemma_pow2_adds, pow2};
use vstd::prelude::*;

verus! {

/// Two to the power of 24, up to which every count is a single-precision number.
pub const COUNT_LIMIT: i64 = 0x100_0000;

pub open spec fn countable(number: int) -> bool {
    -COUNT_LIMIT <= number <= COUNT_LIMIT
}

/// The pattern denotes half of this whole number.
pub open spec fn stands_for_half(scalar: Scalar, number: int) -> bool {
    !scalar.nan() && 2 * scalar.quanta() == number * pow2(149)
}

/// Sums, differences and products of counts are exact where they are counts too,
/// and so is halving a count.
pub open spec fn exact_on_counts<F: Fn(Operation) -> Scalar>(unit: F) -> bool {
    &&& forall|a: Scalar, b: Scalar, m: int, n: int|
        #![trigger plus(unit, a, b), stands_for(a, m), stands_for(b, n)]
        stands_for(a, m) && stands_for(b, n) && countable(m) && countable(n) && countable(m + n)
            ==> stands_for(plus(unit, a, b), m + n)
    &&& forall|a: Scalar, b: Scalar, m: int, n: int|
        #![trigger minus(unit, a, b), stands_for(a, m), stands_for(b, n)]
        stands_for(a, m) && stands_for(b, n) && countable(m) && countable(n) && countable(m - n)
            ==> stands_for(minus(unit, a, b), m - n)
    &&& forall|a: Scalar, b: Scalar, m: int, n: int|
        #![trigger times(unit, a, b), stands_for(a, m), stands_for(b, n)]
        stands_for(a, m) && stands_for(b, n) && countable(m) && countable(n) && countable(m * n)
            ==> stands_for(times(unit, a, b), m * n)
    &&& forall|a: Scalar, m: int|
        #![trigger times(unit, a, Scalar { bits: HALF }), stands_for(a, m)]
        stands_for(a, m) && countable(m) ==> stands_for_half(
            times(unit, a, Scalar { bits: HALF }),
            m,
        )
}

/// Counts are taken over as they are, and a count that is divided by one of its
/// divisors gives the other.
pub open spec fn divides_counts<F: Fn(Operation) -> Scalar>(unit: F) -> bool {
    &&& forall|count: u64|
        count <= COUNT_LIMIT ==> stands_for(#[trigger] count_of(unit, count), count as int)
    &&& forall|a: Scalar, b: Scalar, m: int, n: int|
        #![trigger over(unit, a, b), stands_for(a, m * n), stands_for(b, n)]
        stands_for(a, m * n) && stands_for(b, n) && countable(m * n) && countable(n) && n != 0
            ==> stands_for(over(unit, a, b), m)
}

/// The sum of the numbers from one place up to another.
pub open spec fn sum_of(numbers: spec_fn(int) -> int, from: int, to: int) -> int
    decreases to - from,
{
    if to <= from {
        0
    } else {
        sum_of(numbers, from, to - 1) + numbers(to - 1)
    }
}

/// A sum of numbers that are not negative is no smaller than its parts.
pub proof fn sums_grow(numbers: spec_fn(int) -> int, from: int, middle: int, to: int)
    requires
        forall|i: int| from <= i < to ==> 0 <= #[trigger] numbers(i),
        from <= middle <= to,
    ensures
        0 <= sum_of(numbers, from, middle) <= sum_of(numbers, from, to),
    decreases to - from,
{
    if middle < to {
        sums_grow(numbers, from, middle, to - 1);
    } else if from < to {
        sums_grow(numbers, from, middle - 1, to - 1);
    }
}

/// Differences of halves are exact, and so is the hypotenuse of a right triangle
/// whose three sides are counts of halves.
pub open spec fn measures_distances<F: Fn(Operation) -> Scalar>(unit: F) -> bool {
    &&& forall|a: Scalar, b: Scalar, m: int, n: int|
        #![trigger minus(unit, a, b), stands_for_half(a, m), stands_for_half(b, n)]
        stands_for_half(a, m) && stands_for_half(b, n) && countable(m) && countable(n) && countable(
            m - n,
        ) ==> stands_for_half(minus(unit, a, b), m - n)
    &&& forall|a: Scalar, b: Scalar, m: int, n: int, k: int|
        #![trigger hypot(unit, a, b), stands_for_half(a, m), stands_for_half(b, n), countable(k)]
        stands_for_half(a, m) && stands_for_half(b, n) && countable(m) && countable(n) && countable(
            k,
        ) && 0 <= k && m * m + n * n == k * k ==> stands_for_half(hypot(unit, a, b), k)
}

/// A whole number is twice as many halves.
pub proof fn whole_numbers_are_halves(scalar: Scalar, number: int)
    requires
        stands_for(scalar, number),
    ensures
        stands_for_half(scalar, 2 * number),
{
    lemma_mul_is_associative(2, number, pow2(149) as int);
}

/// A pattern denotes the whole number that its fraction, shifted, spells.
pub proof fn patterns_denote_whole_numbers(bits: u32, number: int, shift: nat)
    requires
        BINADE <= bits < INFINITY,
        bits / BINADE + shift == 150,
        BINADE + bits % BINADE == number * pow2(shift),
    ensures
        stands_for(Scalar { bits }, number),
{
    let exponent = bits as int / (BINADE as int);
    assert((exponent - 1) as nat + shift == 149);
    lemma_pow2_adds(shift, (exponent - 1) as nat);
    lemma_mul_is_associative(number, pow2(shift) as int, pow2((exponent - 1) as nat) as int);
}

/// The larger and the smaller of two whole numbers.
pub proof fn whole_numbers_are_compared(left: Scalar, right: Scalar, m: int, n: int)
    requires
        stands_for(left, m),
        stands_for(right, n),
    ensures
        stands_for(left.larger(right), if m >= n {
            m
        } else {
            n
        }),
        stands_for(left.smaller(right), if m <= n {
            m
        } else {
            n
        }),
{
    whole_numbers_are_ordered(left, right, m, n);
    whole_numbers_are_ordered(right, left, n, m);
}

} // verus!
