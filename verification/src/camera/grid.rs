//! What snapping to the steps of a range does to whole numbers.

use crate::arithmetic::{minus, over, plus, round, times, Operation};
use crate::camera::controls::{snapped, ControlRange};
use crate::scalar::{order_is_numeric, Scalar, ZERO};
use vstd::arithmetic::power2::{lemma_pow2_pos, pow2};
use vstd::prelude::*;

verus! {

/// Whole numbers up to here, and their sums, are single-precision numbers.
pub const WHOLE_LIMIT: i64 = 0x10_0000;

/// Ends and steps of a range up to here stay within the limit when they are
/// combined.
pub const RANGE_LIMIT: i64 = 0x4_0000;

/// The pattern denotes this whole number.
pub open spec fn stands_for(scalar: Scalar, number: int) -> bool {
    !scalar.nan() && scalar.quanta() == number * pow2(149)
}

pub open spec fn small(number: int) -> bool {
    -WHOLE_LIMIT <= number <= WHOLE_LIMIT
}

/// The whole number nearest to a quotient of which neither part is negative; the
/// upper one where two are as near.
pub open spec fn nearest_quotient(number: int, divisor: int) -> int {
    (2 * number + divisor) / (2 * divisor)
}

/// The unit does not round where there is nothing to round: sums, differences and
/// products of small whole numbers are exact, and a rounded quotient is the whole
/// number that is nearest to the exact one.
pub open spec fn exact_on_whole_numbers<F: Fn(Operation) -> Scalar>(unit: F) -> bool {
    &&& forall|a: Scalar, b: Scalar, m: int, n: int|
        #![trigger plus(unit, a, b), stands_for(a, m), stands_for(b, n)]
        stands_for(a, m) && stands_for(b, n) && small(m) && small(n) ==> stands_for(
            plus(unit, a, b),
            m + n,
        )
    &&& forall|a: Scalar, b: Scalar, m: int, n: int|
        #![trigger minus(unit, a, b), stands_for(a, m), stands_for(b, n)]
        stands_for(a, m) && stands_for(b, n) && small(m) && small(n) ==> stands_for(
            minus(unit, a, b),
            m - n,
        )
    &&& forall|a: Scalar, b: Scalar, m: int, n: int|
        #![trigger times(unit, a, b), stands_for(a, m), stands_for(b, n)]
        stands_for(a, m) && stands_for(b, n) && small(m) && small(n) && small(m * n) ==> stands_for(
            times(unit, a, b),
            m * n,
        )
    &&& forall|a: Scalar, b: Scalar, m: int, n: int|
        #![trigger round(unit, over(unit, a, b)), stands_for(a, m), stands_for(b, n)]
        stands_for(a, m) && stands_for(b, n) && small(m) && small(n) && 0 <= m && 0 < n
            ==> stands_for(round(unit, over(unit, a, b)), nearest_quotient(m, n))
}

/// A range whose ends and steps are whole numbers.
pub struct WholeRange {
    pub min: int,
    pub max: int,
    pub step: int,
}

impl WholeRange {
    pub open spec fn wf(self) -> bool {
        &&& -RANGE_LIMIT <= self.min <= self.max <= RANGE_LIMIT
        &&& 1 <= self.step <= RANGE_LIMIT
    }

    /// The camera reports this range.
    pub open spec fn of(self, range: ControlRange) -> bool {
        &&& stands_for(range.min, self.min)
        &&& stands_for(range.max, self.max)
        &&& stands_for(range.step, self.step)
    }

    /// The step nearest to a value, or the upper end where that step lies beyond it.
    pub open spec fn snap(self, value: int) -> int {
        let nearest = self.min + nearest_quotient(value - self.min, self.step) * self.step;
        if nearest > self.max {
            self.max
        } else {
            nearest
        }
    }

    /// The value lies a whole number of steps above the lower end.
    pub open spec fn is_step(self, value: int) -> bool {
        exists|k: int| 0 <= k && value == self.min + #[trigger] (k * self.step)
    }
}

proof fn lemma_nearest(number: int, divisor: int)
    requires
        0 <= number,
        0 < divisor,
    ensures
        0 <= nearest_quotient(number, divisor),
        2 * number - divisor < 2 * (nearest_quotient(number, divisor) * divisor) <= 2 * number
            + divisor,
{
    let q = nearest_quotient(number, divisor);
    let top = 2 * number + divisor;
    assert(q * (2 * divisor) <= top < q * (2 * divisor) + 2 * divisor && 0 <= q)
        by (nonlinear_arith)
        requires
            q == top / (2 * divisor),
            0 < divisor,
            0 <= top,
    ;
    assert(q * (2 * divisor) == 2 * (q * divisor)) by (nonlinear_arith);
}

/// Steps that lie within half a step of each other are one.
proof fn lemma_same_step(left: int, right: int, divisor: int)
    requires
        0 < divisor,
        left * divisor - right * divisor < divisor,
        right * divisor - left * divisor < divisor,
    ensures
        left == right,
{
    assert(left == right) by (nonlinear_arith)
        requires
            0 < divisor,
            left * divisor - right * divisor < divisor,
            right * divisor - left * divisor < divisor,
    ;
}

/// A snapped value lies in the range, on a step or at the upper end, and no more
/// than half a step from where it was; snapping it again leaves it where it is.
pub proof fn snapped_values_lie_on_steps(range: WholeRange, value: int)
    requires
        range.wf(),
        range.min <= value <= range.max,
    ensures
        range.min <= range.snap(value) <= range.max,
        range.snap(value) == range.max || range.is_step(range.snap(value)),
        -range.step <= 2 * (range.snap(value) - value) <= range.step,
        range.snap(range.snap(value)) == range.snap(value),
{
    let step = range.step;
    let k = nearest_quotient(value - range.min, step);
    lemma_nearest(value - range.min, step);
    let at = range.snap(value);
    assert(0 <= k * step) by (nonlinear_arith)
        requires
            0 <= k,
            0 < step,
    ;
    lemma_nearest(at - range.min, step);
    let again = nearest_quotient(at - range.min, step);
    if range.min + k * step <= range.max {
        lemma_same_step(again, k, step);
    } else if again * step <= range.max - range.min {
        // The upper end is at least half a step above the step below it.
        assert(again < k) by (nonlinear_arith)
            requires
                again * step < k * step,
                0 < step,
        ;
        assert(again * step + step <= k * step) by (nonlinear_arith)
            requires
                again < k,
                0 < step,
        ;
        assert(again * step == range.max - range.min);
    }
}

/// Snapping keeps the order of values.
pub proof fn snapping_keeps_order(range: WholeRange, low: int, high: int)
    requires
        range.wf(),
        range.min <= low <= high <= range.max,
    ensures
        range.snap(low) <= range.snap(high),
{
    let step = range.step;
    let l = nearest_quotient(low - range.min, step);
    let h = nearest_quotient(high - range.min, step);
    assert(l <= h) by (nonlinear_arith)
        requires
            l == (2 * (low - range.min) + step) / (2 * step),
            h == (2 * (high - range.min) + step) / (2 * step),
            low <= high,
            0 < step,
    ;
    assert(l * step <= h * step) by (nonlinear_arith)
        requires
            l <= h,
            0 < step,
    ;
}

/// Whole numbers are ordered as they are counted.
pub proof fn whole_numbers_are_ordered(left: Scalar, right: Scalar, m: int, n: int)
    requires
        stands_for(left, m),
        stands_for(right, n),
    ensures
        left.less(right) <==> m < n,
        left.less_equal(right) <==> m <= n,
{
    order_is_numeric(left, right);
    let unit = pow2(149) as int;
    lemma_pow2_pos(149);
    assert((m * unit < n * unit) == (m < n) && (m * unit <= n * unit) == (m <= n))
        by (nonlinear_arith)
        requires
            0 < unit,
    ;
}

/// Zero stands for zero.
pub proof fn zero_is_zero()
    ensures
        stands_for(Scalar { bits: ZERO }, 0),
{
    let zero = Scalar { bits: ZERO };
    assert(zero.quanta() == 0);
    assert(0 * pow2(149) == 0) by (nonlinear_arith);
}

/// Where the unit does not round whole numbers, snapping a whole number gives the
/// one that the whole range snaps it to.
pub proof fn whole_numbers_are_snapped<F: Fn(Operation) -> Scalar>(
    unit: F,
    target: Scalar,
    range: ControlRange,
    value: int,
    whole: WholeRange,
)
    requires
        exact_on_whole_numbers(unit),
        whole.wf(),
        whole.of(range),
        stands_for(target, value),
        whole.min <= value <= whole.max,
    ensures
        stands_for(snapped(unit, target, range), whole.snap(value)),
{
    let offset = value - whole.min;
    let step = whole.step;
    let k = nearest_quotient(offset, step);
    lemma_nearest(offset, step);
    zero_is_zero();
    whole_numbers_are_ordered(range.step, Scalar { bits: ZERO }, step, 0);
    let difference = minus(unit, target, range.min);
    assert(stands_for(difference, offset));
    let steps = round(unit, over(unit, difference, range.step));
    assert(stands_for(steps, k));
    assert(0 <= k * step) by (nonlinear_arith)
        requires
            0 <= k,
            0 < step,
    ;
    assert(k <= k * step) by (nonlinear_arith)
        requires
            0 <= k,
            1 <= step,
    ;
    let distance = times(unit, steps, range.step);
    assert(stands_for(distance, k * step));
    let nearest = plus(unit, range.min, distance);
    assert(stands_for(nearest, whole.min + k * step));
    whole_numbers_are_ordered(nearest, range.min, whole.min + k * step, whole.min);
    whole_numbers_are_ordered(range.max, nearest, whole.max, whole.min + k * step);
}

/// Where the unit does not round whole numbers, a snapped whole number lies in the
/// range, on a step or at the upper end, and no more than half a step from where it
/// was; snapping it again gives the same number, and snapping keeps the order of
/// two numbers.
pub proof fn snapping_follows_the_steps<F: Fn(Operation) -> Scalar>(
    unit: F,
    target: Scalar,
    other: Scalar,
    range: ControlRange,
    value: int,
    higher: int,
    whole: WholeRange,
)
    requires
        exact_on_whole_numbers(unit),
        whole.wf(),
        whole.of(range),
        stands_for(target, value),
        stands_for(other, higher),
        whole.min <= value <= higher <= whole.max,
    ensures
        ({
            let at = snapped(unit, target, range);
            let number = whole.snap(value);
            &&& stands_for(at, number)
            &&& whole.min <= number <= whole.max
            &&& number == whole.max || whole.is_step(number)
            &&& -whole.step <= 2 * (number - value) <= whole.step
            &&& stands_for(snapped(unit, at, range), number)
            &&& at.less_equal(snapped(unit, other, range))
        }),
{
    let at = snapped(unit, target, range);
    whole_numbers_are_snapped(unit, target, range, value, whole);
    whole_numbers_are_snapped(unit, other, range, higher, whole);
    snapped_values_lie_on_steps(whole, value);
    whole_numbers_are_snapped(unit, at, range, whole.snap(value), whole);
    snapping_keeps_order(whole, value, higher);
    whole_numbers_are_ordered(at, snapped(unit, other, range), whole.snap(value), whole.snap(higher));
}

} // verus!
