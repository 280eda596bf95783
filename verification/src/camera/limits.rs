//! What limits, tolerances and moves are where a camera counts in whole numbers.

use crate::arithmetic::{minus, plus, Operation};
use crate::camera::controls::{
    all_reached, limited, near, reached, safe_bounds, safe_target, tolerance_spec, Axis,
    ControlCapabilities, ControlRange, Controls,
};
use crate::camera::grid::{
    exact_on_whole_numbers, small, snapped_values_lie_on_steps, stands_for, whole_numbers_are_ordered,
    whole_numbers_are_snapped, WholeRange, RANGE_LIMIT,
};
use crate::camera::motion::{grid_snapped, grid_tolerance};
use crate::camera::worker::relative_target;
use crate::scalar::{order_is_numeric, Scalar, EPSILON, ONE};
use crate::whole::{patterns_denote_whole_numbers, whole_numbers_are_compared};
use vstd::arithmetic::mul::lemma_mul_unary_negation;
use vstd::arithmetic::power2::{lemma2_to64, lemma_pow2_pos, pow2};
use vstd::prelude::*;

verus! {

/// `value`, or the end that it lies beyond.
pub open spec fn between(value: int, low: int, high: int) -> int {
    if value < low {
        low
    } else if value > high {
        high
    } else {
        value
    }
}

impl WholeRange {
    /// The ends, drawn in by a margin unless the margins would meet.
    pub open spec fn inner(self, margin: int) -> (int, int) {
        if self.min + margin <= self.max - margin {
            (self.min + margin, self.max - margin)
        } else {
            (self.min, self.max)
        }
    }
}

/// Clamping a whole number.
pub proof fn whole_numbers_are_clamped(
    scalar: Scalar,
    low: Scalar,
    high: Scalar,
    value: int,
    least: int,
    most: int,
)
    requires
        stands_for(scalar, value),
        stands_for(low, least),
        stands_for(high, most),
        least <= most,
    ensures
        stands_for(scalar.clamped(low, high), between(value, least, most)),
{
    whole_numbers_are_ordered(scalar, low, value, least);
    whole_numbers_are_ordered(high, scalar, most, value);
}

/// The safe bounds keep a margin from both ends of a range, and are the ends where
/// the range is too narrow for that.
pub proof fn margins_are_kept<F: Fn(Operation) -> Scalar>(
    unit: F,
    range: ControlRange,
    margin: Scalar,
    whole: WholeRange,
    distance: int,
)
    requires
        exact_on_whole_numbers(unit),
        whole.wf(),
        whole.of(range),
        stands_for(margin, distance),
        0 <= distance <= RANGE_LIMIT,
    ensures
        stands_for(safe_bounds(unit, range, margin).0, whole.inner(distance).0),
        stands_for(safe_bounds(unit, range, margin).1, whole.inner(distance).1),
{
    let low = plus(unit, range.min, margin);
    let high = minus(unit, range.max, margin);
    assert(stands_for(low, whole.min + distance));
    assert(stands_for(high, whole.max - distance));
    whole_numbers_are_ordered(low, high, whole.min + distance, whole.max - distance);
}

/// A direction is kept exactly while the camera is short of the safe bound that it
/// leads to; without a position or a range it is always kept.
pub proof fn directions_end_at_the_margin<F: Fn(Operation) -> Scalar>(
    unit: F,
    at: Scalar,
    range: ControlRange,
    margin: Scalar,
    command: i32,
    value: int,
    whole: WholeRange,
    distance: int,
)
    requires
        exact_on_whole_numbers(unit),
        whole.wf(),
        whole.of(range),
        stands_for(at, value),
        stands_for(margin, distance),
        0 <= distance <= RANGE_LIMIT,
    ensures
        limited(unit, Some(at), Some(range), margin, command) == (if (command < 0 && value
            <= whole.inner(distance).0) || (command > 0 && value >= whole.inner(distance).1) {
            0
        } else {
            command
        }),
        limited(unit, None, Some(range), margin, command) == command,
        limited(unit, Some(at), None, margin, command) == command,
        limited(unit, None, None, margin, command) == command,
{
    margins_are_kept(unit, range, margin, whole, distance);
    let bounds = safe_bounds(unit, range, margin);
    whole_numbers_are_ordered(at, bounds.0, value, whole.inner(distance).0);
    whole_numbers_are_ordered(bounds.1, at, whole.inner(distance).1, value);
}

/// A safe target is the step nearest to the value, moved within the safe bounds.
pub proof fn safe_targets_keep_the_margin<F: Fn(Operation) -> Scalar>(
    unit: F,
    target: Scalar,
    range: ControlRange,
    margin: Scalar,
    value: int,
    whole: WholeRange,
    distance: int,
)
    requires
        exact_on_whole_numbers(unit),
        whole.wf(),
        whole.of(range),
        stands_for(target, value),
        stands_for(margin, distance),
        0 <= distance <= RANGE_LIMIT,
    ensures
        ({
            let (low, high) = whole.inner(distance);
            let moved = between(value, low, high);
            let number = whole.snap(moved);
            &&& stands_for(safe_target(unit, target, range, margin), number)
            &&& low <= moved <= high
            &&& -whole.step <= 2 * (number - moved) <= whole.step
        }),
{
    margins_are_kept(unit, range, margin, whole, distance);
    let bounds = safe_bounds(unit, range, margin);
    let (low, high) = whole.inner(distance);
    let moved = between(value, low, high);
    whole_numbers_are_clamped(target, bounds.0, bounds.1, value, low, high);
    whole_numbers_are_snapped(
        unit,
        target.clamped(bounds.0, bounds.1),
        range,
        moved,
        whole,
    );
    snapped_values_lie_on_steps(whole, moved);
}

/// A relative move goes from where the axis is, or from its default, by the amount,
/// as far as the range reaches, to the nearest step.
pub proof fn relative_moves_add_up<F: Fn(Operation) -> Scalar>(
    unit: F,
    current: Option<Scalar>,
    amount: Scalar,
    range: ControlRange,
    from: int,
    by: int,
    whole: WholeRange,
)
    requires
        exact_on_whole_numbers(unit),
        whole.wf(),
        whole.of(range),
        stands_for(
            match current {
                Some(at) => at,
                None => range.default,
            },
            from,
        ),
        stands_for(amount, by),
        small(from),
        small(by),
    ensures
        stands_for(
            relative_target(unit, current, amount, range),
            whole.snap(between(from + by, whole.min, whole.max)),
        ),
{
    let at = match current {
        Some(at) => at,
        None => range.default,
    };
    let target = plus(unit, at, amount);
    assert(stands_for(target, from + by));
    whole_numbers_are_clamped(target, range.min, range.max, from + by, whole.min, whole.max);
    whole_numbers_are_snapped(
        unit,
        target.clamped(range.min, range.max),
        range,
        between(from + by, whole.min, whole.max),
        whole,
    );
}

/// The absolute value of a whole number.
pub proof fn absolute_values(scalar: Scalar, number: int)
    requires
        stands_for(scalar, number),
    ensures
        stands_for(scalar.absolute(), if number < 0 {
            -number
        } else {
            number
        }),
{
    let unit = pow2(149) as int;
    lemma_pow2_pos(149);
    lemma_mul_unary_negation(number, unit);
    let positive = scalar.absolute();
    assert(positive.magnitude() == scalar.magnitude());
    order_is_numeric(positive, Scalar { bits: 0 });
    order_is_numeric(scalar, Scalar { bits: 0 });
    assert((number * unit < 0) == (number < 0)) by (nonlinear_arith)
        requires
            0 < unit,
    ;
}

/// A value is near another when it is no farther from it than the tolerance.
pub proof fn nearness_is_a_distance<F: Fn(Operation) -> Scalar>(
    unit: F,
    actual: Scalar,
    target: Scalar,
    within: Scalar,
    at: int,
    goal: int,
    far: int,
)
    requires
        exact_on_whole_numbers(unit),
        stands_for(actual, at),
        stands_for(target, goal),
        stands_for(within, far),
        small(at),
        small(goal),
    ensures
        near(unit, actual, target, within) <==> -far <= at - goal <= far,
{
    let distance = minus(unit, actual, target);
    assert(stands_for(distance, at - goal));
    absolute_values(distance, at - goal);
    let size: int = if at - goal < 0 {
        goal - at
    } else {
        at - goal
    };
    whole_numbers_are_ordered(distance.absolute(), within, size, far);
}

proof fn lemma_one()
    ensures
        stands_for(Scalar { bits: ONE }, 1),
{
    lemma2_to64();
    patterns_denote_whole_numbers(ONE, 1, 23);
}

/// An axis has arrived within a step of its target, and within one where the step
/// is smaller. The sign of the step does not matter to a calibration.
pub proof fn tolerance_is_a_step(range: ControlRange, step: int)
    requires
        stands_for(range.step, step),
    ensures
        stands_for(tolerance_spec(range), if step >= 1 {
            step
        } else {
            1
        }),
        stands_for(
            grid_tolerance(range),
            if step >= 1 {
                step
            } else if step <= -1 {
                -step
            } else {
                1
            },
        ),
{
    lemma_one();
    absolute_values(range.step, step);
    whole_numbers_are_compared(range.step, Scalar { bits: ONE }, step, 1);
    whole_numbers_are_compared(
        range.step.absolute(),
        Scalar { bits: ONE },
        if step < 0 {
            -step
        } else {
            step
        },
        1,
    );
}

/// A move is over exactly when every axis that it sets can be read, has a range and
/// is near its target; the axes that it leaves out do not matter.
pub proof fn moves_end_on_every_axis<F: Fn(Operation) -> Scalar>(
    unit: F,
    targets: Controls,
    actual: Controls,
    capabilities: ControlCapabilities,
)
    ensures
        all_reached(unit, targets, actual, capabilities) <==> {
            &&& (targets.pan matches Some(target) ==> actual.pan is Some && capabilities.pan is Some
                && near(
                unit,
                actual.pan->Some_0,
                target,
                tolerance_spec(capabilities.pan->Some_0),
            ))
            &&& (targets.tilt matches Some(target) ==> actual.tilt is Some && capabilities.tilt
                is Some && near(
                unit,
                actual.tilt->Some_0,
                target,
                tolerance_spec(capabilities.tilt->Some_0),
            ))
            &&& (targets.zoom matches Some(target) ==> actual.zoom is Some && capabilities.zoom
                is Some && near(
                unit,
                actual.zoom->Some_0,
                target,
                tolerance_spec(capabilities.zoom->Some_0),
            ))
        },
{
    assert(actual.get(Axis::Pan) == actual.pan);
    assert(actual.get(Axis::Tilt) == actual.tilt);
    assert(actual.get(Axis::Zoom) == actual.zoom);
    assert(reached(unit, targets.pan, actual.pan, capabilities.pan) <== all_reached(
        unit,
        targets,
        actual,
        capabilities,
    )) by {
        if all_reached(unit, targets, actual, capabilities) {
            assert(reached(
                unit,
                targets.get(Axis::Pan),
                actual.get(Axis::Pan),
                capabilities.range(Axis::Pan),
            ));
        }
    }
}

/// A whole number from one on is no rounding error.
pub proof fn steps_are_larger_than_epsilon(scalar: Scalar, number: int)
    requires
        stands_for(scalar, number),
        1 <= number,
    ensures
        !scalar.less_equal(Scalar { bits: EPSILON }),
        (Scalar { bits: EPSILON }).less(scalar),
{
    lemma_one();
    whole_numbers_are_ordered(Scalar { bits: ONE }, scalar, 1, number);
}

/// A calibration snaps to the same steps, whatever the sign of the step.
pub proof fn calibrations_snap_to_the_steps<F: Fn(Operation) -> Scalar>(
    unit: F,
    target: Scalar,
    range: ControlRange,
    value: int,
    whole: WholeRange,
)
    requires
        exact_on_whole_numbers(unit),
        whole.wf(),
        stands_for(range.min, whole.min),
        stands_for(range.max, whole.max),
        stands_for(range.step, whole.step) || stands_for(range.step, -whole.step),
        stands_for(target, value),
        whole.min <= value <= whole.max,
    ensures
        stands_for(grid_snapped(unit, target, range), whole.snap(value)),
{
    let step = range.step.absolute();
    if stands_for(range.step, whole.step) {
        absolute_values(range.step, whole.step);
    } else {
        absolute_values(range.step, -whole.step);
    }
    steps_are_larger_than_epsilon(step, whole.step);
    let positive = ControlRange { step, ..range };
    whole_numbers_are_ordered(step, Scalar { bits: 0 }, whole.step, 0);
    whole_numbers_are_snapped(unit, target, positive, value, whole);
}

} // verus!
