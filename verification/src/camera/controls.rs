//! Pan, tilt and zoom values, the ranges a camera reports for them, and the
//! rules that keep commanded values inside those ranges.

use crate::arithmetic::{
    computes, difference, minus, over, plus, product, quotient, round, rounded, sum, times,
    Operation,
};
use crate::scalar::{Scalar, ONE, ZERO};
use vstd::prelude::*;

verus! {

/// Distance, as a bit pattern, that tracking keeps from the ends of the pan
/// range: 8 degrees.
pub const TRACKING_PAN_LIMIT_MARGIN: u32 = 0x4100_0000;

/// Distance, as a bit pattern, that tracking keeps from the ends of the tilt
/// range: 8 degrees.
pub const TRACKING_TILT_LIMIT_MARGIN: u32 = 0x4100_0000;

/// A direction in which the camera moves.
#[derive(Copy, Clone, Debug, PartialEq, Eq, Structural)]
pub enum Axis {
    Pan,
    Tilt,
    Zoom,
}

impl Axis {
    pub fn label(self) -> (r: &'static str)
        ensures
            r@ == (match self {
                Axis::Pan => "Pan"@,
                Axis::Tilt => "Tilt"@,
                Axis::Zoom => "Zoom"@,
            }),
    {
        match self {
            Axis::Pan => "Pan",
            Axis::Tilt => "Tilt",
            Axis::Zoom => "Zoom",
        }
    }
}

/// What a camera reports of one axis.
#[derive(Copy, Clone, Debug, PartialEq, Eq, Structural)]
pub struct ControlRange {
    pub min: Scalar,
    pub max: Scalar,
    pub step: Scalar,
    pub default: Scalar,
}

impl ControlRange {
    /// The ends are numbers in ascending order, so that values can be clamped
    /// to them.
    pub open spec fn ordered(self) -> bool {
        self.min.less_equal(self.max)
    }

    /// Whether values can be clamped to the range.
    pub fn is_ordered(&self) -> (r: bool)
        ensures
            r == self.ordered(),
    {
        self.min.at_most(self.max)
    }

    /// `target` lies between the ends of the range.
    pub open spec fn contains(self, target: Scalar) -> bool {
        self.min.less_equal(target) && target.less_equal(self.max)
    }
}

/// The axes a camera can move on its own.
#[derive(Copy, Clone, Debug, PartialEq, Eq)]
pub struct ControlCapabilities {
    pub pan: Option<ControlRange>,
    pub tilt: Option<ControlRange>,
    pub zoom: Option<ControlRange>,
}

impl ControlCapabilities {
    pub open spec fn range(self, axis: Axis) -> Option<ControlRange> {
        match axis {
            Axis::Pan => self.pan,
            Axis::Tilt => self.tilt,
            Axis::Zoom => self.zoom,
        }
    }

    /// Values for `axis` can be clamped: its range, if there is one, is ordered.
    pub open spec fn clamps(self, axis: Axis) -> bool {
        self.range(axis) matches Some(range) ==> range.ordered()
    }
}

/// A position, or a move that leaves out the axes that are to stay.
#[derive(Copy, Clone, Debug, PartialEq, Eq)]
pub struct Controls {
    pub pan: Option<Scalar>,
    pub tilt: Option<Scalar>,
    pub zoom: Option<Scalar>,
}

impl Controls {
    pub open spec fn get(self, axis: Axis) -> Option<Scalar> {
        match axis {
            Axis::Pan => self.pan,
            Axis::Tilt => self.tilt,
            Axis::Zoom => self.zoom,
        }
    }

    /// The move that sets one axis.
    pub open spec fn single(axis: Axis, target: Scalar) -> Controls {
        match axis {
            Axis::Pan => Controls { pan: Some(target), tilt: None, zoom: None },
            Axis::Tilt => Controls { pan: None, tilt: Some(target), zoom: None },
            Axis::Zoom => Controls { pan: None, tilt: None, zoom: Some(target) },
        }
    }

    /// The value of one axis.
    pub fn position(&self, axis: Axis) -> (r: Option<Scalar>)
        ensures
            r == self.get(axis),
    {
        match axis {
            Axis::Pan => self.pan,
            Axis::Tilt => self.tilt,
            Axis::Zoom => self.zoom,
        }
    }

    /// The move that sets one axis.
    pub fn on_axis(axis: Axis, target: Scalar) -> (r: Controls)
        ensures
            r == Controls::single(axis, target),
    {
        match axis {
            Axis::Pan => Controls { pan: Some(target), tilt: None, zoom: None },
            Axis::Tilt => Controls { pan: None, tilt: Some(target), zoom: None },
            Axis::Zoom => Controls { pan: None, tilt: None, zoom: Some(target) },
        }
    }
}

pub fn range_for_axis(capabilities: &ControlCapabilities, axis: Axis) -> (r: Option<ControlRange>)
    ensures
        r == capabilities.range(axis),
{
    match axis {
        Axis::Pan => capabilities.pan,
        Axis::Tilt => capabilities.tilt,
        Axis::Zoom => capabilities.zoom,
    }
}

/// The value a whole number of steps from the lower end that is nearest to
/// `target`.
pub open spec fn stepped<F: Fn(Operation) -> Scalar>(
    unit: F,
    target: Scalar,
    min: Scalar,
    step: Scalar,
) -> Scalar {
    plus(unit, min, times(unit, round(unit, over(unit, minus(unit, target, min), step)), step))
}

pub fn nearest_step<F: Fn(Operation) -> Scalar>(
    unit: &F,
    target: Scalar,
    min: Scalar,
    step: Scalar,
) -> (r: Scalar)
    requires
        computes(*unit),
    ensures
        r == stepped(*unit, target, min, step),
{
    let offset = difference(unit, target, min);
    let ratio = quotient(unit, offset, step);
    let steps = rounded(unit, ratio);
    let distance = product(unit, steps, step);
    sum(unit, min, distance)
}

/// What `snap_to_step` gives.
pub open spec fn snapped<F: Fn(Operation) -> Scalar>(
    unit: F,
    target: Scalar,
    range: ControlRange,
) -> Scalar {
    if range.step.less_equal(Scalar { bits: ZERO }) {
        target.clamped(range.min, range.max)
    } else {
        stepped(unit, target, range.min, range.step).clamped(range.min, range.max)
    }
}

/// Moves `target` to the nearest step of the range; where the range has no
/// steps, only into the range.
pub fn snap_to_step<F: Fn(Operation) -> Scalar>(
    target: Scalar,
    range: ControlRange,
    unit: &F,
) -> (r: Scalar)
    requires
        computes(*unit),
        range.ordered(),
    ensures
        r == snapped(*unit, target, range),
        !r.nan() ==> range.contains(r),
{
    if range.step.at_most(Scalar::from_bits(ZERO)) {
        return target.clamp(range.min, range.max);
    }
    nearest_step(unit, target, range.min, range.step).clamp(range.min, range.max)
}

/// What `tracking_safe_bounds` gives.
pub open spec fn safe_bounds<F: Fn(Operation) -> Scalar>(
    unit: F,
    range: ControlRange,
    margin: Scalar,
) -> (Scalar, Scalar) {
    let low = plus(unit, range.min, margin);
    let high = minus(unit, range.max, margin);
    if low.less_equal(high) {
        (low, high)
    } else {
        (range.min, range.max)
    }
}

/// The range narrowed by a margin at both ends; the whole range where the
/// margins would leave nothing.
pub fn tracking_safe_bounds<F: Fn(Operation) -> Scalar>(
    range: ControlRange,
    margin: Scalar,
    unit: &F,
) -> (r: (Scalar, Scalar))
    requires
        computes(*unit),
    ensures
        r == safe_bounds(*unit, range, margin),
        range.ordered() ==> r.0.less_equal(r.1),
{
    let low = sum(unit, range.min, margin);
    let high = difference(unit, range.max, margin);
    if low.at_most(high) {
        (low, high)
    } else {
        (range.min, range.max)
    }
}

/// What `tracking_safe_target` gives.
pub open spec fn safe_target<F: Fn(Operation) -> Scalar>(
    unit: F,
    target: Scalar,
    range: ControlRange,
    margin: Scalar,
) -> Scalar {
    let bounds = safe_bounds(unit, range, margin);
    snapped(unit, target.clamped(bounds.0, bounds.1), range)
}

/// Pulls `target` inside the safe bounds, then to the nearest step.
pub fn tracking_safe_target<F: Fn(Operation) -> Scalar>(
    target: Scalar,
    range: ControlRange,
    margin: Scalar,
    unit: &F,
) -> (r: Scalar)
    requires
        computes(*unit),
        range.ordered(),
    ensures
        r == safe_target(*unit, target, range, margin),
        !r.nan() ==> range.contains(r),
{
    let bounds = tracking_safe_bounds(range, margin, unit);
    snap_to_step(target.clamp(bounds.0, bounds.1), range, unit)
}

/// A command that would drive an axis further out although it stands at or
/// beyond a safe bound becomes 0; any other command, and any command whose
/// position or range is unknown, stays.
pub open spec fn limited<F: Fn(Operation) -> Scalar>(
    unit: F,
    actual: Option<Scalar>,
    range: Option<ControlRange>,
    margin: Scalar,
    command: i32,
) -> i32 {
    match (actual, range) {
        (Some(at), Some(range)) => {
            let bounds = safe_bounds(unit, range, margin);
            if (command < 0 && at.less_equal(bounds.0)) || (command > 0 && bounds.1.less_equal(at)) {
                0i32
            } else {
                command
            }
        },
        _ => command,
    }
}

fn limit_axis<F: Fn(Operation) -> Scalar>(
    actual: Option<Scalar>,
    range: Option<ControlRange>,
    margin: Scalar,
    command: i32,
    unit: &F,
) -> (r: i32)
    requires
        computes(*unit),
    ensures
        r == limited(*unit, actual, range, margin, command),
{
    if let (Some(at), Some(range)) = (actual, range) {
        let bounds = tracking_safe_bounds(range, margin, unit);
        if (command < 0 && at.at_most(bounds.0)) || (command > 0 && bounds.1.at_most(at)) {
            return 0;
        }
    }
    command
}

/// Applies the safe bounds to a pan and tilt command at the position that was
/// read back.
pub fn limit_tracking_output<F: Fn(Operation) -> Scalar>(
    controls: &Controls,
    capabilities: &ControlCapabilities,
    pan: i32,
    tilt: i32,
    unit: &F,
) -> (r: (i32, i32))
    requires
        computes(*unit),
    ensures
        r.0 == limited(
            *unit,
            controls.pan,
            capabilities.pan,
            Scalar { bits: TRACKING_PAN_LIMIT_MARGIN },
            pan,
        ),
        r.1 == limited(
            *unit,
            controls.tilt,
            capabilities.tilt,
            Scalar { bits: TRACKING_TILT_LIMIT_MARGIN },
            tilt,
        ),
{
    let safe_pan = limit_axis(
        controls.pan,
        capabilities.pan,
        Scalar::from_bits(TRACKING_PAN_LIMIT_MARGIN),
        pan,
        unit,
    );
    let safe_tilt = limit_axis(
        controls.tilt,
        capabilities.tilt,
        Scalar::from_bits(TRACKING_TILT_LIMIT_MARGIN),
        tilt,
        unit,
    );
    (safe_pan, safe_tilt)
}

/// The distance from a target within which an axis counts as arrived: a step,
/// and never less than one.
pub open spec fn tolerance_spec(range: ControlRange) -> Scalar {
    range.step.larger(Scalar { bits: ONE })
}

pub fn tolerance(range: ControlRange) -> (r: Scalar)
    ensures
        r == tolerance_spec(range),
{
    range.step.max(Scalar::from_bits(ONE))
}

/// `actual` is no further from `target` than `within`.
pub open spec fn near<F: Fn(Operation) -> Scalar>(
    unit: F,
    actual: Scalar,
    target: Scalar,
    within: Scalar,
) -> bool {
    minus(unit, actual, target).absolute().less_equal(within)
}

pub fn is_near<F: Fn(Operation) -> Scalar>(
    actual: Scalar,
    target: Scalar,
    within: Scalar,
    unit: &F,
) -> (r: bool)
    requires
        computes(*unit),
    ensures
        r == near(*unit, actual, target, within),
{
    difference(unit, actual, target).abs().at_most(within)
}

/// An axis without target has nothing to reach; one with a target has reached
/// it when its position and its range are known and the position is near.
pub open spec fn reached<F: Fn(Operation) -> Scalar>(
    unit: F,
    target: Option<Scalar>,
    actual: Option<Scalar>,
    range: Option<ControlRange>,
) -> bool {
    match target {
        None => true,
        Some(target) => match (actual, range) {
            (Some(actual), Some(range)) => near(unit, actual, target, tolerance_spec(range)),
            _ => false,
        },
    }
}

pub fn has_reached<F: Fn(Operation) -> Scalar>(
    target: Option<Scalar>,
    actual: Option<Scalar>,
    range: Option<ControlRange>,
    unit: &F,
) -> (r: bool)
    requires
        computes(*unit),
    ensures
        r == reached(*unit, target, actual, range),
{
    match target {
        None => true,
        Some(target) => match (actual, range) {
            (Some(actual), Some(range)) => is_near(actual, target, tolerance(range), unit),
            _ => false,
        },
    }
}

/// Every axis has reached its target.
pub open spec fn all_reached<F: Fn(Operation) -> Scalar>(
    unit: F,
    targets: Controls,
    actual: Controls,
    capabilities: ControlCapabilities,
) -> bool {
    forall|axis: Axis| reached(unit, targets.get(axis), #[trigger] actual.get(axis), capabilities.range(axis))
}

pub fn targets_reached<F: Fn(Operation) -> Scalar>(
    targets: &Controls,
    actual: &Controls,
    capabilities: &ControlCapabilities,
    unit: &F,
) -> (r: bool)
    requires
        computes(*unit),
    ensures
        r == all_reached(*unit, *targets, *actual, *capabilities),
{
    let pan = has_reached(targets.pan, actual.pan, capabilities.pan, unit);
    let tilt = has_reached(targets.tilt, actual.tilt, capabilities.tilt, unit);
    let zoom = has_reached(targets.zoom, actual.zoom, capabilities.zoom, unit);
    proof {
        assert(actual.get(Axis::Pan) == actual.pan);
        assert(actual.get(Axis::Tilt) == actual.tilt);
        assert(actual.get(Axis::Zoom) == actual.zoom);
    }
    pan && tilt && zoom
}

/// A commanded target never leaves the range that the camera reports: whatever
/// the arithmetic unit answers, snapping and the safe target give a value in
/// the range, or a NaN.
pub proof fn targets_stay_in_range<F: Fn(Operation) -> Scalar>(
    unit: F,
    target: Scalar,
    range: ControlRange,
    margin: Scalar,
)
    requires
        range.ordered(),
    ensures
        !snapped(unit, target, range).nan() ==> range.contains(snapped(unit, target, range)),
        !safe_target(unit, target, range, margin).nan() ==> range.contains(
            safe_target(unit, target, range, margin),
        ),
{
}

/// Limiting never turns a command around or invents one: it keeps the command
/// or stops it, and it always stops one that points out of a range from its end.
pub proof fn limiting_only_stops<F: Fn(Operation) -> Scalar>(
    unit: F,
    at: Scalar,
    range: ControlRange,
    margin: Scalar,
    command: i32,
)
    ensures
        limited(unit, Some(at), Some(range), margin, command) == command || limited(
            unit,
            Some(at),
            Some(range),
            margin,
            command,
        ) == 0,
        command < 0 && at.less_equal(safe_bounds(unit, range, margin).0) ==> limited(
            unit,
            Some(at),
            Some(range),
            margin,
            command,
        ) == 0,
        command > 0 && safe_bounds(unit, range, margin).1.less_equal(at) ==> limited(
            unit,
            Some(at),
            Some(range),
            margin,
            command,
        ) == 0,
{
}

/// Each axis has its own range, its own position and its own place in a move.
pub proof fn axes_are_kept_apart(
    capabilities: ControlCapabilities,
    at: Controls,
    axis: Axis,
    other: Axis,
    target: Scalar,
)
    ensures
        capabilities.range(Axis::Pan) == capabilities.pan,
        capabilities.range(Axis::Tilt) == capabilities.tilt,
        capabilities.range(Axis::Zoom) == capabilities.zoom,
        at.get(Axis::Pan) == at.pan,
        at.get(Axis::Tilt) == at.tilt,
        at.get(Axis::Zoom) == at.zoom,
        Controls::single(axis, target).get(other) == if axis == other {
            Some(target)
        } else {
            None
        },
{
}

/// Without a step a value is only moved into the range; with one it is the nearest
/// whole number of steps from the lower end, moved into the range.
pub proof fn steps_start_at_the_lower_end<F: Fn(Operation) -> Scalar>(
    unit: F,
    target: Scalar,
    range: ControlRange,
)
    ensures
        range.step.less_equal(Scalar { bits: 0 }) ==> snapped(unit, target, range)
            == target.clamped(range.min, range.max),
        !range.step.less_equal(Scalar { bits: 0 }) ==> ({
            let count = round(unit, over(unit, minus(unit, target, range.min), range.step));
            snapped(unit, target, range) == plus(
                unit,
                range.min,
                times(unit, count, range.step),
            ).clamped(range.min, range.max)
        }),
{
}

} // verus!
