//! Absolute moves of a calibration: where they go and when they have arrived.

use crate::arithmetic::{computes, Operation};
use crate::camera::controls::{is_near, near, nearest_step, stepped, ControlRange, Controls};
use crate::camera::grid::{exact_on_whole_numbers, small, stands_for};
use crate::camera::limits::nearness_is_a_distance;
use crate::clock::{elapsed, elapsed_spec};
use crate::scalar::{Scalar, EPSILON, ONE};
use vstd::prelude::*;

verus! {

/// The step of the range nearest to `target`, whatever the step's sign; the value
/// itself where there is hardly any step. Either way inside the range.
pub open spec fn grid_snapped<F: Fn(Operation) -> Scalar>(
    unit: F,
    target: Scalar,
    range: ControlRange,
) -> Scalar {
    let step = range.step.absolute();
    if step.less_equal(Scalar { bits: EPSILON }) {
        target.clamped(range.min, range.max)
    } else {
        stepped(unit, target, range.min, step).clamped(range.min, range.max)
    }
}

pub fn snap_to_grid<F: Fn(Operation) -> Scalar>(
    target: Scalar,
    range: &ControlRange,
    unit: &F,
) -> (r: Scalar)
    requires
        computes(*unit),
        range.ordered(),
    ensures
        r == grid_snapped(*unit, target, *range),
        !r.nan() ==> range.contains(r),
{
    let step = range.step.abs();
    if step.at_most(Scalar::from_bits(EPSILON)) {
        return target.clamp(range.min, range.max);
    }
    nearest_step(unit, target, range.min, step).clamp(range.min, range.max)
}

/// How far from its target an axis may stop: a step, and one at least.
pub open spec fn grid_tolerance(range: ControlRange) -> Scalar {
    range.step.absolute().larger(Scalar { bits: ONE })
}

pub fn step_tolerance(range: &ControlRange) -> (r: Scalar)
    ensures
        r == grid_tolerance(*range),
{
    range.step.abs().max(Scalar::from_bits(ONE))
}

/// A position of pan and tilt, and how near counts as there.
#[derive(Copy, Clone, Debug)]
pub struct Destination {
    pub pan: Scalar,
    pub tilt: Scalar,
    pub pan_tolerance: Scalar,
    pub tilt_tolerance: Scalar,
}

/// How a move stands.
#[derive(Copy, Clone, Debug, Eq, PartialEq, Structural)]
pub enum MoveProgress {
    Arrived,
    TimedOut,
    /// Look again after a pause.
    Moving,
}

impl Destination {
    /// Both axes can be read and are near enough.
    pub open spec fn reached<F: Fn(Operation) -> Scalar>(self, unit: F, at: Controls) -> bool {
        &&& at.pan matches Some(pan)
        &&& near(unit, pan, self.pan, self.pan_tolerance)
        &&& at.tilt matches Some(tilt)
        &&& near(unit, tilt, self.tilt, self.tilt_tolerance)
    }

    /// How a move that began at `started` stands at `now`.
    pub open spec fn progress<F: Fn(Operation) -> Scalar>(
        self,
        unit: F,
        at: Controls,
        started: u128,
        now: u128,
        timeout: u128,
    ) -> MoveProgress {
        if self.reached(unit, at) {
            MoveProgress::Arrived
        } else if elapsed_spec(now, started) >= timeout {
            MoveProgress::TimedOut
        } else {
            MoveProgress::Moving
        }
    }

    pub fn look<F: Fn(Operation) -> Scalar>(
        &self,
        at: &Controls,
        started: u128,
        now: u128,
        timeout: u128,
        unit: &F,
    ) -> (r: MoveProgress)
        requires
            computes(*unit),
        ensures
            r == self.progress(*unit, *at, started, now, timeout),
    {
        let pan_done = match at.pan {
            Some(pan) => is_near(pan, self.pan, self.pan_tolerance, unit),
            None => false,
        };
        let tilt_done = match at.tilt {
            Some(tilt) => is_near(tilt, self.tilt, self.tilt_tolerance, unit),
            None => false,
        };
        if pan_done && tilt_done {
            MoveProgress::Arrived
        } else if elapsed(now, started) >= timeout {
            MoveProgress::TimedOut
        } else {
            MoveProgress::Moving
        }
    }
}

/// A move is not waited for beyond its time, whatever is read.
pub proof fn waiting_ends<F: Fn(Operation) -> Scalar>(
    unit: F,
    destination: Destination,
    at: Controls,
    started: u128,
    now: u128,
    timeout: u128,
)
    requires
        elapsed_spec(now, started) >= timeout,
    ensures
        !(destination.progress(unit, at, started, now, timeout) is Moving),
{
}

/// A destination is reached when both axes can be read and each is within its own
/// tolerance of its own value. Until then the move goes on, and once its time is over
/// it has failed.
pub proof fn destinations_are_reached_on_both_axes<F: Fn(Operation) -> Scalar>(
    unit: F,
    destination: Destination,
    at: Controls,
    started: u128,
    now: u128,
    timeout: u128,
    goal: (int, int),
    within: (int, int),
    read: (int, int),
)
    requires
        exact_on_whole_numbers(unit),
        stands_for(destination.pan, goal.0),
        stands_for(destination.tilt, goal.1),
        stands_for(destination.pan_tolerance, within.0),
        stands_for(destination.tilt_tolerance, within.1),
        at.pan matches Some(pan) ==> stands_for(pan, read.0),
        at.tilt matches Some(tilt) ==> stands_for(tilt, read.1),
        small(goal.0) && small(goal.1) && small(read.0) && small(read.1),
    ensures
        ({
            let there = at.pan is Some && at.tilt is Some && -within.0 <= read.0 - goal.0 <= within.0
                && -within.1 <= read.1 - goal.1 <= within.1;
            &&& destination.reached(unit, at) <==> there
            &&& destination.progress(unit, at, started, now, timeout) == if there {
                MoveProgress::Arrived
            } else if now - started >= timeout || timeout == 0 {
                MoveProgress::TimedOut
            } else {
                MoveProgress::Moving
            }
        }),
{
    if let Some(pan) = at.pan {
        nearness_is_a_distance(
            unit,
            pan,
            destination.pan,
            destination.pan_tolerance,
            read.0,
            goal.0,
            within.0,
        );
    }
    if let Some(tilt) = at.tilt {
        nearness_is_a_distance(
            unit,
            tilt,
            destination.tilt,
            destination.tilt_tolerance,
            read.1,
            goal.1,
            within.1,
        );
    }
}

} // verus!
