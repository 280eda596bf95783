//! Measures how fast the camera turns at each speed command.
//!
//! The calibration names the next action and is told the outcome.

use crate::arithmetic::{
    computes, difference, minus, over, plus, product, quotient, seconds, seconds_of, sum, times,
    Operation,
};
use crate::camera::controls::{ControlCapabilities, ControlRange, Controls};
use crate::camera::grid::{
    exact_on_whole_numbers, stands_for, whole_numbers_are_ordered, zero_is_zero, WholeRange,
};
use crate::camera::limits::calibrations_snap_to_the_steps;
use crate::camera::motion::{
    grid_snapped, grid_tolerance, snap_to_grid, step_tolerance, Destination, MoveProgress,
};
use crate::clock::{elapsed, elapsed_spec};
use crate::scalar::{order_is_numeric, Scalar, HALF, INFINITY, NEG_INFINITY, ZERO};
use crate::whole::{
    divides_counts, exact_on_counts, patterns_denote_whole_numbers, stands_for_half,
    whole_numbers_are_compared,
};
use vstd::arithmetic::mul::lemma_mul_is_associative;
use vstd::arithmetic::power2::{lemma2_to64, pow2};
use vstd::prelude::*;

verus! {

/// Trials of each setting.
pub const CALIBRATION_REPEATS: u32 = 3;

/// Bit pattern of the number of trials.
pub const CALIBRATION_DIVISOR: u32 = 0x4040_0000;

/// How long the camera is driven: 200 ms.
pub const CALIBRATION_MOVE_TIME: u128 = 200_000_000;

/// How long it rests before its position is read: 400 ms.
pub const CALIBRATION_SETTLE_TIME: u128 = 400_000_000;

/// How long it rests at its home position: 250 ms.
pub const CALIBRATION_HOME_SETTLE_TIME: u128 = 250_000_000;

/// Pause between two looks at a move: 50 ms.
pub const CALIBRATION_HOME_POLL: u128 = 50_000_000;

/// Time after which a move has failed: 8 s.
pub const CALIBRATION_HOME_TIMEOUT: u128 = 8_000_000_000;

/// Bit pattern of 0.001, the shortest time a trial counts with, in seconds.
pub const SHORTEST_TRIAL: u32 = 0x3A83_126F;

/// Settings that are tried.
pub const SETTING_COUNT: usize = 30;

/// Settings of the pan axis among them.
pub const PAN_SETTING_COUNT: usize = 16;

#[derive(Copy, Clone, Debug, Eq, PartialEq, Structural)]
pub enum CalibrationAxis {
    Pan,
    Tilt,
}

impl CalibrationAxis {
    pub fn label(self) -> (r: &'static str)
        ensures
            r@ == (match self {
                CalibrationAxis::Pan => "PAN"@,
                CalibrationAxis::Tilt => "TILT"@,
            }),
    {
        match self {
            CalibrationAxis::Pan => "PAN",
            CalibrationAxis::Tilt => "TILT",
        }
    }

    /// Pan and tilt speed that drive the axis alone.
    pub fn command(self, speed: i32) -> (r: (i32, i32))
        ensures
            r == self.driven(speed),
    {
        match self {
            CalibrationAxis::Pan => (speed, 0),
            CalibrationAxis::Tilt => (0, speed),
        }
    }

    pub open spec fn driven(self, speed: i32) -> (i32, i32) {
        match self {
            CalibrationAxis::Pan => (speed, 0i32),
            CalibrationAxis::Tilt => (0i32, speed),
        }
    }

    pub open spec fn position(self, at: Controls) -> Option<Scalar> {
        match self {
            CalibrationAxis::Pan => at.pan,
            CalibrationAxis::Tilt => at.tilt,
        }
    }
}

/// A speed in one direction of an axis.
#[derive(Copy, Clone, Debug, Eq, PartialEq, Structural)]
pub struct Setting {
    pub axis: CalibrationAxis,
    pub speed: i32,
    pub direction: i32,
}

/// Speeds that are tried, pan and tilt alike; tilt leaves the last one out.
pub open spec fn speeds() -> Seq<i32> {
    seq![1, 2, 4, 8, 12, 16, 20, 24]
}

/// The settings in the order in which they are tried: pan before tilt, slow
/// before fast, forward before backward.
pub open spec fn setting(index: int) -> Setting {
    let axis = if index < PAN_SETTING_COUNT {
        CalibrationAxis::Pan
    } else {
        CalibrationAxis::Tilt
    };
    let place = if index < PAN_SETTING_COUNT {
        index
    } else {
        index - PAN_SETTING_COUNT
    };
    Setting {
        axis,
        speed: speeds()[place / 2],
        direction: if place % 2 == 0 {
            1
        } else {
            (-1int) as i32
        },
    }
}

/// The setting at `index`.
pub fn find_setting(index: usize) -> (r: Setting)
    requires
        index < SETTING_COUNT,
    ensures
        r == setting(index as int),
        1 <= r.speed <= 24,
        r.direction == 1 || r.direction == -1,
{
    let (axis, place): (CalibrationAxis, usize) = if index < PAN_SETTING_COUNT {
        (CalibrationAxis::Pan, index)
    } else {
        (CalibrationAxis::Tilt, index - PAN_SETTING_COUNT)
    };
    let tier: usize = place / 2;
    let speed: i32 = if tier == 0 {
        1
    } else if tier == 1 {
        2
    } else if tier == 2 {
        4
    } else if tier == 3 {
        8
    } else if tier == 4 {
        12
    } else if tier == 5 {
        16
    } else if tier == 6 {
        20
    } else {
        24
    };
    let direction: i32 = if place % 2 == 0 {
        1
    } else {
        -1
    };
    Setting { axis, speed, direction }
}

/// Middle of the range, on a step of it.
pub open spec fn midpoint<F: Fn(Operation) -> Scalar>(unit: F, range: ControlRange) -> Scalar {
    grid_snapped(
        unit,
        plus(
            unit,
            range.min,
            times(unit, minus(unit, range.max, range.min), Scalar { bits: HALF }),
        ),
        range,
    )
}

pub fn calibration_midpoint<F: Fn(Operation) -> Scalar>(range: &ControlRange, unit: &F) -> (r: Scalar)
    requires
        computes(*unit),
        range.ordered(),
    ensures
        r == midpoint(*unit, *range),
        !r.nan() ==> range.contains(r),
{
    let middle = sum(
        unit,
        range.min,
        product(unit, difference(unit, range.max, range.min), Scalar::from_bits(HALF)),
    );
    snap_to_grid(middle, range, unit)
}

/// What one trial showed.
#[derive(Copy, Clone, Debug)]
pub struct Trial {
    pub repeat: u32,
    pub before: Scalar,
    pub after: Scalar,
    pub delta: Scalar,
    /// Time from the speed command to the stop, in nanoseconds.
    pub elapsed: u128,
    pub rate: Scalar,
}

/// What the trials of a setting add up to so far.
#[derive(Copy, Clone, Debug)]
pub struct Tally {
    pub delta_sum: Scalar,
    pub rate_sum: Scalar,
    pub minimum_rate: Scalar,
    pub maximum_rate: Scalar,
}

/// What the trials of a setting showed.
#[derive(Copy, Clone, Debug)]
pub struct CalibrationSummary {
    pub setting: Setting,
    pub average_delta_deg: Scalar,
    pub average_rate_deg_s: Scalar,
    pub minimum_rate_deg_s: Scalar,
    pub maximum_rate_deg_s: Scalar,
}

/// Degrees turned per second, whichever way.
pub open spec fn turn_rate<F: Fn(Operation) -> Scalar>(unit: F, delta: Scalar, time: u128) -> Scalar {
    over(unit, delta.absolute(), seconds_of(unit, time).larger(Scalar { bits: SHORTEST_TRIAL }))
}

/// A trial from two positions and the time between.
pub open spec fn measured<F: Fn(Operation) -> Scalar>(
    unit: F,
    repeat: u32,
    before: Scalar,
    after: Scalar,
    time: u128,
) -> Trial {
    let delta = minus(unit, after, before);
    Trial { repeat, before, after, delta, elapsed: time, rate: turn_rate(unit, delta, time) }
}

pub fn measure<F: Fn(Operation) -> Scalar>(
    repeat: u32,
    before: Scalar,
    after: Scalar,
    time: u128,
    unit: &F,
) -> (r: Trial)
    requires
        computes(*unit),
    ensures
        r == measured(*unit, repeat, before, after, time),
{
    let delta = difference(unit, after, before);
    let rate = quotient(
        unit,
        delta.abs(),
        seconds(unit, time).max(Scalar::from_bits(SHORTEST_TRIAL)),
    );
    Trial { repeat, before, after, delta, elapsed: time, rate }
}

impl Tally {
    /// Nothing yet.
    pub open spec fn empty() -> Tally {
        Tally {
            delta_sum: Scalar { bits: ZERO },
            rate_sum: Scalar { bits: ZERO },
            minimum_rate: Scalar { bits: INFINITY },
            maximum_rate: Scalar { bits: NEG_INFINITY },
        }
    }

    pub open spec fn with<F: Fn(Operation) -> Scalar>(self, unit: F, trial: Trial) -> Tally {
        Tally {
            delta_sum: plus(unit, self.delta_sum, trial.delta),
            rate_sum: plus(unit, self.rate_sum, trial.rate),
            minimum_rate: self.minimum_rate.smaller(trial.rate),
            maximum_rate: self.maximum_rate.larger(trial.rate),
        }
    }

    pub open spec fn summed_up<F: Fn(Operation) -> Scalar>(self, unit: F, of: Setting) -> CalibrationSummary {
        CalibrationSummary {
            setting: of,
            average_delta_deg: over(unit, self.delta_sum, Scalar { bits: CALIBRATION_DIVISOR }),
            average_rate_deg_s: over(unit, self.rate_sum, Scalar { bits: CALIBRATION_DIVISOR }),
            minimum_rate_deg_s: self.minimum_rate,
            maximum_rate_deg_s: self.maximum_rate,
        }
    }

    pub fn new() -> (r: Tally)
        ensures
            r == Tally::empty(),
    {
        Tally {
            delta_sum: Scalar::from_bits(ZERO),
            rate_sum: Scalar::from_bits(ZERO),
            minimum_rate: Scalar::from_bits(INFINITY),
            maximum_rate: Scalar::from_bits(NEG_INFINITY),
        }
    }

    pub fn take_in<F: Fn(Operation) -> Scalar>(&self, trial: &Trial, unit: &F) -> (r: Tally)
        requires
            computes(*unit),
        ensures
            r == self.with(*unit, *trial),
    {
        Tally {
            delta_sum: sum(unit, self.delta_sum, trial.delta),
            rate_sum: sum(unit, self.rate_sum, trial.rate),
            minimum_rate: self.minimum_rate.min(trial.rate),
            maximum_rate: self.maximum_rate.max(trial.rate),
        }
    }

    pub fn summary<F: Fn(Operation) -> Scalar>(&self, of: Setting, unit: &F) -> (r:
        CalibrationSummary)
        requires
            computes(*unit),
        ensures
            r == self.summed_up(*unit, of),
    {
        let divisor = Scalar::from_bits(CALIBRATION_DIVISOR);
        CalibrationSummary {
            setting: of,
            average_delta_deg: quotient(unit, self.delta_sum, divisor),
            average_rate_deg_s: quotient(unit, self.rate_sum, divisor),
            minimum_rate_deg_s: self.minimum_rate,
            maximum_rate_deg_s: self.maximum_rate,
        }
    }
}

/// Why a calibration fails.
#[derive(Clone, Debug)]
pub enum CalibrationError {
    /// The device refused; the text says why.
    Device(String),
    /// The position of the axis cannot be read.
    Unavailable(CalibrationAxis),
    /// A move did not arrive; the position is the last one read.
    TimedOut { wanted: Destination, actual: Controls },
}

/// Why a camera cannot be calibrated.
#[derive(Copy, Clone, Debug, Eq, PartialEq, Structural)]
pub enum MissingRange {
    Pan,
    Tilt,
}

impl MissingRange {
    pub fn message(self) -> (r: &'static str)
        ensures
            r@ == (match self {
                MissingRange::Pan => "Camera does not expose an absolute pan range"@,
                MissingRange::Tilt => "Camera does not expose an absolute tilt range"@,
            }),
    {
        match self {
            MissingRange::Pan => "Camera does not expose an absolute pan range",
            MissingRange::Tilt => "Camera does not expose an absolute tilt range",
        }
    }
}

/// What is under way.
#[derive(Copy, Clone, Debug, Eq, PartialEq, Structural)]
pub enum Phase {
    /// The camera is stopped before anything else.
    Starting,
    /// The move to the home position is being sent.
    GoingHome,
    /// The position is being read on the way home.
    OnTheWay { started: u128 },
    /// The next look waits.
    Pausing { started: u128 },
    /// The camera rests at home.
    AtHome,
    ReadingBefore,
    Driving { before: Scalar, started: u128 },
    Turning { before: Scalar, started: u128 },
    Braking { before: Scalar, started: u128 },
    Settling { before: Scalar, time: u128 },
    ReadingAfter { before: Scalar, time: u128 },
    /// The camera is stopped at the end.
    Ending,
    /// The move back is being sent.
    GoingBack,
    /// The position is being read on the way back.
    OnTheWayBack { started: u128 },
    PausingBack { started: u128 },
    Finished,
}

/// What is to be done next.
#[derive(Debug)]
pub enum CalibrationAction {
    /// Stop the camera.
    Stop,
    /// Send pan and tilt to a position.
    Go { pan: Scalar, tilt: Scalar },
    /// Read the position.
    Read,
    /// Wait this many nanoseconds.
    Pause(u128),
    /// Drive at these speeds.
    Drive { pan: i32, tilt: i32 },
    /// Nothing: this is how it went.
    Finish(Result<(), CalibrationError>),
}

/// What happened.
#[derive(Debug)]
pub enum CalibrationEvent {
    /// A stop, a move or a drive was sent, or not.
    Sent(Result<(), String>),
    Position(Result<Controls, String>),
    Paused,
}

/// An action, and what there is to show before it.
#[derive(Debug)]
pub struct CalibrationStep {
    pub trial: Option<Trial>,
    pub summary: Option<CalibrationSummary>,
    /// A setting whose trials begin.
    pub begins: Option<Setting>,
    /// The camera is brought back to where it was.
    pub restores: bool,
    pub action: CalibrationAction,
}

/// A calibration under way.
#[derive(Debug)]
pub struct Calibration {
    pub home: Destination,
    pub original: Destination,
    /// The setting on trial.
    pub index: usize,
    /// Trials of it that are done.
    pub repeats: u32,
    pub tally: Tally,
    pub phase: Phase,
    /// Why the trials ended early.
    pub failure: Option<CalibrationError>,
    /// Why the camera could not be stopped at the end.
    pub stop_failure: Option<String>,
}

/// An action with nothing to show.
pub open spec fn plain(action: CalibrationAction) -> CalibrationStep {
    CalibrationStep { trial: None, summary: None, begins: None, restores: false, action }
}

impl Calibration {
    /// The setting on trial exists, and so does its trial.
    pub open spec fn wf(self) -> bool {
        &&& self.index < SETTING_COUNT
        &&& self.repeats < CALIBRATION_REPEATS
    }

    /// The event answers the action of this phase.
    pub open spec fn expects(self, event: CalibrationEvent) -> bool {
        match self.phase {
            Phase::Starting | Phase::GoingHome | Phase::Driving { .. } | Phase::Braking { .. }
            | Phase::Ending | Phase::GoingBack => event is Sent,
            Phase::OnTheWay { .. } | Phase::ReadingBefore | Phase::ReadingAfter { .. }
            | Phase::OnTheWayBack { .. } => event is Position,
            Phase::Pausing { .. } | Phase::AtHome | Phase::Turning { .. } | Phase::Settling { .. }
            | Phase::PausingBack { .. } => event is Paused,
            Phase::Finished => false,
        }
    }

    pub open spec fn goes(self, phase: Phase, action: CalibrationAction) -> (Calibration, CalibrationStep) {
        (Calibration { phase, ..self }, plain(action))
    }

    /// The camera goes home for the next trial.
    pub open spec fn goes_home(self) -> (Calibration, CalibrationStep) {
        self.goes(
            Phase::GoingHome,
            CalibrationAction::Go { pan: self.home.pan, tilt: self.home.tilt },
        )
    }

    /// The trials end early.
    pub open spec fn fails(self, error: CalibrationError) -> (Calibration, CalibrationStep) {
        (Calibration { failure: Some(error), ..self }).goes(Phase::Ending, CalibrationAction::Stop)
    }

    /// The end: what failed first in the trials, then in the stop, then on the way
    /// back.
    pub open spec fn ends(self, restored: Result<(), CalibrationError>) -> (
        Calibration,
        CalibrationStep,
    ) {
        let outcome = match self.failure {
            Some(error) => Err(error),
            None => match self.stop_failure {
                Some(text) => Err(CalibrationError::Device(text)),
                None => restored,
            },
        };
        (
            Calibration {
                phase: Phase::Finished,
                failure: None,
                stop_failure: if self.failure is Some {
                    self.stop_failure
                } else {
                    None
                },
                ..self
            },
            plain(CalibrationAction::Finish(outcome)),
        )
    }

    /// A trial is done: another one follows, another setting, or the end.
    pub open spec fn notes<F: Fn(Operation) -> Scalar>(self, unit: F, trial: Trial) -> (
        Calibration,
        CalibrationStep,
    ) {
        let tally = self.tally.with(unit, trial);
        if self.repeats + 1 < CALIBRATION_REPEATS {
            let (next, step) = (Calibration { tally, repeats: (self.repeats + 1) as u32, ..self }).goes_home();
            (next, CalibrationStep { trial: Some(trial), ..step })
        } else {
            let summary = tally.summed_up(unit, setting(self.index as int));
            if self.index + 1 < SETTING_COUNT {
                let (next, step) = (Calibration {
                    tally: Tally::empty(),
                    repeats: 0,
                    index: (self.index + 1) as usize,
                    ..self
                }).goes_home();
                (
                    next,
                    CalibrationStep {
                        trial: Some(trial),
                        summary: Some(summary),
                        begins: Some(setting(self.index + 1)),
                        ..step
                    },
                )
            } else {
                let (next, step) = (Calibration { tally, ..self }).goes(
                    Phase::Ending,
                    CalibrationAction::Stop,
                );
                (next, CalibrationStep { trial: Some(trial), summary: Some(summary), ..step })
            }
        }
    }

    /// What an event makes of the calibration, and what is to be done next.
    pub open spec fn stepped<F: Fn(Operation) -> Scalar>(
        self,
        unit: F,
        event: CalibrationEvent,
        now: u128,
    ) -> (Calibration, CalibrationStep) {
        let current = setting(self.index as int);
        match (self.phase, event) {
            (Phase::Starting, CalibrationEvent::Sent(result)) => match result {
                Err(text) => self.goes(
                    Phase::Finished,
                    CalibrationAction::Finish(Err(CalibrationError::Device(text))),
                ),
                Ok(_) => {
                    let (next, step) = self.goes_home();
                    (next, CalibrationStep { begins: Some(current), ..step })
                },
            },
            (Phase::GoingHome, CalibrationEvent::Sent(result)) => match result {
                Err(text) => self.fails(CalibrationError::Device(text)),
                Ok(_) => self.goes(Phase::OnTheWay { started: now }, CalibrationAction::Read),
            },
            (Phase::OnTheWay { started }, CalibrationEvent::Position(result)) => match result {
                Err(text) => self.fails(CalibrationError::Device(text)),
                Ok(at) => match self.home.progress(
                    unit,
                    at,
                    started,
                    now,
                    CALIBRATION_HOME_TIMEOUT,
                ) {
                    MoveProgress::Arrived => self.goes(
                        Phase::AtHome,
                        CalibrationAction::Pause(CALIBRATION_HOME_SETTLE_TIME),
                    ),
                    MoveProgress::TimedOut => self.fails(
                        CalibrationError::TimedOut { wanted: self.home, actual: at },
                    ),
                    MoveProgress::Moving => self.goes(
                        Phase::Pausing { started },
                        CalibrationAction::Pause(CALIBRATION_HOME_POLL),
                    ),
                },
            },
            (Phase::Pausing { started }, CalibrationEvent::Paused) => self.goes(
                Phase::OnTheWay { started },
                CalibrationAction::Read,
            ),
            (Phase::AtHome, CalibrationEvent::Paused) => self.goes(
                Phase::ReadingBefore,
                CalibrationAction::Read,
            ),
            (Phase::ReadingBefore, CalibrationEvent::Position(result)) => match result {
                Err(text) => self.fails(CalibrationError::Device(text)),
                Ok(at) => match current.axis.position(at) {
                    None => self.fails(CalibrationError::Unavailable(current.axis)),
                    Some(before) => {
                        let (pan, tilt) = current.axis.driven(
                            (current.speed * current.direction) as i32,
                        );
                        self.goes(
                            Phase::Driving { before, started: now },
                            CalibrationAction::Drive { pan, tilt },
                        )
                    },
                },
            },
            (Phase::Driving { before, started }, CalibrationEvent::Sent(result)) => match result {
                Err(text) => self.fails(CalibrationError::Device(text)),
                Ok(_) => self.goes(
                    Phase::Turning { before, started },
                    CalibrationAction::Pause(CALIBRATION_MOVE_TIME),
                ),
            },
            (Phase::Turning { before, started }, CalibrationEvent::Paused) => self.goes(
                Phase::Braking { before, started },
                CalibrationAction::Stop,
            ),
            (Phase::Braking { before, started }, CalibrationEvent::Sent(result)) => match result {
                Err(text) => self.fails(CalibrationError::Device(text)),
                Ok(_) => self.goes(
                    Phase::Settling { before, time: elapsed_spec(now, started) as u128 },
                    CalibrationAction::Pause(CALIBRATION_SETTLE_TIME),
                ),
            },
            (Phase::Settling { before, time }, CalibrationEvent::Paused) => self.goes(
                Phase::ReadingAfter { before, time },
                CalibrationAction::Read,
            ),
            (Phase::ReadingAfter { before, time }, CalibrationEvent::Position(result)) => {
                match result {
                    Err(text) => self.fails(CalibrationError::Device(text)),
                    Ok(at) => match current.axis.position(at) {
                        None => self.fails(CalibrationError::Unavailable(current.axis)),
                        Some(after) => self.notes(
                            unit,
                            measured(unit, (self.repeats + 1) as u32, before, after, time),
                        ),
                    },
                }
            },
            (Phase::Ending, CalibrationEvent::Sent(result)) => {
                let (next, step) = (Calibration {
                    stop_failure: match result {
                        Err(text) => Some(text),
                        Ok(_) => None,
                    },
                    ..self
                }).goes(
                    Phase::GoingBack,
                    CalibrationAction::Go { pan: self.original.pan, tilt: self.original.tilt },
                );
                (next, CalibrationStep { restores: true, ..step })
            },
            (Phase::GoingBack, CalibrationEvent::Sent(result)) => match result {
                Err(text) => self.ends(Err(CalibrationError::Device(text))),
                Ok(_) => self.goes(Phase::OnTheWayBack { started: now }, CalibrationAction::Read),
            },
            (Phase::OnTheWayBack { started }, CalibrationEvent::Position(result)) => match result {
                Err(text) => self.ends(Err(CalibrationError::Device(text))),
                Ok(at) => match self.original.progress(
                    unit,
                    at,
                    started,
                    now,
                    CALIBRATION_HOME_TIMEOUT,
                ) {
                    MoveProgress::Arrived => self.ends(Ok(())),
                    MoveProgress::TimedOut => self.ends(
                        Err(CalibrationError::TimedOut { wanted: self.original, actual: at }),
                    ),
                    MoveProgress::Moving => self.goes(
                        Phase::PausingBack { started },
                        CalibrationAction::Pause(CALIBRATION_HOME_POLL),
                    ),
                },
            },
            (Phase::PausingBack { started }, CalibrationEvent::Paused) => self.goes(
                Phase::OnTheWayBack { started },
                CalibrationAction::Read,
            ),
            _ => self.goes(Phase::Finished, CalibrationAction::Stop),
        }
    }

    /// Prepares a calibration of a camera at this position; an axis whose position
    /// is unknown counts as being at its default.
    pub fn new<F: Fn(Operation) -> Scalar>(
        capabilities: &ControlCapabilities,
        position: &Controls,
        unit: &F,
    ) -> (r: Result<(Calibration, CalibrationStep), MissingRange>)
        requires
            computes(*unit),
            capabilities.pan matches Some(range) ==> range.ordered(),
            capabilities.tilt matches Some(range) ==> range.ordered(),
        ensures
            match (capabilities.pan, capabilities.tilt) {
                (None, _) => r == Err::<(Calibration, CalibrationStep), MissingRange>(
                    MissingRange::Pan,
                ),
                (Some(_), None) => r == Err::<(Calibration, CalibrationStep), MissingRange>(
                    MissingRange::Tilt,
                ),
                (Some(pan), Some(tilt)) => {
                    &&& r matches Ok((calibration, step))
                    &&& calibration.wf()
                    &&& calibration == (Calibration {
                        home: Destination {
                            pan: midpoint(*unit, pan),
                            tilt: midpoint(*unit, tilt),
                            pan_tolerance: grid_tolerance(pan),
                            tilt_tolerance: grid_tolerance(tilt),
                        },
                        original: Destination {
                            pan: match position.pan {
                                Some(at) => at,
                                None => pan.default,
                            },
                            tilt: match position.tilt {
                                Some(at) => at,
                                None => tilt.default,
                            },
                            pan_tolerance: grid_tolerance(pan),
                            tilt_tolerance: grid_tolerance(tilt),
                        },
                        index: 0,
                        repeats: 0,
                        tally: Tally::empty(),
                        phase: Phase::Starting,
                        failure: None,
                        stop_failure: None,
                    })
                    &&& step == plain(CalibrationAction::Stop)
                },
            },
    {
        let pan = match capabilities.pan {
            Some(range) => range,
            None => {
                return Err(MissingRange::Pan);
            },
        };
        let tilt = match capabilities.tilt {
            Some(range) => range,
            None => {
                return Err(MissingRange::Tilt);
            },
        };
        let pan_tolerance = step_tolerance(&pan);
        let tilt_tolerance = step_tolerance(&tilt);
        let calibration = Calibration {
            home: Destination {
                pan: calibration_midpoint(&pan, unit),
                tilt: calibration_midpoint(&tilt, unit),
                pan_tolerance,
                tilt_tolerance,
            },
            original: Destination {
                pan: match position.pan {
                    Some(at) => at,
                    None => pan.default,
                },
                tilt: match position.tilt {
                    Some(at) => at,
                    None => tilt.default,
                },
                pan_tolerance,
                tilt_tolerance,
            },
            index: 0,
            repeats: 0,
            tally: Tally::new(),
            phase: Phase::Starting,
            failure: None,
            stop_failure: None,
        };
        Ok((calibration, only(CalibrationAction::Stop)))
    }

    fn go(&mut self, phase: Phase, action: CalibrationAction) -> (r: CalibrationStep)
        ensures
            (*final(self), r) == old(self).goes(phase, action),
    {
        self.phase = phase;
        only(action)
    }

    fn go_home(&mut self) -> (r: CalibrationStep)
        ensures
            (*final(self), r) == old(self).goes_home(),
    {
        let action = CalibrationAction::Go { pan: self.home.pan, tilt: self.home.tilt };
        self.go(Phase::GoingHome, action)
    }

    fn fail(&mut self, error: CalibrationError) -> (r: CalibrationStep)
        ensures
            (*final(self), r) == old(self).fails(error),
    {
        self.failure = Some(error);
        self.go(Phase::Ending, CalibrationAction::Stop)
    }

    fn end(&mut self, restored: Result<(), CalibrationError>) -> (r: CalibrationStep)
        ensures
            (*final(self), r) == old(self).ends(restored),
    {
        self.phase = Phase::Finished;
        let outcome = match self.failure.take() {
            Some(error) => Err(error),
            None => match self.stop_failure.take() {
                Some(text) => Err(CalibrationError::Device(text)),
                None => restored,
            },
        };
        only(CalibrationAction::Finish(outcome))
    }

    fn note<F: Fn(Operation) -> Scalar>(&mut self, trial: Trial, unit: &F) -> (r: CalibrationStep)
        requires
            computes(*unit),
            old(self).wf(),
        ensures
            (*final(self), r) == old(self).notes(*unit, trial),
            final(self).wf(),
    {
        self.tally = self.tally.take_in(&trial, unit);
        if self.repeats + 1 < CALIBRATION_REPEATS {
            self.repeats = self.repeats + 1;
            let mut step = self.go_home();
            step.trial = Some(trial);
            return step;
        }
        let summary = self.tally.summary(find_setting(self.index), unit);
        if self.index + 1 < SETTING_COUNT {
            self.tally = Tally::new();
            self.repeats = 0;
            self.index = self.index + 1;
            let mut step = self.go_home();
            step.trial = Some(trial);
            step.summary = Some(summary);
            step.begins = Some(find_setting(self.index));
            return step;
        }
        let mut step = self.go(Phase::Ending, CalibrationAction::Stop);
        step.trial = Some(trial);
        step.summary = Some(summary);
        step
    }

    /// Takes an event in and says what is to be done next.
    pub fn advance<F: Fn(Operation) -> Scalar>(
        &mut self,
        event: CalibrationEvent,
        now: u128,
        unit: &F,
    ) -> (r: CalibrationStep)
        requires
            computes(*unit),
            old(self).wf(),
            old(self).expects(event),
        ensures
            (*final(self), r) == old(self).stepped(*unit, event, now),
            final(self).wf(),
    {
        let current = find_setting(self.index);
        match (self.phase, event) {
            (Phase::Starting, CalibrationEvent::Sent(result)) => match result {
                Err(text) => self.go(
                    Phase::Finished,
                    CalibrationAction::Finish(Err(CalibrationError::Device(text))),
                ),
                Ok(_) => {
                    let mut step = self.go_home();
                    step.begins = Some(current);
                    step
                },
            },
            (Phase::GoingHome, CalibrationEvent::Sent(result)) => match result {
                Err(text) => self.fail(CalibrationError::Device(text)),
                Ok(_) => self.go(Phase::OnTheWay { started: now }, CalibrationAction::Read),
            },
            (Phase::OnTheWay { started }, CalibrationEvent::Position(result)) => match result {
                Err(text) => self.fail(CalibrationError::Device(text)),
                Ok(at) => match self.home.look(&at, started, now, CALIBRATION_HOME_TIMEOUT, unit) {
                    MoveProgress::Arrived => self.go(
                        Phase::AtHome,
                        CalibrationAction::Pause(CALIBRATION_HOME_SETTLE_TIME),
                    ),
                    MoveProgress::TimedOut => {
                        let wanted = self.home;
                        self.fail(CalibrationError::TimedOut { wanted, actual: at })
                    },
                    MoveProgress::Moving => self.go(
                        Phase::Pausing { started },
                        CalibrationAction::Pause(CALIBRATION_HOME_POLL),
                    ),
                },
            },
            (Phase::Pausing { started }, CalibrationEvent::Paused) => self.go(
                Phase::OnTheWay { started },
                CalibrationAction::Read,
            ),
            (Phase::AtHome, CalibrationEvent::Paused) => self.go(
                Phase::ReadingBefore,
                CalibrationAction::Read,
            ),
            (Phase::ReadingBefore, CalibrationEvent::Position(result)) => match result {
                Err(text) => self.fail(CalibrationError::Device(text)),
                Ok(at) => match read_axis_position(&at, current.axis) {
                    Err(error) => self.fail(error),
                    Ok(before) => {
                        let signed: i32 = if current.direction > 0 {
                            current.speed
                        } else {
                            -current.speed
                        };
                        assert(signed == current.speed * current.direction) by (nonlinear_arith)
                            requires
                                current.direction == 1 || current.direction == -1,
                                current.direction == 1 ==> signed == current.speed,
                                current.direction == -1 ==> signed == -current.speed,
                        ;
                        let (pan, tilt) = current.axis.command(signed);
                        self.go(
                            Phase::Driving { before, started: now },
                            CalibrationAction::Drive { pan, tilt },
                        )
                    },
                },
            },
            (Phase::Driving { before, started }, CalibrationEvent::Sent(result)) => match result {
                Err(text) => self.fail(CalibrationError::Device(text)),
                Ok(_) => self.go(
                    Phase::Turning { before, started },
                    CalibrationAction::Pause(CALIBRATION_MOVE_TIME),
                ),
            },
            (Phase::Turning { before, started }, CalibrationEvent::Paused) => self.go(
                Phase::Braking { before, started },
                CalibrationAction::Stop,
            ),
            (Phase::Braking { before, started }, CalibrationEvent::Sent(result)) => match result {
                Err(text) => self.fail(CalibrationError::Device(text)),
                Ok(_) => self.go(
                    Phase::Settling { before, time: elapsed(now, started) },
                    CalibrationAction::Pause(CALIBRATION_SETTLE_TIME),
                ),
            },
            (Phase::Settling { before, time }, CalibrationEvent::Paused) => self.go(
                Phase::ReadingAfter { before, time },
                CalibrationAction::Read,
            ),
            (Phase::ReadingAfter { before, time }, CalibrationEvent::Position(result)) => {
                match result {
                    Err(text) => self.fail(CalibrationError::Device(text)),
                    Ok(at) => match read_axis_position(&at, current.axis) {
                        Err(error) => self.fail(error),
                        Ok(after) => {
                            let trial = measure(self.repeats + 1, before, after, time, unit);
                            self.note(trial, unit)
                        },
                    },
                }
            },
            (Phase::Ending, CalibrationEvent::Sent(result)) => {
                self.stop_failure =
                match result {
                    Err(text) => Some(text),
                    Ok(_) => None,
                };
                let action = CalibrationAction::Go {
                    pan: self.original.pan,
                    tilt: self.original.tilt,
                };
                let mut step = self.go(Phase::GoingBack, action);
                step.restores = true;
                step
            },
            (Phase::GoingBack, CalibrationEvent::Sent(result)) => match result {
                Err(text) => self.end(Err(CalibrationError::Device(text))),
                Ok(_) => self.go(Phase::OnTheWayBack { started: now }, CalibrationAction::Read),
            },
            (Phase::OnTheWayBack { started }, CalibrationEvent::Position(result)) => match result {
                Err(text) => self.end(Err(CalibrationError::Device(text))),
                Ok(at) => match self.original.look(
                    &at,
                    started,
                    now,
                    CALIBRATION_HOME_TIMEOUT,
                    unit,
                ) {
                    MoveProgress::Arrived => self.end(Ok(())),
                    MoveProgress::TimedOut => {
                        let wanted = self.original;
                        self.end(Err(CalibrationError::TimedOut { wanted, actual: at }))
                    },
                    MoveProgress::Moving => self.go(
                        Phase::PausingBack { started },
                        CalibrationAction::Pause(CALIBRATION_HOME_POLL),
                    ),
                },
            },
            (Phase::PausingBack { started }, CalibrationEvent::Paused) => self.go(
                Phase::OnTheWayBack { started },
                CalibrationAction::Read,
            ),
            _ => self.go(Phase::Finished, CalibrationAction::Stop),
        }
    }
}

fn only(action: CalibrationAction) -> (r: CalibrationStep)
    ensures
        r == plain(action),
{
    CalibrationStep { trial: None, summary: None, begins: None, restores: false, action }
}

fn read_axis_position(at: &Controls, axis: CalibrationAxis) -> (r: Result<Scalar, CalibrationError>)
    ensures
        match axis.position(*at) {
            Some(position) => r == Ok::<Scalar, CalibrationError>(position),
            None => r == Err::<Scalar, CalibrationError>(CalibrationError::Unavailable(axis)),
        },
{
    let position = match axis {
        CalibrationAxis::Pan => at.pan,
        CalibrationAxis::Tilt => at.tilt,
    };
    match position {
        Some(position) => Ok(position),
        None => Err(CalibrationError::Unavailable(axis)),
    }
}

/// Once the camera could be stopped at the start, a calibration ends only after
/// it was asked to stop again and was sent back to where it was: nothing but the
/// way back leads to the end, and nothing but the last stop to the way back.
pub proof fn camera_is_brought_back<F: Fn(Operation) -> Scalar>(
    unit: F,
    calibration: Calibration,
    event: CalibrationEvent,
    now: u128,
)
    requires
        calibration.wf(),
        calibration.expects(event),
        !(calibration.phase is Starting),
    ensures
        ({
            let (next, step) = calibration.stepped(unit, event, now);
            &&& step.action is Finish ==> calibration.phase is GoingBack
                || calibration.phase is OnTheWayBack
            &&& next.phase is Finished <==> step.action is Finish
            &&& next.phase is GoingBack ==> calibration.phase is Ending && step.restores
                && step.action == (CalibrationAction::Go {
                pan: calibration.original.pan,
                tilt: calibration.original.tilt,
            })
            &&& next.phase is Ending ==> step.action is Stop
            &&& next.original == calibration.original
            &&& next.home == calibration.home
        }),
{
}

/// Whatever goes wrong while a setting is tried, the next thing done is to stop
/// the camera, and the calibration ends with that error.
pub proof fn failed_trials_stop_the_camera<F: Fn(Operation) -> Scalar>(
    unit: F,
    calibration: Calibration,
    text: String,
    now: u128,
)
    requires
        calibration.wf(),
        calibration.phase is GoingHome || calibration.phase is Driving
            || calibration.phase is Braking || calibration.phase is OnTheWay
            || calibration.phase is ReadingBefore || calibration.phase is ReadingAfter,
    ensures
        ({
            let event = if calibration.expects(CalibrationEvent::Sent(Err(text))) {
                CalibrationEvent::Sent(Err(text))
            } else {
                CalibrationEvent::Position(Err(text))
            };
            let (next, step) = calibration.stepped(unit, event, now);
            &&& step.action == CalibrationAction::Stop
            &&& next.phase is Ending
            &&& next.failure == Some(CalibrationError::Device(text))
        }),
{
}

/// What failed first is what the calibration ends with: the trials before the
/// last stop, and that before the way back.
pub proof fn first_failure_counts(calibration: Calibration, restored: Result<(), CalibrationError>)
    ensures
        calibration.failure matches Some(error) ==> calibration.ends(restored).1.action
            == CalibrationAction::Finish(Err(error)),
        calibration.failure is None ==> (calibration.stop_failure matches Some(text)
            ==> calibration.ends(restored).1.action == CalibrationAction::Finish(
            Err(CalibrationError::Device(text)),
        )),
        calibration.failure is None && calibration.stop_failure is None
            ==> calibration.ends(restored).1.action == CalibrationAction::Finish(restored),
{
}

/// Every setting is tried as often as it should be, in order: each trial is the
/// next one, and the last one of the last setting ends the trials.
pub proof fn trials_come_in_order<F: Fn(Operation) -> Scalar>(
    unit: F,
    calibration: Calibration,
    trial: Trial,
)
    requires
        calibration.wf(),
    ensures
        ({
            let done = calibration.index * CALIBRATION_REPEATS + calibration.repeats;
            let (next, step) = calibration.notes(unit, trial);
            &&& step.trial == Some(trial)
            &&& step.summary is Some <==> calibration.repeats + 1 == CALIBRATION_REPEATS
            &&& if done + 1 < SETTING_COUNT * CALIBRATION_REPEATS {
                &&& next.index * CALIBRATION_REPEATS + next.repeats == done + 1
                &&& next.phase is GoingHome
                &&& step.begins is Some <==> next.repeats == 0
            } else {
                &&& next.phase is Ending
                &&& step.action is Stop
            }
        }),
{
}

/// Pan is tried at eight speeds and tilt at all of them but the fastest, each forward
/// and then back; no setting comes twice.
pub proof fn every_speed_is_tried_both_ways(index: int, other: int)
    requires
        0 <= index < 30,
        0 <= other < 30,
    ensures
        SETTING_COUNT == 30,
        CALIBRATION_REPEATS == 3,
        speeds() == seq![1i32, 2, 4, 8, 12, 16, 20, 24],
        setting(index).axis is Pan <==> index < 16,
        setting(index).direction == if index % 2 == 0 {
            1int
        } else {
            -1
        },
        setting(index).speed == speeds()[if index < 16 {
            index / 2
        } else {
            (index - 16) / 2
        }],
        setting(index) == setting(other) ==> index == other,
{
    assert(forall|i: int, j: int|
        0 <= i < 8 && 0 <= j < 8 && #[trigger] speeds()[i] == #[trigger] speeds()[j] ==> i == j);
}

/// A trial drives the axis of its setting alone, at the speed and in the direction of
/// the setting, from where that axis was read.
pub proof fn trials_drive_their_axis<F: Fn(Operation) -> Scalar>(
    unit: F,
    calibration: Calibration,
    at: Controls,
    now: u128,
)
    requires
        calibration.wf(),
        calibration.phase is ReadingBefore,
    ensures
        ({
            let (next, step) = calibration.stepped(unit, CalibrationEvent::Position(Ok(at)), now);
            let plan = setting(calibration.index as int);
            let read = if plan.axis is Pan {
                at.pan
            } else {
                at.tilt
            };
            match read {
                None => {
                    &&& step.action is Stop
                    &&& next.failure == Some(CalibrationError::Unavailable(plan.axis))
                },
                Some(before) => {
                    &&& next.phase == (Phase::Driving { before, started: now })
                    &&& step.action matches CalibrationAction::Drive { pan, tilt }
                    &&& plan.axis is Pan ==> pan == plan.speed * plan.direction && tilt == 0
                    &&& plan.axis is Tilt ==> pan == 0 && tilt == plan.speed * plan.direction
                },
            }
        }),
{
    let plan = setting(calibration.index as int);
    every_speed_is_tried_both_ways(calibration.index as int, calibration.index as int);
    assert(-24 <= plan.speed * plan.direction <= 24) by (nonlinear_arith)
        requires
            1 <= plan.speed <= 24,
            plan.direction == 1 || plan.direction == -1,
    ;
}

/// The camera is driven for 200 ms and then stopped; the time from the command to the
/// stop is what counts. After 400 ms it is read again.
pub proof fn trials_last_until_the_stop<F: Fn(Operation) -> Scalar>(
    unit: F,
    calibration: Calibration,
    before: Scalar,
    started: u128,
    time: u128,
    now: u128,
)
    ensures
        ({
            let driving = Calibration { phase: Phase::Driving { before, started }, ..calibration };
            let turning = Calibration { phase: Phase::Turning { before, started }, ..calibration };
            let braking = Calibration { phase: Phase::Braking { before, started }, ..calibration };
            let settling = Calibration { phase: Phase::Settling { before, time }, ..calibration };
            let driven = driving.stepped(unit, CalibrationEvent::Sent(Ok(())), now);
            let turned = turning.stepped(unit, CalibrationEvent::Paused, now);
            let stopped = braking.stepped(unit, CalibrationEvent::Sent(Ok(())), now);
            let settled = settling.stepped(unit, CalibrationEvent::Paused, now);
            &&& driven.0 == turning && driven.1.action == CalibrationAction::Pause(200_000_000)
            &&& turned.0 == braking && turned.1.action is Stop
            &&& started <= now ==> stopped.0.phase == (Phase::Settling {
                before,
                time: (now - started) as u128,
            })
            &&& stopped.1.action == CalibrationAction::Pause(400_000_000)
            &&& settled.0.phase == (Phase::ReadingAfter { before, time })
            &&& settled.1.action is Read
        }),
{
}

/// A trial tells how far its own axis turned, and how fast: the way by the time, and
/// never by less than a millisecond.
pub proof fn trials_tell_how_far_and_how_fast<F: Fn(Operation) -> Scalar>(
    unit: F,
    calibration: Calibration,
    before: Scalar,
    time: u128,
    at: Controls,
    now: u128,
)
    requires
        calibration.wf(),
        calibration.phase == (Phase::ReadingAfter { before, time }),
    ensures
        ({
            let (next, step) = calibration.stepped(unit, CalibrationEvent::Position(Ok(at)), now);
            let plan = setting(calibration.index as int);
            let read = if plan.axis is Pan {
                at.pan
            } else {
                at.tilt
            };
            match read {
                None => {
                    &&& step.action is Stop
                    &&& step.trial is None
                    &&& next.failure == Some(CalibrationError::Unavailable(plan.axis))
                },
                Some(after) => {
                    &&& step.trial matches Some(trial)
                    &&& trial.repeat == calibration.repeats + 1
                    &&& trial.before == before
                    &&& trial.after == after
                    &&& trial.delta == minus(unit, after, before)
                    &&& trial.elapsed == time
                    &&& trial.rate == over(
                        unit,
                        trial.delta.absolute(),
                        seconds_of(unit, time).larger(Scalar { bits: 0x3A83_126F }),
                    )
                    &&& (step.summary matches Some(summary) ==> summary
                        == calibration.tally.with(unit, trial).summed_up(unit, plan))
                    &&& step.summary is None ==> next.tally == calibration.tally.with(unit, trial)
                    &&& (step.begins matches Some(follows) ==> follows == setting(
                        next.index as int,
                    ) && next.tally == Tally::empty())
                },
            }
        }),
{
}

/// Three trials are summed up by the means of their ways and their rates, and by the
/// slowest and the fastest rate.
pub proof fn three_trials_are_summed_up<F: Fn(Operation) -> Scalar>(
    unit: F,
    trials: (Trial, Trial, Trial),
    plan: Setting,
    ways: (int, int, int),
    rates: (int, int, int),
    way: int,
    rate: int,
)
    requires
        exact_on_counts(unit),
        divides_counts(unit),
        stands_for(trials.0.delta, ways.0),
        stands_for(trials.1.delta, ways.1),
        stands_for(trials.2.delta, ways.2),
        stands_for(trials.0.rate, rates.0),
        stands_for(trials.1.rate, rates.1),
        stands_for(trials.2.rate, rates.2),
        -0x1000 <= ways.0 <= 0x1000 && -0x1000 <= ways.1 <= 0x1000 && -0x1000 <= ways.2 <= 0x1000,
        0 <= rates.0 <= 0x1000 && 0 <= rates.1 <= 0x1000 && 0 <= rates.2 <= 0x1000,
        ways.0 + ways.1 + ways.2 == way * 3,
        rates.0 + rates.1 + rates.2 == rate * 3,
    ensures
        ({
            let summary = Tally::empty().with(unit, trials.0).with(unit, trials.1).with(
                unit,
                trials.2,
            ).summed_up(unit, plan);
            let slowest = if rates.0 <= rates.1 && rates.0 <= rates.2 {
                rates.0
            } else if rates.1 <= rates.2 {
                rates.1
            } else {
                rates.2
            };
            let fastest = if rates.0 >= rates.1 && rates.0 >= rates.2 {
                rates.0
            } else if rates.1 >= rates.2 {
                rates.1
            } else {
                rates.2
            };
            &&& summary.setting == plan
            &&& stands_for(summary.average_delta_deg, way)
            &&& stands_for(summary.average_rate_deg_s, rate)
            &&& stands_for(summary.minimum_rate_deg_s, slowest)
            &&& stands_for(summary.maximum_rate_deg_s, fastest)
        }),
{
    zero_is_zero();
    let three = Scalar { bits: 0x4040_0000 };
    assert(stands_for(three, 3)) by {
        lemma2_to64();
        patterns_denote_whole_numbers(0x4040_0000, 3, 22);
    }
    let zero = Scalar { bits: 0 };
    let (a, b, c) = trials;
    let first = plus(unit, zero, a.delta);
    assert(stands_for(first, 0 + ways.0));
    let second = plus(unit, first, b.delta);
    assert(stands_for(second, ways.0 + ways.1));
    let third = plus(unit, second, c.delta);
    assert(stands_for(third, way * 3));
    assert(stands_for(over(unit, third, three), way));
    let quick = plus(unit, zero, a.rate);
    assert(stands_for(quick, 0 + rates.0));
    let quicker = plus(unit, quick, b.rate);
    assert(stands_for(quicker, rates.0 + rates.1));
    let quickest = plus(unit, quicker, c.rate);
    assert(stands_for(quickest, rate * 3));
    assert(stands_for(over(unit, quickest, three), rate));
    lemma_finite(a.rate, rates.0);
    assert((Scalar { bits: INFINITY }).smaller(a.rate) == a.rate);
    assert((Scalar { bits: NEG_INFINITY }).larger(a.rate) == a.rate);
    whole_numbers_are_compared(a.rate, b.rate, rates.0, rates.1);
    whole_numbers_are_compared(
        a.rate.smaller(b.rate),
        c.rate,
        if rates.0 <= rates.1 {
            rates.0
        } else {
            rates.1
        },
        rates.2,
    );
    whole_numbers_are_compared(
        a.rate.larger(b.rate),
        c.rate,
        if rates.0 >= rates.1 {
            rates.0
        } else {
            rates.1
        },
        rates.2,
    );
}

proof fn lemma_finite(scalar: Scalar, number: int)
    requires
        stands_for(scalar, number),
        0 <= number <= 0x1000,
    ensures
        scalar.less(Scalar { bits: INFINITY }),
        (Scalar { bits: NEG_INFINITY }).less(scalar),
{
    let bound = Scalar { bits: 0x4580_0000 };
    assert(stands_for(bound, 0x1000)) by {
        lemma2_to64();
        patterns_denote_whole_numbers(0x4580_0000, 0x1000, 11);
    }
    zero_is_zero();
    whole_numbers_are_ordered(scalar, bound, number, 0x1000);
    whole_numbers_are_ordered(Scalar { bits: 0 }, scalar, 0, number);
    order_is_numeric(scalar, bound);
    order_is_numeric(bound, Scalar { bits: INFINITY });
    order_is_numeric(scalar, Scalar { bits: INFINITY });
    order_is_numeric(Scalar { bits: 0 }, scalar);
    order_is_numeric(Scalar { bits: NEG_INFINITY }, Scalar { bits: 0 });
    order_is_numeric(Scalar { bits: NEG_INFINITY }, scalar);
}

/// Home is the middle of a range, or the step nearest to it.
pub proof fn home_is_in_the_middle<F: Fn(Operation) -> Scalar>(
    unit: F,
    range: ControlRange,
    whole: WholeRange,
    half: int,
)
    requires
        exact_on_whole_numbers(unit),
        exact_on_counts(unit),
        whole.wf(),
        stands_for(range.min, whole.min),
        stands_for(range.max, whole.max),
        stands_for(range.step, whole.step) || stands_for(range.step, -whole.step),
        whole.max - whole.min == 2 * half,
    ensures
        stands_for(midpoint(unit, range), whole.snap(whole.min + half)),
{
    let width = minus(unit, range.max, range.min);
    assert(stands_for(width, whole.max - whole.min));
    let part = times(unit, width, Scalar { bits: 0x3F00_0000 });
    assert(stands_for_half(part, 2 * half));
    assert(stands_for(part, half)) by {
        lemma_mul_is_associative(2, half, pow2(149) as int);
    }
    let middle = plus(unit, range.min, part);
    assert(stands_for(middle, whole.min + half));
    calibrations_snap_to_the_steps(unit, middle, range, whole.min + half, whole);
}

/// On the way home and back the camera is looked at every 50 ms, for eight seconds.
/// At home it rests for 250 ms, is read, and the trial begins; back where it was, the
/// calibration ends.
pub proof fn ways_home_and_back_are_awaited<F: Fn(Operation) -> Scalar>(
    unit: F,
    calibration: Calibration,
    started: u128,
    at: Controls,
    now: u128,
)
    requires
        calibration.phase == (Phase::OnTheWay { started }) || calibration.phase == (
        Phase::OnTheWayBack { started }),
    ensures
        ({
            let (next, step) = calibration.stepped(unit, CalibrationEvent::Position(Ok(at)), now);
            let home = calibration.phase is OnTheWay;
            let wanted = if home {
                calibration.home
            } else {
                calibration.original
            };
            let late = CalibrationError::TimedOut { wanted, actual: at };
            if wanted.reached(unit, at) {
                if home {
                    &&& next.phase is AtHome
                    &&& step.action == CalibrationAction::Pause(250_000_000)
                    &&& next.stepped(unit, CalibrationEvent::Paused, now).0.phase is ReadingBefore
                    &&& next.stepped(unit, CalibrationEvent::Paused, now).1.action is Read
                } else {
                    &&& step.action is Finish
                    &&& calibration.failure is None && calibration.stop_failure is None
                        ==> step.action == CalibrationAction::Finish(Ok(()))
                }
            } else if now - started >= 8_000_000_000 {
                if home {
                    step.action is Stop && next.failure == Some(late)
                } else {
                    calibration.failure is None && calibration.stop_failure is None ==> step.action
                        == CalibrationAction::Finish(Err(late))
                }
            } else {
                &&& step.action == CalibrationAction::Pause(50_000_000)
                &&& next.stepped(unit, CalibrationEvent::Paused, now).0 == calibration
                &&& next.stepped(unit, CalibrationEvent::Paused, now).1.action is Read
            }
        }),
{
}

/// A speed drives its own axis only.
pub proof fn speeds_drive_one_axis(speed: i32, at: Controls)
    ensures
        CalibrationAxis::Pan.driven(speed) == (speed, 0i32),
        CalibrationAxis::Tilt.driven(speed) == (0i32, speed),
        CalibrationAxis::Pan.position(at) == at.pan,
        CalibrationAxis::Tilt.position(at) == at.tilt,
{
}

} // verus!
