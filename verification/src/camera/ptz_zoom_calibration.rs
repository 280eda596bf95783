//! Finds out how much each zoom value magnifies, by comparing images with the
//! one at the widest angle.
//!
//! The calibration names the next action and is told the outcome.

use crate::arithmetic::{
    arc_tangent, atan, computes, degrees, difference, minus, over, plus, product, quotient, radians,
    sum, tan, tangent, times, to_degrees, to_radians, Operation,
};
use crate::camera::controls::{is_near, near, ControlRange, Controls};
use crate::camera::correlation::{
    are_short_searches, estimate_magnification, is_samplable, magnification, samplable,
    searches_are_short, searches_end,
};
use crate::camera::fresh_frame::FreshFrameError;
use crate::camera::grid::{exact_on_whole_numbers, nearest_quotient, small, stands_for, WholeRange};
use crate::camera::limits::{
    calibrations_snap_to_the_steps, nearness_is_a_distance, tolerance_is_a_step,
    whole_numbers_are_clamped,
};
use crate::camera::motion::{grid_snapped, grid_tolerance, snap_to_grid, step_tolerance};
use crate::clock::{elapsed, elapsed_spec};
use crate::scalar::{Scalar, HALF, ONE, ZERO};
use crate::vision::letterbox::RgbaImage;
use crate::whole::patterns_denote_whole_numbers;
use vstd::arithmetic::div_mod::lemma_fundamental_div_mod_converse;
use vstd::arithmetic::power2::lemma2_to64;
use vstd::prelude::*;

verus! {

/// Bit pattern of 72.5, the widest horizontal field of view in degrees.
pub const WIDE_HORIZONTAL_FOV_DEG: u32 = 0x4291_0000;

/// Bit pattern of 6.9, the narrowest field of view that the maker gives.
pub const PUBLISHED_TELE_HORIZONTAL_FOV_DEG: u32 = 0x40DC_CCCD;

/// Bit pattern of 12, the largest magnification that the maker gives.
pub const PUBLISHED_OPTICAL_ZOOM: u32 = 0x4140_0000;

/// Bit pattern of two.
pub const TWO: u32 = 0x4000_0000;

/// Bit pattern of 100.
pub const HUNDRED: u32 = 0x42C8_0000;

/// Zoom values that are tried, with the widest.
pub const SAMPLE_COUNT: usize = 12;

/// How long the camera rests after a move: 500 ms.
pub const ZOOM_SETTLE_TIME: u128 = 500_000_000;

/// Pause between two looks at a move: 50 ms.
pub const ZOOM_POLL_INTERVAL: u128 = 50_000_000;

/// Time after which a move has failed: 15 s.
pub const ZOOM_MOVE_TIMEOUT: u128 = 15_000_000_000;

/// Bit patterns of the parts of the range that are tried: 0, 0.05, then every
/// tenth from 0.1 to 1.
pub open spec fn fractions() -> Seq<u32> {
    seq![
        0x0000_0000,
        0x3D4C_CCCD,
        0x3DCC_CCCD,
        0x3E4C_CCCD,
        0x3E99_999A,
        0x3ECC_CCCD,
        0x3F00_0000,
        0x3F19_999A,
        0x3F33_3333,
        0x3F4C_CCCD,
        0x3F66_6666,
        0x3F80_0000,
    ]
}

pub fn sample_fraction(sample: usize) -> (r: Scalar)
    requires
        sample < SAMPLE_COUNT,
    ensures
        r.bits == fractions()[sample as int],
{
    let bits: u32 = if sample == 0 {
        0x0000_0000
    } else if sample == 1 {
        0x3D4C_CCCD
    } else if sample == 2 {
        0x3DCC_CCCD
    } else if sample == 3 {
        0x3E4C_CCCD
    } else if sample == 4 {
        0x3E99_999A
    } else if sample == 5 {
        0x3ECC_CCCD
    } else if sample == 6 {
        0x3F00_0000
    } else if sample == 7 {
        0x3F19_999A
    } else if sample == 8 {
        0x3F33_3333
    } else if sample == 9 {
        0x3F4C_CCCD
    } else if sample == 10 {
        0x3F66_6666
    } else {
        0x3F80_0000
    };
    Scalar::from_bits(bits)
}

/// Field of view at a magnification.
pub open spec fn field_of_view<F: Fn(Operation) -> Scalar>(unit: F, magnification: Scalar) -> Scalar {
    let half_angle = tan(
        unit,
        times(
            unit,
            to_radians(unit, Scalar { bits: WIDE_HORIZONTAL_FOV_DEG }),
            Scalar { bits: HALF },
        ),
    );
    times(
        unit,
        Scalar { bits: TWO },
        to_degrees(unit, atan(unit, over(unit, half_angle, magnification))),
    )
}

pub fn horizontal_fov_for_magnification<F: Fn(Operation) -> Scalar>(
    magnification: Scalar,
    unit: &F,
) -> (r: Scalar)
    requires
        computes(*unit),
    ensures
        r == field_of_view(*unit, magnification),
{
    let half_angle = tangent(
        unit,
        product(
            unit,
            radians(unit, Scalar::from_bits(WIDE_HORIZONTAL_FOV_DEG)),
            Scalar::from_bits(HALF),
        ),
    );
    product(
        unit,
        Scalar::from_bits(TWO),
        degrees(unit, arc_tangent(unit, quotient(unit, half_angle, magnification))),
    )
}

/// The step of the range nearest to a value, which is first moved into the range.
pub open spec fn zoom_snapped<F: Fn(Operation) -> Scalar>(
    unit: F,
    value: Scalar,
    range: ControlRange,
) -> Scalar {
    grid_snapped(unit, value.clamped(range.min, range.max), range)
}

pub fn snap_to_step<F: Fn(Operation) -> Scalar>(value: Scalar, range: &ControlRange, unit: &F) -> (r:
    Scalar)
    requires
        computes(*unit),
        range.ordered(),
    ensures
        r == zoom_snapped(*unit, value, *range),
        !r.nan() ==> range.contains(r),
{
    snap_to_grid(value.clamp(range.min, range.max), range, unit)
}

/// Zoom value of a sample: the widest, or a part of the range.
pub open spec fn sample_target<F: Fn(Operation) -> Scalar>(
    unit: F,
    range: ControlRange,
    sample: int,
) -> Scalar {
    let requested = if sample == 0 {
        range.min
    } else {
        plus(
            unit,
            range.min,
            times(unit, minus(unit, range.max, range.min), Scalar { bits: fractions()[sample] }),
        )
    };
    zoom_snapped(unit, requested, range)
}

fn find_sample_target<F: Fn(Operation) -> Scalar>(range: &ControlRange, sample: usize, unit: &F) -> (r:
    Scalar)
    requires
        computes(*unit),
        range.ordered(),
        sample < SAMPLE_COUNT,
    ensures
        r == sample_target(*unit, *range, sample as int),
{
    if sample == 0 {
        return snap_to_step(range.min, range, unit);
    }
    let requested = sum(
        unit,
        range.min,
        product(unit, difference(unit, range.max, range.min), sample_fraction(sample)),
    );
    snap_to_step(requested, range, unit)
}

/// One row of the result.
#[derive(Copy, Clone, Debug)]
pub struct ZoomRow {
    pub target: Scalar,
    pub percent: Scalar,
    pub reported: Scalar,
    pub magnification: Scalar,
    pub hfov_deg: Scalar,
    pub score: Scalar,
}

/// Why a calibration fails.
#[derive(Clone, Debug)]
pub enum ZoomError {
    /// The device refused; the text says why.
    Device(String),
    /// A move did not arrive; the value is the last one read.
    TimedOut { target: Scalar, actual: Option<Scalar> },
    /// No image could be had.
    NoFrame(FreshFrameError),
}

/// What is said of a camera without zoom.
pub fn missing_zoom_message() -> (r: &'static str)
    ensures
        r@ == "Camera does not expose absolute zoom control"@,
{
    "Camera does not expose absolute zoom control"
}

/// What a move is for.
#[derive(Copy, Clone, Debug, Eq, PartialEq, Structural)]
pub enum ZoomPurpose {
    Sample,
    /// To leave the camera as it was.
    Back,
}

/// What is under way.
#[derive(Copy, Clone, Debug, Eq, PartialEq, Structural)]
pub enum ZoomPhase {
    /// A move is being sent.
    Leaving { purpose: ZoomPurpose, target: Scalar },
    /// The value is being read on the way.
    OnTheWay { purpose: ZoomPurpose, target: Scalar, started: u128 },
    /// The next look waits.
    Pausing { purpose: ZoomPurpose, target: Scalar, started: u128 },
    /// The camera rests at the value that it reported.
    Resting { purpose: ZoomPurpose, target: Scalar, reported: Scalar },
    /// An image is being taken.
    Capturing { target: Scalar, reported: Scalar },
    Finished,
}

/// What is to be done next.
#[derive(Debug)]
pub enum ZoomAction {
    /// Send zoom to a value.
    Go(Scalar),
    /// Read the position.
    Read,
    /// Wait this many nanoseconds.
    Pause(u128),
    /// Take a fresh image.
    Capture,
    /// Nothing: this is how it went.
    Finish(Result<(), ZoomError>),
}

/// What happened.
#[derive(Debug)]
pub enum ZoomEvent {
    Sent(Result<(), String>),
    Position(Result<Controls, String>),
    Paused,
    Captured(Result<RgbaImage, FreshFrameError>),
}

/// An action, and what there is to show before it.
#[derive(Debug)]
pub struct ZoomStep {
    pub row: Option<ZoomRow>,
    /// All rows are there.
    pub complete: bool,
    /// The camera is brought back to where it was.
    pub restores: bool,
    pub action: ZoomAction,
}

/// A calibration under way.
#[derive(Debug)]
pub struct ZoomCalibration {
    pub range: ControlRange,
    pub original: Scalar,
    /// The sample that is being measured.
    pub sample: usize,
    /// The image at the widest angle.
    pub wide: Option<RgbaImage>,
    pub phase: ZoomPhase,
    /// Why the samples ended early.
    pub failure: Option<ZoomError>,
}

/// An action with nothing to show.
pub open spec fn plain(action: ZoomAction) -> ZoomStep {
    ZoomStep { row: None, complete: false, restores: false, action }
}

fn only(action: ZoomAction) -> (r: ZoomStep)
    ensures
        r == plain(action),
{
    ZoomStep { row: None, complete: false, restores: false, action }
}

impl ZoomCalibration {
    /// The sample exists, the range can be clamped to, and behind the first sample
    /// there is an image to compare with.
    pub open spec fn wf(self) -> bool {
        &&& self.sample < SAMPLE_COUNT
        &&& self.range.ordered()
        &&& self.sample > 0 ==> self.wide is Some
        &&& (self.wide matches Some(image) ==> samplable(image))
    }

    /// The event answers the action of this phase.
    pub open spec fn expects(self, event: ZoomEvent) -> bool {
        match self.phase {
            ZoomPhase::Leaving { .. } => event is Sent,
            ZoomPhase::OnTheWay { .. } => event is Position,
            ZoomPhase::Pausing { .. } | ZoomPhase::Resting { .. } => event is Paused,
            ZoomPhase::Capturing { .. } => event is Captured,
            ZoomPhase::Finished => false,
        }
    }

    /// An image that came can be sampled, and the search for its scale ends.
    pub open spec fn can_compare<F: Fn(Operation) -> Scalar>(self, unit: F, event: ZoomEvent) -> bool {
        event matches ZoomEvent::Captured(Ok(image)) ==> {
            &&& samplable(image)
            &&& (self.wide matches Some(wide) ==> searches_end(unit, wide, image))
        }
    }

    /// As `can_compare`, and the search for the scale is short.
    pub open spec fn can_compare_soon<F: Fn(Operation) -> Scalar>(self, unit: F, event: ZoomEvent) -> bool {
        event matches ZoomEvent::Captured(Ok(image)) ==> {
            &&& samplable(image)
            &&& (self.wide matches Some(wide) ==> searches_are_short(unit, wide, image))
        }
    }

    pub open spec fn goes(self, phase: ZoomPhase, action: ZoomAction) -> (ZoomCalibration, ZoomStep) {
        (ZoomCalibration { phase, ..self }, plain(action))
    }

    /// The camera is sent to the value of the sample.
    pub open spec fn leaves<F: Fn(Operation) -> Scalar>(self, unit: F) -> (ZoomCalibration, ZoomStep) {
        let target = sample_target(unit, self.range, self.sample as int);
        self.goes(
            ZoomPhase::Leaving { purpose: ZoomPurpose::Sample, target },
            ZoomAction::Go(target),
        )
    }

    /// The camera is sent back.
    pub open spec fn leaves_for_good(self) -> (ZoomCalibration, ZoomStep) {
        let (next, step) = self.goes(
            ZoomPhase::Leaving { purpose: ZoomPurpose::Back, target: self.original },
            ZoomAction::Go(self.original),
        );
        (next, ZoomStep { restores: true, ..step })
    }

    pub open spec fn ends(self, restored: Result<(), ZoomError>) -> (ZoomCalibration, ZoomStep) {
        let outcome = match self.failure {
            Some(error) => Err(error),
            None => restored,
        };
        (ZoomCalibration { failure: None, phase: ZoomPhase::Finished, ..self }, plain(
            ZoomAction::Finish(outcome),
        ))
    }

    /// Something went wrong. On the way back that is the end; before, the camera
    /// is brought back.
    pub open spec fn fails(self, error: ZoomError, purpose: ZoomPurpose) -> (
        ZoomCalibration,
        ZoomStep,
    ) {
        match purpose {
            ZoomPurpose::Back => self.ends(Err(error)),
            ZoomPurpose::Sample => (ZoomCalibration {
                failure: Some(error),
                ..self
            }).leaves_for_good(),
        }
    }

    /// The row of an image. The widest one is what the others are measured by.
    pub open spec fn measured<F: Fn(Operation) -> Scalar>(
        self,
        unit: F,
        target: Scalar,
        reported: Scalar,
        image: RgbaImage,
    ) -> ZoomRow {
        if self.sample == 0 {
            ZoomRow {
                target,
                percent: Scalar { bits: ZERO },
                reported,
                magnification: Scalar { bits: ONE },
                hfov_deg: Scalar { bits: WIDE_HORIZONTAL_FOV_DEG },
                score: Scalar { bits: ONE },
            }
        } else {
            let found = magnification(unit, self.wide->Some_0, image);
            ZoomRow {
                target,
                percent: times(
                    unit,
                    Scalar { bits: fractions()[self.sample as int] },
                    Scalar { bits: HUNDRED },
                ),
                reported,
                magnification: found.0,
                hfov_deg: field_of_view(unit, found.0),
                score: found.1,
            }
        }
    }

    /// A sample is done: another one follows, or the way back.
    pub open spec fn notes<F: Fn(Operation) -> Scalar>(self, unit: F, image: RgbaImage, row: ZoomRow) -> (
        ZoomCalibration,
        ZoomStep,
    ) {
        let wide = if self.sample == 0 {
            Some(image)
        } else {
            self.wide
        };
        if self.sample + 1 < SAMPLE_COUNT {
            let (next, step) = (ZoomCalibration {
                sample: (self.sample + 1) as usize,
                wide,
                ..self
            }).leaves(unit);
            (next, ZoomStep { row: Some(row), ..step })
        } else {
            let (next, step) = (ZoomCalibration { wide, ..self }).leaves_for_good();
            (next, ZoomStep { row: Some(row), complete: true, ..step })
        }
    }

    /// What an event makes of the calibration, and what is to be done next.
    pub open spec fn stepped<F: Fn(Operation) -> Scalar>(
        self,
        unit: F,
        event: ZoomEvent,
        now: u128,
    ) -> (ZoomCalibration, ZoomStep) {
        match (self.phase, event) {
            (ZoomPhase::Leaving { purpose, target }, ZoomEvent::Sent(result)) => match result {
                Err(text) => self.fails(ZoomError::Device(text), purpose),
                Ok(_) => self.goes(
                    ZoomPhase::OnTheWay { purpose, target, started: now },
                    ZoomAction::Read,
                ),
            },
            (ZoomPhase::OnTheWay { purpose, target, started }, ZoomEvent::Position(result)) => {
                match result {
                    Err(text) => self.fails(ZoomError::Device(text), purpose),
                    Ok(at) => {
                        let arrived = at.zoom matches Some(zoom) && near(
                            unit,
                            zoom,
                            target,
                            grid_tolerance(self.range),
                        );
                        if arrived {
                            self.goes(
                                ZoomPhase::Resting {
                                    purpose,
                                    target,
                                    reported: at.zoom->Some_0,
                                },
                                ZoomAction::Pause(ZOOM_SETTLE_TIME),
                            )
                        } else if elapsed_spec(now, started) >= ZOOM_MOVE_TIMEOUT {
                            self.fails(ZoomError::TimedOut { target, actual: at.zoom }, purpose)
                        } else {
                            self.goes(
                                ZoomPhase::Pausing { purpose, target, started },
                                ZoomAction::Pause(ZOOM_POLL_INTERVAL),
                            )
                        }
                    },
                }
            },
            (ZoomPhase::Pausing { purpose, target, started }, ZoomEvent::Paused) => self.goes(
                ZoomPhase::OnTheWay { purpose, target, started },
                ZoomAction::Read,
            ),
            (ZoomPhase::Resting { purpose, target, reported }, ZoomEvent::Paused) => match purpose {
                ZoomPurpose::Back => self.ends(Ok(())),
                ZoomPurpose::Sample => self.goes(
                    ZoomPhase::Capturing { target, reported },
                    ZoomAction::Capture,
                ),
            },
            (ZoomPhase::Capturing { target, reported }, ZoomEvent::Captured(result)) => {
                match result {
                    Err(error) => self.fails(ZoomError::NoFrame(error), ZoomPurpose::Sample),
                    Ok(image) => self.notes(
                        unit,
                        image,
                        self.measured(unit, target, reported, image),
                    ),
                }
            },
            _ => self.goes(ZoomPhase::Finished, ZoomAction::Read),
        }
    }

    /// Prepares a calibration of a camera at this position; a zoom value that is
    /// unknown counts as the default. None for a camera without zoom.
    pub fn new<F: Fn(Operation) -> Scalar>(
        range: Option<ControlRange>,
        position: &Controls,
        unit: &F,
    ) -> (r: Option<(ZoomCalibration, ZoomStep)>)
        requires
            computes(*unit),
            range matches Some(zoom) ==> zoom.ordered(),
        ensures
            match range {
                None => r is None,
                Some(zoom) => {
                    &&& r matches Some((calibration, step))
                    &&& calibration.wf()
                    &&& (calibration, step) == (ZoomCalibration {
                        range: zoom,
                        original: match position.zoom {
                            Some(at) => at,
                            None => zoom.default,
                        },
                        sample: 0,
                        wide: None,
                        phase: ZoomPhase::Finished,
                        failure: None,
                    }).leaves(*unit)
                },
            },
    {
        match range {
            None => None,
            Some(zoom) => {
                let original = match position.zoom {
                    Some(at) => at,
                    None => zoom.default,
                };
                let mut calibration = ZoomCalibration {
                    range: zoom,
                    original,
                    sample: 0,
                    wide: None,
                    phase: ZoomPhase::Finished,
                    failure: None,
                };
                let step = calibration.leave(unit);
                Some((calibration, step))
            },
        }
    }

    fn go(&mut self, phase: ZoomPhase, action: ZoomAction) -> (r: ZoomStep)
        ensures
            (*final(self), r) == old(self).goes(phase, action),
    {
        self.phase = phase;
        only(action)
    }

    fn leave<F: Fn(Operation) -> Scalar>(&mut self, unit: &F) -> (r: ZoomStep)
        requires
            computes(*unit),
            old(self).wf(),
        ensures
            (*final(self), r) == old(self).leaves(*unit),
    {
        let target = find_sample_target(&self.range, self.sample, unit);
        self.go(
            ZoomPhase::Leaving { purpose: ZoomPurpose::Sample, target },
            ZoomAction::Go(target),
        )
    }

    fn leave_for_good(&mut self) -> (r: ZoomStep)
        ensures
            (*final(self), r) == old(self).leaves_for_good(),
    {
        let target = self.original;
        let mut step = self.go(
            ZoomPhase::Leaving { purpose: ZoomPurpose::Back, target },
            ZoomAction::Go(target),
        );
        step.restores = true;
        step
    }

    fn end(&mut self, restored: Result<(), ZoomError>) -> (r: ZoomStep)
        ensures
            (*final(self), r) == old(self).ends(restored),
    {
        let outcome = match self.failure.take() {
            Some(error) => Err(error),
            None => restored,
        };
        self.go(ZoomPhase::Finished, ZoomAction::Finish(outcome))
    }

    fn fail(&mut self, error: ZoomError, purpose: ZoomPurpose) -> (r: ZoomStep)
        ensures
            (*final(self), r) == old(self).fails(error, purpose),
    {
        match purpose {
            ZoomPurpose::Back => self.end(Err(error)),
            ZoomPurpose::Sample => {
                self.failure = Some(error);
                self.leave_for_good()
            },
        }
    }

    fn measure<F: Fn(Operation) -> Scalar>(
        &self,
        target: Scalar,
        reported: Scalar,
        image: &RgbaImage,
        unit: &F,
    ) -> (r: ZoomRow)
        requires
            computes(*unit),
            self.wf(),
            samplable(*image),
            self.wide matches Some(wide) ==> searches_end(*unit, wide, *image),
        ensures
            r == self.measured(*unit, target, reported, *image),
    {
        if self.sample == 0 {
            return ZoomRow {
                target,
                percent: Scalar::from_bits(ZERO),
                reported,
                magnification: Scalar::from_bits(ONE),
                hfov_deg: Scalar::from_bits(WIDE_HORIZONTAL_FOV_DEG),
                score: Scalar::from_bits(ONE),
            };
        }
        let found = match &self.wide {
            Some(wide) => estimate_magnification(wide, image, unit),
            None => (Scalar::from_bits(ONE), Scalar::from_bits(ONE)),
        };
        ZoomRow {
            target,
            percent: product(unit, sample_fraction(self.sample), Scalar::from_bits(HUNDRED)),
            reported,
            magnification: found.0,
            hfov_deg: horizontal_fov_for_magnification(found.0, unit),
            score: found.1,
        }
    }

    fn note<F: Fn(Operation) -> Scalar>(&mut self, image: RgbaImage, row: ZoomRow, unit: &F) -> (r:
        ZoomStep)
        requires
            computes(*unit),
            old(self).wf(),
            samplable(image),
        ensures
            (*final(self), r) == old(self).notes(*unit, image, row),
            final(self).wf(),
    {
        if self.sample == 0 {
            self.wide = Some(image);
        }
        if self.sample + 1 < SAMPLE_COUNT {
            self.sample = self.sample + 1;
            let mut step = self.leave(unit);
            step.row = Some(row);
            return step;
        }
        let mut step = self.leave_for_good();
        step.row = Some(row);
        step.complete = true;
        step
    }

    /// Whether an image that an event brings can be compared, and that soon.
    pub fn can_take<F: Fn(Operation) -> Scalar>(&self, event: &ZoomEvent, unit: &F) -> (r: bool)
        requires
            computes(*unit),
            self.wf(),
        ensures
            r == self.can_compare_soon(*unit, *event),
            r ==> self.can_compare(*unit, *event),
    {
        match event {
            ZoomEvent::Captured(Ok(image)) => {
                if !is_samplable(image) {
                    return false;
                }
                match &self.wide {
                    Some(wide) => are_short_searches(wide, image, unit),
                    None => true,
                }
            },
            _ => true,
        }
    }

    /// Takes an event in and says what is to be done next.
    pub fn advance<F: Fn(Operation) -> Scalar>(&mut self, event: ZoomEvent, now: u128, unit: &F) -> (r:
        ZoomStep)
        requires
            computes(*unit),
            old(self).wf(),
            old(self).expects(event),
            old(self).can_compare(*unit, event),
        ensures
            (*final(self), r) == old(self).stepped(*unit, event, now),
            final(self).wf(),
    {
        match (self.phase, event) {
            (ZoomPhase::Leaving { purpose, target }, ZoomEvent::Sent(result)) => match result {
                Err(text) => self.fail(ZoomError::Device(text), purpose),
                Ok(_) => self.go(
                    ZoomPhase::OnTheWay { purpose, target, started: now },
                    ZoomAction::Read,
                ),
            },
            (ZoomPhase::OnTheWay { purpose, target, started }, ZoomEvent::Position(result)) => {
                match result {
                    Err(text) => self.fail(ZoomError::Device(text), purpose),
                    Ok(at) => {
                        if let Some(zoom) = at.zoom {
                            if is_near(zoom, target, step_tolerance(&self.range), unit) {
                                return self.go(
                                    ZoomPhase::Resting { purpose, target, reported: zoom },
                                    ZoomAction::Pause(ZOOM_SETTLE_TIME),
                                );
                            }
                        }
                        if elapsed(now, started) >= ZOOM_MOVE_TIMEOUT {
                            return self.fail(
                                ZoomError::TimedOut { target, actual: at.zoom },
                                purpose,
                            );
                        }
                        self.go(
                            ZoomPhase::Pausing { purpose, target, started },
                            ZoomAction::Pause(ZOOM_POLL_INTERVAL),
                        )
                    },
                }
            },
            (ZoomPhase::Pausing { purpose, target, started }, ZoomEvent::Paused) => self.go(
                ZoomPhase::OnTheWay { purpose, target, started },
                ZoomAction::Read,
            ),
            (ZoomPhase::Resting { purpose, target, reported }, ZoomEvent::Paused) => match purpose {
                ZoomPurpose::Back => self.end(Ok(())),
                ZoomPurpose::Sample => self.go(
                    ZoomPhase::Capturing { target, reported },
                    ZoomAction::Capture,
                ),
            },
            (ZoomPhase::Capturing { target, reported }, ZoomEvent::Captured(result)) => {
                match result {
                    Err(error) => self.fail(ZoomError::NoFrame(error), ZoomPurpose::Sample),
                    Ok(image) => {
                        let row = self.measure(target, reported, &image, unit);
                        self.note(image, row, unit)
                    },
                }
            },
            _ => self.go(ZoomPhase::Finished, ZoomAction::Read),
        }
    }
}

/// A calibration ends only on the way back, after zoom was sent to its old value;
/// a failure before that sends it back at once, and is what the calibration ends
/// with.
pub proof fn zoom_is_brought_back<F: Fn(Operation) -> Scalar>(
    unit: F,
    calibration: ZoomCalibration,
    event: ZoomEvent,
    now: u128,
)
    requires
        calibration.wf(),
        calibration.expects(event),
    ensures
        ({
            let (next, step) = calibration.stepped(unit, event, now);
            &&& next.original == calibration.original
            &&& next.phase is Finished <==> step.action is Finish
            &&& step.action is Finish ==> match calibration.phase {
                ZoomPhase::Leaving { purpose, .. } => purpose is Back,
                ZoomPhase::OnTheWay { purpose, .. } => purpose is Back,
                ZoomPhase::Resting { purpose, .. } => purpose is Back,
                _ => false,
            }
            &&& step.restores ==> step.action == ZoomAction::Go(calibration.original)
            &&& (calibration.failure matches Some(error) ==> (
            step.action matches ZoomAction::Finish(outcome) ==> outcome == Err::<(), ZoomError>(
                error,
            )))
            &&& next.failure is Some && calibration.failure is None ==> step.restores
        }),
{
}

/// Every zoom value that is asked for lies in the range, unless it is not a
/// number.
pub proof fn samples_lie_in_range<F: Fn(Operation) -> Scalar>(unit: F, range: ControlRange, sample: int)
    requires
        range.ordered(),
        0 <= sample < SAMPLE_COUNT,
    ensures
        sample_target(unit, range, sample).nan() || range.contains(
            sample_target(unit, range, sample),
        ),
{
}

/// The image that the others are compared with is the one taken at the first
/// sample, and nothing that happens later replaces it. A row is there exactly when
/// an image was taken, and the samples are counted up by the images, to twelve.
pub proof fn first_image_is_kept<F: Fn(Operation) -> Scalar>(
    unit: F,
    calibration: ZoomCalibration,
    event: ZoomEvent,
    now: u128,
)
    requires
        calibration.wf(),
    ensures
        ({
            let (next, step) = calibration.stepped(unit, event, now);
            let taken = calibration.phase is Capturing && (event matches ZoomEvent::Captured(result)
                && result is Ok);
            &&& calibration.sample > 0 ==> next.wide == calibration.wide
            &&& !taken ==> next.wide == calibration.wide
            &&& calibration.sample == 0 && taken ==> (event matches ZoomEvent::Captured(Ok(image))
                && next.wide == Some(image))
            &&& step.row is Some <==> taken
            &&& next.range == calibration.range
            &&& next.original == calibration.original
            &&& next.sample == if taken && calibration.sample < 11 {
                calibration.sample + 1
            } else {
                calibration.sample as int
            }
            &&& step.complete <==> taken && calibration.sample == 11
        }),
{
}

/// A row speaks of the value that was asked for and of the one that was read. The
/// first image is its own measure; every other is set against the first.
pub proof fn rows_compare_with_the_first_image<F: Fn(Operation) -> Scalar>(
    unit: F,
    calibration: ZoomCalibration,
    target: Scalar,
    reported: Scalar,
    image: RgbaImage,
    now: u128,
)
    requires
        calibration.wf(),
        calibration.phase == (ZoomPhase::Capturing { target, reported }),
    ensures
        ({
            let step = calibration.stepped(unit, ZoomEvent::Captured(Ok(image)), now).1;
            &&& step.row matches Some(row)
            &&& row.target == target
            &&& row.reported == reported
            &&& calibration.sample == 0 ==> {
                &&& row.percent.bits == 0
                &&& row.magnification.bits == 0x3F80_0000
                &&& row.hfov_deg.bits == 0x4291_0000
                &&& row.score.bits == 0x3F80_0000
            }
            &&& calibration.sample > 0 ==> {
                &&& calibration.wide matches Some(first)
                &&& row.magnification == magnification(unit, first, image).0
                &&& row.score == magnification(unit, first, image).1
                &&& row.hfov_deg == field_of_view(unit, row.magnification)
                &&& row.percent == times(
                    unit,
                    Scalar { bits: fractions()[calibration.sample as int] },
                    Scalar { bits: 0x42C8_0000 },
                )
            }
        }),
{
}

/// The calibration after a run of events, each with its time.
pub open spec fn after<F: Fn(Operation) -> Scalar>(
    unit: F,
    calibration: ZoomCalibration,
    events: Seq<(ZoomEvent, u128)>,
) -> ZoomCalibration
    decreases events.len(),
{
    if events.len() == 0 {
        calibration
    } else {
        let (event, now) = events.last();
        after(unit, calibration, events.drop_last()).stepped(unit, event, now).0
    }
}

/// Over any run of a calibration that has an image to compare with, it stays that
/// image.
pub proof fn first_image_is_kept_over_a_run<F: Fn(Operation) -> Scalar>(
    unit: F,
    calibration: ZoomCalibration,
    events: Seq<(ZoomEvent, u128)>,
)
    requires
        0 < calibration.sample < 12,
    ensures
        after(unit, calibration, events).wide == calibration.wide,
        calibration.sample <= after(unit, calibration, events).sample < 12,
    decreases events.len(),
{
    if events.len() > 0 {
        first_image_is_kept_over_a_run(unit, calibration, events.drop_last());
    }
}

/// Over any run that begins with the first image, each later image is compared with
/// that one.
pub proof fn later_images_are_compared_with_the_first<F: Fn(Operation) -> Scalar>(
    unit: F,
    calibration: ZoomCalibration,
    first: RgbaImage,
    taken: u128,
    events: Seq<(ZoomEvent, u128)>,
    image: RgbaImage,
    now: u128,
)
    requires
        calibration.sample == 0,
        calibration.phase is Capturing,
        after(
            unit,
            calibration.stepped(unit, ZoomEvent::Captured(Ok(first)), taken).0,
            events,
        ).phase is Capturing,
    ensures
        ({
            let later = after(
                unit,
                calibration.stepped(unit, ZoomEvent::Captured(Ok(first)), taken).0,
                events,
            );
            &&& later.wide == Some(first)
            &&& later.stepped(unit, ZoomEvent::Captured(Ok(image)), now).1.row matches Some(row)
            &&& (row.magnification, row.score) == magnification(unit, first, image)
            &&& row.hfov_deg == field_of_view(unit, row.magnification)
        }),
{
    let begun = calibration.stepped(unit, ZoomEvent::Captured(Ok(first)), taken).0;
    first_image_is_kept_over_a_run(unit, begun, events);
}

/// A move counts as arrived when zoom is within a step of the value, or within one
/// where the step is smaller; the camera then rests for half a second. It is looked
/// at every 50 ms, and given up after 15 s.
pub proof fn moves_arrive_or_are_given_up<F: Fn(Operation) -> Scalar>(
    unit: F,
    calibration: ZoomCalibration,
    purpose: ZoomPurpose,
    target: Scalar,
    started: u128,
    at: Controls,
    now: u128,
    goal: int,
    step: int,
)
    requires
        exact_on_whole_numbers(unit),
        calibration.phase == (ZoomPhase::OnTheWay { purpose, target, started }),
        stands_for(target, goal),
        stands_for(calibration.range.step, step),
        small(goal),
    ensures
        ({
            let (next, shown) = calibration.stepped(unit, ZoomEvent::Position(Ok(at)), now);
            let width: int = if step >= 1 {
                step
            } else if step <= -1 {
                -step
            } else {
                1
            };
            &&& forall|zoom: Scalar, number: int|
                at.zoom == Some(zoom) && #[trigger] stands_for(zoom, number) && small(number) && -width
                    <= number - goal <= width ==> next.phase == (ZoomPhase::Resting {
                    purpose,
                    target,
                    reported: zoom,
                }) && shown.action == ZoomAction::Pause(500_000_000) && next.failure
                    == calibration.failure
            &&& (at.zoom is None || exists|number: int| #[trigger]
                stands_for(at.zoom->Some_0, number) && small(number) && !(-width <= number - goal
                    <= width)) ==> if now - started >= 15_000_000_000 {
                let given_up = ZoomError::TimedOut { target, actual: at.zoom };
                match purpose {
                    ZoomPurpose::Sample => next.failure == Some(given_up) && shown.restores,
                    ZoomPurpose::Back => shown.action == ZoomAction::Finish(
                        Err(
                            match calibration.failure {
                                Some(earlier) => earlier,
                                None => given_up,
                            },
                        ),
                    ),
                }
            } else {
                &&& next.phase == (ZoomPhase::Pausing { purpose, target, started })
                &&& shown.action == ZoomAction::Pause(50_000_000)
                &&& next.failure == calibration.failure
            }
        }),
{
    tolerance_is_a_step(calibration.range, step);
    let width: int = if step >= 1 {
        step
    } else if step <= -1 {
        -step
    } else {
        1
    };
    let within = grid_tolerance(calibration.range);
    assert(stands_for(within, width));
    assert forall|zoom: Scalar, number: int| #[trigger]
        stands_for(zoom, number) && small(number) implies near(unit, zoom, target, within) == (
    -width <= number - goal <= width) by {
        nearness_is_a_distance(unit, zoom, target, within, number, goal, width);
    }
}

/// The values that are tried begin at the lower end of the range and end at the
/// upper one, or at the step nearest to it.
pub proof fn samples_span_the_range<F: Fn(Operation) -> Scalar>(
    unit: F,
    range: ControlRange,
    whole: WholeRange,
)
    requires
        exact_on_whole_numbers(unit),
        whole.wf(),
        whole.of(range),
    ensures
        stands_for(sample_target(unit, range, 0), whole.min),
        stands_for(sample_target(unit, range, 11), whole.snap(whole.max)),
{
    whole_numbers_are_clamped(range.min, range.min, range.max, whole.min, whole.min, whole.max);
    calibrations_snap_to_the_steps(
        unit,
        range.min.clamped(range.min, range.max),
        range,
        whole.min,
        whole,
    );
    assert(whole.snap(whole.min) == whole.min) by {
        assert(nearest_quotient(0, whole.step) == 0) by {
            lemma_fundamental_div_mod_converse(whole.step, 2 * whole.step, 0, whole.step);
        }
        assert(0 * whole.step == 0);
    }
    let width = minus(unit, range.max, range.min);
    let one = Scalar { bits: fractions()[11] };
    assert(stands_for(one, 1)) by {
        lemma2_to64();
        patterns_denote_whole_numbers(0x3F80_0000, 1, 23);
    }
    assert(stands_for(width, whole.max - whole.min));
    let reach = times(unit, width, one);
    assert(stands_for(reach, (whole.max - whole.min) * 1));
    let requested = plus(unit, range.min, reach);
    assert(stands_for(requested, whole.min + (whole.max - whole.min) * 1));
    whole_numbers_are_clamped(requested, range.min, range.max, whole.max, whole.min, whole.max);
    calibrations_snap_to_the_steps(
        unit,
        requested.clamped(range.min, range.max),
        range,
        whole.max,
        whole,
    );
}

/// The parts of the range grow from one sample to the next, from nothing to all.
pub proof fn samples_come_in_order()
    ensures
        fractions().len() == 12,
        fractions()[0] == 0,
        fractions()[11] == 0x3F80_0000,
        forall|i: int, j: int|
            0 <= i < j < 12 ==> (Scalar { bits: #[trigger] fractions()[i] }).less(
                Scalar { bits: #[trigger] fractions()[j] },
            ),
{
}

/// The field of view at a magnification: twice the angle whose tangent is that of half
/// the widest field, 72.5 degrees, by the magnification. Unmagnified it is the widest.
pub proof fn field_of_view_follows_the_lens<F: Fn(Operation) -> Scalar>(unit: F, scale: Scalar)
    ensures
        ({
            let widest = Scalar { bits: 0x4291_0000 };
            let half = times(unit, to_radians(unit, widest), Scalar { bits: 0x3F00_0000 });
            let opening = over(unit, tan(unit, half), scale);
            &&& field_of_view(unit, scale) == times(
                unit,
                Scalar { bits: 0x4000_0000 },
                to_degrees(unit, atan(unit, opening)),
            )
            &&& opening == tan(unit, half) && atan(unit, tan(unit, half)) == half && times(
                unit,
                Scalar { bits: 0x4000_0000 },
                to_degrees(unit, half),
            ) == widest ==> field_of_view(unit, scale) == widest
        }),
{
}

/// Behind the lower end a twentieth of the range is tried, and then every tenth; each
/// part is reckoned from the lower end, moved into the range and snapped to a step.
pub proof fn samples_are_parts_of_the_range<F: Fn(Operation) -> Scalar>(
    unit: F,
    range: ControlRange,
    sample: int,
)
    requires
        0 < sample < 12,
    ensures
        fractions() == seq![
            0x0000_0000u32,
            0x3D4C_CCCD,
            0x3DCC_CCCD,
            0x3E4C_CCCD,
            0x3E99_999A,
            0x3ECC_CCCD,
            0x3F00_0000,
            0x3F19_999A,
            0x3F33_3333,
            0x3F4C_CCCD,
            0x3F66_6666,
            0x3F80_0000,
        ],
        ({
            let width = minus(unit, range.max, range.min);
            let part = times(unit, width, Scalar { bits: fractions()[sample] });
            sample_target(unit, range, sample) == grid_snapped(
                unit,
                plus(unit, range.min, part).clamped(range.min, range.max),
                range,
            )
        }),
{
}

} // verus!
