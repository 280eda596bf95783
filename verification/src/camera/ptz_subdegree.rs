//! Tests whether the camera follows commands of less than a degree, by what it
//! reports and by what the image shows.
//!
//! The test names the next action and is told the outcome.

use crate::arithmetic::{computes, difference, minus, plus, sum, Operation};
use crate::camera::controls::{ControlCapabilities, Controls};
use crate::camera::fresh_frame::FreshFrameError;
use crate::camera::motion::{Destination, MoveProgress};
use crate::camera::profile::{
    best_shift, best_shift_is_best, estimate_shift, is_shiftable, shift_error, shiftable, shorter,
    ImageProfiles,
};
use crate::scalar::{Scalar, INFINITY, ONE};
use vstd::prelude::*;

verus! {

/// Bit patterns of the position from which every move starts: pan 0, tilt 30.
pub const BASE_PAN: u32 = 0x0000_0000;

pub const BASE_TILT: u32 = 0x41F0_0000;

/// Offsets that are tried on each axis.
pub const OFFSET_COUNT: usize = 8;

/// Rows of the result: every offset on both axes.
pub const ROW_COUNT: usize = 16;

/// How long the camera rests after a fractional move: 1.5 s.
pub const FRACTIONAL_SETTLE_TIME: u128 = 1_500_000_000;

/// How long it rests at the base: 400 ms.
pub const BASE_SETTLE_TIME: u128 = 400_000_000;

/// Pause between two looks at a move: 50 ms.
pub const BASE_POLL_INTERVAL: u128 = 50_000_000;

/// Time after which a move has failed: 8 s.
pub const BASE_MOVE_TIMEOUT: u128 = 8_000_000_000;

/// Pause between the two images of a camera that stands still: 250 ms.
pub const STATIONARY_PAUSE: u128 = 250_000_000;

/// Largest shift that is looked for.
pub const MAX_IMAGE_SHIFT_PIXELS: i32 = 80;

#[derive(Copy, Clone, Debug, Eq, PartialEq, Structural)]
pub enum TestAxis {
    Pan,
    Tilt,
}

impl TestAxis {
    pub fn label(self) -> (r: &'static str)
        ensures
            r@ == (match self {
                TestAxis::Pan => "PAN"@,
                TestAxis::Tilt => "TILT"@,
            }),
    {
        match self {
            TestAxis::Pan => "PAN",
            TestAxis::Tilt => "TILT",
        }
    }

    pub open spec fn position(self, at: Controls) -> Option<Scalar> {
        match self {
            TestAxis::Pan => at.pan,
            TestAxis::Tilt => at.tilt,
        }
    }

    /// The profile along which a move on this axis shifts the image.
    pub open spec fn along(self, image: ImageProfiles) -> Seq<Scalar> {
        match self {
            TestAxis::Pan => image.x@,
            TestAxis::Tilt => image.y@,
        }
    }
}

/// Bit patterns of the offsets: a quarter, a half, three quarters and one degree
/// forward, and the same backward.
pub open spec fn offsets() -> Seq<u32> {
    seq![
        0x3E80_0000,
        0x3F00_0000,
        0x3F40_0000,
        0x3F80_0000,
        0xBE80_0000,
        0xBF00_0000,
        0xBF40_0000,
        0xBF80_0000,
    ]
}

/// Axis and offset of a row: all offsets on pan, then all on tilt.
pub open spec fn row_plan(row: int) -> (TestAxis, Scalar) {
    if row < OFFSET_COUNT {
        (TestAxis::Pan, Scalar { bits: offsets()[row] })
    } else {
        (TestAxis::Tilt, Scalar { bits: offsets()[row - OFFSET_COUNT] })
    }
}

pub fn find_row_plan(row: usize) -> (r: (TestAxis, Scalar))
    requires
        row < ROW_COUNT,
    ensures
        r == row_plan(row as int),
{
    let (axis, place): (TestAxis, usize) = if row < OFFSET_COUNT {
        (TestAxis::Pan, row)
    } else {
        (TestAxis::Tilt, row - OFFSET_COUNT)
    };
    let bits: u32 = if place == 0 {
        0x3E80_0000
    } else if place == 1 {
        0x3F00_0000
    } else if place == 2 {
        0x3F40_0000
    } else if place == 3 {
        0x3F80_0000
    } else if place == 4 {
        0xBE80_0000
    } else if place == 5 {
        0xBF00_0000
    } else if place == 6 {
        0xBF40_0000
    } else {
        0xBF80_0000
    };
    (axis, Scalar::from_bits(bits))
}

/// Pan and tilt that a row asks for: the base, off by the row's offset on its
/// axis.
pub open spec fn row_target<F: Fn(Operation) -> Scalar>(unit: F, axis: TestAxis, offset: Scalar) -> (
    Scalar,
    Scalar,
) {
    let pan = Scalar { bits: BASE_PAN };
    let tilt = Scalar { bits: BASE_TILT };
    match axis {
        TestAxis::Pan => (plus(unit, pan, offset), tilt),
        TestAxis::Tilt => (pan, plus(unit, tilt, offset)),
    }
}

/// Where the camera is sent, to within a degree.
pub open spec fn within_a_degree(pan: Scalar, tilt: Scalar) -> Destination {
    Destination {
        pan,
        tilt,
        pan_tolerance: Scalar { bits: ONE },
        tilt_tolerance: Scalar { bits: ONE },
    }
}

fn about(pan: Scalar, tilt: Scalar) -> (r: Destination)
    ensures
        r == within_a_degree(pan, tilt),
{
    let one = Scalar::from_bits(ONE);
    Destination { pan, tilt, pan_tolerance: one, tilt_tolerance: one }
}

/// Shift between two profiles, and how well they agree.
pub open spec fn shift_between<F: Fn(Operation) -> Scalar>(
    unit: F,
    before: Seq<Scalar>,
    after: Seq<Scalar>,
) -> (int, Scalar) {
    let length = shorter(before.len() as int, after.len() as int);
    if length < 10 {
        (0, Scalar { bits: INFINITY })
    } else {
        best_shift(
            unit,
            before,
            after,
            length,
            -MAX_IMAGE_SHIFT_PIXELS,
            MAX_IMAGE_SHIFT_PIXELS + 1,
        )
    }
}

/// The profiles are too short to say anything, or long enough for every shift.
pub open spec fn comparable(before: Seq<Scalar>, after: Seq<Scalar>) -> bool {
    shiftable(before.len() as int, after.len() as int, MAX_IMAGE_SHIFT_PIXELS as int)
}

fn is_comparable(before: &Vec<Scalar>, after: &Vec<Scalar>) -> (r: bool)
    ensures
        r == comparable(before@, after@),
{
    is_shiftable(before, after, MAX_IMAGE_SHIFT_PIXELS)
}

fn find_shift<F: Fn(Operation) -> Scalar>(before: &Vec<Scalar>, after: &Vec<Scalar>, unit: &F) -> (r: (
    i32,
    Scalar,
))
    requires
        computes(*unit),
        comparable(before@, after@),
    ensures
        (r.0 as int, r.1) == shift_between(*unit, before@, after@),
{
    estimate_shift(before, after, MAX_IMAGE_SHIFT_PIXELS, unit)
}

/// Shifts of an image of which nothing moved.
#[derive(Copy, Clone, Debug)]
pub struct StationaryShift {
    pub x: i32,
    pub y: i32,
}

/// One row of the result.
#[derive(Copy, Clone, Debug)]
pub struct Row {
    pub axis: TestAxis,
    pub offset: Scalar,
    pub before: Scalar,
    pub after: Scalar,
    pub reported_delta: Scalar,
    pub pixel_shift: i32,
    pub profile_error: Scalar,
}

/// Why a test fails.
#[derive(Clone, Debug)]
pub enum SubdegreeError {
    /// The device refused; the text says why.
    Device(String),
    /// The position of the axis cannot be read.
    Unavailable(TestAxis),
    /// A move did not arrive; the position is the last one read.
    TimedOut { wanted: Destination, actual: Controls },
    /// No image could be had.
    NoFrame(FreshFrameError),
}

/// What is said of an axis that cannot be read.
pub fn unavailable_message(axis: TestAxis) -> (r: &'static str)
    ensures
        r@ == (match axis {
            TestAxis::Pan => "Pan readback is unavailable"@,
            TestAxis::Tilt => "Tilt readback is unavailable"@,
        }),
{
    match axis {
        TestAxis::Pan => "Pan readback is unavailable",
        TestAxis::Tilt => "Tilt readback is unavailable",
    }
}

/// What is said of a camera that lacks an axis.
pub fn missing_control_message(axis: TestAxis) -> (r: &'static str)
    ensures
        r@ == (match axis {
            TestAxis::Pan => "Camera does not expose absolute pan control"@,
            TestAxis::Tilt => "Camera does not expose absolute tilt control"@,
        }),
{
    match axis {
        TestAxis::Pan => "Camera does not expose absolute pan control",
        TestAxis::Tilt => "Camera does not expose absolute tilt control",
    }
}

fn axis_position(at: &Controls, axis: TestAxis) -> (r: Result<Scalar, SubdegreeError>)
    ensures
        match axis.position(*at) {
            Some(position) => r == Ok::<Scalar, SubdegreeError>(position),
            None => r == Err::<Scalar, SubdegreeError>(SubdegreeError::Unavailable(axis)),
        },
{
    let position = match axis {
        TestAxis::Pan => at.pan,
        TestAxis::Tilt => at.tilt,
    };
    match position {
        Some(position) => Ok(position),
        None => Err(SubdegreeError::Unavailable(axis)),
    }
}

/// What a move is for.
#[derive(Copy, Clone, Debug, Eq, PartialEq, Structural)]
pub enum Purpose {
    /// To look at a camera that stands still.
    Still,
    /// To start a row.
    Row,
    /// To leave the camera as it was.
    Back,
}

/// What is under way.
#[derive(Debug)]
pub enum Phase {
    /// A move is being sent.
    Leaving(Purpose),
    /// The position is being read on the way.
    OnTheWay { purpose: Purpose, started: u128 },
    /// The next look waits.
    Pausing { purpose: Purpose, started: u128 },
    /// The camera rests where it arrived.
    Resting(Purpose),
    FirstImage,
    BetweenImages(ImageProfiles),
    SecondImage(ImageProfiles),
    ReadingBefore,
    ImageBefore { before: Scalar },
    /// The fractional move is being sent.
    Applying { before: Scalar, image: ImageProfiles },
    Settling { before: Scalar, image: ImageProfiles },
    ReadingAfter { before: Scalar, image: ImageProfiles },
    ImageAfter { before: Scalar, after: Scalar, image: ImageProfiles },
    Finished,
}

/// What is to be done next.
#[derive(Debug)]
pub enum SubdegreeAction {
    /// Send pan and tilt to a position.
    Go { pan: Scalar, tilt: Scalar },
    /// Read the position.
    Read,
    /// Wait this many nanoseconds.
    Pause(u128),
    /// Take the profiles of a fresh image.
    Capture,
    /// Nothing: this is how it went.
    Finish(Result<(), SubdegreeError>),
}

/// What happened.
#[derive(Debug)]
pub enum SubdegreeEvent {
    Sent(Result<(), String>),
    Position(Result<Controls, String>),
    Paused,
    Captured(Result<ImageProfiles, FreshFrameError>),
}

/// An action, and what there is to show before it.
#[derive(Debug)]
pub struct SubdegreeStep {
    pub stationary: Option<StationaryShift>,
    pub row: Option<Row>,
    /// All rows are there.
    pub complete: bool,
    /// The camera is brought back to where it was.
    pub restores: bool,
    pub action: SubdegreeAction,
}

/// A test under way.
#[derive(Debug)]
pub struct SubdegreeTest {
    pub original: Destination,
    /// The row that is being measured.
    pub row: usize,
    pub phase: Phase,
    /// Why the rows ended early.
    pub failure: Option<SubdegreeError>,
}

/// An action with nothing to show.
pub open spec fn plain(action: SubdegreeAction) -> SubdegreeStep {
    SubdegreeStep { stationary: None, row: None, complete: false, restores: false, action }
}

fn only(action: SubdegreeAction) -> (r: SubdegreeStep)
    ensures
        r == plain(action),
{
    SubdegreeStep { stationary: None, row: None, complete: false, restores: false, action }
}

impl SubdegreeTest {
    pub open spec fn wf(self) -> bool {
        self.row < ROW_COUNT
    }

    /// The event answers the action of this phase.
    pub open spec fn expects(self, event: SubdegreeEvent) -> bool {
        match self.phase {
            Phase::Leaving(_) | Phase::Applying { .. } => event is Sent,
            Phase::OnTheWay { .. } | Phase::ReadingBefore | Phase::ReadingAfter { .. } => {
                event is Position
            },
            Phase::Pausing { .. } | Phase::Resting(_) | Phase::BetweenImages(_)
            | Phase::Settling { .. } => event is Paused,
            Phase::FirstImage | Phase::SecondImage(_) | Phase::ImageBefore { .. }
            | Phase::ImageAfter { .. } => event is Captured,
            Phase::Finished => false,
        }
    }

    /// Images that are compared are of a size at which they can be.
    pub open spec fn can_compare(self, event: SubdegreeEvent) -> bool {
        match (self.phase, event) {
            (Phase::SecondImage(first), SubdegreeEvent::Captured(Ok(second))) => comparable(
                first.x@,
                second.x@,
            ) && comparable(first.y@, second.y@),
            (Phase::ImageAfter { image, .. }, SubdegreeEvent::Captured(Ok(second))) => {
                let axis = row_plan(self.row as int).0;
                comparable(axis.along(image), axis.along(second))
            },
            _ => true,
        }
    }

    /// Where a move goes.
    pub open spec fn destination(self, purpose: Purpose) -> Destination {
        match purpose {
            Purpose::Back => self.original,
            _ => within_a_degree(Scalar { bits: BASE_PAN }, Scalar { bits: BASE_TILT }),
        }
    }

    pub open spec fn goes(self, phase: Phase, action: SubdegreeAction) -> (
        SubdegreeTest,
        SubdegreeStep,
    ) {
        (SubdegreeTest { phase, ..self }, plain(action))
    }

    /// The camera is sent on a move.
    pub open spec fn leaves(self, purpose: Purpose) -> (SubdegreeTest, SubdegreeStep) {
        let to = self.destination(purpose);
        let (next, step) = self.goes(
            Phase::Leaving(purpose),
            SubdegreeAction::Go { pan: to.pan, tilt: to.tilt },
        );
        (next, SubdegreeStep { restores: purpose is Back, ..step })
    }

    pub open spec fn ends(self, restored: Result<(), SubdegreeError>) -> (
        SubdegreeTest,
        SubdegreeStep,
    ) {
        let outcome = match self.failure {
            Some(error) => Err(error),
            None => restored,
        };
        (SubdegreeTest { failure: None, phase: Phase::Finished, ..self }, plain(
            SubdegreeAction::Finish(outcome),
        ))
    }

    /// Something went wrong. On the way back that is the end; before, the camera
    /// is brought back.
    pub open spec fn fails(self, error: SubdegreeError, on_the_way_back: bool) -> (
        SubdegreeTest,
        SubdegreeStep,
    ) {
        if on_the_way_back {
            self.ends(Err(error))
        } else {
            (SubdegreeTest { failure: Some(error), ..self }).leaves(Purpose::Back)
        }
    }

    /// The camera has arrived and rested.
    pub open spec fn arrives(self, purpose: Purpose) -> (SubdegreeTest, SubdegreeStep) {
        match purpose {
            Purpose::Still => self.goes(Phase::FirstImage, SubdegreeAction::Capture),
            Purpose::Row => self.goes(Phase::ReadingBefore, SubdegreeAction::Read),
            Purpose::Back => self.ends(Ok(())),
        }
    }

    /// A row is done: another one follows, or the way back.
    pub open spec fn notes(self, row: Row) -> (SubdegreeTest, SubdegreeStep) {
        if self.row + 1 < ROW_COUNT {
            let (next, step) = (SubdegreeTest { row: (self.row + 1) as usize, ..self }).leaves(
                Purpose::Row,
            );
            (next, SubdegreeStep { row: Some(row), ..step })
        } else {
            let (next, step) = self.leaves(Purpose::Back);
            (next, SubdegreeStep { row: Some(row), complete: true, ..step })
        }
    }

    /// What an event makes of the test, and what is to be done next.
    pub open spec fn stepped<F: Fn(Operation) -> Scalar>(
        self,
        unit: F,
        event: SubdegreeEvent,
        now: u128,
    ) -> (SubdegreeTest, SubdegreeStep) {
        let (axis, offset) = row_plan(self.row as int);
        match (self.phase, event) {
            (Phase::Leaving(purpose), SubdegreeEvent::Sent(result)) => match result {
                Err(text) => self.fails(SubdegreeError::Device(text), purpose is Back),
                Ok(_) => self.goes(
                    Phase::OnTheWay { purpose, started: now },
                    SubdegreeAction::Read,
                ),
            },
            (Phase::OnTheWay { purpose, started }, SubdegreeEvent::Position(result)) => {
                match result {
                    Err(text) => self.fails(SubdegreeError::Device(text), purpose is Back),
                    Ok(at) => match self.destination(purpose).progress(
                        unit,
                        at,
                        started,
                        now,
                        BASE_MOVE_TIMEOUT,
                    ) {
                        MoveProgress::Arrived => self.goes(
                            Phase::Resting(purpose),
                            SubdegreeAction::Pause(BASE_SETTLE_TIME),
                        ),
                        MoveProgress::TimedOut => self.fails(
                            SubdegreeError::TimedOut {
                                wanted: self.destination(purpose),
                                actual: at,
                            },
                            purpose is Back,
                        ),
                        MoveProgress::Moving => self.goes(
                            Phase::Pausing { purpose, started },
                            SubdegreeAction::Pause(BASE_POLL_INTERVAL),
                        ),
                    },
                }
            },
            (Phase::Pausing { purpose, started }, SubdegreeEvent::Paused) => self.goes(
                Phase::OnTheWay { purpose, started },
                SubdegreeAction::Read,
            ),
            (Phase::Resting(purpose), SubdegreeEvent::Paused) => self.arrives(purpose),
            (Phase::FirstImage, SubdegreeEvent::Captured(result)) => match result {
                Err(error) => self.fails(SubdegreeError::NoFrame(error), false),
                Ok(image) => self.goes(
                    Phase::BetweenImages(image),
                    SubdegreeAction::Pause(STATIONARY_PAUSE),
                ),
            },
            (Phase::BetweenImages(image), SubdegreeEvent::Paused) => self.goes(
                Phase::SecondImage(image),
                SubdegreeAction::Capture,
            ),
            (Phase::SecondImage(first), SubdegreeEvent::Captured(result)) => match result {
                Err(error) => self.fails(SubdegreeError::NoFrame(error), false),
                Ok(second) => {
                    let (next, step) = self.leaves(Purpose::Row);
                    (
                        next,
                        SubdegreeStep {
                            stationary: Some(
                                StationaryShift {
                                    x: shift_between(unit, first.x@, second.x@).0 as i32,
                                    y: shift_between(unit, first.y@, second.y@).0 as i32,
                                },
                            ),
                            ..step
                        },
                    )
                },
            },
            (Phase::ReadingBefore, SubdegreeEvent::Position(result)) => match result {
                Err(text) => self.fails(SubdegreeError::Device(text), false),
                Ok(at) => match axis.position(at) {
                    None => self.fails(SubdegreeError::Unavailable(axis), false),
                    Some(before) => self.goes(
                        Phase::ImageBefore { before },
                        SubdegreeAction::Capture,
                    ),
                },
            },
            (Phase::ImageBefore { before }, SubdegreeEvent::Captured(result)) => match result {
                Err(error) => self.fails(SubdegreeError::NoFrame(error), false),
                Ok(image) => {
                    let (pan, tilt) = row_target(unit, axis, offset);
                    self.goes(
                        Phase::Applying { before, image },
                        SubdegreeAction::Go { pan, tilt },
                    )
                },
            },
            (Phase::Applying { before, image }, SubdegreeEvent::Sent(result)) => match result {
                Err(text) => self.fails(SubdegreeError::Device(text), false),
                Ok(_) => self.goes(
                    Phase::Settling { before, image },
                    SubdegreeAction::Pause(FRACTIONAL_SETTLE_TIME),
                ),
            },
            (Phase::Settling { before, image }, SubdegreeEvent::Paused) => self.goes(
                Phase::ReadingAfter { before, image },
                SubdegreeAction::Read,
            ),
            (Phase::ReadingAfter { before, image }, SubdegreeEvent::Position(result)) => {
                match result {
                    Err(text) => self.fails(SubdegreeError::Device(text), false),
                    Ok(at) => match axis.position(at) {
                        None => self.fails(SubdegreeError::Unavailable(axis), false),
                        Some(after) => self.goes(
                            Phase::ImageAfter { before, after, image },
                            SubdegreeAction::Capture,
                        ),
                    },
                }
            },
            (Phase::ImageAfter { before, after, image }, SubdegreeEvent::Captured(result)) => {
                match result {
                    Err(error) => self.fails(SubdegreeError::NoFrame(error), false),
                    Ok(second) => {
                        let shift = shift_between(unit, axis.along(image), axis.along(second));
                        self.notes(
                            Row {
                                axis,
                                offset,
                                before,
                                after,
                                reported_delta: minus(unit, after, before),
                                pixel_shift: shift.0 as i32,
                                profile_error: shift.1,
                            },
                        )
                    },
                }
            },
            _ => self.goes(Phase::Finished, SubdegreeAction::Read),
        }
    }

    /// Prepares a test of a camera at this position; an axis whose position is
    /// unknown counts as being at its default. Names the axis that is missing.
    pub fn new(capabilities: &ControlCapabilities, position: &Controls) -> (r: Result<
        (SubdegreeTest, SubdegreeStep),
        TestAxis,
    >)
        ensures
            match (capabilities.pan, capabilities.tilt) {
                (None, _) => r == Err::<(SubdegreeTest, SubdegreeStep), TestAxis>(TestAxis::Pan),
                (Some(_), None) => r == Err::<(SubdegreeTest, SubdegreeStep), TestAxis>(
                    TestAxis::Tilt,
                ),
                (Some(pan), Some(tilt)) => {
                    &&& r matches Ok((test, step))
                    &&& test.wf()
                    &&& (test, step) == (SubdegreeTest {
                        original: within_a_degree(
                            match position.pan {
                                Some(at) => at,
                                None => pan.default,
                            },
                            match position.tilt {
                                Some(at) => at,
                                None => tilt.default,
                            },
                        ),
                        row: 0,
                        phase: Phase::Finished,
                        failure: None,
                    }).leaves(Purpose::Still)
                },
            },
    {
        let pan = match capabilities.pan {
            Some(range) => range,
            None => {
                return Err(TestAxis::Pan);
            },
        };
        let tilt = match capabilities.tilt {
            Some(range) => range,
            None => {
                return Err(TestAxis::Tilt);
            },
        };
        let original_pan = match position.pan {
            Some(at) => at,
            None => pan.default,
        };
        let original_tilt = match position.tilt {
            Some(at) => at,
            None => tilt.default,
        };
        let mut test = SubdegreeTest {
            original: about(original_pan, original_tilt),
            row: 0,
            phase: Phase::Finished,
            failure: None,
        };
        let step = test.leave(Purpose::Still);
        Ok((test, step))
    }

    fn go(&mut self, phase: Phase, action: SubdegreeAction) -> (r: SubdegreeStep)
        ensures
            (*final(self), r) == old(self).goes(phase, action),
    {
        self.phase = phase;
        only(action)
    }

    fn find_destination(&self, purpose: Purpose) -> (r: Destination)
        ensures
            r == self.destination(purpose),
    {
        match purpose {
            Purpose::Back => self.original,
            _ => about(Scalar::from_bits(BASE_PAN), Scalar::from_bits(BASE_TILT)),
        }
    }

    fn leave(&mut self, purpose: Purpose) -> (r: SubdegreeStep)
        ensures
            (*final(self), r) == old(self).leaves(purpose),
    {
        let to = self.find_destination(purpose);
        let mut step = self.go(
            Phase::Leaving(purpose),
            SubdegreeAction::Go { pan: to.pan, tilt: to.tilt },
        );
        step.restores = matches!(purpose, Purpose::Back);
        step
    }

    fn end(&mut self, restored: Result<(), SubdegreeError>) -> (r: SubdegreeStep)
        ensures
            (*final(self), r) == old(self).ends(restored),
    {
        let outcome = match self.failure.take() {
            Some(error) => Err(error),
            None => restored,
        };
        self.go(Phase::Finished, SubdegreeAction::Finish(outcome))
    }

    fn fail(&mut self, error: SubdegreeError, on_the_way_back: bool) -> (r: SubdegreeStep)
        ensures
            (*final(self), r) == old(self).fails(error, on_the_way_back),
    {
        if on_the_way_back {
            return self.end(Err(error));
        }
        self.failure = Some(error);
        self.leave(Purpose::Back)
    }

    fn arrive(&mut self, purpose: Purpose) -> (r: SubdegreeStep)
        ensures
            (*final(self), r) == old(self).arrives(purpose),
    {
        match purpose {
            Purpose::Still => self.go(Phase::FirstImage, SubdegreeAction::Capture),
            Purpose::Row => self.go(Phase::ReadingBefore, SubdegreeAction::Read),
            Purpose::Back => self.end(Ok(())),
        }
    }

    fn note(&mut self, row: Row) -> (r: SubdegreeStep)
        requires
            old(self).wf(),
        ensures
            (*final(self), r) == old(self).notes(row),
            final(self).wf(),
    {
        if self.row + 1 < ROW_COUNT {
            self.row = self.row + 1;
            let mut step = self.leave(Purpose::Row);
            step.row = Some(row);
            return step;
        }
        let mut step = self.leave(Purpose::Back);
        step.row = Some(row);
        step.complete = true;
        step
    }

    /// Whether images that an event brings are of a size at which they can be
    /// compared.
    pub fn can_take(&self, event: &SubdegreeEvent) -> (r: bool)
        requires
            self.wf(),
        ensures
            r == self.can_compare(*event),
    {
        match (&self.phase, event) {
            (Phase::SecondImage(first), SubdegreeEvent::Captured(Ok(second))) => is_comparable(
                &first.x,
                &second.x,
            ) && is_comparable(&first.y, &second.y),
            (Phase::ImageAfter { image, .. }, SubdegreeEvent::Captured(Ok(second))) => {
                match find_row_plan(self.row).0 {
                    TestAxis::Pan => is_comparable(&image.x, &second.x),
                    TestAxis::Tilt => is_comparable(&image.y, &second.y),
                }
            },
            _ => true,
        }
    }

    /// Takes an event in and says what is to be done next.
    pub fn advance<F: Fn(Operation) -> Scalar>(
        &mut self,
        event: SubdegreeEvent,
        now: u128,
        unit: &F,
    ) -> (r: SubdegreeStep)
        requires
            computes(*unit),
            old(self).wf(),
            old(self).expects(event),
            old(self).can_compare(event),
        ensures
            (*final(self), r) == old(self).stepped(*unit, event, now),
            final(self).wf(),
    {
        let (axis, offset) = find_row_plan(self.row);
        let mut phase = Phase::Finished;
        std::mem::swap(&mut self.phase, &mut phase);
        match (phase, event) {
            (Phase::Leaving(purpose), SubdegreeEvent::Sent(result)) => match result {
                Err(text) => self.fail(
                    SubdegreeError::Device(text),
                    matches!(purpose, Purpose::Back),
                ),
                Ok(_) => self.go(Phase::OnTheWay { purpose, started: now }, SubdegreeAction::Read),
            },
            (Phase::OnTheWay { purpose, started }, SubdegreeEvent::Position(result)) => {
                match result {
                    Err(text) => self.fail(
                        SubdegreeError::Device(text),
                        matches!(purpose, Purpose::Back),
                    ),
                    Ok(at) => {
                        let wanted = self.find_destination(purpose);
                        match wanted.look(&at, started, now, BASE_MOVE_TIMEOUT, unit) {
                            MoveProgress::Arrived => self.go(
                                Phase::Resting(purpose),
                                SubdegreeAction::Pause(BASE_SETTLE_TIME),
                            ),
                            MoveProgress::TimedOut => self.fail(
                                SubdegreeError::TimedOut { wanted, actual: at },
                                matches!(purpose, Purpose::Back),
                            ),
                            MoveProgress::Moving => self.go(
                                Phase::Pausing { purpose, started },
                                SubdegreeAction::Pause(BASE_POLL_INTERVAL),
                            ),
                        }
                    },
                }
            },
            (Phase::Pausing { purpose, started }, SubdegreeEvent::Paused) => self.go(
                Phase::OnTheWay { purpose, started },
                SubdegreeAction::Read,
            ),
            (Phase::Resting(purpose), SubdegreeEvent::Paused) => self.arrive(purpose),
            (Phase::FirstImage, SubdegreeEvent::Captured(result)) => match result {
                Err(error) => self.fail(SubdegreeError::NoFrame(error), false),
                Ok(image) => self.go(
                    Phase::BetweenImages(image),
                    SubdegreeAction::Pause(STATIONARY_PAUSE),
                ),
            },
            (Phase::BetweenImages(image), SubdegreeEvent::Paused) => self.go(
                Phase::SecondImage(image),
                SubdegreeAction::Capture,
            ),
            (Phase::SecondImage(first), SubdegreeEvent::Captured(result)) => match result {
                Err(error) => self.fail(SubdegreeError::NoFrame(error), false),
                Ok(second) => {
                    let (x, _) = find_shift(&first.x, &second.x, unit);
                    let (y, _) = find_shift(&first.y, &second.y, unit);
                    let mut step = self.leave(Purpose::Row);
                    step.stationary = Some(StationaryShift { x, y });
                    step
                },
            },
            (Phase::ReadingBefore, SubdegreeEvent::Position(result)) => match result {
                Err(text) => self.fail(SubdegreeError::Device(text), false),
                Ok(at) => match axis_position(&at, axis) {
                    Err(error) => self.fail(error, false),
                    Ok(before) => self.go(
                        Phase::ImageBefore { before },
                        SubdegreeAction::Capture,
                    ),
                },
            },
            (Phase::ImageBefore { before }, SubdegreeEvent::Captured(result)) => match result {
                Err(error) => self.fail(SubdegreeError::NoFrame(error), false),
                Ok(image) => {
                    let base_pan = Scalar::from_bits(BASE_PAN);
                    let base_tilt = Scalar::from_bits(BASE_TILT);
                    let (pan, tilt) = match axis {
                        TestAxis::Pan => (sum(unit, base_pan, offset), base_tilt),
                        TestAxis::Tilt => (base_pan, sum(unit, base_tilt, offset)),
                    };
                    self.go(Phase::Applying { before, image }, SubdegreeAction::Go { pan, tilt })
                },
            },
            (Phase::Applying { before, image }, SubdegreeEvent::Sent(result)) => match result {
                Err(text) => self.fail(SubdegreeError::Device(text), false),
                Ok(_) => self.go(
                    Phase::Settling { before, image },
                    SubdegreeAction::Pause(FRACTIONAL_SETTLE_TIME),
                ),
            },
            (Phase::Settling { before, image }, SubdegreeEvent::Paused) => self.go(
                Phase::ReadingAfter { before, image },
                SubdegreeAction::Read,
            ),
            (Phase::ReadingAfter { before, image }, SubdegreeEvent::Position(result)) => {
                match result {
                    Err(text) => self.fail(SubdegreeError::Device(text), false),
                    Ok(at) => match axis_position(&at, axis) {
                        Err(error) => self.fail(error, false),
                        Ok(after) => self.go(
                            Phase::ImageAfter { before, after, image },
                            SubdegreeAction::Capture,
                        ),
                    },
                }
            },
            (Phase::ImageAfter { before, after, image }, SubdegreeEvent::Captured(result)) => {
                match result {
                    Err(error) => self.fail(SubdegreeError::NoFrame(error), false),
                    Ok(second) => {
                        let (pixel_shift, profile_error) = match axis {
                            TestAxis::Pan => find_shift(&image.x, &second.x, unit),
                            TestAxis::Tilt => find_shift(&image.y, &second.y, unit),
                        };
                        let row = Row {
                            axis,
                            offset,
                            before,
                            after,
                            reported_delta: difference(unit, after, before),
                            pixel_shift,
                            profile_error,
                        };
                        self.note(row)
                    },
                }
            },
            _ => self.go(Phase::Finished, SubdegreeAction::Read),
        }
    }
}

/// A test ends only on the way back, after the camera was sent to where it was;
/// a failure before that sends it back at once, and is what the test ends with.
pub proof fn camera_is_brought_back<F: Fn(Operation) -> Scalar>(
    unit: F,
    test: SubdegreeTest,
    event: SubdegreeEvent,
    now: u128,
)
    requires
        test.wf(),
        test.expects(event),
    ensures
        ({
            let (next, step) = test.stepped(unit, event, now);
            &&& next.original == test.original
            &&& next.phase is Finished <==> step.action is Finish
            &&& step.action is Finish ==> (test.phase == Phase::Leaving(Purpose::Back)
                || test.phase == Phase::Resting(Purpose::Back) || (
            test.phase matches Phase::OnTheWay { purpose, .. } && purpose is Back))
            &&& step.restores ==> step.action == (SubdegreeAction::Go {
                pan: test.original.pan,
                tilt: test.original.tilt,
            })
            &&& (test.failure matches Some(error) ==> (step.action matches SubdegreeAction::Finish(
                outcome,
            ) ==> outcome == Err::<(), SubdegreeError>(error)))
            &&& next.failure is Some && test.failure is None ==> step.restores
        }),
{
}

/// The rows come in order, each offset on pan and then each on tilt, and the way
/// back follows the last one.
pub proof fn rows_come_in_order(test: SubdegreeTest, row: Row)
    requires
        test.wf(),
    ensures
        ({
            let (next, step) = test.notes(row);
            &&& step.row == Some(row)
            &&& if test.row + 1 < ROW_COUNT {
                next.row == test.row + 1 && next.phase == Phase::Leaving(Purpose::Row)
                    && !step.complete
            } else {
                next.phase == Phase::Leaving(Purpose::Back) && step.complete && step.restores
            }
        }),
{
}

/// Quarters of a degree up to one are tried to either side, first on pan and then on
/// tilt, from pan 0 and tilt 30; the other axis stays there.
pub proof fn rows_move_one_axis<F: Fn(Operation) -> Scalar>(unit: F, row: int)
    requires
        0 <= row < 16,
    ensures
        ROW_COUNT == 16,
        offsets() == seq![
            0x3E80_0000u32,
            0x3F00_0000,
            0x3F40_0000,
            0x3F80_0000,
            0xBE80_0000,
            0xBF00_0000,
            0xBF40_0000,
            0xBF80_0000,
        ],
        ({
            let (axis, offset) = row_plan(row);
            let (pan, tilt) = row_target(unit, axis, offset);
            &&& axis is Pan <==> row < 8
            &&& offset.bits == offsets()[if row < 8 {
                row
            } else {
                row - 8
            }]
            &&& axis is Pan ==> tilt.bits == 0x41F0_0000 && pan == plus(
                unit,
                Scalar { bits: 0 },
                offset,
            )
            &&& axis is Tilt ==> pan.bits == 0 && tilt == plus(
                unit,
                Scalar { bits: 0x41F0_0000 },
                offset,
            )
        }),
{
}

/// Two profiles are compared at every shift of up to eighty pixels either way; none
/// fits better than the one found. Profiles of fewer than ten values tell nothing.
pub proof fn shifts_are_searched_both_ways<F: Fn(Operation) -> Scalar>(
    unit: F,
    before: Seq<Scalar>,
    after: Seq<Scalar>,
)
    ensures
        ({
            let length = if before.len() <= after.len() {
                before.len() as int
            } else {
                after.len() as int
            };
            let (shift, error) = shift_between(unit, before, after);
            &&& length < 10 ==> shift == 0 && error.bits == 0x7F80_0000
            &&& length >= 10 ==> {
                &&& -80 <= shift <= 80
                &&& !error.nan()
                &&& error.bits == 0x7F80_0000 && shift == 0 || shift_error(
                    unit,
                    before,
                    after,
                    length,
                    shift,
                ) == Some(error)
                &&& forall|other: int|
                    -80 <= other <= 80 ==> (#[trigger] shift_error(
                        unit,
                        before,
                        after,
                        length,
                        other,
                    ) matches Some(found) ==> !found.less(error))
            }
        }),
{
    let length = shorter(before.len() as int, after.len() as int);
    best_shift_is_best(unit, before, after, length, -80, 81);
}

/// With the camera standing still, two images a quarter of a second apart show how
/// much each direction wavers: columns by columns, rows by rows.
pub proof fn still_images_are_compared<F: Fn(Operation) -> Scalar>(
    unit: F,
    test: SubdegreeTest,
    first: ImageProfiles,
    second: ImageProfiles,
    now: u128,
)
    ensures
        ({
            let looking = SubdegreeTest { phase: Phase::FirstImage, ..test };
            let waiting = SubdegreeTest { phase: Phase::BetweenImages(first), ..test };
            let again = SubdegreeTest { phase: Phase::SecondImage(first), ..test };
            let seen = looking.stepped(unit, SubdegreeEvent::Captured(Ok(first)), now);
            let waited = waiting.stepped(unit, SubdegreeEvent::Paused, now);
            let (next, step) = again.stepped(unit, SubdegreeEvent::Captured(Ok(second)), now);
            &&& seen.0 == waiting && seen.1.action == SubdegreeAction::Pause(250_000_000)
            &&& waited.0 == again && waited.1.action is Capture
            &&& step.stationary matches Some(wavered)
            &&& wavered.x == shift_between(unit, first.x@, second.x@).0 as i32
            &&& wavered.y == shift_between(unit, first.y@, second.y@).0 as i32
            &&& next.phase == Phase::Leaving(Purpose::Row)
            &&& step.action == (SubdegreeAction::Go {
                pan: Scalar { bits: 0 },
                tilt: Scalar { bits: 0x41F0_0000 },
            })
        }),
{
}

/// A row reads its own axis and takes an image, sends the fractional move, waits a
/// second and a half, and reads the same axis and takes an image again.
pub proof fn rows_are_measured_before_and_after<F: Fn(Operation) -> Scalar>(
    unit: F,
    test: SubdegreeTest,
    at: Controls,
    before: Scalar,
    image: ImageProfiles,
    now: u128,
)
    requires
        test.wf(),
        (if test.row < 8 {
            at.pan
        } else {
            at.tilt
        }) is Some,
    ensures
        ({
            let read = if test.row < 8 {
                at.pan->Some_0
            } else {
                at.tilt->Some_0
            };
            let plan = row_plan(test.row as int);
            let (pan, tilt) = row_target(unit, plan.0, plan.1);
            let reading = SubdegreeTest { phase: Phase::ReadingBefore, ..test };
            let looking = SubdegreeTest { phase: Phase::ImageBefore { before }, ..test };
            let applying = SubdegreeTest { phase: Phase::Applying { before, image }, ..test };
            let settling = SubdegreeTest { phase: Phase::Settling { before, image }, ..test };
            let reading_again = SubdegreeTest {
                phase: Phase::ReadingAfter { before, image },
                ..test
            };
            let read_first = reading.stepped(unit, SubdegreeEvent::Position(Ok(at)), now);
            let seen = looking.stepped(unit, SubdegreeEvent::Captured(Ok(image)), now);
            let sent = applying.stepped(unit, SubdegreeEvent::Sent(Ok(())), now);
            let settled = settling.stepped(unit, SubdegreeEvent::Paused, now);
            let read_last = reading_again.stepped(unit, SubdegreeEvent::Position(Ok(at)), now);
            &&& read_first.0.phase == (Phase::ImageBefore { before: read })
            &&& read_first.1.action is Capture
            &&& seen.0 == applying && seen.1.action == (SubdegreeAction::Go { pan, tilt })
            &&& sent.0 == settling && sent.1.action == SubdegreeAction::Pause(1_500_000_000)
            &&& settled.0 == reading_again && settled.1.action is Read
            &&& read_last.0.phase == (Phase::ImageAfter { before, after: read, image })
            &&& read_last.1.action is Capture
        }),
{
}

/// A row tells by how much the position changed and by how much the image moved along
/// the axis of the row.
pub proof fn rows_tell_what_changed<F: Fn(Operation) -> Scalar>(
    unit: F,
    test: SubdegreeTest,
    before: Scalar,
    after: Scalar,
    image: ImageProfiles,
    second: ImageProfiles,
    now: u128,
)
    requires
        test.wf(),
        test.phase == (Phase::ImageAfter { before, after, image }),
    ensures
        ({
            let step = test.stepped(unit, SubdegreeEvent::Captured(Ok(second)), now).1;
            let shift = if test.row < 8 {
                shift_between(unit, image.x@, second.x@)
            } else {
                shift_between(unit, image.y@, second.y@)
            };
            &&& step.row matches Some(row)
            &&& (row.axis, row.offset) == row_plan(test.row as int)
            &&& row.before == before
            &&& row.after == after
            &&& row.reported_delta == minus(unit, after, before)
            &&& row.pixel_shift == shift.0 as i32
            &&& row.profile_error == shift.1
        }),
{
}

/// A move to the base or back is looked at every 50 ms, for eight seconds, and the
/// camera then rests for 400 ms. The base is reached within a degree.
pub proof fn moves_arrive_or_are_given_up<F: Fn(Operation) -> Scalar>(
    unit: F,
    test: SubdegreeTest,
    purpose: Purpose,
    started: u128,
    at: Controls,
    now: u128,
)
    requires
        test.phase == (Phase::OnTheWay { purpose, started }),
    ensures
        ({
            let (next, step) = test.stepped(unit, SubdegreeEvent::Position(Ok(at)), now);
            let wanted = if purpose is Back {
                test.original
            } else {
                Destination {
                    pan: Scalar { bits: 0 },
                    tilt: Scalar { bits: 0x41F0_0000 },
                    pan_tolerance: Scalar { bits: 0x3F80_0000 },
                    tilt_tolerance: Scalar { bits: 0x3F80_0000 },
                }
            };
            let late = SubdegreeError::TimedOut { wanted, actual: at };
            if wanted.reached(unit, at) {
                let rested = next.stepped(unit, SubdegreeEvent::Paused, now);
                &&& step.action == SubdegreeAction::Pause(400_000_000)
                &&& purpose is Still ==> rested.0.phase is FirstImage && rested.1.action is Capture
                &&& purpose is Row ==> rested.0.phase is ReadingBefore && rested.1.action is Read
                &&& purpose is Back ==> rested.1.action is Finish && (test.failure is None
                    ==> rested.1.action == SubdegreeAction::Finish(Ok(())))
            } else if now - started >= 8_000_000_000 {
                &&& !(purpose is Back) ==> next.failure == Some(late) && step.restores
                &&& purpose is Back && test.failure is None ==> step.action
                    == SubdegreeAction::Finish(Err(late))
            } else {
                &&& step.action == SubdegreeAction::Pause(50_000_000)
                &&& next.stepped(unit, SubdegreeEvent::Paused, now).0 == test
                &&& next.stepped(unit, SubdegreeEvent::Paused, now).1.action is Read
            }
        }),
{
}

/// Profiles of images that are no smaller than the largest shift can be compared, and
/// so can profiles that are too short to be.
pub proof fn profiles_of_images_can_be_compared(before: Seq<Scalar>, after: Seq<Scalar>)
    requires
        before.len() <= i32::MAX && after.len() <= i32::MAX,
        before.len() < 10 || after.len() < 10 || (before.len() >= 80 && after.len() >= 80),
    ensures
        comparable(before, after),
{
}

} // verus!
