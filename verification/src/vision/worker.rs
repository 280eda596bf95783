//! The vision worker: it names the next step of its work and is told how the
//! step went.

use crate::arithmetic::{computes, milliseconds, milliseconds_of, Operation};
use crate::scalar::{Scalar, ZERO};
use crate::text::{list_text, listed};
use crate::vision::detection::{Detection, DetectionKind};
use crate::vision::identity::{
    alike, assignment, listable, only_identities_change, IdentityTracker, TrackerModel,
};
use crate::vision::letterbox::{
    by_confidence, decode_detections, decoded_rows, is_measurable, measurable, FrameError, Letterbox, RgbaImage,
};
use vstd::prelude::*;

verus! {

/// Bit pattern of 0.25, below which a person is not believed.
pub const PERSON_CONFIDENCE_THRESHOLD: u32 = 0x3E80_0000;

/// Bit pattern of 0.25, below which a face is not believed.
pub const FACE_CONFIDENCE_THRESHOLD: u32 = 0x3E80_0000;

/// Rows that a detector always answers with.
pub const DETECTOR_ROWS: i64 = 300;

/// Numbers that a row holds at least.
pub const DETECTOR_ROW_WIDTH: i64 = 6;

/// Why there is nothing new to show.
#[derive(Clone, Debug)]
pub enum VisionError {
    /// The frame cannot be fitted.
    Frame(FrameError),
    /// A session failed; the text says how.
    Session(String),
    /// A detector returned no outputs.
    NoOutputs(DetectionKind),
    /// A detector's output has another shape than it should.
    UnexpectedShape(DetectionKind, Vec<i64>),
}

/// What a detector returned first.
#[derive(Clone, Debug)]
pub struct DetectorOutput {
    pub shape: Vec<i64>,
    pub data: Vec<Scalar>,
}

/// What wakes the worker.
#[derive(Copy, Clone, Debug, Eq, PartialEq, Structural)]
pub enum VisionSignal {
    Frame,
    Shutdown,
}

impl VisionError {
    /// Says the same.
    pub open spec fn same(self, other: VisionError) -> bool {
        match (self, other) {
            (VisionError::Frame(left), VisionError::Frame(right)) => left == right,
            (VisionError::Session(left), VisionError::Session(right)) => left@ == right@,
            (VisionError::NoOutputs(left), VisionError::NoOutputs(right)) => left == right,
            (
                VisionError::UnexpectedShape(left, left_shape),
                VisionError::UnexpectedShape(right, right_shape),
            ) => left == right && left_shape@ == right_shape@,
            _ => false,
        }
    }

    /// The error in words.
    pub open spec fn words(self) -> Seq<char> {
        match self {
            VisionError::Frame(FrameError::Empty) => "Vision received an empty image"@,
            VisionError::Frame(FrameError::Truncated) => {
                "Vision image buffer is smaller than expected"@
            },
            VisionError::Session(text) => text@,
            VisionError::NoOutputs(kind) => kind.name() + " detector returned no outputs"@,
            VisionError::UnexpectedShape(kind, shape) => "Unexpected "@ + kind.name()
                + " output shape: "@ + listed(shape@),
        }
    }

    pub fn message(&self) -> (r: String)
        ensures
            r@ == self.words(),
    {
        match self {
            VisionError::Frame(error) => error.message().to_owned(),
            VisionError::Session(text) => text.clone(),
            VisionError::NoOutputs(kind) => {
                let mut text = kind.label().to_owned();
                text.append(" detector returned no outputs");
                text
            },
            VisionError::UnexpectedShape(kind, shape) => {
                let mut text = "Unexpected ".to_owned();
                text.append(kind.label());
                text.append(" output shape: ");
                text.append(list_text(shape).as_str());
                text
            },
        }
    }

    fn copy(&self) -> (r: VisionError)
        ensures
            self.same(r),
    {
        match self {
            VisionError::Frame(error) => VisionError::Frame(*error),
            VisionError::Session(text) => VisionError::Session(text.clone()),
            VisionError::NoOutputs(kind) => VisionError::NoOutputs(*kind),
            VisionError::UnexpectedShape(kind, shape) => VisionError::UnexpectedShape(
                *kind,
                shape.clone(),
            ),
        }
    }
}

/// Where frames come in. Only the latest one waits, and one signal with it.
#[derive(Debug)]
pub struct VisionInput {
    pub latest_frame: Option<RgbaImage>,
    pub frame_signalled: bool,
    pub shutdown_signalled: bool,
    pub replaced_frames: u64,
}

impl VisionInput {
    /// The frame waits in place of one that still did, which counts as replaced.
    /// No frame is signalled behind the end.
    pub open spec fn submitted(self, frame: RgbaImage) -> VisionInput {
        VisionInput {
            latest_frame: Some(frame),
            frame_signalled: self.frame_signalled || !self.shutdown_signalled,
            replaced_frames: if self.latest_frame is Some {
                (self.replaced_frames + 1) as u64
            } else {
                self.replaced_frames
            },
            ..self
        }
    }

    /// Hands over a frame in place of one that still waits.
    pub fn submit(&mut self, frame: RgbaImage)
        requires
            old(self).replaced_frames < u64::MAX,
        ensures
            *final(self) == old(self).submitted(frame),
    {
        if self.latest_frame.is_some() {
            self.replaced_frames = self.replaced_frames + 1;
        }
        self.latest_frame = Some(frame);
        if !self.shutdown_signalled {
            self.frame_signalled = true;
        }
    }

    /// Asks the worker to end once it has seen the signals before this one.
    pub fn shut_down(&mut self)
        ensures
            *final(self) == (VisionInput { shutdown_signalled: true, ..*old(self) }),
    {
        self.shutdown_signalled = true;
    }

    /// The next signal.
    pub open spec fn signal(self) -> Option<VisionSignal> {
        if self.frame_signalled {
            Some(VisionSignal::Frame)
        } else if self.shutdown_signalled {
            Some(VisionSignal::Shutdown)
        } else {
            None
        }
    }

    pub fn next_signal(&self) -> (r: Option<VisionSignal>)
        ensures
            r == self.signal(),
    {
        if self.frame_signalled {
            Some(VisionSignal::Frame)
        } else if self.shutdown_signalled {
            Some(VisionSignal::Shutdown)
        } else {
            None
        }
    }
}

/// What the worker shows.
#[derive(Clone, Debug)]
pub struct VisionSnapshot {
    pub ready: bool,
    pub detections: Vec<Detection>,
    pub preprocess_ms: Scalar,
    pub inference_ms: Scalar,
    pub face_inference_ms: Scalar,
    pub processed_frames: u64,
    pub replaced_frames: u64,
    pub last_error: Option<VisionError>,
}

/// How far the worker has come.
#[derive(Debug)]
pub enum VisionStage {
    /// The session of this kind is being created.
    Creating(DetectionKind),
    /// The session of this kind is being warmed up.
    Warming(DetectionKind),
    /// A signal is awaited.
    Waiting,
    /// A frame is being fitted.
    Preparing,
    /// People are being looked for.
    DetectingPeople { letterbox: Letterbox, preprocess_time: u128 },
    /// Faces are being looked for.
    DetectingFaces {
        letterbox: Letterbox,
        preprocess_time: u128,
        inference_time: u128,
        people: Vec<Detection>,
    },
    Stopped,
}

/// What is to be done next.
#[derive(Debug)]
pub enum VisionAction {
    CreateSession(DetectionKind),
    WarmUp(DetectionKind),
    /// Wait until the input has a signal.
    Receive,
    /// Fit the frame.
    Preprocess(RgbaImage),
    /// Run the detector of this kind on the fitted frame.
    Detect(DetectionKind),
    Stop,
}

/// How it went. Times are in nanoseconds.
#[derive(Debug)]
pub enum VisionEvent {
    SessionCreated(Result<(), String>),
    WarmedUp(Result<(), String>),
    Signalled,
    Preprocessed { result: Result<Letterbox, FrameError>, elapsed: u128 },
    /// No output where the detector returned none.
    Detected { result: Result<Option<DetectorOutput>, String>, elapsed: u128 },
}

/// Looks at frames and remembers what they showed.
#[derive(Debug)]
pub struct VisionWorker {
    input: VisionInput,
    stage: VisionStage,
    tracker: IdentityTracker,
    ready: bool,
    detections: Vec<Detection>,
    preprocess_ms: Scalar,
    inference_ms: Scalar,
    face_inference_ms: Scalar,
    processed_frames: u64,
    last_error: Option<VisionError>,
}

/// How far the worker has come.
#[verifier::ext_equal]
pub enum StageModel {
    Creating(DetectionKind),
    Warming(DetectionKind),
    Waiting,
    Preparing,
    DetectingPeople { letterbox: Letterbox, preprocess_time: u128 },
    DetectingFaces {
        letterbox: Letterbox,
        preprocess_time: u128,
        inference_time: u128,
        people: Seq<Detection>,
    },
    Stopped,
}

/// What the worker knows.
#[verifier::ext_equal]
pub struct VisionModel {
    pub input: VisionInput,
    pub stage: StageModel,
    pub tracker: TrackerModel,
    pub ready: bool,
    pub detections: Seq<Detection>,
    pub preprocess_ms: Scalar,
    pub inference_ms: Scalar,
    pub face_inference_ms: Scalar,
    pub processed_frames: int,
    pub last_error: Option<VisionError>,
}

/// The shape of an answer: one batch of rows that are wide enough.
pub open spec fn acceptable(shape: Seq<i64>) -> bool {
    shape.len() == 3 && shape[0] == 1 && shape[1] == DETECTOR_ROWS && shape[2] >= DETECTOR_ROW_WIDTH
}

/// Confidence below which a kind is not believed.
pub open spec fn threshold(kind: DetectionKind) -> Scalar {
    match kind {
        DetectionKind::Person => Scalar { bits: PERSON_CONFIDENCE_THRESHOLD },
        DetectionKind::Face => Scalar { bits: FACE_CONFIDENCE_THRESHOLD },
    }
}

/// Detections that an output of acceptable shape stands for.
pub open spec fn found<F: Fn(Operation) -> Scalar>(
    unit: F,
    output: DetectorOutput,
    letterbox: Letterbox,
    kind: DetectionKind,
) -> Seq<Detection> {
    let width = output.shape@[2] as int;
    by_confidence(
        decoded_rows(
            unit,
            output.data@,
            letterbox,
            kind,
            threshold(kind),
            width,
            output.data@.len() as int / width,
        ),
    )
}

/// What keeps a detector's answer from being read.
pub open spec fn answer_error(
    result: Result<Option<DetectorOutput>, String>,
    kind: DetectionKind,
) -> Option<VisionError> {
    match result {
        Err(text) => Some(VisionError::Session(text)),
        Ok(None) => Some(VisionError::NoOutputs(kind)),
        Ok(Some(output)) => if acceptable(output.shape@) {
            None
        } else {
            Some(VisionError::UnexpectedShape(kind, output.shape))
        },
    }
}

/// Reads a detector's answer.
pub fn read_answer<F: Fn(Operation) -> Scalar>(
    result: Result<Option<DetectorOutput>, String>,
    letterbox: &Letterbox,
    kind: DetectionKind,
    unit: &F,
) -> (r: Result<Vec<Detection>, VisionError>)
    requires
        computes(*unit),
        measurable(*unit, *letterbox),
    ensures
        match answer_error(result, kind) {
            Some(error) => r == Err::<Vec<Detection>, VisionError>(error),
            None => r matches Ok(detections) && detections@ == found(
                *unit,
                result->Ok_0->Some_0,
                *letterbox,
                kind,
            ) && detections@.len() <= result->Ok_0->Some_0.data@.len(),
        },
{
    match result {
        Err(text) => Err(VisionError::Session(text)),
        Ok(None) => Err(VisionError::NoOutputs(kind)),
        Ok(Some(output)) => {
            let shape = &output.shape;
            if shape.len() != 3 || shape[0] != 1 || shape[1] != DETECTOR_ROWS || shape[2]
                < DETECTOR_ROW_WIDTH {
                return Err(VisionError::UnexpectedShape(kind, output.shape));
            }
            let width: i64 = shape[2];
            let length: usize = output.data.len();
            let least = match kind {
                DetectionKind::Person => Scalar::from_bits(PERSON_CONFIDENCE_THRESHOLD),
                DetectionKind::Face => Scalar::from_bits(FACE_CONFIDENCE_THRESHOLD),
            };
            if width as u64 > length as u64 {
                let none: Vec<Detection> = Vec::new();
                proof {
                    assert(output.data@.len() as int / (width as int) == 0) by (nonlinear_arith)
                        requires
                            0 <= output.data@.len() < width,
                    ;
                    let keys = crate::vision::letterbox::confidence_keys(Seq::empty());
                    crate::order::order_exists(keys);
                    assert(by_confidence(Seq::empty()) =~= Seq::empty());
                }
                return Ok(none);
            }
            let detections = decode_detections(
                &output.data,
                letterbox,
                kind,
                least,
                width as usize,
                unit,
            );
            proof {
                assert(length as int / (width as int) <= length) by (nonlinear_arith)
                    requires
                        6 <= width,
                        0 <= length,
                ;
            }
            Ok(detections)
        },
    }
}

impl VisionStage {
    pub open spec fn view(&self) -> StageModel {
        match *self {
            VisionStage::Creating(kind) => StageModel::Creating(kind),
            VisionStage::Warming(kind) => StageModel::Warming(kind),
            VisionStage::Waiting => StageModel::Waiting,
            VisionStage::Preparing => StageModel::Preparing,
            VisionStage::DetectingPeople { letterbox, preprocess_time } => {
                StageModel::DetectingPeople { letterbox, preprocess_time }
            },
            VisionStage::DetectingFaces { letterbox, preprocess_time, inference_time, people } => {
                StageModel::DetectingFaces {
                    letterbox,
                    preprocess_time,
                    inference_time,
                    people: people@,
                }
            },
            VisionStage::Stopped => StageModel::Stopped,
        }
    }
}

impl VisionModel {
    /// Identities differ, those shown among them, and all of them were given.
    pub open spec fn wf(self) -> bool {
        &&& self.tracker.wf()
        &&& forall|c: int, d: int|
            0 <= c < d < self.detections.len() ==> (#[trigger] self.detections[c]).id != (
            #[trigger] self.detections[d]).id
        &&& forall|d: int|
            0 <= d < self.detections.len() ==> 1 <= (#[trigger] self.detections[d]).id
                < self.tracker.next_id
    }

    /// The event answers the action of this stage.
    pub open spec fn expects(self, event: VisionEvent) -> bool {
        match self.stage {
            StageModel::Creating(_) => event is SessionCreated,
            StageModel::Warming(_) => event is WarmedUp,
            StageModel::Waiting => event is Signalled && self.input.signal() is Some,
            StageModel::Preparing => event is Preprocessed,
            StageModel::DetectingPeople { .. } => event is Detected,
            StageModel::DetectingFaces { .. } => event is Detected,
            StageModel::Stopped => false,
        }
    }

    /// Counters and identities do not run out, and the frame can be measured.
    pub open spec fn ready_for<F: Fn(Operation) -> Scalar>(self, unit: F, event: VisionEvent) -> bool {
        match self.stage {
            StageModel::DetectingPeople { letterbox, .. } => measurable(unit, letterbox),
            StageModel::DetectingFaces { letterbox, people, .. } => {
                &&& measurable(unit, letterbox)
                &&& self.processed_frames < u64::MAX
                &&& people.len() + answer_size(event) <= usize::MAX
                &&& self.tracker.next_id + people.len() + answer_size(event) <= u64::MAX
            },
            _ => true,
        }
    }

    /// The error is shown; the worker waits for the next frame.
    pub open spec fn frame_failed(self, error: VisionError) -> (VisionModel, VisionAction) {
        (
            VisionModel { stage: StageModel::Waiting, last_error: Some(error), ..self },
            VisionAction::Receive,
        )
    }

    /// The error is shown; the worker ends.
    pub open spec fn start_failed(self, text: String) -> (VisionModel, VisionAction) {
        (
            VisionModel {
                stage: StageModel::Stopped,
                last_error: Some(VisionError::Session(text)),
                ..self
            },
            VisionAction::Stop,
        )
    }

    /// The detections of a frame are given identities and shown.
    pub open spec fn published<F: Fn(Operation) -> Scalar>(
        self,
        unit: F,
        detections: Seq<Detection>,
        preprocess_time: u128,
        inference_time: u128,
        face_inference_time: u128,
        now: u128,
    ) -> VisionModel {
        let result = assignment(unit, self.tracker, detections, now);
        VisionModel {
            stage: StageModel::Waiting,
            tracker: TrackerModel { next_id: result.next_id, tracks: result.tracks },
            ready: true,
            detections: result.detections,
            preprocess_ms: milliseconds_of(unit, preprocess_time),
            inference_ms: milliseconds_of(unit, inference_time),
            face_inference_ms: milliseconds_of(unit, face_inference_time),
            processed_frames: self.processed_frames + 1,
            last_error: None,
            ..self
        }
    }

    /// What an event makes of the worker, and what is to be done next.
    pub open spec fn stepped<F: Fn(Operation) -> Scalar>(
        self,
        unit: F,
        event: VisionEvent,
        now: u128,
    ) -> (VisionModel, VisionAction) {
        match (self.stage, event) {
            (StageModel::Creating(kind), VisionEvent::SessionCreated(result)) => match result {
                Err(text) => self.start_failed(text),
                Ok(_) => match kind {
                    DetectionKind::Person => (
                        VisionModel { stage: StageModel::Creating(DetectionKind::Face), ..self },
                        VisionAction::CreateSession(DetectionKind::Face),
                    ),
                    DetectionKind::Face => (
                        VisionModel { stage: StageModel::Warming(DetectionKind::Person), ..self },
                        VisionAction::WarmUp(DetectionKind::Person),
                    ),
                },
            },
            (StageModel::Warming(kind), VisionEvent::WarmedUp(result)) => match result {
                Err(text) => self.start_failed(text),
                Ok(_) => match kind {
                    DetectionKind::Person => (
                        VisionModel { stage: StageModel::Warming(DetectionKind::Face), ..self },
                        VisionAction::WarmUp(DetectionKind::Face),
                    ),
                    DetectionKind::Face => (
                        VisionModel {
                            stage: StageModel::Waiting,
                            ready: true,
                            last_error: None,
                            ..self
                        },
                        VisionAction::Receive,
                    ),
                },
            },
            (StageModel::Waiting, VisionEvent::Signalled) => match self.input.signal() {
                Some(VisionSignal::Frame) => {
                    let input = VisionInput {
                        latest_frame: None,
                        frame_signalled: false,
                        ..self.input
                    };
                    match self.input.latest_frame {
                        Some(frame) => (
                            VisionModel { input, stage: StageModel::Preparing, ..self },
                            VisionAction::Preprocess(frame),
                        ),
                        None => (VisionModel { input, ..self }, VisionAction::Receive),
                    }
                },
                _ => (VisionModel { stage: StageModel::Stopped, ..self }, VisionAction::Stop),
            },
            (StageModel::Preparing, VisionEvent::Preprocessed { result, elapsed }) => match result {
                Err(error) => self.frame_failed(VisionError::Frame(error)),
                Ok(letterbox) => (
                    VisionModel {
                        stage: StageModel::DetectingPeople { letterbox, preprocess_time: elapsed },
                        ..self
                    },
                    VisionAction::Detect(DetectionKind::Person),
                ),
            },
            (
                StageModel::DetectingPeople { letterbox, preprocess_time },
                VisionEvent::Detected { result, elapsed },
            ) => match answer_error(result, DetectionKind::Person) {
                Some(error) => self.frame_failed(error),
                None => (
                    VisionModel {
                        stage: StageModel::DetectingFaces {
                            letterbox,
                            preprocess_time,
                            inference_time: elapsed,
                            people: found(
                                unit,
                                result->Ok_0->Some_0,
                                letterbox,
                                DetectionKind::Person,
                            ),
                        },
                        ..self
                    },
                    VisionAction::Detect(DetectionKind::Face),
                ),
            },
            (
                StageModel::DetectingFaces { letterbox, preprocess_time, inference_time, people },
                VisionEvent::Detected { result, elapsed },
            ) => match answer_error(result, DetectionKind::Face) {
                Some(error) => self.frame_failed(error),
                None => (
                    self.published(
                        unit,
                        people + found(unit, result->Ok_0->Some_0, letterbox, DetectionKind::Face),
                        preprocess_time,
                        inference_time,
                        elapsed,
                        now,
                    ),
                    VisionAction::Receive,
                ),
            },
            _ => (self, VisionAction::Stop),
        }
    }
}

/// Numbers in an answer.
pub open spec fn answer_size(event: VisionEvent) -> int {
    match event {
        VisionEvent::Detected { result: Ok(Some(output)), .. } => output.data@.len() as int,
        _ => 0,
    }
}

impl VisionWorker {
    pub closed spec fn view(&self) -> VisionModel {
        VisionModel {
            input: self.input,
            stage: self.stage@,
            tracker: self.tracker@,
            ready: self.ready,
            detections: self.detections@,
            preprocess_ms: self.preprocess_ms,
            inference_ms: self.inference_ms,
            face_inference_ms: self.face_inference_ms,
            processed_frames: self.processed_frames as int,
            last_error: self.last_error,
        }
    }

    /// A worker that has yet to create its sessions, and the first thing to do.
    pub fn spawn() -> (r: (VisionWorker, VisionAction))
        ensures
            r.0@ == (VisionModel {
                input: VisionInput {
                    latest_frame: None,
                    frame_signalled: false,
                    shutdown_signalled: false,
                    replaced_frames: 0,
                },
                stage: StageModel::Creating(DetectionKind::Person),
                tracker: TrackerModel { next_id: 1, tracks: Seq::empty() },
                ready: false,
                detections: Seq::empty(),
                preprocess_ms: Scalar { bits: ZERO },
                inference_ms: Scalar { bits: ZERO },
                face_inference_ms: Scalar { bits: ZERO },
                processed_frames: 0,
                last_error: None,
            }),
            r.0@.wf(),
            r.1 == VisionAction::CreateSession(DetectionKind::Person),
    {
        let zero = Scalar::from_bits(ZERO);
        let worker = VisionWorker {
            input: VisionInput {
                latest_frame: None,
                frame_signalled: false,
                shutdown_signalled: false,
                replaced_frames: 0,
            },
            stage: VisionStage::Creating(DetectionKind::Person),
            tracker: IdentityTracker::new(),
            ready: false,
            detections: Vec::new(),
            preprocess_ms: zero,
            inference_ms: zero,
            face_inference_ms: zero,
            processed_frames: 0,
            last_error: None,
        };
        (worker, VisionAction::CreateSession(DetectionKind::Person))
    }

    /// Where frames come in.
    pub fn input(&mut self) -> (r: &mut VisionInput)
        ensures
            *r == old(self)@.input,
            final(self)@ == (VisionModel { input: *final(r), ..old(self)@ }),
    {
        &mut self.input
    }

    /// What the worker shows.
    pub fn snapshot(&self) -> (r: VisionSnapshot)
        ensures
            r.ready == self@.ready,
            r.detections@ == self@.detections,
            r.preprocess_ms == self@.preprocess_ms,
            r.inference_ms == self@.inference_ms,
            r.face_inference_ms == self@.face_inference_ms,
            r.processed_frames == self@.processed_frames,
            r.replaced_frames == self@.input.replaced_frames,
            match self@.last_error {
                Some(error) => r.last_error matches Some(shown) && error.same(shown),
                None => r.last_error is None,
            },
    {
        VisionSnapshot {
            ready: self.ready,
            detections: self.detections.clone(),
            preprocess_ms: self.preprocess_ms,
            inference_ms: self.inference_ms,
            face_inference_ms: self.face_inference_ms,
            processed_frames: self.processed_frames,
            replaced_frames: self.input.replaced_frames,
            last_error: match &self.last_error {
                Some(error) => Some(error.copy()),
                None => None,
            },
        }
    }

    fn fail_frame(&mut self, error: VisionError) -> (r: VisionAction)
        ensures
            (final(self)@, r) == old(self)@.frame_failed(error),
    {
        self.stage = VisionStage::Waiting;
        self.last_error = Some(error);
        VisionAction::Receive
    }

    fn fail_start(&mut self, text: String) -> (r: VisionAction)
        ensures
            (final(self)@, r) == old(self)@.start_failed(text),
    {
        self.stage = VisionStage::Stopped;
        self.last_error = Some(VisionError::Session(text));
        VisionAction::Stop
    }

    fn publish<F: Fn(Operation) -> Scalar>(
        &mut self,
        detections: Vec<Detection>,
        preprocess_time: u128,
        inference_time: u128,
        face_inference_time: u128,
        now: u128,
        unit: &F,
    )
        requires
            computes(*unit),
            old(self)@.processed_frames < u64::MAX,
            old(self)@.tracker.next_id + detections@.len() <= u64::MAX,
        ensures
            final(self)@ == old(self)@.published(
                *unit,
                detections@,
                preprocess_time,
                inference_time,
                face_inference_time,
                now,
            ),
            old(self)@.wf() ==> final(self)@.wf(),
    {
        let mut assigned = detections;
        self.tracker.assign_at(&mut assigned, now, unit);
        self.stage = VisionStage::Waiting;
        self.ready = true;
        self.detections = assigned;
        self.preprocess_ms = milliseconds(unit, preprocess_time);
        self.inference_ms = milliseconds(unit, inference_time);
        self.face_inference_ms = milliseconds(unit, face_inference_time);
        self.processed_frames = self.processed_frames + 1;
        self.last_error = None;
    }

    /// Whether counters and identities suffice for an event, and the frame can be
    /// measured.
    pub fn is_ready_for<F: Fn(Operation) -> Scalar>(&self, event: &VisionEvent, unit: &F) -> (r: bool)
        requires
            computes(*unit),
        ensures
            r == self@.ready_for(*unit, *event),
    {
        let size: u64 = match event {
            VisionEvent::Detected { result: Ok(Some(output)), .. } => output.data.len() as u64,
            _ => 0,
        };
        match &self.stage {
            VisionStage::DetectingPeople { letterbox, .. } => is_measurable(letterbox, unit),
            VisionStage::DetectingFaces { letterbox, people, .. } => {
                let count: u128 = people.len() as u128 + size as u128;
                is_measurable(letterbox, unit) && self.processed_frames < u64::MAX && count
                    <= usize::MAX as u128 && self.tracker.has_room_for(count)
            },
            _ => true,
        }
    }

    /// Takes an event in and says what is to be done next.
    pub fn advance<F: Fn(Operation) -> Scalar>(&mut self, event: VisionEvent, now: u128, unit: &F) -> (r:
        VisionAction)
        requires
            computes(*unit),
            old(self)@.expects(event),
            old(self)@.ready_for(*unit, event),
        ensures
            (final(self)@, r) == old(self)@.stepped(*unit, event, now),
            old(self)@.wf() ==> final(self)@.wf(),
    {
        let mut stage = VisionStage::Stopped;
        std::mem::swap(&mut self.stage, &mut stage);
        match (stage, event) {
            (VisionStage::Creating(kind), VisionEvent::SessionCreated(result)) => match result {
                Err(text) => self.fail_start(text),
                Ok(_) => match kind {
                    DetectionKind::Person => {
                        self.stage = VisionStage::Creating(DetectionKind::Face);
                        VisionAction::CreateSession(DetectionKind::Face)
                    },
                    DetectionKind::Face => {
                        self.stage = VisionStage::Warming(DetectionKind::Person);
                        VisionAction::WarmUp(DetectionKind::Person)
                    },
                },
            },
            (VisionStage::Warming(kind), VisionEvent::WarmedUp(result)) => match result {
                Err(text) => self.fail_start(text),
                Ok(_) => match kind {
                    DetectionKind::Person => {
                        self.stage = VisionStage::Warming(DetectionKind::Face);
                        VisionAction::WarmUp(DetectionKind::Face)
                    },
                    DetectionKind::Face => {
                        self.stage = VisionStage::Waiting;
                        self.ready = true;
                        self.last_error = None;
                        VisionAction::Receive
                    },
                },
            },
            (VisionStage::Waiting, VisionEvent::Signalled) => match self.input.next_signal() {
                Some(VisionSignal::Frame) => {
                    self.input.frame_signalled = false;
                    match self.input.latest_frame.take() {
                        Some(frame) => {
                            self.stage = VisionStage::Preparing;
                            VisionAction::Preprocess(frame)
                        },
                        None => {
                            self.stage = VisionStage::Waiting;
                            VisionAction::Receive
                        },
                    }
                },
                _ => VisionAction::Stop,
            },
            (VisionStage::Preparing, VisionEvent::Preprocessed { result, elapsed }) => match result {
                Err(error) => self.fail_frame(VisionError::Frame(error)),
                Ok(letterbox) => {
                    self.stage =
                    VisionStage::DetectingPeople { letterbox, preprocess_time: elapsed };
                    VisionAction::Detect(DetectionKind::Person)
                },
            },
            (
                VisionStage::DetectingPeople { letterbox, preprocess_time },
                VisionEvent::Detected { result, elapsed },
            ) => match read_answer(result, &letterbox, DetectionKind::Person, unit) {
                Err(error) => self.fail_frame(error),
                Ok(people) => {
                    self.stage =
                    VisionStage::DetectingFaces {
                        letterbox,
                        preprocess_time,
                        inference_time: elapsed,
                        people,
                    };
                    VisionAction::Detect(DetectionKind::Face)
                },
            },
            (
                VisionStage::DetectingFaces { letterbox, preprocess_time, inference_time, people },
                VisionEvent::Detected { result, elapsed },
            ) => match read_answer(result, &letterbox, DetectionKind::Face, unit) {
                Err(error) => self.fail_frame(error),
                Ok(faces) => {
                    let mut detections = people;
                    let mut rest = faces;
                    detections.append(&mut rest);
                    self.publish(detections, preprocess_time, inference_time, elapsed, now, unit);
                    VisionAction::Receive
                },
            },
            _ => VisionAction::Stop,
        }
    }
}

/// A step either shows a frame, ready and without error, or leaves detections,
/// times, identities and the count of frames as they were. A frame that fails
/// adds only its error.
pub proof fn errors_keep_the_picture<F: Fn(Operation) -> Scalar>(
    unit: F,
    model: VisionModel,
    event: VisionEvent,
    now: u128,
)
    requires
        model.expects(event),
    ensures
        ({
            let next = model.stepped(unit, event, now).0;
            ||| {
                &&& next.processed_frames == model.processed_frames + 1
                &&& next.ready
                &&& next.last_error is None
                &&& next.input == model.input
                &&& model.stage is DetectingFaces
            }
            ||| {
                &&& next.processed_frames == model.processed_frames
                &&& next.detections == model.detections
                &&& next.tracker == model.tracker
                &&& next.preprocess_ms == model.preprocess_ms
                &&& next.inference_ms == model.inference_ms
                &&& next.face_inference_ms == model.face_inference_ms
                &&& model.ready ==> next.ready
            }
        }),
        model.stepped(unit, event, now).0.input.replaced_frames == model.input.replaced_frames,
{
}

/// A worker becomes ready once both sessions are created and warmed up, people
/// first; the first failure ends it, shown and not ready.
pub proof fn worker_starts_in_order<F: Fn(Operation) -> Scalar>(
    unit: F,
    model: VisionModel,
    result: Result<(), String>,
    now: u128,
)
    requires
        !model.ready,
        model.stage is Creating || model.stage is Warming,
    ensures
        ({
            let event = if model.stage is Creating {
                VisionEvent::SessionCreated(result)
            } else {
                VisionEvent::WarmedUp(result)
            };
            let (next, action) = model.stepped(unit, event, now);
            match result {
                Err(text) => {
                    &&& next.stage is Stopped
                    &&& action == VisionAction::Stop
                    &&& !next.ready
                    &&& next.last_error == Some(VisionError::Session(text))
                },
                Ok(_) => match model.stage {
                    StageModel::Creating(DetectionKind::Person) => next.stage
                        == StageModel::Creating(DetectionKind::Face) && !next.ready,
                    StageModel::Creating(DetectionKind::Face) => next.stage == StageModel::Warming(
                        DetectionKind::Person,
                    ) && !next.ready,
                    StageModel::Warming(DetectionKind::Person) => next.stage == StageModel::Warming(
                        DetectionKind::Face,
                    ) && !next.ready,
                    _ => next.stage is Waiting && next.ready && next.last_error is None,
                },
            }
        }),
{
}

/// Of two frames that were handed over while the worker was busy it looks at the
/// second; the first counts as replaced. One signal does for both, so that none
/// is left.
pub proof fn newest_frame_is_looked_at<F: Fn(Operation) -> Scalar>(
    unit: F,
    model: VisionModel,
    first: RgbaImage,
    second: RgbaImage,
    now: u128,
)
    requires
        model.stage is Waiting,
        !model.input.shutdown_signalled,
        model.input.replaced_frames < u64::MAX - 1,
    ensures
        ({
            let input = model.input.submitted(first).submitted(second);
            let (next, action) = (VisionModel { input, ..model }).stepped(
                unit,
                VisionEvent::Signalled,
                now,
            );
            &&& action == VisionAction::Preprocess(second)
            &&& input.replaced_frames > model.input.replaced_frames
            &&& next.input.latest_frame is None
            &&& next.input.signal() is None
        }),
{
}

/// An answer is read exactly when it is one batch of 300 rows of at least six
/// numbers. A session's own error is passed on, and what is missing or odd is said
/// of the kind that was asked for.
pub proof fn answers_are_checked(
    result: Result<Option<DetectorOutput>, String>,
    kind: DetectionKind,
)
    ensures
        match (result, answer_error(result, kind)) {
            (Err(text), error) => error == Some(VisionError::Session(text)),
            (Ok(None), error) => error == Some(VisionError::NoOutputs(kind)),
            (Ok(Some(output)), None) => {
                &&& output.shape@.len() == 3
                &&& output.shape@[0] == 1
                &&& output.shape@[1] == 300
                &&& output.shape@[2] >= 6
            },
            (Ok(Some(output)), Some(error)) => {
                &&& error == VisionError::UnexpectedShape(kind, output.shape)
                &&& output.shape@.len() != 3 || output.shape@[0] != 1 || output.shape@[1] != 300
                    || output.shape@[2] < 6
            },
        },
{
}

/// The rows of an answer are as wide as its shape says, the last part of a row is
/// left out, and a person or a face has to be sure by a quarter.
pub proof fn answers_are_read_by_the_shape<F: Fn(Operation) -> Scalar>(
    unit: F,
    output: DetectorOutput,
    letterbox: Letterbox,
    kind: DetectionKind,
    rows: int,
)
    requires
        output.shape@.len() == 3,
        output.shape@[2] >= 6,
        0 <= rows,
        rows * output.shape@[2] <= output.data@.len() < (rows + 1) * output.shape@[2],
    ensures
        found(unit, output, letterbox, kind) == by_confidence(
            decoded_rows(
                unit,
                output.data@,
                letterbox,
                kind,
                Scalar { bits: 0x3E80_0000 },
                output.shape@[2] as int,
                rows,
            ),
        ),
{
    let width = output.shape@[2] as int;
    let length = output.data@.len() as int;
    assert(length / width == rows) by (nonlinear_arith)
        requires
            rows * width <= length < (rows + 1) * width,
            0 < width,
    ;
}

/// A frame that was fitted is shown to the detector of people and then to that of
/// faces, with what is known of its place. What both found is shown, people before
/// faces, with the time that each step took.
pub proof fn frame_passes_both_detectors<F: Fn(Operation) -> Scalar>(
    unit: F,
    model: VisionModel,
    letterbox: Letterbox,
    people: DetectorOutput,
    faces: DetectorOutput,
    times: (u128, u128, u128),
    now: u128,
)
    requires
        model.stage is Preparing,
        answer_error(Ok(Some(people)), DetectionKind::Person) is None,
        answer_error(Ok(Some(faces)), DetectionKind::Face) is None,
        listable(
            unit,
            model.tracker,
            found(unit, people, letterbox, DetectionKind::Person) + found(
                unit,
                faces,
                letterbox,
                DetectionKind::Face,
            ),
            now,
        ),
    ensures
        ({
            let (second, then_people) = model.stepped(
                unit,
                VisionEvent::Preprocessed { result: Ok(letterbox), elapsed: times.0 },
                now,
            );
            let (third, then_faces) = second.stepped(
                unit,
                VisionEvent::Detected { result: Ok(Some(people)), elapsed: times.1 },
                now,
            );
            let (last, then_wait) = third.stepped(
                unit,
                VisionEvent::Detected { result: Ok(Some(faces)), elapsed: times.2 },
                now,
            );
            let seen = found(unit, people, letterbox, DetectionKind::Person) + found(
                unit,
                faces,
                letterbox,
                DetectionKind::Face,
            );
            &&& then_people == VisionAction::Detect(DetectionKind::Person)
            &&& then_faces == VisionAction::Detect(DetectionKind::Face)
            &&& then_wait == VisionAction::Receive
            &&& alike(seen, last.detections)
            &&& last.preprocess_ms == milliseconds_of(unit, times.0)
            &&& last.inference_ms == milliseconds_of(unit, times.1)
            &&& last.face_inference_ms == milliseconds_of(unit, times.2)
            &&& last.processed_frames == model.processed_frames + 1
            &&& last.ready
            &&& last.last_error is None
            &&& last.stage is Waiting
            &&& last.input == model.input
        }),
{
    only_identities_change(
        unit,
        model.tracker,
        found(unit, people, letterbox, DetectionKind::Person) + found(
            unit,
            faces,
            letterbox,
            DetectionKind::Face,
        ),
        now,
    );
}

/// A frame that cannot be fitted, and an answer that cannot be read, are given up
/// with their error; nothing else of them is shown, and the next frame is awaited.
pub proof fn failed_frames_are_given_up<F: Fn(Operation) -> Scalar>(
    unit: F,
    model: VisionModel,
    error: FrameError,
    result: Result<Option<DetectorOutput>, String>,
    time: u128,
    now: u128,
)
    ensures
        model.stage is Preparing ==> ({
            let (next, action) = model.stepped(
                unit,
                VisionEvent::Preprocessed { result: Err(error), elapsed: time },
                now,
            );
            &&& action == VisionAction::Receive
            &&& next == (VisionModel {
                stage: StageModel::Waiting,
                last_error: Some(VisionError::Frame(error)),
                ..model
            })
        }),
        ({
            let kind = if model.stage is DetectingPeople {
                DetectionKind::Person
            } else {
                DetectionKind::Face
            };
            let (next, action) = model.stepped(
                unit,
                VisionEvent::Detected { result, elapsed: time },
                now,
            );
            (model.stage is DetectingPeople || model.stage is DetectingFaces) && answer_error(
                result,
                kind,
            ) is Some ==> action == VisionAction::Receive && next == (VisionModel {
                stage: StageModel::Waiting,
                last_error: answer_error(result, kind),
                ..model
            })
        }),
{
}

/// A worker that is told to end still looks at a frame that was handed over before,
/// and ends after it.
pub proof fn worker_ends_after_the_last_frame<F: Fn(Operation) -> Scalar>(
    unit: F,
    model: VisionModel,
    now: u128,
)
    requires
        model.stage is Waiting,
        model.input.shutdown_signalled,
    ensures
        ({
            let (next, action) = model.stepped(unit, VisionEvent::Signalled, now);
            if model.input.frame_signalled {
                &&& next.input.shutdown_signalled
                &&& !next.input.frame_signalled
                &&& match model.input.latest_frame {
                    Some(frame) => action == VisionAction::Preprocess(frame),
                    None => action == VisionAction::Receive && next.stage is Waiting,
                }
            } else {
                action == VisionAction::Stop && next.stage is Stopped
            }
        }),
{
}

/// Both sessions are created before either is warmed up, people first; each step asks
/// for the next one, and the last waits for a frame.
pub proof fn sessions_are_prepared_in_turn<F: Fn(Operation) -> Scalar>(
    unit: F,
    model: VisionModel,
    now: u128,
)
    ensures
        ({
            let first = VisionModel {
                stage: StageModel::Creating(DetectionKind::Person),
                ..model
            };
            let (second, then_second) = first.stepped(
                unit,
                VisionEvent::SessionCreated(Ok(())),
                now,
            );
            let (third, then_third) = second.stepped(
                unit,
                VisionEvent::SessionCreated(Ok(())),
                now,
            );
            let (fourth, then_fourth) = third.stepped(unit, VisionEvent::WarmedUp(Ok(())), now);
            let (last, then_wait) = fourth.stepped(unit, VisionEvent::WarmedUp(Ok(())), now);
            &&& then_second == VisionAction::CreateSession(DetectionKind::Face)
            &&& then_third == VisionAction::WarmUp(DetectionKind::Person)
            &&& then_fourth == VisionAction::WarmUp(DetectionKind::Face)
            &&& then_wait == VisionAction::Receive
            &&& last == (VisionModel {
                stage: StageModel::Waiting,
                ready: true,
                last_error: None,
                ..model
            })
        }),
{
}

/// A frame that is handed over is the one to be looked at next. One that was waiting
/// is replaced and counted. The worker is told, unless it was told to end before.
pub proof fn frames_are_handed_over(input: VisionInput, frame: RgbaImage)
    requires
        input.replaced_frames < u64::MAX,
    ensures
        ({
            let next = input.submitted(frame);
            &&& next.latest_frame == Some(frame)
            &&& next.replaced_frames == input.replaced_frames + if input.latest_frame is Some {
                1int
            } else {
                0
            }
            &&& !input.shutdown_signalled ==> next.signal() == Some(VisionSignal::Frame)
            &&& input.shutdown_signalled ==> next.signal() == input.signal()
            &&& next.shutdown_signalled == input.shutdown_signalled
        }),
{
}

/// A person and a face are shown with the identities that the tracker gives them, and
/// the tracker goes on from there.
pub proof fn shown_detections_have_identities<F: Fn(Operation) -> Scalar>(
    unit: F,
    model: VisionModel,
    letterbox: Letterbox,
    people: Seq<Detection>,
    faces: DetectorOutput,
    times: (u128, u128, u128),
    now: u128,
)
    requires
        model.stage == (StageModel::DetectingFaces {
            letterbox,
            preprocess_time: times.0,
            inference_time: times.1,
            people,
        }),
        answer_error(Ok(Some(faces)), DetectionKind::Face) is None,
    ensures
        ({
            let next = model.stepped(
                unit,
                VisionEvent::Detected { result: Ok(Some(faces)), elapsed: times.2 },
                now,
            ).0;
            let seen = people + found(unit, faces, letterbox, DetectionKind::Face);
            let given = assignment(unit, model.tracker, seen, now);
            &&& next.detections == given.detections
            &&& next.tracker.tracks == given.tracks
            &&& next.tracker.next_id == given.next_id
        }),
{
}

/// An error says what went wrong, and of which detector.
pub proof fn errors_say_what_went_wrong(text: String, shape: Vec<i64>)
    ensures
        VisionError::Frame(FrameError::Empty).words() == "Vision received an empty image"@,
        VisionError::Frame(FrameError::Truncated).words()
            == "Vision image buffer is smaller than expected"@,
        VisionError::Session(text).words() == text@,
        VisionError::NoOutputs(DetectionKind::Person).words() == "person"@
            + " detector returned no outputs"@,
        VisionError::NoOutputs(DetectionKind::Face).words() == "face"@
            + " detector returned no outputs"@,
        VisionError::UnexpectedShape(DetectionKind::Person, shape).words() == "Unexpected "@
            + "person"@ + " output shape: "@ + listed(shape@),
        VisionError::UnexpectedShape(DetectionKind::Face, shape).words() == "Unexpected "@ + "face"@
            + " output shape: "@ + listed(shape@),
{
}

/// Errors that are the same are of one sort and say the same.
pub proof fn same_errors_say_the_same(error: VisionError, other: VisionError)
    requires
        error.same(other),
    ensures
        error.words() == other.words(),
        error is Frame <==> other is Frame,
        error is Session <==> other is Session,
        error is NoOutputs <==> other is NoOutputs,
        error is UnexpectedShape <==> other is UnexpectedShape,
{
}

} // verus!
