//! The preview: frames on their way to the screen, how long that takes, and the
//! operator's requests.

use crate::arithmetic::{
    computes, count_of, counted, over, plus, product, quotient, sum, times, Operation,
};
use crate::camera::controls::Axis;
use crate::camera::grid::stands_for;
use crate::camera::ptz::{centered, ManualController};
use crate::camera::telemetry::PixelFormat;
use crate::camera::worker::{ControllerModel, WorkerCommand};
use crate::clock::{elapsed, elapsed_spec};
use crate::meter::{Gauge, RateMeter};
use crate::scalar::{Scalar, ZERO};
use crate::vision::detection::{Detection, DetectionKind};
use crate::whole::{
    divides_counts, exact_on_counts, patterns_denote_whole_numbers, whole_numbers_are_compared,
};
use std::collections::VecDeque;
use vstd::arithmetic::power2::lemma2_to64;
use vstd::prelude::*;

verus! {

/// Frames that may wait to be decoded.
pub const RAW_FRAME_QUEUE_CAPACITY: usize = 4;

/// Decoded frames that may wait to be shown.
pub const PREVIEW_QUEUE_CAPACITY: usize = 2;

/// Time from which a decode counts as slow: 33 ms.
pub const SLOW_DECODE: u128 = 33_000_000;

/// Time from which an upload counts as slow: 33 ms.
pub const SLOW_TEXTURE_UPDATE: u128 = 33_000_000;

/// Time between two shown frames that counts as slow: 45 ms.
pub const SLOW_DISPLAY_GAP: u128 = 45_000_000;

/// Time between two passes of the user interface that counts as slow: 50 ms.
pub const SLOW_UI_GAP: u128 = 50_000_000;

/// Time for which the buttons rest after a press: 200 ms.
pub const PTZ_BUTTON_COOLDOWN: u128 = 200_000_000;

/// Bit patterns of what a key moves: 10 and -10 on the pan axis.
pub const PAN_RIGHT: u32 = 0x4120_0000;

pub const PAN_LEFT: u32 = 0xC120_0000;

/// Bit patterns of 5 and -5, on the tilt axis.
pub const TILT_UP: u32 = 0x40A0_0000;

pub const TILT_DOWN: u32 = 0xC0A0_0000;

/// Bit patterns of 400 and -400, on the zoom axis.
pub const ZOOM_IN: u32 = 0x43C8_0000;

pub const ZOOM_OUT: u32 = 0xC3C8_0000;

/// Decoded frames that wait to be shown, oldest first.
#[derive(Debug)]
pub struct PreviewQueue<T> {
    frames: VecDeque<T>,
}

/// The frame waits behind the others; a full queue loses its oldest one.
pub open spec fn pushed<T>(waiting: Seq<T>, frame: T) -> Seq<T> {
    if waiting.len() >= PREVIEW_QUEUE_CAPACITY {
        waiting.skip(1).push(frame)
    } else {
        waiting.push(frame)
    }
}

impl<T> PreviewQueue<T> {
    pub closed spec fn view(&self) -> Seq<T> {
        self.frames@
    }

    /// No more frames wait than may.
    pub open spec fn wf(&self) -> bool {
        self@.len() <= PREVIEW_QUEUE_CAPACITY
    }

    pub fn new() -> (r: PreviewQueue<T>)
        ensures
            r@ == Seq::<T>::empty(),
            r.wf(),
    {
        PreviewQueue { frames: VecDeque::new() }
    }

    /// Adds a frame; a full queue loses its oldest one. Says whether it did.
    pub fn push(&mut self, frame: T) -> (dropped: bool)
        requires
            old(self).wf(),
        ensures
            final(self).wf(),
            dropped == (old(self)@.len() >= PREVIEW_QUEUE_CAPACITY),
            final(self)@ == pushed(old(self)@, frame),
    {
        let dropped = self.frames.len() >= PREVIEW_QUEUE_CAPACITY;
        if dropped {
            let _ = self.frames.pop_front();
        }
        self.frames.push_back(frame);
        dropped
    }

    /// Takes the oldest frame out.
    pub fn take(&mut self) -> (r: Option<T>)
        requires
            old(self).wf(),
        ensures
            final(self).wf(),
            match r {
                Some(frame) => old(self)@.len() > 0 && frame == old(self)@[0] && final(self)@
                    == old(self)@.skip(1),
                None => old(self)@.len() == 0 && final(self)@ == old(self)@,
            },
    {
        self.frames.pop_front()
    }

    /// How many frames wait.
    pub fn depth(&self) -> (r: usize)
        ensures
            r == self@.len(),
    {
        self.frames.len()
    }
}

/// Of the frames pushed, the last two wait, in their order.
pub proof fn newest_frames_wait<T>(waiting: Seq<T>, first: T, second: T)
    requires
        waiting.len() <= PREVIEW_QUEUE_CAPACITY,
    ensures
        ({
            let after = pushed(pushed(waiting, first), second);
            after.skip(after.len() - 2) == seq![first, second]
        }),
{
    let after = pushed(pushed(waiting, first), second);
    assert(after.skip(after.len() - 2) =~= seq![first, second]);
}

/// A JPEG image begins at `i`.
pub open spec fn begins_at(data: Seq<u8>, i: int) -> bool {
    0 <= i && i + 1 < data.len() && data[i] == 0xFF && data[i + 1] == 0xD8
}

/// A JPEG image ends behind `i + 1`.
pub open spec fn ends_at(data: Seq<u8>, i: int) -> bool {
    0 <= i && i + 1 < data.len() && data[i] == 0xFF && data[i + 1] == 0xD9
}

/// `start` is where the first JPEG image begins.
pub open spec fn first_start(data: Seq<u8>, start: int) -> bool {
    begins_at(data, start) && forall|i: int| 0 <= i < start ==> !#[trigger] begins_at(data, i)
}

/// `end` is where the JPEG image that begins at `start` ends: behind the first
/// mark, or with the data where there is none.
pub open spec fn first_end(data: Seq<u8>, start: int, end: int) -> bool {
    ||| {
        &&& start + 4 <= end
        &&& ends_at(data, end - 2)
        &&& forall|i: int| start + 2 <= i < end - 2 ==> !#[trigger] ends_at(data, i)
    }
    ||| {
        &&& end == data.len()
        &&& forall|i: int| start + 2 <= i ==> !#[trigger] ends_at(data, i)
    }
}

/// The part of a frame that may decode although the whole does not: the first
/// image in it, where it holds one and something else besides.
pub open spec fn repairable(format: PixelFormat, data: Seq<u8>, start: int, end: int) -> bool {
    &&& format is Mjpeg
    &&& first_start(data, start)
    &&& first_end(data, start, end)
    &&& !(start == 0 && end == data.len())
}

/// Looks for the part of a frame that is worth another attempt.
pub fn repair_window(format: PixelFormat, data: &[u8]) -> (r: Option<(usize, usize)>)
    ensures
        match r {
            Some((start, end)) => start < end <= data@.len() && repairable(
                format,
                data@,
                start as int,
                end as int,
            ),
            None => forall|start: int, end: int| !repairable(format, data@, start, end),
        },
{
    if format != PixelFormat::Mjpeg {
        return None;
    }
    let length: usize = data.len();
    if length < 2 {
        return None;
    }
    let mut start: usize = 0;
    while start < length - 1 && !(data[start] == 0xFF && data[start + 1] == 0xD8)
        invariant
            2 <= length == data@.len(),
            start <= length - 1,
            forall|i: int| 0 <= i < start ==> !#[trigger] begins_at(data@, i),
        decreases length - start,
    {
        start += 1;
    }
    if start == length - 1 {
        assert(forall|i: int| !begins_at(data@, i));
        return None;
    }
    assert(begins_at(data@, start as int));
    let mut last: usize = start + 2;
    while last < length - 1 && !(data[last] == 0xFF && data[last + 1] == 0xD9)
        invariant
            2 <= length == data@.len(),
            start + 2 <= last <= length,
            forall|i: int| start + 2 <= i < last ==> !#[trigger] ends_at(data@, i),
        decreases length - last,
    {
        last += 1;
    }
    let end: usize = if last < length - 1 {
        last + 2
    } else {
        length
    };
    assert(first_end(data@, start as int, end as int)) by {
        if last < length - 1 {
            assert(ends_at(data@, end - 2));
        } else {
            assert(forall|i: int| start + 2 <= i ==> !#[trigger] ends_at(data@, i));
        }
    }
    proof {
        assert forall|s: int, e: int| repairable(format, data@, s, e) implies s == start && e == end by {
            lemma_window(data@, s, e, start as int, end as int);
        }
    }
    if start == 0 && end == length {
        return None;
    }
    Some((start, end))
}

/// A frame has one part worth another attempt at most.
proof fn lemma_window(data: Seq<u8>, start: int, end: int, other: int, other_end: int)
    requires
        first_start(data, start),
        first_end(data, start, end),
        first_start(data, other),
        first_end(data, other, other_end),
    ensures
        start == other,
        end == other_end,
{
    if start < other {
        assert(!begins_at(data, start));
    }
    if other < start {
        assert(!begins_at(data, other));
    }
    if end < other_end {
        if ends_at(data, end - 2) && start + 4 <= end {
            assert(!ends_at(data, end - 2));
        }
        if ends_at(data, other_end - 2) && start + 4 <= other_end {
            assert(!ends_at(data, other_end - 2) || end < data.len());
        }
    }
    if other_end < end {
        if ends_at(data, other_end - 2) && start + 4 <= other_end {
            assert(!ends_at(data, other_end - 2));
        }
        if ends_at(data, end - 2) && start + 4 <= end {
            assert(!ends_at(data, end - 2) || other_end < data.len());
        }
    }
}

/// What becomes of a frame whose repair was attempted: the image, with the bytes
/// trimmed before and behind it, or both errors.
pub fn conclude_repair<T>(
    first_error: String,
    repaired: Result<T, String>,
    window: (usize, usize),
    length: usize,
) -> (r: (Result<T, String>, Option<(usize, usize)>))
    requires
        window.1 <= length,
    ensures
        match repaired {
            Ok(image) => r.0 == Ok::<T, String>(image) && r.1 == Some(
                (window.0, (length - window.1) as usize),
            ),
            Err(text) => r.1 is None && (r.0 matches Err(shown) && shown@ == first_error@
                + "; MJPEG repair attempt also failed: "@ + text@),
        },
{
    match repaired {
        Ok(image) => (Ok(image), Some((window.0, length - window.1))),
        Err(text) => {
            let mut shown = first_error;
            shown.append("; MJPEG repair attempt also failed: ");
            shown.append(text.as_str());
            (Err(shown), None)
        },
    }
}

/// How the frames on their way to the screen fared.
#[derive(Clone, Debug)]
pub struct PreviewWorkerStats {
    pub decode: Gauge,
    pub decode_repairs: u64,
    /// Bytes trimmed before and behind the image.
    pub last_decode_repair: Option<(usize, usize)>,
    pub decode_errors: u64,
    pub last_decode_error: Option<String>,
    pub raw_queue_drops: u64,
    pub queue_drops: u64,
}

impl PreviewWorkerStats {
    pub fn new() -> (r: PreviewWorkerStats)
        ensures
            r.decode == (Gauge {
                latest_ms: Scalar { bits: ZERO },
                peak_ms: Scalar { bits: ZERO },
                slow: 0,
            }),
            r.decode_repairs == 0,
            r.last_decode_repair is None,
            r.decode_errors == 0,
            r.last_decode_error is None,
            r.raw_queue_drops == 0,
            r.queue_drops == 0,
    {
        PreviewWorkerStats {
            decode: Gauge::new(),
            decode_repairs: 0,
            last_decode_repair: None,
            decode_errors: 0,
            last_decode_error: None,
            raw_queue_drops: 0,
            queue_drops: 0,
        }
    }

    /// What a decode makes of the statistics.
    pub open spec fn decoded<F: Fn(Operation) -> Scalar>(
        self,
        unit: F,
        time: u128,
        repair: Option<(usize, usize)>,
        error: Option<String>,
    ) -> PreviewWorkerStats {
        PreviewWorkerStats {
            decode: self.decode.recorded(unit, time, SLOW_DECODE),
            decode_repairs: if repair is Some {
                (self.decode_repairs + 1) as u64
            } else {
                self.decode_repairs
            },
            last_decode_repair: if repair is Some {
                repair
            } else {
                self.last_decode_repair
            },
            decode_errors: if error is Some {
                (self.decode_errors + 1) as u64
            } else {
                self.decode_errors
            },
            last_decode_error: if error is Some {
                error
            } else {
                self.last_decode_error
            },
            ..self
        }
    }

    /// Takes in how long a decode took and how it went.
    pub fn record_decode<F: Fn(Operation) -> Scalar>(
        &mut self,
        time: u128,
        repair: Option<(usize, usize)>,
        error: Option<String>,
        unit: &F,
    )
        requires
            computes(*unit),
            old(self).decode.slow < u64::MAX,
            old(self).decode_repairs < u64::MAX,
            old(self).decode_errors < u64::MAX,
        ensures
            *final(self) == old(self).decoded(*unit, time, repair, error),
    {
        self.decode.record(time, SLOW_DECODE, unit);
        if repair.is_some() {
            self.decode_repairs = self.decode_repairs + 1;
            self.last_decode_repair = repair;
        }
        if error.is_some() {
            self.decode_errors = self.decode_errors + 1;
            self.last_decode_error = error;
        }
    }

    /// A frame found no room to wait in.
    pub fn record_raw_drop(&mut self)
        requires
            old(self).raw_queue_drops < u64::MAX,
        ensures
            *final(self) == (PreviewWorkerStats {
                raw_queue_drops: (old(self).raw_queue_drops + 1) as u64,
                ..*old(self)
            }),
    {
        self.raw_queue_drops = self.raw_queue_drops + 1;
    }

    /// A decoded frame gave way to a newer one where `dropped` says so.
    pub fn record_push(&mut self, dropped: bool)
        requires
            old(self).queue_drops < u64::MAX,
        ensures
            *final(self) == (PreviewWorkerStats {
                queue_drops: if dropped {
                    (old(self).queue_drops + 1) as u64
                } else {
                    old(self).queue_drops
                },
                ..*old(self)
            }),
    {
        if dropped {
            self.queue_drops = self.queue_drops + 1;
        }
    }

    /// Frames that were not shown.
    pub fn pipeline_drops(&self) -> (r: u64)
        requires
            self.raw_queue_drops + self.queue_drops <= u64::MAX,
        ensures
            r == self.raw_queue_drops + self.queue_drops,
    {
        self.raw_queue_drops + self.queue_drops
    }
}

/// How the screen keeps up.
#[derive(Clone, Debug)]
pub struct DisplayStats {
    pub last_ui_started: u128,
    pub ui_gap: Gauge,
    pub texture_update: Gauge,
    pub last_displayed_at: Option<u128>,
    pub display_gap: Gauge,
    pub uploaded_frames: u64,
    pub display: RateMeter,
    pub last_error: Option<String>,
}

impl DisplayStats {
    pub fn new(now: u128) -> (r: DisplayStats)
        ensures
            r.last_ui_started == now,
            r.ui_gap == (Gauge {
                latest_ms: Scalar { bits: ZERO },
                peak_ms: Scalar { bits: ZERO },
                slow: 0,
            }),
            r.texture_update == r.ui_gap,
            r.display_gap == r.ui_gap,
            r.last_displayed_at is None,
            r.uploaded_frames == 0,
            r.display == (RateMeter {
                rate: Scalar { bits: ZERO },
                window_frames: 0,
                window_started: now,
            }),
            r.last_error is None,
    {
        DisplayStats {
            last_ui_started: now,
            ui_gap: Gauge::new(),
            texture_update: Gauge::new(),
            last_displayed_at: None,
            display_gap: Gauge::new(),
            uploaded_frames: 0,
            display: RateMeter::new(now),
            last_error: None,
        }
    }

    /// The user interface begins a pass.
    pub fn begin_pass<F: Fn(Operation) -> Scalar>(&mut self, now: u128, unit: &F)
        requires
            computes(*unit),
            old(self).ui_gap.slow < u64::MAX,
        ensures
            *final(self) == (DisplayStats {
                last_ui_started: now,
                ui_gap: old(self).ui_gap.recorded(
                    *unit,
                    elapsed_spec(now, old(self).last_ui_started) as u128,
                    SLOW_UI_GAP,
                ),
                ..*old(self)
            }),
            old(self).last_ui_started <= now ==> final(self).ui_gap == old(self).ui_gap.recorded(
                *unit,
                (now - old(self).last_ui_started) as u128,
                50_000_000,
            ),
    {
        let gap: u128 = elapsed(now, self.last_ui_started);
        self.last_ui_started = now;
        self.ui_gap.record(gap, SLOW_UI_GAP, unit);
    }

    /// What an upload makes of the statistics: a shown frame counts and clears
    /// the error, a failed one leaves its error, and where no frame waited
    /// nothing changes.
    pub open spec fn uploaded<F: Fn(Operation) -> Scalar>(
        self,
        unit: F,
        outcome: Result<bool, String>,
        time: u128,
        now: u128,
    ) -> DisplayStats {
        match outcome {
            Ok(true) => DisplayStats {
                texture_update: self.texture_update.recorded(unit, time, SLOW_TEXTURE_UPDATE),
                last_displayed_at: Some(now),
                display_gap: match self.last_displayed_at {
                    Some(previous) => self.display_gap.recorded(
                        unit,
                        elapsed_spec(now, previous) as u128,
                        SLOW_DISPLAY_GAP,
                    ),
                    None => self.display_gap,
                },
                uploaded_frames: (self.uploaded_frames + 1) as u64,
                display: self.display.ticked(unit, now),
                last_error: None,
                ..self
            },
            Ok(false) => self,
            Err(text) => DisplayStats { last_error: Some(text), ..self },
        }
    }

    /// Takes in an upload that took `time` and was over at `now`.
    pub fn record_upload<F: Fn(Operation) -> Scalar>(
        &mut self,
        outcome: Result<bool, String>,
        time: u128,
        now: u128,
        unit: &F,
    )
        requires
            computes(*unit),
            old(self).texture_update.slow < u64::MAX,
            old(self).display_gap.slow < u64::MAX,
            old(self).uploaded_frames < u64::MAX,
            old(self).display.window_frames < u64::MAX,
        ensures
            *final(self) == old(self).uploaded(*unit, outcome, time, now),
    {
        match outcome {
            Ok(shown) => {
                if shown {
                    self.texture_update.record(time, SLOW_TEXTURE_UPDATE, unit);
                    if let Some(previous) = self.last_displayed_at {
                        self.display_gap.record(elapsed(now, previous), SLOW_DISPLAY_GAP, unit);
                    }
                    self.last_displayed_at = Some(now);
                    self.uploaded_frames = self.uploaded_frames + 1;
                    self.last_error = None;
                    self.display.tick(now, unit);
                }
            },
            Err(text) => {
                self.last_error = Some(text);
            },
        }
    }
}

/// How many detections are of a kind, among the first `n`.
pub open spec fn kind_count(detections: Seq<Detection>, kind: DetectionKind, n: int) -> int
    decreases n,
{
    if n <= 0 {
        0
    } else {
        kind_count(detections, kind, n - 1) + (if detections[n - 1].kind == kind {
            1int
        } else {
            0
        })
    }
}

pub fn count_kind(detections: &Vec<Detection>, kind: DetectionKind) -> (r: usize)
    ensures
        r == kind_count(detections@, kind, detections@.len() as int),
{
    let mut count: usize = 0;
    let mut i: usize = 0;
    while i < detections.len()
        invariant
            count <= i <= detections@.len(),
            count == kind_count(detections@, kind, i as int),
        decreases detections@.len() - i,
    {
        if detections[i].kind == kind {
            count += 1;
        }
        i += 1;
    }
    count
}

/// People and faces are all there is.
pub proof fn kinds_add_up(detections: Seq<Detection>, n: int)
    requires
        0 <= n <= detections.len(),
    ensures
        kind_count(detections, DetectionKind::Person, n) + kind_count(
            detections,
            DetectionKind::Face,
            n,
        ) == n,
    decreases n,
{
    if n > 0 {
        kinds_add_up(detections, n - 1);
    }
}

/// Size at which an image of this aspect fills the available space.
pub open spec fn shown_size<F: Fn(Operation) -> Scalar>(
    unit: F,
    available: (Scalar, Scalar),
    aspect: Scalar,
) -> (Scalar, Scalar) {
    let width = available.0.smaller(times(unit, available.1, aspect));
    (width, over(unit, width, aspect))
}

pub fn fit_image<F: Fn(Operation) -> Scalar>(
    available: (Scalar, Scalar),
    aspect: Scalar,
    unit: &F,
) -> (r: (Scalar, Scalar))
    requires
        computes(*unit),
    ensures
        r == shown_size(*unit, available, aspect),
{
    let width = available.0.min(product(unit, available.1, aspect));
    (width, quotient(unit, width, aspect))
}

/// Where an image is shown, and by how much each axis is scaled.
#[derive(Copy, Clone, Debug)]
pub struct Placement {
    pub left: Scalar,
    pub top: Scalar,
    pub scale_x: Scalar,
    pub scale_y: Scalar,
}

/// Where an image of `size` pixels is shown that fills `shown`.
pub open spec fn image_placement<F: Fn(Operation) -> Scalar>(
    unit: F,
    corner: (Scalar, Scalar),
    shown: (Scalar, Scalar),
    size: (usize, usize),
) -> Placement {
    Placement {
        left: corner.0,
        top: corner.1,
        scale_x: over(unit, shown.0, count_of(unit, size.0 as u64)),
        scale_y: over(unit, shown.1, count_of(unit, size.1 as u64)),
    }
}

pub fn place_image<F: Fn(Operation) -> Scalar>(
    corner: (Scalar, Scalar),
    shown: (Scalar, Scalar),
    size: (usize, usize),
    unit: &F,
) -> (r: Placement)
    requires
        computes(*unit),
    ensures
        r == image_placement(*unit, corner, shown, size),
{
    Placement {
        left: corner.0,
        top: corner.1,
        scale_x: quotient(unit, shown.0, counted(unit, size.0 as u64)),
        scale_y: quotient(unit, shown.1, counted(unit, size.1 as u64)),
    }
}

/// Left, top, right and bottom of a detection on the screen.
pub open spec fn placed<F: Fn(Operation) -> Scalar>(
    unit: F,
    detection: Detection,
    placement: Placement,
) -> (Scalar, Scalar, Scalar, Scalar) {
    (
        plus(unit, placement.left, times(unit, detection.x1, placement.scale_x)),
        plus(unit, placement.top, times(unit, detection.y1, placement.scale_y)),
        plus(unit, placement.left, times(unit, detection.x2, placement.scale_x)),
        plus(unit, placement.top, times(unit, detection.y2, placement.scale_y)),
    )
}

pub fn place_detection<F: Fn(Operation) -> Scalar>(
    detection: &Detection,
    placement: &Placement,
    unit: &F,
) -> (r: (Scalar, Scalar, Scalar, Scalar))
    requires
        computes(*unit),
    ensures
        r == placed(*unit, *detection, *placement),
{
    (
        sum(unit, placement.left, product(unit, detection.x1, placement.scale_x)),
        sum(unit, placement.top, product(unit, detection.y1, placement.scale_y)),
        sum(unit, placement.left, product(unit, detection.x2, placement.scale_x)),
        sum(unit, placement.top, product(unit, detection.y2, placement.scale_y)),
    )
}

/// Keys that were pressed since the last pass.
#[derive(Copy, Clone, Debug)]
pub struct PtzKeys {
    pub left: bool,
    pub right: bool,
    pub up: bool,
    pub down: bool,
    pub zoom_out: bool,
    pub zoom_in: bool,
    pub center: bool,
}

/// What the operator may ask the camera for.
#[derive(Copy, Clone, Debug, Eq, PartialEq, Structural)]
pub enum PtzRequest {
    Left,
    Right,
    Up,
    Down,
    ZoomOut,
    ZoomIn,
    Center,
}

impl PtzRequest {
    /// The command that carries the request out.
    pub open spec fn command(self, model: ControllerModel) -> WorkerCommand {
        match self {
            PtzRequest::Left => WorkerCommand::Relative(Axis::Pan, Scalar { bits: PAN_LEFT }),
            PtzRequest::Right => WorkerCommand::Relative(Axis::Pan, Scalar { bits: PAN_RIGHT }),
            PtzRequest::Up => WorkerCommand::Relative(Axis::Tilt, Scalar { bits: TILT_UP }),
            PtzRequest::Down => WorkerCommand::Relative(Axis::Tilt, Scalar { bits: TILT_DOWN }),
            PtzRequest::ZoomOut => WorkerCommand::Relative(Axis::Zoom, Scalar { bits: ZOOM_OUT }),
            PtzRequest::ZoomIn => WorkerCommand::Relative(Axis::Zoom, Scalar { bits: ZOOM_IN }),
            PtzRequest::Center => WorkerCommand::Apply(centered(model.capabilities)),
        }
    }

    /// The axis that the request moves from where it is; none for a move to the
    /// defaults.
    pub fn axis(self) -> (r: Option<Axis>)
        ensures
            forall|model: ControllerModel|
                r == (match #[trigger] self.command(model) {
                    WorkerCommand::Relative(axis, _) => Some(axis),
                    _ => None,
                }),
    {
        match self {
            PtzRequest::Left | PtzRequest::Right => Some(Axis::Pan),
            PtzRequest::Up | PtzRequest::Down => Some(Axis::Tilt),
            PtzRequest::ZoomOut | PtzRequest::ZoomIn => Some(Axis::Zoom),
            PtzRequest::Center => None,
        }
    }

    /// Hands the request to the controller.
    pub fn send(self, controller: &mut ManualController) -> (r: Result<(), String>)
        requires
            old(controller)@.wf(),
            old(controller)@.running() ==> self.command(old(controller)@).admissible(
                old(controller)@.capabilities,
            ),
        ensures
            old(controller)@.sent(self.command(old(controller)@), final(controller)@, r),
            final(controller)@.wf(),
    {
        match self {
            PtzRequest::Left => controller.pan_by(Scalar::from_bits(PAN_LEFT)),
            PtzRequest::Right => controller.pan_by(Scalar::from_bits(PAN_RIGHT)),
            PtzRequest::Up => controller.tilt_by(Scalar::from_bits(TILT_UP)),
            PtzRequest::Down => controller.tilt_by(Scalar::from_bits(TILT_DOWN)),
            PtzRequest::ZoomOut => controller.zoom_by(Scalar::from_bits(ZOOM_OUT)),
            PtzRequest::ZoomIn => controller.zoom_by(Scalar::from_bits(ZOOM_IN)),
            PtzRequest::Center => controller.center(),
        }
    }
}

/// The request alone, where it was made.
pub open spec fn made(pressed: bool, request: PtzRequest) -> Seq<PtzRequest> {
    if pressed {
        seq![request]
    } else {
        Seq::empty()
    }
}

impl PtzKeys {
    /// What the keys ask for, in the order in which it is carried out.
    pub open spec fn requested(self) -> Seq<PtzRequest> {
        made(self.left, PtzRequest::Left) + made(self.right, PtzRequest::Right) + made(
            self.up,
            PtzRequest::Up,
        ) + made(self.down, PtzRequest::Down) + made(self.zoom_out, PtzRequest::ZoomOut) + made(
            self.zoom_in,
            PtzRequest::ZoomIn,
        ) + made(self.center, PtzRequest::Center)
    }

    pub fn requests(&self) -> (r: Vec<PtzRequest>)
        ensures
            r@ == self.requested(),
    {
        let mut r: Vec<PtzRequest> = Vec::new();
        push_made(&mut r, self.left, PtzRequest::Left);
        push_made(&mut r, self.right, PtzRequest::Right);
        push_made(&mut r, self.up, PtzRequest::Up);
        push_made(&mut r, self.down, PtzRequest::Down);
        push_made(&mut r, self.zoom_out, PtzRequest::ZoomOut);
        push_made(&mut r, self.zoom_in, PtzRequest::ZoomIn);
        push_made(&mut r, self.center, PtzRequest::Center);
        r
    }
}

fn push_made(requests: &mut Vec<PtzRequest>, pressed: bool, request: PtzRequest)
    ensures
        final(requests)@ == old(requests)@ + made(pressed, request),
{
    if pressed {
        requests.push(request);
    }
    assert(requests@ =~= old(requests)@ + made(pressed, request));
}

/// The operator's panel: the error of the last request, and when a button was
/// last pressed.
#[derive(Clone, Debug)]
pub struct PtzPanel {
    pub ptz_error: Option<String>,
    pub last_button_at: Option<u128>,
}

impl PtzPanel {
    pub fn new() -> (r: PtzPanel)
        ensures
            r.ptz_error is None,
            r.last_button_at is None,
    {
        PtzPanel { ptz_error: None, last_button_at: None }
    }

    /// Shows how a request went: its error, or none.
    pub fn record_ptz_result(&mut self, result: Result<(), String>)
        ensures
            final(self).last_button_at == old(self).last_button_at,
            final(self).ptz_error == (match result {
                Ok(_) => None,
                Err(text) => Some(text),
            }),
    {
        self.ptz_error = match result {
            Ok(_) => None,
            Err(text) => Some(text),
        };
    }

    /// The buttons have rested.
    pub open spec fn rested(self, now: u128) -> bool {
        self.last_button_at matches Some(last) ==> elapsed_spec(now, last) >= PTZ_BUTTON_COOLDOWN
    }

    pub fn ptz_buttons_enabled(&self, now: u128) -> (r: bool)
        ensures
            r == self.rested(now),
    {
        match self.last_button_at {
            Some(last) => elapsed(now, last) >= PTZ_BUTTON_COOLDOWN,
            None => true,
        }
    }

    pub fn mark_ptz_button_used(&mut self, now: u128)
        ensures
            *final(self) == (PtzPanel { last_button_at: Some(now), ..*old(self) }),
    {
        self.last_button_at = Some(now);
    }

    /// Carries out what the keys ask for. A running worker has the commands at
    /// the end of its queue, and no error is shown; one that has ended refuses
    /// them. Where no key was pressed nothing changes.
    pub fn handle_keyboard_ptz(&mut self, keys: &PtzKeys, controller: &mut ManualController)
        requires
            old(controller)@.wf(),
            old(controller)@.running() ==> forall|i: int|
                0 <= i < keys.requested().len() ==> (#[trigger] keys.requested()[i]).command(
                    old(controller)@,
                ).admissible(old(controller)@.capabilities),
        ensures
            final(controller)@.wf(),
            final(self).last_button_at == old(self).last_button_at,
            final(controller)@ == (if old(controller)@.running() {
                ControllerModel {
                    queue: old(controller)@.queue + keys.requested().map_values(
                        |request: PtzRequest| request.command(old(controller)@),
                    ),
                    ..old(controller)@
                }
            } else {
                old(controller)@
            }),
            keys.requested().len() == 0 ==> final(self).ptz_error == old(self).ptz_error,
            keys.requested().len() > 0 && old(controller)@.running() ==>
                final(self).ptz_error is None,
            keys.requested().len() > 0 && !old(controller)@.running() ==>
                (final(self).ptz_error matches Some(text) && text@ == "PTZ worker has stopped"@),
    {
        let requests = keys.requests();
        let ghost model = controller@;
        let ghost commands = requests@.map_values(
            |request: PtzRequest| request.command(model),
        );
        let ghost error = self.ptz_error;
        let ghost pressed_at = self.last_button_at;
        assert(commands.take(0) =~= Seq::empty());
        assert(model.queue + commands.take(0) =~= model.queue);
        let mut i: usize = 0;
        while i < requests.len()
            invariant
                i <= requests@.len(),
                commands == requests@.map_values(|request: PtzRequest| request.command(model)),
                model.running() ==> forall|k: int|
                    0 <= k < requests@.len() ==> (#[trigger] requests@[k]).command(
                        model,
                    ).admissible(model.capabilities),
                controller@.wf(),
                self.last_button_at == pressed_at,
                controller@ == (if model.running() {
                    ControllerModel { queue: model.queue + commands.take(i as int), ..model }
                } else {
                    model
                }),
                i == 0 ==> self.ptz_error == error,
                i > 0 && model.running() ==> self.ptz_error is None,
                i > 0 && !model.running() ==> (self.ptz_error matches Some(text) && text@
                    == "PTZ worker has stopped"@),
            decreases requests@.len() - i,
        {
            let request = requests[i];
            let result = request.send(controller);
            self.record_ptz_result(result);
            i += 1;
            assert(commands.take(i as int) =~= commands.take(i - 1).push(commands[i - 1]));
            assert(model.queue + commands.take(i as int) =~= (model.queue + commands.take(
                i - 1,
            )).push(commands[i - 1]));
        }
        assert(commands.take(requests@.len() as int) =~= commands);
    }
}

/// Two frames wait at most; a third pushes the oldest out, and the others stay in their
/// order.
pub proof fn oldest_frame_makes_room<T>(waiting: Seq<T>, frame: T)
    requires
        waiting.len() <= 2,
    ensures
        pushed(waiting, frame).len() == if waiting.len() == 2 {
            2nat
        } else {
            waiting.len() + 1
        },
        pushed(waiting, frame).last() == frame,
        waiting.len() == 2 ==> pushed(waiting, frame) == seq![waiting[1], frame],
        waiting.len() == 1 ==> pushed(waiting, frame) == seq![waiting[0], frame],
{
}

/// A repair cuts an image out of a stream: it begins with the first bytes FF D8 and
/// ends behind the first FF D9 that follows them, or with the data. There is something
/// to repair only where that leaves bytes out.
pub proof fn repairs_cut_out_the_image(
    format: PixelFormat,
    data: Seq<u8>,
    start: int,
    end: int,
)
    requires
        repairable(format, data, start, end),
    ensures
        format is Mjpeg,
        0 <= start && start + 2 <= end <= data.len(),
        start > 0 || end < data.len(),
        data[start] == 0xFF && data[start + 1] == 0xD8,
        forall|i: int|
            0 <= i < start ==> !(#[trigger] data[i] == 0xFF && data[i + 1] == 0xD8),
        end < data.len() ==> start + 4 <= end && data[end - 2] == 0xFF && data[end - 1] == 0xD9,
        forall|i: int|
            start + 2 <= i && i + 1 < end - 1 ==> !(#[trigger] data[i] == 0xFF && data[i + 1]
                == 0xD9),
{
    assert forall|i: int| 0 <= i < start implies !(#[trigger] data[i] == 0xFF && data[i + 1]
        == 0xD8) by {
        assert(!begins_at(data, i));
    }
    assert forall|i: int| start + 2 <= i && i + 1 < end - 1 implies !(#[trigger] data[i] == 0xFF
        && data[i + 1] == 0xD9) by {
        assert(!ends_at(data, i));
    }
}

/// A decoded frame is counted once: its time always, as slow from 33 ms on, a repair
/// and an error only where there was one. Frames that were dropped are not touched.
pub proof fn decoding_is_counted<F: Fn(Operation) -> Scalar>(
    unit: F,
    stats: PreviewWorkerStats,
    time: u128,
    repair: Option<(usize, usize)>,
    error: Option<String>,
)
    requires
        stats.decode_repairs < u64::MAX,
        stats.decode_errors < u64::MAX,
        stats.decode.slow < u64::MAX,
    ensures
        ({
            let next = stats.decoded(unit, time, repair, error);
            &&& next.decode == stats.decode.recorded(unit, time, 33_000_000)
            &&& next.decode_repairs == stats.decode_repairs + if repair is Some {
                1int
            } else {
                0
            }
            &&& repair is Some ==> next.last_decode_repair == repair
            &&& repair is None ==> next.last_decode_repair == stats.last_decode_repair
            &&& next.decode_errors == stats.decode_errors + if error is Some {
                1int
            } else {
                0
            }
            &&& error is Some ==> next.last_decode_error == error
            &&& error is None ==> next.last_decode_error == stats.last_decode_error
            &&& next.raw_queue_drops == stats.raw_queue_drops
            &&& next.queue_drops == stats.queue_drops
        }),
{
}

/// A frame that was shown is counted, timed against the one before, and clears the
/// error; a failure is only noted, and where there was nothing to show nothing changes.
pub proof fn shown_frames_are_counted<F: Fn(Operation) -> Scalar>(
    unit: F,
    stats: DisplayStats,
    time: u128,
    now: u128,
    text: String,
)
    requires
        stats.uploaded_frames < u64::MAX,
    ensures
        ({
            let shown = stats.uploaded(unit, Ok(true), time, now);
            let failed = stats.uploaded(unit, Err(text), time, now);
            &&& shown.uploaded_frames == stats.uploaded_frames + 1
            &&& shown.texture_update == stats.texture_update.recorded(unit, time, 33_000_000)
            &&& shown.last_displayed_at == Some(now)
            &&& shown.display == stats.display.ticked(unit, now)
            &&& shown.last_error is None
            &&& stats.last_displayed_at is None ==> shown.display_gap == stats.display_gap
            &&& (stats.last_displayed_at matches Some(before) ==> (before <= now
                ==> shown.display_gap == stats.display_gap.recorded(
                unit,
                (now - before) as u128,
                45_000_000,
            )))
            &&& shown.ui_gap == stats.ui_gap && shown.last_ui_started == stats.last_ui_started
            &&& stats.uploaded(unit, Ok(false), time, now) == stats
            &&& failed == (DisplayStats { last_error: Some(text), ..stats })
        }),
{
}

/// Counting the detections of a kind counts exactly those.
pub proof fn kinds_are_counted(detections: Seq<Detection>, kind: DetectionKind, n: int)
    requires
        0 <= n <= detections.len(),
    ensures
        kind_count(detections, kind, n) == detections.take(n).filter(
            |detection: Detection| detection.kind == kind,
        ).len(),
    decreases n,
{
    let of_kind = |detection: Detection| detection.kind == kind;
    reveal(Seq::filter);
    if n > 0 {
        kinds_are_counted(detections, kind, n - 1);
        assert(detections.take(n).drop_last() == detections.take(n - 1));
        assert(detections.take(n).last() == detections[n - 1]);
    }
}

/// A picture is shown as large as fits: as wide as there is room, or as high, and its
/// sides keep their proportion.
pub proof fn pictures_are_fitted<F: Fn(Operation) -> Scalar>(
    unit: F,
    room: (Scalar, Scalar),
    aspect: Scalar,
    width: int,
    height: int,
    proportion: int,
)
    requires
        exact_on_counts(unit),
        divides_counts(unit),
        stands_for(room.0, width),
        stands_for(room.1, height),
        stands_for(aspect, proportion),
        0 <= width <= 0x1_0000 && 0 <= height <= 0x1_0000 && 1 <= proportion <= 0x10,
    ensures
        ({
            let (wide, high) = shown_size(unit, room, aspect);
            &&& width >= height * proportion ==> stands_for(wide, height * proportion)
                && stands_for(high, height)
            &&& width < height * proportion ==> stands_for(wide, width)
            &&& forall|rows: int|
                width < height * proportion && width == #[trigger] (rows * proportion)
                    ==> stands_for(high, rows)
        }),
{
    assert(0 <= height * proportion <= 0x10_0000) by (nonlinear_arith)
        requires
            0 <= height <= 0x1_0000,
            1 <= proportion <= 0x10,
    ;
    let needed = times(unit, room.1, aspect);
    assert(stands_for(needed, height * proportion));
    whole_numbers_are_compared(room.0, needed, width, height * proportion);
    let (wide, high) = shown_size(unit, room, aspect);
    if width >= height * proportion {
        assert(stands_for(wide, height * proportion));
    } else {
        assert forall|rows: int| width == #[trigger] (rows * proportion) implies stands_for(
            high,
            rows,
        ) by {
            assert(stands_for(wide, rows * proportion));
        }
    }
}

/// A box of the picture is drawn where the picture is shown: every corner is scaled
/// along each side as the picture is, and moved with its corner.
pub proof fn boxes_move_with_the_picture<F: Fn(Operation) -> Scalar>(
    unit: F,
    detection: Detection,
    corner: (Scalar, Scalar),
    shown: (Scalar, Scalar),
    size: (usize, usize),
    sides: (int, int, int, int),
    at: (int, int),
    scale: (int, int),
)
    requires
        exact_on_counts(unit),
        divides_counts(unit),
        1 <= size.0 <= 0x1000 && 1 <= size.1 <= 0x1000,
        0 <= scale.0 <= 0x10 && 0 <= scale.1 <= 0x10,
        stands_for(shown.0, scale.0 * size.0),
        stands_for(shown.1, scale.1 * size.1),
        stands_for(corner.0, at.0),
        stands_for(corner.1, at.1),
        0 <= at.0 <= 0x1000 && 0 <= at.1 <= 0x1000,
        stands_for(detection.x1, sides.0),
        stands_for(detection.y1, sides.1),
        stands_for(detection.x2, sides.2),
        stands_for(detection.y2, sides.3),
        0 <= sides.0 <= 0x1000 && 0 <= sides.1 <= 0x1000,
        0 <= sides.2 <= 0x1000 && 0 <= sides.3 <= 0x1000,
    ensures
        ({
            let drawn = placed(unit, detection, image_placement(unit, corner, shown, size));
            &&& stands_for(drawn.0, at.0 + sides.0 * scale.0)
            &&& stands_for(drawn.1, at.1 + sides.1 * scale.1)
            &&& stands_for(drawn.2, at.0 + sides.2 * scale.0)
            &&& stands_for(drawn.3, at.1 + sides.3 * scale.1)
        }),
{
    let placement = image_placement(unit, corner, shown, size);
    lemma_small_product(scale.0, size.0 as int);
    lemma_small_product(scale.1, size.1 as int);
    assert(stands_for(count_of(unit, size.0 as u64), size.0 as int));
    assert(stands_for(count_of(unit, size.1 as u64), size.1 as int));
    assert(stands_for(placement.scale_x, scale.0));
    assert(stands_for(placement.scale_y, scale.1));
    lemma_placed(unit, corner.0, detection.x1, placement.scale_x, at.0, sides.0, scale.0);
    lemma_placed(unit, corner.1, detection.y1, placement.scale_y, at.1, sides.1, scale.1);
    lemma_placed(unit, corner.0, detection.x2, placement.scale_x, at.0, sides.2, scale.0);
    lemma_placed(unit, corner.1, detection.y2, placement.scale_y, at.1, sides.3, scale.1);
}

proof fn lemma_small_product(scale: int, side: int)
    by (nonlinear_arith)
    requires
        0 <= scale <= 0x10,
        0 <= side <= 0x1000,
    ensures
        0 <= scale * side <= 0x1_0000,
        0 <= side * scale <= 0x1_0000,
{
}

proof fn lemma_placed<F: Fn(Operation) -> Scalar>(
    unit: F,
    corner: Scalar,
    side: Scalar,
    scale: Scalar,
    at: int,
    place: int,
    factor: int,
)
    requires
        exact_on_counts(unit),
        stands_for(corner, at),
        stands_for(side, place),
        stands_for(scale, factor),
        0 <= at <= 0x1000 && 0 <= place <= 0x1000 && 0 <= factor <= 0x10,
    ensures
        stands_for(plus(unit, corner, times(unit, side, scale)), at + place * factor),
{
    lemma_small_product(factor, place);
    let moved = times(unit, side, scale);
    assert(stands_for(moved, place * factor));
}

/// Every key that is pressed makes its request, once, and no other does; several come
/// in the order of the keys.
#[verifier::rlimit(60)]
pub proof fn pressed_keys_make_requests(keys: PtzKeys)
    ensures
        keys.requested().contains(PtzRequest::Left) <==> keys.left,
        keys.requested().contains(PtzRequest::Right) <==> keys.right,
        keys.requested().contains(PtzRequest::Up) <==> keys.up,
        keys.requested().contains(PtzRequest::Down) <==> keys.down,
        keys.requested().contains(PtzRequest::ZoomOut) <==> keys.zoom_out,
        keys.requested().contains(PtzRequest::ZoomIn) <==> keys.zoom_in,
        keys.requested().contains(PtzRequest::Center) <==> keys.center,
        forall|i: int, j: int|
            0 <= i < j < keys.requested().len() ==> rank(#[trigger] keys.requested()[i]) < rank(
                #[trigger] keys.requested()[j],
            ),
{
    let one = made(keys.left, PtzRequest::Left);
    lemma_first(keys.left);
    lemma_one_more(one, keys.right, PtzRequest::Right);
    let two = one + made(keys.right, PtzRequest::Right);
    lemma_one_more(two, keys.up, PtzRequest::Up);
    let three = two + made(keys.up, PtzRequest::Up);
    lemma_one_more(three, keys.down, PtzRequest::Down);
    let four = three + made(keys.down, PtzRequest::Down);
    lemma_one_more(four, keys.zoom_out, PtzRequest::ZoomOut);
    let five = four + made(keys.zoom_out, PtzRequest::ZoomOut);
    lemma_one_more(five, keys.zoom_in, PtzRequest::ZoomIn);
    let six = five + made(keys.zoom_in, PtzRequest::ZoomIn);
    lemma_one_more(six, keys.center, PtzRequest::Center);
    lemma_ranked(keys.requested());
}

/// The place of a request among the keys.
pub open spec fn rank(request: PtzRequest) -> int {
    match request {
        PtzRequest::Left => 0,
        PtzRequest::Right => 1,
        PtzRequest::Up => 2,
        PtzRequest::Down => 3,
        PtzRequest::ZoomOut => 4,
        PtzRequest::ZoomIn => 5,
        PtzRequest::Center => 6,
    }
}

/// The requests stand in the order of the keys, all before this place.
#[verifier::opaque]
spec fn ranked(requests: Seq<PtzRequest>, end: int) -> bool {
    &&& forall|i: int, j: int|
        0 <= i < j < requests.len() ==> rank(#[trigger] requests[i]) < rank(#[trigger] requests[j])
    &&& forall|i: int| 0 <= i < requests.len() ==> rank(#[trigger] requests[i]) < end
}

proof fn lemma_ranked(requests: Seq<PtzRequest>)
    requires
        ranked(requests, 7),
    ensures
        forall|i: int, j: int|
            0 <= i < j < requests.len() ==> rank(#[trigger] requests[i]) < rank(
                #[trigger] requests[j],
            ),
{
    reveal(ranked);
}

proof fn lemma_first(pressed: bool)
    ensures
        ranked(made(pressed, PtzRequest::Left), 1),
        forall|other: PtzRequest|
            #[trigger] made(pressed, PtzRequest::Left).contains(other) <==> pressed && other
                == PtzRequest::Left,
{
    reveal(ranked);
    if pressed {
        assert(made(pressed, PtzRequest::Left)[0] == PtzRequest::Left);
    }
}

proof fn lemma_one_more(requests: Seq<PtzRequest>, pressed: bool, request: PtzRequest)
    requires
        ranked(requests, rank(request)),
    ensures
        ranked(requests + made(pressed, request), rank(request) + 1),
        forall|other: PtzRequest|
            #[trigger] (requests + made(pressed, request)).contains(other) <==> requests.contains(
                other,
            ) || (pressed && other == request),
{
    reveal(ranked);
    let more = requests + made(pressed, request);
    assert forall|other: PtzRequest| #[trigger] more.contains(other) <==> requests.contains(other)
        || (pressed && other == request) by {
        if requests.contains(other) {
            let i = choose|i: int| 0 <= i < requests.len() && requests[i] == other;
            assert(more[i] == other);
        }
        if pressed {
            assert(more[requests.len() as int] == request);
        }
        if more.contains(other) {
            let i = choose|i: int| 0 <= i < more.len() && more[i] == other;
            if i < requests.len() {
                assert(requests[i] == other);
            }
        }
    }
}

/// A key turns the camera by ten degrees, lifts or lowers it by five, and changes zoom
/// by four hundred; the last one centers it.
pub proof fn keys_move_by_fixed_amounts(model: ControllerModel)
    ensures
        PtzRequest::Left.command(model) == WorkerCommand::Relative(
            Axis::Pan,
            Scalar { bits: 0xC120_0000 },
        ),
        PtzRequest::Right.command(model) == WorkerCommand::Relative(
            Axis::Pan,
            Scalar { bits: 0x4120_0000 },
        ),
        PtzRequest::Up.command(model) == WorkerCommand::Relative(
            Axis::Tilt,
            Scalar { bits: 0x40A0_0000 },
        ),
        PtzRequest::Down.command(model) == WorkerCommand::Relative(
            Axis::Tilt,
            Scalar { bits: 0xC0A0_0000 },
        ),
        PtzRequest::ZoomIn.command(model) == WorkerCommand::Relative(
            Axis::Zoom,
            Scalar { bits: 0x43C8_0000 },
        ),
        PtzRequest::ZoomOut.command(model) == WorkerCommand::Relative(
            Axis::Zoom,
            Scalar { bits: 0xC3C8_0000 },
        ),
        PtzRequest::Center.command(model) == WorkerCommand::Apply(centered(model.capabilities)),
        stands_for(Scalar { bits: 0x4120_0000 }, 10),
        stands_for(Scalar { bits: 0x40A0_0000 }, 5),
        stands_for(Scalar { bits: 0x43C8_0000 }, 400),
{
    lemma2_to64();
    patterns_denote_whole_numbers(0x4120_0000, 10, 20);
    patterns_denote_whole_numbers(0x40A0_0000, 5, 21);
    patterns_denote_whole_numbers(0x43C8_0000, 400, 15);
}

/// The buttons rest for 200 ms after one was pressed.
pub proof fn buttons_rest_for_a_while(panel: PtzPanel, pressed: u128, now: u128)
    requires
        pressed <= now,
    ensures
        panel.last_button_at is None ==> panel.rested(now),
        panel.last_button_at == Some(pressed) ==> (panel.rested(now) <==> now
            >= pressed + 200_000_000),
{
}

} // verus!
