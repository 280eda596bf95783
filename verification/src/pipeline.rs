//! What becomes of a camera's frames: they are decoded, counted, handed to the
//! detectors and kept waiting for the screen.

use crate::arithmetic::{computes, Operation};
use crate::meter::Gauge;
use crate::preview::{pushed, PreviewQueue, PreviewWorkerStats, PREVIEW_QUEUE_CAPACITY};
use crate::scalar::{Scalar, ZERO};
use crate::vision::letterbox::RgbaImage;
use crate::vision::worker::VisionInput;
use vstd::prelude::*;

verus! {

/// How a decode went: the image for the screen with the same for the detectors, or
/// an error; what was trimmed; and the time it took, in nanoseconds.
#[derive(Debug)]
pub struct Decode<T> {
    pub result: Result<(T, RgbaImage), String>,
    pub repair: Option<(usize, usize)>,
    pub time: u128,
}

/// Frames that wait for the screen, and how they and the others fared.
#[derive(Debug)]
pub struct PreviewPipeline<T> {
    queue: PreviewQueue<T>,
    stats: PreviewWorkerStats,
}

/// Frames that wait for the screen, oldest first, and how they and the others
/// fared.
#[verifier::ext_equal]
pub struct PipelineModel<T> {
    pub waiting: Seq<T>,
    pub stats: PreviewWorkerStats,
}

impl<T> Decode<T> {
    /// The image for the screen.
    pub open spec fn image(self) -> Option<T> {
        match self.result {
            Ok((image, _)) => Some(image),
            Err(_) => None,
        }
    }

    /// The frame for the detectors.
    pub open spec fn frame(self) -> Option<RgbaImage> {
        match self.result {
            Ok((_, frame)) => Some(frame),
            Err(_) => None,
        }
    }

    pub open spec fn error(self) -> Option<String> {
        match self.result {
            Ok(_) => None,
            Err(text) => Some(text),
        }
    }
}

/// The detectors get the frame, where there is one.
pub open spec fn handed_over<T>(input: VisionInput, decode: Decode<T>) -> VisionInput {
    match decode.frame() {
        Some(frame) => input.submitted(frame),
        None => input,
    }
}

impl<T> PipelineModel<T> {
    /// Nothing waits, and nothing was counted.
    pub open spec fn fresh() -> PipelineModel<T> {
        PipelineModel {
            waiting: Seq::empty(),
            stats: PreviewWorkerStats {
                decode: Gauge {
                    latest_ms: Scalar { bits: ZERO },
                    peak_ms: Scalar { bits: ZERO },
                    slow: 0,
                },
                decode_repairs: 0,
                last_decode_repair: None,
                decode_errors: 0,
                last_decode_error: None,
                raw_queue_drops: 0,
                queue_drops: 0,
            },
        }
    }

    /// No more frames wait than may.
    pub open spec fn wf(self) -> bool {
        self.waiting.len() <= PREVIEW_QUEUE_CAPACITY
    }

    /// Every counter can go up.
    pub open spec fn countable(self) -> bool {
        &&& self.stats.decode.slow < u64::MAX
        &&& self.stats.decode_repairs < u64::MAX
        &&& self.stats.decode_errors < u64::MAX
        &&& self.stats.raw_queue_drops < u64::MAX
        &&& self.stats.queue_drops < u64::MAX
    }

    /// A decode is counted; its image waits behind the others, and a full queue
    /// loses its oldest one, which is counted too.
    pub open spec fn decoded<F: Fn(Operation) -> Scalar>(self, unit: F, decode: Decode<T>) -> PipelineModel<
        T,
    > {
        let stats = self.stats.decoded(unit, decode.time, decode.repair, decode.error());
        match decode.image() {
            Some(image) => PipelineModel {
                waiting: pushed(self.waiting, image),
                stats: PreviewWorkerStats {
                    queue_drops: if self.waiting.len() >= PREVIEW_QUEUE_CAPACITY {
                        (stats.queue_drops + 1) as u64
                    } else {
                        stats.queue_drops
                    },
                    ..stats
                },
            },
            None => PipelineModel { stats, ..self },
        }
    }

    /// A frame found no room to wait to be decoded.
    pub open spec fn missed(self) -> PipelineModel<T> {
        PipelineModel {
            stats: PreviewWorkerStats {
                raw_queue_drops: (self.stats.raw_queue_drops + 1) as u64,
                ..self.stats
            },
            ..self
        }
    }

    /// The oldest frame, where one waits, goes to the screen.
    pub open spec fn shown(self) -> PipelineModel<T> {
        if self.waiting.len() == 0 {
            self
        } else {
            PipelineModel { waiting: self.waiting.skip(1), ..self }
        }
    }
}

impl<T> PreviewPipeline<T> {
    pub closed spec fn view(&self) -> PipelineModel<T> {
        PipelineModel { waiting: self.queue@, stats: self.stats }
    }

    pub fn new() -> (r: PreviewPipeline<T>)
        ensures
            r@ == PipelineModel::<T>::fresh(),
            r@.wf(),
    {
        PreviewPipeline { queue: PreviewQueue::new(), stats: PreviewWorkerStats::new() }
    }

    /// Whether every counter can go up.
    pub fn can_count(&self) -> (r: bool)
        ensures
            r == self@.countable(),
    {
        self.stats.decode.slow < u64::MAX && self.stats.decode_repairs < u64::MAX
            && self.stats.decode_errors < u64::MAX && self.stats.raw_queue_drops < u64::MAX
            && self.stats.queue_drops < u64::MAX
    }

    /// Takes a decode in: a frame that was decoded is handed to the detectors and
    /// waits for the screen, any other is only counted.
    pub fn take_decoded<F: Fn(Operation) -> Scalar>(
        &mut self,
        decode: Decode<T>,
        input: &mut VisionInput,
        unit: &F,
    )
        requires
            computes(*unit),
            old(self)@.wf(),
            old(self)@.countable(),
            old(input).replaced_frames < u64::MAX,
        ensures
            final(self)@ == old(self)@.decoded(*unit, decode),
            final(self)@.wf(),
            *final(input) == handed_over(*old(input), decode),
    {
        let (decoded, error) = match decode.result {
            Ok(pair) => (Some(pair), None),
            Err(text) => (None, Some(text)),
        };
        self.stats.record_decode(decode.time, decode.repair, error, unit);
        if let Some((image, frame)) = decoded {
            input.submit(frame);
            let dropped = self.queue.push(image);
            self.stats.record_push(dropped);
        }
    }

    /// Counts a frame that found no room to wait to be decoded.
    pub fn miss(&mut self)
        requires
            old(self)@.countable(),
        ensures
            final(self)@ == old(self)@.missed(),
    {
        self.stats.record_raw_drop();
    }

    /// Takes the oldest frame out for the screen.
    pub fn take(&mut self) -> (r: Option<T>)
        requires
            old(self)@.wf(),
        ensures
            final(self)@ == old(self)@.shown(),
            final(self)@.wf(),
            r == (if old(self)@.waiting.len() == 0 {
                None
            } else {
                Some(old(self)@.waiting[0])
            }),
    {
        self.queue.take()
    }

    /// How many frames wait for the screen.
    pub fn depth(&self) -> (r: usize)
        ensures
            r == self@.waiting.len(),
    {
        self.queue.depth()
    }

    /// How the frames fared.
    pub fn stats(&self) -> (r: &PreviewWorkerStats)
        ensures
            *r == self@.stats,
    {
        &self.stats
    }
}

/// What happens to a stream.
pub enum StreamEvent<T> {
    /// A frame found no room to wait to be decoded.
    Missed,
    Decoded(Decode<T>),
    /// The screen asked for a frame.
    Asked,
}

/// What a stream has come to.
#[verifier::ext_equal]
pub struct StreamHistory<T> {
    pub pipeline: PipelineModel<T>,
    /// Images that went to the screen.
    pub shown: Seq<T>,
    /// Frames that were handed to the detectors.
    pub handed: Seq<RgbaImage>,
}

/// What a stream has come to after all that happened to it.
pub open spec fn history<T, F: Fn(Operation) -> Scalar>(unit: F, events: Seq<StreamEvent<T>>) -> StreamHistory<
    T,
>
    decreases events.len(),
{
    if events.len() == 0 {
        StreamHistory {
            pipeline: PipelineModel::fresh(),
            shown: Seq::empty(),
            handed: Seq::empty(),
        }
    } else {
        let before = history(unit, events.drop_last());
        match events.last() {
            StreamEvent::Missed => StreamHistory { pipeline: before.pipeline.missed(), ..before },
            StreamEvent::Decoded(decode) => StreamHistory {
                pipeline: before.pipeline.decoded(unit, decode),
                handed: match decode.frame() {
                    Some(frame) => before.handed.push(frame),
                    None => before.handed,
                },
                ..before
            },
            StreamEvent::Asked => StreamHistory {
                pipeline: before.pipeline.shown(),
                shown: if before.pipeline.waiting.len() == 0 {
                    before.shown
                } else {
                    before.shown.push(before.pipeline.waiting[0])
                },
                ..before
            },
        }
    }
}

/// The images that were decoded, in the order of arrival.
pub open spec fn images<T>(events: Seq<StreamEvent<T>>) -> Seq<T>
    decreases events.len(),
{
    if events.len() == 0 {
        Seq::empty()
    } else {
        match events.last() {
            StreamEvent::Decoded(decode) => match decode.image() {
                Some(image) => images(events.drop_last()).push(image),
                None => images(events.drop_last()),
            },
            _ => images(events.drop_last()),
        }
    }
}

/// The frames for the detectors that were decoded, in the order of arrival.
pub open spec fn frames<T>(events: Seq<StreamEvent<T>>) -> Seq<RgbaImage>
    decreases events.len(),
{
    if events.len() == 0 {
        Seq::empty()
    } else {
        match events.last() {
            StreamEvent::Decoded(decode) => match decode.frame() {
                Some(frame) => frames(events.drop_last()).push(frame),
                None => frames(events.drop_last()),
            },
            _ => frames(events.drop_last()),
        }
    }
}

/// How many frames could not be decoded.
pub open spec fn failures<T>(events: Seq<StreamEvent<T>>) -> int
    decreases events.len(),
{
    if events.len() == 0 {
        0
    } else {
        failures(events.drop_last()) + (match events.last() {
            StreamEvent::Decoded(decode) => if decode.image() is None {
                1int
            } else {
                0
            },
            _ => 0,
        })
    }
}

/// How many frames found no room to wait to be decoded.
pub open spec fn misses<T>(events: Seq<StreamEvent<T>>) -> int
    decreases events.len(),
{
    if events.len() == 0 {
        0
    } else {
        misses(events.drop_last()) + (if events.last() is Missed {
            1int
        } else {
            0
        })
    }
}

/// Whatever happens to a stream, every image that was decoded was shown, waits or
/// was dropped; those that wait are the newest, in the order of arrival, and no
/// more than may. Each frame that was decoded was handed to the detectors once, in
/// that order. A frame that could not be decoded went nowhere and was counted
/// once, and so was one that found no room.
pub proof fn frames_add_up<T, F: Fn(Operation) -> Scalar>(unit: F, events: Seq<StreamEvent<T>>)
    requires
        events.len() <= u64::MAX,
    ensures
        ({
            let now = history(unit, events);
            let waiting = now.pipeline.waiting;
            let decoded = images(events);
            &&& now.pipeline.wf()
            &&& decoded.len() == now.shown.len() + waiting.len() + now.pipeline.stats.queue_drops
            &&& waiting == decoded.skip(decoded.len() - waiting.len())
            &&& forall|i: int|
                0 <= i < now.shown.len() ==> decoded.contains(#[trigger] now.shown[i])
            &&& now.handed == frames(events)
            &&& frames(events).len() == decoded.len()
            &&& now.pipeline.stats.decode_errors == failures(events)
            &&& now.pipeline.stats.raw_queue_drops == misses(events)
            &&& 0 <= failures(events) <= events.len()
            &&& 0 <= misses(events) <= events.len()
            &&& decoded.len() <= events.len()
        }),
    decreases events.len(),
{
    if events.len() > 0 {
        frames_add_up(unit, events.drop_last());
        let before = history(unit, events.drop_last());
        let now = history(unit, events);
        let earlier = images(events.drop_last());
        let decoded = images(events);
        let waiting = now.pipeline.waiting;
        assert(waiting =~= decoded.skip(decoded.len() - waiting.len()));
        assert forall|i: int| 0 <= i < now.shown.len() implies decoded.contains(
            #[trigger] now.shown[i],
        ) by {
            if i < before.shown.len() {
                assert(now.shown[i] == before.shown[i]);
                let k = choose|k: int| 0 <= k < earlier.len() && earlier[k] == before.shown[i];
                assert(decoded[k] == now.shown[i]);
            } else {
                assert(decoded[decoded.len() - before.pipeline.waiting.len()] == now.shown[i]);
            }
        }
    }
}

/// A decoded frame goes to the screen and to the detectors; one that failed goes to
/// neither. A picture that finds two others waiting takes the place of the older one,
/// which is counted.
pub proof fn decoded_frames_go_both_ways<T, F: Fn(Operation) -> Scalar>(
    unit: F,
    pipeline: PipelineModel<T>,
    input: VisionInput,
    image: T,
    frame: RgbaImage,
    text: String,
    repair: Option<(usize, usize)>,
    time: u128,
)
    requires
        pipeline.wf(),
        pipeline.countable(),
    ensures
        ({
            let good = Decode { result: Ok((image, frame)), repair, time };
            let bad = Decode::<T> { result: Err(text), repair, time };
            let shown = pipeline.decoded(unit, good);
            let failed = pipeline.decoded(unit, bad);
            &&& handed_over(input, good) == input.submitted(frame)
            &&& handed_over(input, bad) == input
            &&& shown.waiting.last() == image
            &&& shown.stats.queue_drops == pipeline.stats.queue_drops + if pipeline.waiting.len()
                == 2 {
                1int
            } else {
                0
            }
            &&& shown.waiting.len() == if pipeline.waiting.len() == 2 {
                2nat
            } else {
                pipeline.waiting.len() + 1
            }
            &&& shown.stats.decode_errors == pipeline.stats.decode_errors
            &&& failed.waiting == pipeline.waiting
            &&& failed.stats.queue_drops == pipeline.stats.queue_drops
            &&& failed.stats.decode_errors == pipeline.stats.decode_errors + 1
            &&& failed.stats.last_decode_error == Some(text)
            &&& shown.stats.decode == pipeline.stats.decode.recorded(unit, time, 33_000_000)
            &&& failed.stats.decode == shown.stats.decode
            &&& PipelineModel::<T>::fresh().waiting.len() == 0
            &&& PipelineModel::<T>::fresh().stats.decode.peak_ms.bits == 0
        }),
{
}

} // verus!
