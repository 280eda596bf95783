//! What the camera's stream is like, frame by frame.

use crate::arithmetic::{computes, Operation};
use crate::meter::RateMeter;
use crate::scalar::{Scalar, ZERO};
use vstd::prelude::*;

verus! {

/// Time between two frames above which the stream has a gap: 80 ms.
pub const TIMING_GAP_THRESHOLD: u128 = 80_000_000;

/// How a frame's bytes are laid out.
#[derive(Copy, Clone, Debug, Eq, PartialEq, Structural)]
pub enum PixelFormat {
    Bgra8,
    Rgb8,
    Rgba8,
    Yuyv,
    Nv12,
    Mjpeg,
    /// A layout that the tracker does not know.
    Other,
}

/// What a frame says of itself. Its time is in nanoseconds.
#[derive(Copy, Clone, Debug)]
pub struct FrameInfo {
    pub width: u32,
    pub height: u32,
    pub pixel_format: PixelFormat,
    pub timestamp: u128,
}

#[derive(Copy, Clone, Debug)]
pub struct StreamTelemetrySnapshot {
    pub arrived_frames: u64,
    pub arrival_fps: Scalar,
    pub dimension_anomalies: u64,
    pub format_anomalies: u64,
    pub timing_anomalies: u64,
}

/// Counts frames and what is odd about them.
#[derive(Copy, Clone, Debug)]
pub struct StreamTelemetry {
    pub expected_width: u32,
    pub expected_height: u32,
    pub expected_pixel_format: PixelFormat,
    pub arrived_frames: u64,
    pub arrival: RateMeter,
    pub dimension_anomalies: u64,
    pub format_anomalies: u64,
    pub timing_anomalies: u64,
    pub last_timestamp: Option<u128>,
}

/// One where the condition holds, else nothing.
pub open spec fn counted_if(condition: bool) -> int {
    if condition {
        1
    } else {
        0
    }
}

/// The frame is older than the one before it, or came too long after it.
pub open spec fn mistimed(previous: Option<u128>, timestamp: u128) -> bool {
    previous matches Some(before) && (timestamp < before || timestamp - before
        > TIMING_GAP_THRESHOLD)
}

impl StreamTelemetry {
    /// No more anomalies of a sort than frames, and none of time at the first.
    pub open spec fn wf(self) -> bool {
        &&& self.dimension_anomalies <= self.arrived_frames
        &&& self.format_anomalies <= self.arrived_frames
        &&& self.timing_anomalies <= self.arrived_frames
        &&& self.arrival.window_frames <= self.arrived_frames
        &&& self.timing_anomalies > 0 ==> self.timing_anomalies < self.arrived_frames
        &&& self.last_timestamp is Some <==> self.arrived_frames > 0
    }

    pub fn new(
        expected_width: u32,
        expected_height: u32,
        expected_pixel_format: PixelFormat,
        now: u128,
    ) -> (r: StreamTelemetry)
        ensures
            r == (StreamTelemetry {
                expected_width,
                expected_height,
                expected_pixel_format,
                arrived_frames: 0,
                arrival: RateMeter {
                    rate: Scalar { bits: ZERO },
                    window_frames: 0,
                    window_started: now,
                },
                dimension_anomalies: 0,
                format_anomalies: 0,
                timing_anomalies: 0,
                last_timestamp: None,
            }),
            r.wf(),
    {
        StreamTelemetry {
            expected_width,
            expected_height,
            expected_pixel_format,
            arrived_frames: 0,
            arrival: RateMeter::new(now),
            dimension_anomalies: 0,
            format_anomalies: 0,
            timing_anomalies: 0,
            last_timestamp: None,
        }
    }

    /// Takes in a frame that arrived at `now`.
    pub fn observe<F: Fn(Operation) -> Scalar>(&mut self, frame: &FrameInfo, now: u128, unit: &F)
        requires
            computes(*unit),
            old(self).wf(),
            old(self).arrived_frames < u64::MAX,
        ensures
            final(self).wf(),
            final(self).expected_width == old(self).expected_width,
            final(self).expected_height == old(self).expected_height,
            final(self).expected_pixel_format == old(self).expected_pixel_format,
            final(self).arrived_frames == old(self).arrived_frames + 1,
            final(self).arrival == old(self).arrival.ticked(*unit, now),
            final(self).dimension_anomalies == old(self).dimension_anomalies + counted_if(
                frame.width != old(self).expected_width || frame.height != old(
                    self,
                ).expected_height,
            ),
            final(self).format_anomalies == old(self).format_anomalies + counted_if(
                frame.pixel_format != old(self).expected_pixel_format,
            ),
            final(self).timing_anomalies == old(self).timing_anomalies + counted_if(
                mistimed(old(self).last_timestamp, frame.timestamp),
            ),
            final(self).last_timestamp == Some(frame.timestamp),
    {
        self.arrived_frames = self.arrived_frames + 1;
        if frame.width != self.expected_width || frame.height != self.expected_height {
            self.dimension_anomalies = self.dimension_anomalies + 1;
        }
        if frame.pixel_format != self.expected_pixel_format {
            self.format_anomalies = self.format_anomalies + 1;
        }
        if let Some(previous) = self.last_timestamp {
            if frame.timestamp < previous || frame.timestamp - previous > TIMING_GAP_THRESHOLD {
                self.timing_anomalies = self.timing_anomalies + 1;
            }
        }
        self.last_timestamp = Some(frame.timestamp);
        self.arrival.tick(now, unit);
    }

    pub fn snapshot(&self) -> (r: StreamTelemetrySnapshot)
        ensures
            r == (StreamTelemetrySnapshot {
                arrived_frames: self.arrived_frames,
                arrival_fps: self.arrival.rate,
                dimension_anomalies: self.dimension_anomalies,
                format_anomalies: self.format_anomalies,
                timing_anomalies: self.timing_anomalies,
            }),
    {
        StreamTelemetrySnapshot {
            arrived_frames: self.arrived_frames,
            arrival_fps: self.arrival.rate,
            dimension_anomalies: self.dimension_anomalies,
            format_anomalies: self.format_anomalies,
            timing_anomalies: self.timing_anomalies,
        }
    }
}

/// A frame comes at the wrong time when its stamp lies before the last one, or more
/// than 80 ms behind it; the first frame never does.
pub proof fn gaps_are_longer_than_80_ms(before: u128, stamp: u128)
    ensures
        !mistimed(None, stamp),
        mistimed(Some(before), stamp) <==> stamp < before || stamp > before + 80_000_000,
        counted_if(true) == 1,
        counted_if(false) == 0,
{
}

} // verus!
