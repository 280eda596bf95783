//! Waiting for a frame that is newer than the request, and that can be decoded.

use crate::clock::{elapsed, elapsed_spec};
use vstd::prelude::*;

verus! {

/// Time after which no frame is expected any more: 2 s.
pub const FRAME_TIMEOUT: u128 = 2_000_000_000;

/// Pause between two looks for a frame: 5 ms.
pub const FRAME_POLL_INTERVAL: u128 = 5_000_000;

/// Frames that are tried.
pub const FRAME_ATTEMPTS: u32 = 10;

/// Why there is no frame.
#[derive(Copy, Clone, Debug, Eq, PartialEq, Structural)]
pub enum FreshFrameError {
    TimedOut,
    Undecodable,
}

impl FreshFrameError {
    pub fn message(self) -> (r: &'static str)
        ensures
            r@ == (match self {
                FreshFrameError::TimedOut => "Timed out waiting for a fresh camera frame"@,
                FreshFrameError::Undecodable => {
                    "Could not decode a fresh MJPEG frame after 10 attempts"@
                },
            }),
    {
        match self {
            FreshFrameError::TimedOut => "Timed out waiting for a fresh camera frame",
            FreshFrameError::Undecodable => {
                "Could not decode a fresh MJPEG frame after 10 attempts"
            },
        }
    }
}

/// What is to be done next.
#[derive(Copy, Clone, Debug, Eq, PartialEq, Structural)]
pub enum FreshFrameAction {
    /// Discard the frame that waits, then look for another.
    Discard,
    /// Wait this many nanoseconds, then look again.
    Pause(u128),
    GiveUp(FreshFrameError),
}

/// A wait for a frame.
#[derive(Copy, Clone, Debug, Eq, PartialEq, Structural)]
pub struct FreshFrame {
    /// Frames tried, with the one awaited.
    pub attempt: u32,
    pub started: u128,
}

impl FreshFrame {
    pub open spec fn wf(self) -> bool {
        1 <= self.attempt <= FRAME_ATTEMPTS
    }

    /// Begins at `now`, with `Discard`.
    pub fn new(now: u128) -> (r: (FreshFrame, FreshFrameAction))
        ensures
            r.0 == (FreshFrame { attempt: 1, started: now }),
            r.0.wf(),
            r.1 is Discard,
    {
        (FreshFrame { attempt: 1, started: now }, FreshFrameAction::Discard)
    }

    /// No frame was there at `now`.
    pub fn missed(&self, now: u128) -> (r: FreshFrameAction)
        ensures
            r == (if elapsed_spec(now, self.started) >= FRAME_TIMEOUT {
                FreshFrameAction::GiveUp(FreshFrameError::TimedOut)
            } else {
                FreshFrameAction::Pause(FRAME_POLL_INTERVAL)
            }),
            now - self.started >= 2_000_000_000 ==> r == FreshFrameAction::GiveUp(
                FreshFrameError::TimedOut,
            ),
            now - self.started < 2_000_000_000 ==> r == FreshFrameAction::Pause(5_000_000),
    {
        if elapsed(now, self.started) >= FRAME_TIMEOUT {
            FreshFrameAction::GiveUp(FreshFrameError::TimedOut)
        } else {
            FreshFrameAction::Pause(FRAME_POLL_INTERVAL)
        }
    }

    /// The frame could not be decoded: another is tried, with its own time, until
    /// enough were.
    pub fn undecodable(&mut self, now: u128) -> (r: FreshFrameAction)
        requires
            old(self).wf(),
        ensures
            final(self).wf(),
            if old(self).attempt < FRAME_ATTEMPTS {
                &&& r is Discard
                &&& *final(self) == (FreshFrame {
                    attempt: (old(self).attempt + 1) as u32,
                    started: now,
                })
            } else {
                &&& r == FreshFrameAction::GiveUp(FreshFrameError::Undecodable)
                &&& *final(self) == *old(self)
            },
            r is GiveUp <==> old(self).attempt == 10,
    {
        if self.attempt < FRAME_ATTEMPTS {
            self.attempt = self.attempt + 1;
            self.started = now;
            FreshFrameAction::Discard
        } else {
            FreshFrameAction::GiveUp(FreshFrameError::Undecodable)
        }
    }
}

} // verus!
