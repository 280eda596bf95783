//! Meters for frame rates and for how long things take.

use crate::arithmetic::{
    computes, count_of, counted, milliseconds, milliseconds_of, over, quotient, seconds, seconds_of,
    times, Operation,
};
use crate::camera::grid::{stands_for, whole_numbers_are_ordered};
use crate::clock::{elapsed, elapsed_spec};
use crate::scalar::{Scalar, ONE, ZERO};
use crate::whole::{
    divides_counts, exact_on_counts, patterns_denote_whole_numbers, whole_numbers_are_compared,
};
use vstd::arithmetic::power2::lemma2_to64;
use vstd::prelude::*;

verus! {

/// Frames per second, measured over windows of at least one second.
#[derive(Copy, Clone, Debug)]
pub struct RateMeter {
    pub rate: Scalar,
    pub window_frames: u64,
    pub window_started: u128,
}

impl RateMeter {
    /// Seconds that the window lasts at `now`.
    pub open spec fn window<F: Fn(Operation) -> Scalar>(self, unit: F, now: u128) -> Scalar {
        seconds_of(unit, elapsed_spec(now, self.window_started) as u128)
    }

    /// What one more frame at `now` makes of the meter: a window that has lasted
    /// long enough gives the rate, and another begins.
    pub open spec fn ticked<F: Fn(Operation) -> Scalar>(self, unit: F, now: u128) -> RateMeter {
        let frames = (self.window_frames + 1) as u64;
        let window = self.window(unit, now);
        if (Scalar { bits: ONE }).less_equal(window) {
            RateMeter {
                rate: over(unit, count_of(unit, frames), window),
                window_frames: 0,
                window_started: now,
            }
        } else {
            RateMeter { window_frames: frames, ..self }
        }
    }

    /// A meter whose first window begins at `now`.
    pub fn new(now: u128) -> (r: RateMeter)
        ensures
            r == (RateMeter {
                rate: Scalar { bits: ZERO },
                window_frames: 0,
                window_started: now,
            }),
    {
        RateMeter { rate: Scalar::from_bits(ZERO), window_frames: 0, window_started: now }
    }

    /// Counts a frame.
    pub fn tick<F: Fn(Operation) -> Scalar>(&mut self, now: u128, unit: &F)
        requires
            computes(*unit),
            old(self).window_frames < u64::MAX,
        ensures
            *final(self) == old(self).ticked(*unit, now),
    {
        self.window_frames = self.window_frames + 1;
        let window = seconds(unit, elapsed(now, self.window_started));
        if Scalar::from_bits(ONE).at_most(window) {
            self.rate = quotient(unit, counted(unit, self.window_frames), window);
            self.window_frames = 0;
            self.window_started = now;
        }
    }
}

/// The latest and the longest time that something took, in milliseconds, and how
/// often it took too long.
#[derive(Copy, Clone, Debug)]
pub struct Gauge {
    pub latest_ms: Scalar,
    pub peak_ms: Scalar,
    pub slow: u64,
}

impl Gauge {
    /// What one more time makes of the gauge.
    pub open spec fn recorded<F: Fn(Operation) -> Scalar>(
        self,
        unit: F,
        time: u128,
        limit: u128,
    ) -> Gauge {
        Gauge {
            latest_ms: milliseconds_of(unit, time),
            peak_ms: self.peak_ms.larger(milliseconds_of(unit, time)),
            slow: if time >= limit {
                (self.slow + 1) as u64
            } else {
                self.slow
            },
        }
    }

    pub fn new() -> (r: Gauge)
        ensures
            r == (Gauge {
                latest_ms: Scalar { bits: ZERO },
                peak_ms: Scalar { bits: ZERO },
                slow: 0,
            }),
    {
        Gauge { latest_ms: Scalar::from_bits(ZERO), peak_ms: Scalar::from_bits(ZERO), slow: 0 }
    }

    /// Takes a time in nanoseconds, which is too long from `limit` on.
    pub fn record<F: Fn(Operation) -> Scalar>(&mut self, time: u128, limit: u128, unit: &F)
        requires
            computes(*unit),
            old(self).slow < u64::MAX,
        ensures
            *final(self) == old(self).recorded(*unit, time, limit),
    {
        self.latest_ms = milliseconds(unit, time);
        self.peak_ms = self.peak_ms.max(self.latest_ms);
        if time >= limit {
            self.slow = self.slow + 1;
        }
    }
}

/// The peak never falls, and is not below the latest time.
pub proof fn peak_holds<F: Fn(Operation) -> Scalar>(unit: F, gauge: Gauge, time: u128, limit: u128)
    requires
        !gauge.peak_ms.nan(),
    ensures
        ({
            let next = gauge.recorded(unit, time, limit);
            &&& gauge.peak_ms.less_equal(next.peak_ms)
            &&& !next.latest_ms.nan() ==> next.latest_ms.less_equal(next.peak_ms)
        }),
{
}

/// A rate is the frames of a window by its seconds, taken once a window has lasted for
/// a second; another window then begins. Until then frames are only counted.
pub proof fn rates_are_taken_each_second<F: Fn(Operation) -> Scalar>(
    unit: F,
    meter: RateMeter,
    now: u128,
    seconds: int,
    rate: int,
)
    requires
        divides_counts(unit),
        meter.window_started <= now,
        stands_for(seconds_of(unit, (now - meter.window_started) as u128), seconds),
        0 <= seconds <= 0x1000,
        meter.window_frames < 0x100_0000,
    ensures
        ({
            let next = meter.ticked(unit, now);
            &&& seconds == 0 ==> next == (RateMeter {
                window_frames: (meter.window_frames + 1) as u64,
                ..meter
            })
            &&& seconds >= 1 ==> next.window_frames == 0 && next.window_started == now
            &&& seconds >= 1 && meter.window_frames + 1 == rate * seconds ==> stands_for(
                next.rate,
                rate,
            )
        }),
{
    let window = seconds_of(unit, (now - meter.window_started) as u128);
    let one = Scalar { bits: 0x3F80_0000 };
    assert(stands_for(one, 1)) by {
        lemma2_to64();
        patterns_denote_whole_numbers(0x3F80_0000, 1, 23);
    }
    whole_numbers_are_ordered(one, window, 1, seconds);
    let frames = count_of(unit, (meter.window_frames + 1) as u64);
    assert(stands_for(frames, meter.window_frames + 1));
    if seconds >= 1 && meter.window_frames + 1 == rate * seconds {
        assert(stands_for(frames, rate * seconds));
    }
}

/// A gauge shows the last time and the longest in milliseconds, and counts the times
/// that reach the limit.
pub proof fn gauges_count_slow_times<F: Fn(Operation) -> Scalar>(
    unit: F,
    gauge: Gauge,
    time: u128,
    limit: u128,
    latest: int,
    longest: int,
)
    requires
        stands_for(milliseconds_of(unit, time), latest),
        stands_for(gauge.peak_ms, longest),
        gauge.slow < u64::MAX,
    ensures
        ({
            let next = gauge.recorded(unit, time, limit);
            &&& stands_for(next.latest_ms, latest)
            &&& stands_for(
                next.peak_ms,
                if latest > longest {
                    latest
                } else {
                    longest
                },
            )
            &&& next.slow == gauge.slow + if time >= limit {
                1int
            } else {
                0
            }
        }),
{
    whole_numbers_are_compared(gauge.peak_ms, milliseconds_of(unit, time), longest, latest);
}

/// There are a thousand milliseconds to a second.
pub proof fn seconds_have_a_thousand_milliseconds<F: Fn(Operation) -> Scalar>(
    unit: F,
    nanos: u128,
    seconds: int,
)
    requires
        exact_on_counts(unit),
        stands_for(seconds_of(unit, nanos), seconds),
        0 <= seconds <= 0x1000,
    ensures
        stands_for(milliseconds_of(unit, nanos), 1000 * seconds),
{
    let thousand = Scalar { bits: 0x447A_0000 };
    assert(stands_for(thousand, 1000)) by {
        lemma2_to64();
        patterns_denote_whole_numbers(0x447A_0000, 1000, 14);
    }
    assert(stands_for(times(unit, seconds_of(unit, nanos), thousand), seconds * 1000));
}

} // verus!
