//! Pulsed velocity output: a tracking command is driven for a part of each
//! period and paused for the rest, and dies when it is not refreshed.

use crate::clock::{elapsed, elapsed_spec};
use vstd::prelude::*;

verus! {

/// How long the worker waits for a command before it looks at the output: 20 ms.
pub const TRACKING_PWM_TICK: u128 = 20_000_000;

/// Length of a period: 300 ms.
pub const TRACKING_PWM_PERIOD: u128 = 300_000_000;

/// Driven part of a period: 200 ms.
pub const TRACKING_PWM_ON_TIME: u128 = 200_000_000;

/// Time after which a command that was not refreshed dies: 500 ms.
pub const TRACKING_PWM_WATCHDOG: u128 = 500_000_000;

/// -1, 0 or 1, after the sign of `x`.
pub open spec fn sign_of(x: i32) -> int {
    if x > 0 {
        1
    } else if x < 0 {
        -1
    } else {
        0
    }
}

fn signum(x: i32) -> (r: i32)
    ensures
        r == sign_of(x),
{
    if x > 0 {
        1
    } else if x < 0 {
        -1
    } else {
        0
    }
}

/// A command, the times that shape its output, and the output driven last.
#[derive(Copy, Clone, Debug, PartialEq, Eq)]
pub struct TrackingPwm {
    pub pan: i32,
    pub tilt: i32,
    pub cycle_started: u128,
    pub last_refresh: u128,
    pub output_pan: i32,
    pub output_tilt: i32,
}

impl TrackingPwm {
    /// Commands and outputs are directions.
    pub open spec fn wf(self) -> bool {
        &&& -1 <= self.pan <= 1
        &&& -1 <= self.tilt <= 1
        &&& -1 <= self.output_pan <= 1
        &&& -1 <= self.output_tilt <= 1
    }

    /// The command was not refreshed in time.
    pub open spec fn starved(self, now: u128) -> bool {
        elapsed_spec(now, self.last_refresh) >= TRACKING_PWM_WATCHDOG
    }

    /// There is no command left at `now`.
    pub open spec fn idle(self, now: u128) -> bool {
        self.starved(now) || (self.pan == 0 && self.tilt == 0)
    }

    /// The period is over at `now`, so that another begins.
    pub open spec fn wraps(self, now: u128) -> bool {
        elapsed_spec(now, self.cycle_started) >= TRACKING_PWM_PERIOD
    }

    /// What is to be driven at `now`.
    pub open spec fn desired(self, now: u128) -> (i32, i32) {
        if self.idle(now) {
            (0i32, 0i32)
        } else if self.wraps(now) || elapsed_spec(now, self.cycle_started) < TRACKING_PWM_ON_TIME {
            (self.pan, self.tilt)
        } else {
            (0i32, 0i32)
        }
    }

    /// The state after the output at `now` was looked at.
    pub open spec fn advanced(self, now: u128) -> TrackingPwm {
        let output = self.desired(now);
        TrackingPwm {
            pan: if self.starved(now) {
                0i32
            } else {
                self.pan
            },
            tilt: if self.starved(now) {
                0i32
            } else {
                self.tilt
            },
            cycle_started: if !self.idle(now) && self.wraps(now) {
                now
            } else {
                self.cycle_started
            },
            last_refresh: self.last_refresh,
            output_pan: output.0,
            output_tilt: output.1,
        }
    }

    /// The output to drive at `now`, where it differs from the one driven last.
    pub open spec fn change(self, now: u128) -> Option<(i32, i32)> {
        if self.desired(now) == (self.output_pan, self.output_tilt) {
            None
        } else {
            Some(self.desired(now))
        }
    }

    /// The state after a command at `now`.
    pub open spec fn commanded(self, pan: i32, tilt: i32, now: u128) -> TrackingPwm {
        TrackingPwm {
            pan: sign_of(pan) as i32,
            tilt: sign_of(tilt) as i32,
            cycle_started: if self.pan != sign_of(pan) || self.tilt != sign_of(tilt) {
                now
            } else {
                self.cycle_started
            },
            last_refresh: now,
            output_pan: self.output_pan,
            output_tilt: self.output_tilt,
        }
    }

    /// The state after the command was dropped at `now`.
    pub open spec fn cleared(self, now: u128) -> TrackingPwm {
        TrackingPwm {
            pan: 0,
            tilt: 0,
            cycle_started: now,
            last_refresh: now,
            output_pan: self.output_pan,
            output_tilt: self.output_tilt,
        }
    }

    pub fn new(now: u128) -> (r: TrackingPwm)
        ensures
            r.wf(),
            r == (TrackingPwm {
                pan: 0,
                tilt: 0,
                cycle_started: now,
                last_refresh: now,
                output_pan: 0,
                output_tilt: 0,
            }),
    {
        TrackingPwm {
            pan: 0,
            tilt: 0,
            cycle_started: now,
            last_refresh: now,
            output_pan: 0,
            output_tilt: 0,
        }
    }

    /// Takes the directions of a command. Another direction begins a period; the
    /// same one only refreshes the command.
    pub fn set_command(&mut self, pan: i32, tilt: i32, now: u128)
        ensures
            *final(self) == old(self).commanded(pan, tilt, now),
            old(self).wf() ==> final(self).wf(),
    {
        let pan: i32 = signum(pan);
        let tilt: i32 = signum(tilt);
        if self.pan != pan || self.tilt != tilt {
            self.cycle_started = now;
        }
        self.pan = pan;
        self.tilt = tilt;
        self.last_refresh = now;
    }

    /// Drops the command.
    pub fn clear(&mut self, now: u128)
        ensures
            *final(self) == old(self).cleared(now),
            old(self).wf() ==> final(self).wf(),
    {
        self.pan = 0;
        self.tilt = 0;
        self.cycle_started = now;
        self.last_refresh = now;
    }

    /// The output that has to be driven from `now` on; `None` while the one
    /// driven last is still right.
    pub fn next_output(&mut self, now: u128) -> (r: Option<(i32, i32)>)
        ensures
            r == old(self).change(now),
            *final(self) == old(self).advanced(now),
            old(self).wf() ==> final(self).wf(),
    {
        if elapsed(now, self.last_refresh) >= TRACKING_PWM_WATCHDOG {
            self.pan = 0;
            self.tilt = 0;
        }
        let output: (i32, i32) = if self.pan == 0 && self.tilt == 0 {
            (0, 0)
        } else {
            let mut since: u128 = elapsed(now, self.cycle_started);
            if since >= TRACKING_PWM_PERIOD {
                self.cycle_started = now;
                since = 0;
            }
            if since < TRACKING_PWM_ON_TIME {
                (self.pan, self.tilt)
            } else {
                (0, 0)
            }
        };
        if output.0 == self.output_pan && output.1 == self.output_tilt {
            return None;
        }
        self.output_pan = output.0;
        self.output_tilt = output.1;
        Some(output)
    }
}

/// The watchdog: however the output stands, once a command was not refreshed
/// for the watchdog time the next look at the output stops the camera, and it
/// stays stopped until another command arrives.
pub proof fn unrefreshed_command_stops(pwm: TrackingPwm, now: u128, later: u128)
    requires
        elapsed_spec(now, pwm.last_refresh) >= TRACKING_PWM_WATCHDOG,
    ensures
        pwm.desired(now) == (0i32, 0i32),
        pwm.advanced(now).output_pan == 0,
        pwm.advanced(now).output_tilt == 0,
        pwm.advanced(now).change(later) is None,
{
}

/// After the command is dropped the camera is told to stop exactly when it was
/// moving, and nothing is driven until another command arrives.
pub proof fn cleared_command_stops(pwm: TrackingPwm, cleared_at: u128, now: u128, later: u128)
    ensures
        pwm.cleared(cleared_at).desired(now) == (0i32, 0i32),
        pwm.cleared(cleared_at).change(now) is None <==> pwm.output_pan == 0 && pwm.output_tilt
            == 0,
        pwm.cleared(cleared_at).advanced(now).change(later) is None,
{
}

/// The shape of a pulse: a fresh command in another direction is driven from its
/// start for the driven part of the period and paused until the period ends, as
/// long as the watchdog has not stopped it.
pub proof fn command_is_pulsed(pwm: TrackingPwm, pan: i32, tilt: i32, start: u128, now: u128)
    requires
        pan != 0 || tilt != 0,
        pwm.pan != sign_of(pan) || pwm.tilt != sign_of(tilt),
        start <= now,
        now - start < TRACKING_PWM_PERIOD,
    ensures
        now - start < TRACKING_PWM_ON_TIME ==> pwm.commanded(pan, tilt, start).desired(now) == (
            sign_of(pan) as i32,
            sign_of(tilt) as i32,
        ),
        now - start >= TRACKING_PWM_ON_TIME ==> pwm.commanded(pan, tilt, start).desired(now) == (
            0i32,
            0i32,
        ),
{
}

/// Looking twice at the same moment reports a change at most once.
pub proof fn change_is_reported_once(pwm: TrackingPwm, now: u128)
    ensures
        pwm.advanced(now).change(now) is None,
{
}

/// Refreshing a command in the same direction does not disturb its period.
pub proof fn refresh_keeps_period(pwm: TrackingPwm, pan: i32, tilt: i32, now: u128)
    requires
        pwm.pan == sign_of(pan),
        pwm.tilt == sign_of(tilt),
    ensures
        pwm.commanded(pan, tilt, now).cycle_started == pwm.cycle_started,
        pwm.commanded(pan, tilt, now).last_refresh == now,
{
}

/// A command is driven for 200 ms from the start of its period and paused until 300
/// ms have passed; then another period begins at once. A command of 500 ms ago, or one
/// that asks for nothing, is not driven at all.
pub proof fn pulses_follow_the_clock(pwm: TrackingPwm, now: u128)
    ensures
        ({
            let age = elapsed_spec(now, pwm.last_refresh);
            let phase = elapsed_spec(now, pwm.cycle_started);
            let next = pwm.advanced(now);
            &&& age >= 500_000_000 ==> pwm.desired(now) == (0i32, 0i32) && next.pan == 0
                && next.tilt == 0
            &&& age < 500_000_000 ==> next.pan == pwm.pan && next.tilt == pwm.tilt
            &&& age < 500_000_000 && phase < 200_000_000 ==> pwm.desired(now) == (pwm.pan, pwm.tilt)
            &&& 200_000_000 <= phase < 300_000_000 ==> pwm.desired(now) == (0i32, 0i32)
            &&& age < 500_000_000 && phase >= 300_000_000 ==> pwm.desired(now) == (
                pwm.pan,
                pwm.tilt,
            ) && (pwm.pan != 0 || pwm.tilt != 0 ==> next.cycle_started == now)
            &&& phase < 300_000_000 ==> next.cycle_started == pwm.cycle_started
            &&& (next.output_pan, next.output_tilt) == pwm.desired(now)
            &&& pwm.change(now) is Some <==> (pwm.output_pan, pwm.output_tilt) != pwm.desired(now)
            &&& (pwm.change(now) matches Some(output) ==> output == pwm.desired(now))
            &&& next.last_refresh == pwm.last_refresh
        }),
{
}

/// A command is kept as directions, each axis on its own; what is driven at the time
/// is not touched.
pub proof fn commands_become_directions(pwm: TrackingPwm, pan: i32, tilt: i32, now: u128)
    ensures
        ({
            let next = pwm.commanded(pan, tilt, now);
            let stopped = pwm.cleared(now);
            &&& pan > 0 ==> next.pan == 1
            &&& pan < 0 ==> next.pan == -1
            &&& pan == 0 ==> next.pan == 0
            &&& tilt > 0 ==> next.tilt == 1
            &&& tilt < 0 ==> next.tilt == -1
            &&& tilt == 0 ==> next.tilt == 0
            &&& next.last_refresh == now
            &&& next.cycle_started == if next.pan == pwm.pan && next.tilt == pwm.tilt {
                pwm.cycle_started
            } else {
                now
            }
            &&& next.output_pan == pwm.output_pan && next.output_tilt == pwm.output_tilt
            &&& stopped.pan == 0 && stopped.tilt == 0 && stopped.last_refresh == now
            &&& stopped.output_pan == pwm.output_pan && stopped.output_tilt == pwm.output_tilt
        }),
{
}

} // verus!
