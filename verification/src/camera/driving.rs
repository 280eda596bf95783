//! What comes of the requests to a camera, from one step of its worker to the next.

use crate::arithmetic::{plus, Operation};
use crate::camera::controls::{
    all_reached, limited, safe_target, Axis, ControlCapabilities, ControlRange, Controls,
};
use crate::camera::grid::{
    exact_on_whole_numbers, small, stands_for, whole_numbers_are_ordered, whole_numbers_are_snapped,
    zero_is_zero, WholeRange,
};
use crate::camera::limits::{
    absolute_values, between, safe_targets_keep_the_margin, steps_are_larger_than_epsilon,
    whole_numbers_are_clamped,
};
use crate::camera::ptz::{centered, initial_target, negligible};
use crate::camera::worker::{
    correction, moves, relative_target, ControllerModel, Job, Link, Phase, PtzError, WorkerAction,
    WorkerCommand, WorkerEvent,
};
use crate::scalar::{order_is_numeric, Scalar};
use crate::whole::patterns_denote_whole_numbers;
use vstd::arithmetic::power2::lemma2_to64;
use vstd::prelude::*;

verus! {

/// Where an axis is, or its default where that is not known.
pub open spec fn position_or_default(at: Option<Scalar>, range: ControlRange) -> Scalar {
    match at {
        Some(at) => at,
        None => range.default,
    }
}

/// A correction moves exactly the axes on which it is not negligible, each from where
/// that axis is by what that axis is off, and keeps eight degrees from the ends of
/// that axis. It never moves zoom. The first axis that the camera lacks is named.
pub proof fn corrections_move_each_axis<F: Fn(Operation) -> Scalar>(
    unit: F,
    capabilities: ControlCapabilities,
    current: Controls,
    pan_delta: Scalar,
    tilt_delta: Scalar,
)
    ensures
        ({
            let pans = (Scalar { bits: 0x3400_0000 }).less(pan_delta.absolute());
            let tilts = (Scalar { bits: 0x3400_0000 }).less(tilt_delta.absolute());
            let result = correction(unit, capabilities, current, pan_delta, tilt_delta);
            &&& result is Ok <==> (pans ==> capabilities.pan is Some) && (tilts
                ==> capabilities.tilt is Some)
            &&& (result matches Err(error) ==> error == PtzError::Unsupported(
                if pans && capabilities.pan is None {
                    Axis::Pan
                } else {
                    Axis::Tilt
                },
            ))
            &&& (result matches Ok(targets) ==> {
                &&& targets.zoom is None
                &&& targets.pan is Some <==> pans
                &&& targets.tilt is Some <==> tilts
                &&& (capabilities.pan matches Some(range) ==> pans ==> targets.pan == Some(
                    safe_target(
                        unit,
                        plus(unit, position_or_default(current.pan, range), pan_delta),
                        range,
                        Scalar { bits: 0x4100_0000 },
                    ),
                ))
                &&& (capabilities.tilt matches Some(range) ==> tilts ==> targets.tilt == Some(
                    safe_target(
                        unit,
                        plus(unit, position_or_default(current.tilt, range), tilt_delta),
                        range,
                        Scalar { bits: 0x4100_0000 },
                    ),
                ))
            })
        }),
{
}

/// Neither axis of a correction has a say in the other: where pan is, how far it is
/// off and how far it reaches change nothing of tilt, and the other way round.
pub proof fn corrected_axes_are_independent<F: Fn(Operation) -> Scalar>(
    unit: F,
    capabilities: ControlCapabilities,
    others: ControlCapabilities,
    current: Controls,
    elsewhere: Controls,
    pan_delta: Scalar,
    tilt_delta: Scalar,
    other_delta: Scalar,
)
    ensures
        ({
            let here = correction(unit, capabilities, current, pan_delta, tilt_delta);
            let same_tilt = correction(unit, others, elsewhere, other_delta, tilt_delta);
            let same_pan = correction(unit, others, elsewhere, pan_delta, other_delta);
            &&& current.tilt == elsewhere.tilt && capabilities.tilt == others.tilt && here is Ok
                && same_tilt is Ok ==> here->Ok_0.tilt == same_tilt->Ok_0.tilt
            &&& current.pan == elsewhere.pan && capabilities.pan == others.pan && here is Ok
                && same_pan is Ok ==> here->Ok_0.pan == same_pan->Ok_0.pan
        }),
{
}

proof fn lemma_moving(delta: Scalar, by: int)
    requires
        stands_for(delta, by),
    ensures
        moves(delta) <==> by != 0,
{
    absolute_values(delta, by);
    if by == 0 {
        zero_is_zero();
        whole_numbers_are_ordered(delta.absolute(), Scalar { bits: 0 }, 0, 0);
    } else {
        let size: int = if by < 0 {
            -by
        } else {
            by
        };
        steps_are_larger_than_epsilon(delta.absolute(), size);
    }
}

/// Where a camera counts in whole numbers, a correction of one or more ends at the
/// sum, as near as a step and the margin of eight allow; one of nothing moves nothing.
#[verifier::rlimit(60)]
pub proof fn corrections_add_up<F: Fn(Operation) -> Scalar>(
    unit: F,
    capabilities: ControlCapabilities,
    current: Controls,
    pan_delta: Scalar,
    tilt_delta: Scalar,
    pan_range: ControlRange,
    tilt_range: ControlRange,
    pan: (int, int, WholeRange),
    tilt: (int, int, WholeRange),
)
    requires
        exact_on_whole_numbers(unit),
        capabilities.pan == Some(pan_range),
        capabilities.tilt == Some(tilt_range),
        pan.2.wf(),
        pan.2.of(pan_range),
        tilt.2.wf(),
        tilt.2.of(tilt_range),
        stands_for(position_or_default(current.pan, pan_range), pan.0),
        stands_for(position_or_default(current.tilt, tilt_range), tilt.0),
        stands_for(pan_delta, pan.1),
        stands_for(tilt_delta, tilt.1),
        small(pan.0) && small(pan.1) && small(tilt.0) && small(tilt.1),
    ensures
        correction(unit, capabilities, current, pan_delta, tilt_delta) matches Ok(targets) && {
            &&& targets.zoom is None
            &&& match targets.pan {
                None => pan.1 == 0,
                Some(target) => pan.1 != 0 && stands_for(
                    target,
                    pan.2.snap(between(pan.0 + pan.1, pan.2.inner(8).0, pan.2.inner(8).1)),
                ),
            }
            &&& match targets.tilt {
                None => tilt.1 == 0,
                Some(target) => tilt.1 != 0 && stands_for(
                    target,
                    tilt.2.snap(between(tilt.0 + tilt.1, tilt.2.inner(8).0, tilt.2.inner(8).1)),
                ),
            }
        },
{
    lemma_moving(pan_delta, pan.1);
    lemma_moving(tilt_delta, tilt.1);
    let margin = Scalar { bits: 0x4100_0000 };
    assert(stands_for(margin, 8)) by {
        lemma2_to64();
        patterns_denote_whole_numbers(0x4100_0000, 8, 20);
    }
    let panned = plus(unit, position_or_default(current.pan, pan_range), pan_delta);
    let tilted = plus(unit, position_or_default(current.tilt, tilt_range), tilt_delta);
    assert(stands_for(panned, pan.0 + pan.1));
    assert(stands_for(tilted, tilt.0 + tilt.1));
    safe_targets_keep_the_margin(unit, panned, pan_range, margin, pan.0 + pan.1, pan.2, 8);
    safe_targets_keep_the_margin(unit, tilted, tilt_range, margin, tilt.0 + tilt.1, tilt.2, 8);
    corrections_move_each_axis(unit, capabilities, current, pan_delta, tilt_delta);
}

/// The position is what was read last for a request; looks between pulses, and
/// everything else, leave it as it was.
#[verifier::rlimit(60)]
pub proof fn positions_read_are_noted<F: Fn(Operation) -> Scalar>(
    model: ControllerModel,
    event: WorkerEvent,
    now: u128,
    unit: F,
)
    requires
        model.phase.expects(event),
    ensures
        ({
            let next = model.stepped(event, now, unit).0;
            let asked = model.phase is ReadingPosition || model.phase is ReadingRelative
                || model.phase is ReadingAbsolute || model.phase is Waiting;
            &&& (event matches WorkerEvent::Read(controls) ==> asked ==> next.state.actual
                == controls)
            &&& !(asked && event is Read) ==> next.state.actual == model.state.actual
            &&& next.capabilities == model.capabilities
        }),
{
}

/// A move that the camera took becomes the target of every axis that it sets, and of no
/// other; the camera is then looked at.
pub proof fn moves_taken_become_targets<F: Fn(Operation) -> Scalar>(
    model: ControllerModel,
    targets: Controls,
    started: u128,
    tracking: bool,
    now: u128,
    unit: F,
)
    requires
        model.phase == (Phase::Applying { targets, started, tracking }),
    ensures
        ({
            let (next, action) = model.stepped(WorkerEvent::Succeeded, now, unit);
            let before = model.state;
            let after = next.state;
            &&& (targets.pan matches Some(target) ==> after.target_pan == target)
            &&& (targets.tilt matches Some(target) ==> after.target_tilt == target)
            &&& (targets.zoom matches Some(target) ==> after.target_zoom == target)
            &&& targets.pan is None ==> after.target_pan == before.target_pan
            &&& targets.tilt is None ==> after.target_tilt == before.target_tilt
            &&& targets.zoom is None ==> after.target_zoom == before.target_zoom
            &&& action is ReadControls
            &&& next.phase == (Phase::Waiting { targets, started, wait_started: now, tracking })
        }),
{
}

/// Nothing but a move that the camera took changes a target.
#[verifier::rlimit(60)]
pub proof fn only_moves_change_targets<F: Fn(Operation) -> Scalar>(
    model: ControllerModel,
    event: WorkerEvent,
    now: u128,
    unit: F,
)
    requires
        model.phase.expects(event),
        !(model.phase is Applying && event is Succeeded),
    ensures
        shown(model.stepped(event, now, unit).0) == shown(model),
{
    ending_keeps_targets(now);
}

/// The targets that are shown.
pub open spec fn shown(model: ControllerModel) -> (Scalar, Scalar, Scalar) {
    (model.state.target_pan, model.state.target_tilt, model.state.target_zoom)
}

#[verifier::rlimit(60)]
proof fn ending_keeps_targets(now: u128)
    ensures
        forall|any: ControllerModel, started: u128, error: Option<PtzError>, tracking: bool|
            shown((#[trigger] any.finished(started, now, error, tracking)).0) == shown(any),
        forall|any: ControllerModel| shown((#[trigger] any.settled(now)).0) == shown(any),
        forall|any: ControllerModel| shown((#[trigger] any.dispatched(now)).0) == shown(any),
        forall|any: ControllerModel, job: Job|
            shown((#[trigger] any.begun(job, now)).0) == shown(any),
        forall|any: ControllerModel, pan: i32, tilt: i32, started: u128|
            shown((#[trigger] any.pulse_drive(pan, tilt, started, now)).0) == shown(any),
{
}

/// The relative controller is opened at most once: only an unopened one is opened,
/// and how that went is never forgotten.
#[verifier::rlimit(60)]
pub proof fn controller_is_opened_once<F: Fn(Operation) -> Scalar>(
    model: ControllerModel,
    event: WorkerEvent,
    now: u128,
    unit: F,
)
    requires
        model.phase.expects(event),
    ensures
        ({
            let (next, action) = model.stepped(event, now, unit);
            &&& action is Open ==> model.link is Unopened && next.link is Unopened && next.phase
                is PulseOpening
            &&& action is Drive || action is Stop ==> next.link is Open
            &&& !(model.phase is PulseOpening) ==> next.link == model.link
            &&& (model.phase matches Phase::PulseOpening { pan, tilt, started } ==> match event {
                WorkerEvent::Failed(text) => {
                    &&& next.link == Link::Failed(text)
                    &&& next.state.last_error == Some(PtzError::Device(text))
                    &&& next.phase is Idle
                    &&& action is Receive
                },
                _ => {
                    &&& next.link is Open
                    &&& action == (WorkerAction::Drive { pan, tilt })
                    &&& next.phase == (Phase::PulseDriving { started })
                },
            })
        }),
{
    finishing_opens_nothing(now);
}

#[verifier::rlimit(60)]
proof fn finishing_opens_nothing(now: u128)
    ensures
        forall|any: ControllerModel, started: u128, error: Option<PtzError>, tracking: bool| {
            let (next, action) = #[trigger] any.finished(started, now, error, tracking);
            &&& !(action is Open)
            &&& !(action is Drive)
            &&& next.link == any.link
            &&& action is Stop ==> any.link is Open
        },
        forall|any: ControllerModel| {
            let (next, action) = #[trigger] any.settled(now);
            &&& !(action is Open)
            &&& !(action is Drive)
            &&& next.link == any.link
            &&& action is Stop ==> any.link is Open
        },
        forall|any: ControllerModel| {
            let (next, action) = #[trigger] any.dispatched(now);
            &&& !(action is Open)
            &&& !(action is Drive)
            &&& next.link == any.link
            &&& action is Stop ==> any.link is Open
        },
{
}

/// When the request under way began.
pub open spec fn request_began(phase: Phase) -> Option<u128> {
    match phase {
        Phase::Stopping { started } => Some(started),
        Phase::ReadingPosition { started } => Some(started),
        Phase::ReadingRelative { started, .. } => Some(started),
        Phase::ReadingAbsolute { started, .. } => Some(started),
        Phase::Applying { started, .. } => Some(started),
        Phase::Waiting { started, .. } => Some(started),
        _ => None,
    }
}

/// The request under way is one of tracking.
pub open spec fn tracks(phase: Phase) -> bool {
    match phase {
        Phase::Stopping { .. } => true,
        Phase::ReadingAbsolute { .. } => true,
        Phase::Applying { tracking, .. } => tracking,
        Phase::Waiting { tracking, .. } => tracking,
        _ => false,
    }
}

/// A request that the device refuses ends at once: its text is the error shown, and
/// the time since the request began is the length of the operation. A tracking
/// request then no longer counts as pending.
#[verifier::rlimit(60)]
pub proof fn refused_requests_end<F: Fn(Operation) -> Scalar>(
    model: ControllerModel,
    text: String,
    now: u128,
    unit: F,
)
    requires
        request_began(model.phase) is Some,
        model.pwm.change(now) is None,
    ensures
        ({
            let (next, action) = model.stepped(WorkerEvent::Failed(text), now, unit);
            let began = request_began(model.phase)->Some_0;
            &&& next.phase is Idle
            &&& action is Receive
            &&& next.state.last_error == Some(PtzError::Device(text))
            &&& began <= now ==> next.state.last_operation == now - began
            &&& tracks(model.phase) ==> !next.tracking_pending
            &&& !tracks(model.phase) ==> next.tracking_pending == model.tracking_pending
        }),
{
}

/// A stop, a look at the position and a move that has arrived end without an error.
/// A move is looked at until every axis has arrived, for five seconds; then where the
/// camera is becomes the error.
#[verifier::rlimit(60)]
pub proof fn requests_end_well_or_time_out<F: Fn(Operation) -> Scalar>(
    model: ControllerModel,
    event: WorkerEvent,
    now: u128,
    unit: F,
)
    requires
        model.phase.expects(event),
        !(event is Failed),
        model.pwm.change(now) is None,
    ensures
        ({
            let (next, action) = model.stepped(event, now, unit);
            let began = request_began(model.phase)->Some_0;
            let ended = {
                &&& next.phase is Idle
                &&& action is Receive
                &&& began <= now ==> next.state.last_operation == now - began
                &&& tracks(model.phase) ==> !next.tracking_pending
                &&& !tracks(model.phase) ==> next.tracking_pending == model.tracking_pending
            };
            match (model.phase, event) {
                (Phase::Stopping { .. }, _) => ended && next.state.last_error is None,
                (Phase::ReadingPosition { .. }, _) => ended && next.state.last_error is None,
                (
                    Phase::Waiting { targets, started, wait_started, tracking },
                    WorkerEvent::Read(at),
                ) => if all_reached(unit, targets, at, model.capabilities) {
                    ended && next.state.last_error is None
                } else if now - wait_started >= 5_000_000_000 {
                    ended && next.state.last_error == Some(PtzError::TimedOut(at))
                } else {
                    &&& action is Pause
                    &&& next.phase == (Phase::Resting { targets, started, wait_started, tracking })
                    &&& next.state.last_error == model.state.last_error
                },
                (Phase::Resting { targets, started, wait_started, tracking }, _) => {
                    &&& action is ReadControls
                    &&& next.phase == (Phase::Waiting { targets, started, wait_started, tracking })
                    &&& next.state == model.state
                },
                _ => true,
            }
        }),
{
}

/// A relative move is sent to its own axis alone, reckoned from where that axis was
/// just read; without a range for it the axis is named as unsupported.
pub proof fn relative_moves_stay_on_their_axis<F: Fn(Operation) -> Scalar>(
    model: ControllerModel,
    axis: Axis,
    amount: Scalar,
    started: u128,
    at: Controls,
    now: u128,
    unit: F,
)
    requires
        model.phase == (Phase::ReadingRelative { axis, amount, started }),
        model.pwm.change(now) is None,
    ensures
        ({
            let (next, action) = model.stepped(WorkerEvent::Read(at), now, unit);
            let range = match axis {
                Axis::Pan => model.capabilities.pan,
                Axis::Tilt => model.capabilities.tilt,
                Axis::Zoom => model.capabilities.zoom,
            };
            match range {
                None => {
                    &&& next.state.last_error == Some(PtzError::Unsupported(axis))
                    &&& action is Receive
                    &&& next.tracking_pending == model.tracking_pending
                },
                Some(range) => {
                    &&& action matches WorkerAction::ApplyControls(targets)
                    &&& next.phase == (Phase::Applying { targets, started, tracking: false })
                    &&& targets.pan == if axis is Pan {
                        Some(relative_target(unit, at.pan, amount, range))
                    } else {
                        None
                    }
                    &&& targets.tilt == if axis is Tilt {
                        Some(relative_target(unit, at.tilt, amount, range))
                    } else {
                        None
                    }
                    &&& targets.zoom == if axis is Zoom {
                        Some(relative_target(unit, at.zoom, amount, range))
                    } else {
                        None
                    }
                },
            }
        }),
{
}

/// A correction is reckoned from the position just read; one that moves no axis ends
/// at once, and so does one for an axis that the camera lacks.
pub proof fn corrections_start_where_the_camera_is<F: Fn(Operation) -> Scalar>(
    model: ControllerModel,
    pan_delta: Scalar,
    tilt_delta: Scalar,
    started: u128,
    at: Controls,
    now: u128,
    unit: F,
)
    requires
        model.phase == (Phase::ReadingAbsolute { pan_delta, tilt_delta, started }),
        model.pwm.change(now) is None,
    ensures
        ({
            let (next, action) = model.stepped(WorkerEvent::Read(at), now, unit);
            match correction(unit, model.capabilities, at, pan_delta, tilt_delta) {
                Err(error) => {
                    &&& next.state.last_error == Some(error)
                    &&& action is Receive
                    &&& !next.tracking_pending
                },
                Ok(targets) => if targets.pan is None && targets.tilt is None {
                    &&& next.state.last_error is None
                    &&& action is Receive
                    &&& !next.tracking_pending
                } else {
                    &&& action == WorkerAction::ApplyControls(targets)
                    &&& next.phase == (Phase::Applying { targets, started, tracking: true })
                    &&& next.tracking_pending == model.tracking_pending
                },
            }
        }),
{
}

/// What a request to a camera that stands still begins with.
pub open spec fn begins(
    command: WorkerCommand,
    now: u128,
    next: ControllerModel,
    action: WorkerAction,
) -> bool {
    match command {
        WorkerCommand::Apply(targets) => {
            &&& action == WorkerAction::ApplyControls(targets)
            &&& next.phase == (Phase::Applying { targets, started: now, tracking: false })
        },
        WorkerCommand::Relative(axis, amount) => {
            &&& action is ReadControls
            &&& next.phase == (Phase::ReadingRelative { axis, amount, started: now })
        },
        WorkerCommand::TrackAbsolute { pan_delta, tilt_delta } => {
            &&& action is ReadControls
            &&& next.phase == (Phase::ReadingAbsolute { pan_delta, tilt_delta, started: now })
        },
        WorkerCommand::Shutdown => action is Exit && next.phase is Exited && next.queue.len() == 0,
        _ => false,
    }
}

/// A request that moves the camera or ends the worker drops the tracking command. It
/// begins at once where there is no open controller to stop, and else when the stop
/// has ended, however that went.
#[verifier::rlimit(60)]
pub proof fn requests_begin_on_a_camera_that_stands<F: Fn(Operation) -> Scalar>(
    model: ControllerModel,
    event: WorkerEvent,
    now: u128,
    later_event: WorkerEvent,
    later: u128,
    unit: F,
)
    requires
        model.phase is Idle,
        model.queue.len() > 0,
        model.queue[0] is Apply || model.queue[0] is Relative || model.queue[0] is TrackAbsolute
            || model.queue[0] is Shutdown,
    ensures
        ({
            let (next, action) = model.stepped(event, now, unit);
            &&& next.pwm.pan == 0 && next.pwm.tilt == 0
            &&& next.state == model.state
            &&& next.tracking_pending == model.tracking_pending
            &&& !(model.link is Open) ==> begins(model.queue[0], now, next, action)
            &&& model.link is Open ==> {
                let (begun, follows) = next.stepped(later_event, later, unit);
                &&& action is Stop
                &&& next.phase is Halting
                &&& begins(model.queue[0], later, begun, follows)
                &&& begun.state == model.state
            }
        }),
{
}

/// A velocity becomes the tracking command and is no longer pending; a look at the
/// position begins at once; a stop drops the tracking command, and tells an open
/// controller.
#[verifier::rlimit(60)]
pub proof fn tracking_requests_are_taken_up<F: Fn(Operation) -> Scalar>(
    model: ControllerModel,
    event: WorkerEvent,
    now: u128,
    unit: F,
)
    requires
        model.phase is Idle,
        model.queue.len() > 0,
    ensures
        ({
            let (next, action) = model.stepped(event, now, unit);
            match model.queue[0] {
                WorkerCommand::TrackVelocity { pan, tilt } => {
                    &&& !next.tracking_pending
                    &&& next.pwm.last_refresh == now
                    &&& next.pwm.pan == if pan > 0 {
                        1int
                    } else if pan < 0 {
                        -1
                    } else {
                        0
                    }
                    &&& next.pwm.tilt == if tilt > 0 {
                        1int
                    } else if tilt < 0 {
                        -1
                    } else {
                        0
                    }
                },
                WorkerCommand::ReadPosition => {
                    &&& action is ReadControls
                    &&& next.phase == (Phase::ReadingPosition { started: now })
                    &&& next.pwm == model.pwm
                    &&& next.tracking_pending == model.tracking_pending
                },
                WorkerCommand::StopTracking => {
                    &&& next.pwm.pan == 0 && next.pwm.tilt == 0
                    &&& model.link is Open ==> action is Stop && next.phase == (Phase::Stopping {
                        started: now,
                    }) && next.tracking_pending == model.tracking_pending
                    &&& !(model.link is Open) ==> action is Receive && next.phase is Idle
                        && !next.tracking_pending
                    &&& (model.link matches Link::Failed(text) ==> next.state.last_error == Some(
                        PtzError::Device(text),
                    ))
                    &&& model.link is Unopened ==> next.state.last_error is None
                },
                _ => true,
            }
        }),
{
}

/// Between requests the camera follows the pulses: a change of direction is driven
/// only after the position was read, and only as far as the margin of eight on each
/// axis allows; a change to standstill, or directions of which nothing is left, stop
/// an open controller.
pub proof fn pulses_are_driven_within_the_margin<F: Fn(Operation) -> Scalar>(
    model: ControllerModel,
    pan: i32,
    tilt: i32,
    started: u128,
    at: Controls,
    now: u128,
    unit: F,
)
    requires
        model.phase == (Phase::PulseReading { pan, tilt, started }),
    ensures
        ({
            let (next, action) = model.stepped(WorkerEvent::Read(at), now, unit);
            let margin = Scalar { bits: 0x4100_0000 };
            let panned = limited(unit, at.pan, model.capabilities.pan, margin, pan);
            let tilted = limited(unit, at.tilt, model.capabilities.tilt, margin, tilt);
            let stands = panned == 0 && tilted == 0;
            match model.link {
                Link::Open => if stands {
                    action is Stop && next.phase == (Phase::PulseStopping { started })
                } else {
                    &&& action == (WorkerAction::Drive { pan: panned, tilt: tilted })
                    &&& next.phase == (Phase::PulseDriving { started })
                },
                Link::Unopened => if stands {
                    action is Receive && next.phase is Idle && next.state.last_error is None
                } else {
                    &&& action is Open
                    &&& next.phase == (Phase::PulseOpening { pan: panned, tilt: tilted, started })
                },
                Link::Failed(text) => {
                    &&& action is Receive
                    &&& next.phase is Idle
                    &&& next.state.last_error == Some(PtzError::Device(text))
                },
            }
        }),
{
}

/// The outcome of a pulse is shown with its length. Where the position cannot be
/// read, an open controller is stopped, and the failed look stays the error whatever
/// comes of the stop.
#[verifier::rlimit(60)]
pub proof fn pulses_end_with_their_outcome<F: Fn(Operation) -> Scalar>(
    model: ControllerModel,
    event: WorkerEvent,
    now: u128,
    unit: F,
)
    requires
        model.phase.expects(event),
    ensures
        ({
            let (next, action) = model.stepped(event, now, unit);
            let over = next.phase is Idle && action is Receive && next.tracking_pending
                == model.tracking_pending && next.pwm == model.pwm;
            let outcome = match event {
                WorkerEvent::Failed(text) => Some(PtzError::Device(text)),
                _ => None,
            };
            match model.phase {
                Phase::PulseStopping { started } | Phase::PulseDriving { started } => {
                    &&& over
                    &&& next.state.last_error == outcome
                    &&& started <= now ==> next.state.last_operation == now - started
                },
                Phase::PulseHalting { error, started } => {
                    &&& over
                    &&& next.state.last_error == Some(PtzError::Device(error))
                    &&& started <= now ==> next.state.last_operation == now - started
                },
                Phase::PulseReading { started, .. } => match event {
                    WorkerEvent::Failed(text) => if model.link is Open {
                        &&& action is Stop
                        &&& next.phase == (Phase::PulseHalting { error: text, started })
                    } else {
                        over && next.state.last_error == outcome
                    },
                    _ => true,
                },
                _ => true,
            }
        }),
{
}

/// An idle worker with nothing to do drives what the pulses ask for, and waits while
/// they ask for nothing new.
pub proof fn idle_worker_follows_the_pulses<F: Fn(Operation) -> Scalar>(
    model: ControllerModel,
    event: WorkerEvent,
    now: u128,
    unit: F,
)
    requires
        model.phase is Idle,
        model.queue.len() == 0,
    ensures
        ({
            let (next, action) = model.stepped(event, now, unit);
            let due = model.pwm.desired(now);
            let driven = (model.pwm.output_pan, model.pwm.output_tilt);
            &&& next.pwm == model.pwm.advanced(now)
            &&& next.tracking_pending == model.tracking_pending
            &&& due == driven ==> action is Receive && next.phase is Idle && next.state
                == model.state
            &&& due != driven && due != (0i32, 0i32) ==> action is ReadControls && next.phase == (
            Phase::PulseReading { pan: due.0, tilt: due.1, started: now })
            &&& due != driven && due == (0i32, 0i32) && model.link is Open ==> action is Stop
                && next.phase == (Phase::PulseStopping { started: now })
            &&& due != driven && due == (0i32, 0i32) && !(model.link is Open) ==> action is Receive
                && next.phase is Idle
        }),
{
}

/// Before anything was sent, an axis is aimed at where it is, else at its default, and
/// at zero where it has no range.
pub proof fn targets_start_at_the_position(at: Scalar, range: ControlRange)
    ensures
        initial_target(Some(at), None) == at,
        initial_target(Some(at), Some(range)) == at,
        initial_target(None, Some(range)) == range.default,
        initial_target(None, None).bits == 0,
{
}

/// Centering brings pan and tilt to their own defaults, where they have ranges, and
/// leaves zoom alone.
pub proof fn centering_leaves_zoom_alone(capabilities: ControlCapabilities)
    ensures
        ({
            let targets = centered(capabilities);
            &&& targets.zoom is None
            &&& targets.pan is Some <==> capabilities.pan is Some
            &&& targets.tilt is Some <==> capabilities.tilt is Some
            &&& (capabilities.pan matches Some(range) ==> targets.pan == Some(range.default))
            &&& (capabilities.tilt matches Some(range) ==> targets.tilt == Some(range.default))
        }),
{
}

/// A correction is asked for exactly when it would move something: what is negligible
/// moves nothing, and every other number does.
pub proof fn negligible_corrections_move_nothing(delta: Scalar, by: int)
    ensures
        negligible(delta) <==> delta.absolute().less_equal(Scalar { bits: 0x3400_0000 }),
        !delta.nan() ==> (negligible(delta) <==> !moves(delta)),
        stands_for(delta, by) ==> (negligible(delta) <==> by == 0),
{
    if !delta.nan() {
        order_is_numeric(delta.absolute(), Scalar { bits: 0x3400_0000 });
        order_is_numeric(Scalar { bits: 0x3400_0000 }, delta.absolute());
    }
    if stands_for(delta, by) {
        lemma_moving(delta, by);
    }
}

/// A worker that runs takes a request in behind the others; one that has ended takes
/// none, and says so.
pub proof fn requests_queue_up(
    model: ControllerModel,
    command: WorkerCommand,
    after: ControllerModel,
    outcome: Result<(), String>,
)
    requires
        model.sent(command, after, outcome),
    ensures
        outcome is Ok <==> !(model.phase is Exited),
        outcome is Ok ==> after.queue == model.queue.push(command),
        outcome is Err ==> after.queue == model.queue,
        outcome matches Err(text) ==> text@ == "PTZ worker has stopped"@,
        after.state == model.state,
        after.pwm == model.pwm,
        after.link == model.link,
        after.phase == model.phase,
        after.tracking_pending == model.tracking_pending,
        after.capabilities == model.capabilities,
{
}

/// Aiming an axis asks for the step nearest to the value, moved into the range of that
/// axis; an axis without a range is left alone.
#[verifier::rlimit(60)]
pub proof fn aiming_stays_in_the_range<F: Fn(Operation) -> Scalar>(
    unit: F,
    model: ControllerModel,
    axis: Axis,
    target: Scalar,
    after: ControllerModel,
    outcome: Result<(), String>,
    range: ControlRange,
    value: int,
    whole: WholeRange,
)
    requires
        model.aimed_axis(axis, target, unit, after, outcome),
        !(model.phase is Exited),
        exact_on_whole_numbers(unit),
        whole.wf(),
        whole.of(range),
        stands_for(target, value),
    ensures
        outcome is Ok,
        model.capabilities.range(axis) is None ==> after == model,
        model.capabilities.range(axis) == Some(range) ==> {
            &&& after.queue.len() == model.queue.len() + 1
            &&& after.queue.last() matches WorkerCommand::Apply(targets)
            &&& targets.get(axis) matches Some(number)
            &&& stands_for(number, whole.snap(between(value, whole.min, whole.max)))
            &&& forall|other: Axis| other != axis ==> #[trigger] targets.get(other) is None
        },
{
    whole_numbers_are_clamped(target, range.min, range.max, value, whole.min, whole.max);
    whole_numbers_are_snapped(
        unit,
        target.clamped(range.min, range.max),
        range,
        between(value, whole.min, whole.max),
        whole,
    );
}

} // verus!
