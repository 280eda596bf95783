//! The worker that carries out requests to a camera.
//!
//! It is a state machine: it names the next operation on the device, and is
//! told how that operation went.

use crate::arithmetic::{plus, Operation};
use crate::camera::controls::{
    all_reached, limited, safe_target, snapped, Axis, ControlCapabilities, ControlRange, Controls,
    TRACKING_PAN_LIMIT_MARGIN, TRACKING_TILT_LIMIT_MARGIN,
};
use crate::camera::pwm::TrackingPwm;
use crate::clock::elapsed_spec;
use crate::scalar::{Scalar, EPSILON};
use vstd::prelude::*;
use vstd::string::*;

verus! {

/// Pause between two looks at a moving camera: 50 ms.
pub const MOVE_POLL_INTERVAL: u128 = 50_000_000;

/// Time after which a move that has not arrived is given up: 5 s.
pub const MOVE_TIMEOUT: u128 = 5_000_000_000;

/// What went wrong with an operation.
#[derive(Clone, Debug, PartialEq, Eq)]
pub enum PtzError {
    /// The device, or its relative controller, reported this text.
    Device(String),
    /// The camera has no range for this axis.
    Unsupported(Axis),
    /// The move did not arrive in time; the position read last.
    TimedOut(Controls),
}

impl PtzError {
    /// The error in words, except for a timeout, whose words show the position.
    pub fn message(&self) -> (r: Option<String>)
        ensures
            match *self {
                PtzError::Device(text) => r == Some(text),
                PtzError::Unsupported(axis) => r matches Some(text) && text@ == (match axis {
                    Axis::Pan => "Pan"@,
                    Axis::Tilt => "Tilt"@,
                    Axis::Zoom => "Zoom"@,
                }) + " is not supported by this camera."@,
                PtzError::TimedOut(_) => r is None,
            },
    {
        match self {
            PtzError::Device(text) => Some(text.clone()),
            PtzError::Unsupported(axis) => {
                let mut text = axis.label().to_owned();
                text.append(" is not supported by this camera.");
                Some(text)
            },
            PtzError::TimedOut(_) => None,
        }
    }
}

/// A request to the worker.
#[derive(Copy, Clone, Debug, PartialEq, Eq)]
pub enum WorkerCommand {
    Apply(Controls),
    Relative(Axis, Scalar),
    TrackVelocity { pan: i32, tilt: i32 },
    TrackAbsolute { pan_delta: Scalar, tilt_delta: Scalar },
    StopTracking,
    ReadPosition,
    Shutdown,
}

/// The correction is large enough to move for.
pub open spec fn moves(delta: Scalar) -> bool {
    (Scalar { bits: EPSILON }).less(delta.absolute())
}

/// The axes that a correction moves can be clamped.
pub open spec fn correctable(
    capabilities: ControlCapabilities,
    pan_delta: Scalar,
    tilt_delta: Scalar,
) -> bool {
    &&& moves(pan_delta) ==> capabilities.clamps(Axis::Pan)
    &&& moves(tilt_delta) ==> capabilities.clamps(Axis::Tilt)
}

impl WorkerCommand {
    /// The axes that the request moves can be clamped.
    pub open spec fn admissible(self, capabilities: ControlCapabilities) -> bool {
        match self {
            WorkerCommand::Relative(axis, _) => capabilities.clamps(axis),
            WorkerCommand::TrackAbsolute { pan_delta, tilt_delta } => correctable(
                capabilities,
                pan_delta,
                tilt_delta,
            ),
            _ => true,
        }
    }
}

/// What is known of the camera, and how the last operation went.
#[derive(Clone, Debug, PartialEq, Eq)]
pub struct WorkerState {
    pub actual: Controls,
    pub target_pan: Scalar,
    pub target_tilt: Scalar,
    pub target_zoom: Scalar,
    pub last_error: Option<PtzError>,
    /// Length of the last operation in nanoseconds.
    pub last_operation: u128,
}

/// The controller for relative moves: it is opened for the first one, and a
/// failure to open it is final.
#[derive(Clone, Debug, PartialEq, Eq)]
pub enum Link {
    Unopened,
    Open,
    Failed(String),
}

/// A request that waits for the camera to be stopped.
#[derive(Copy, Clone, Debug, PartialEq, Eq)]
pub enum Job {
    Apply(Controls),
    Relative(Axis, Scalar),
    TrackAbsolute { pan_delta: Scalar, tilt_delta: Scalar },
    Shutdown,
}

impl Job {
    pub open spec fn admissible(self, capabilities: ControlCapabilities) -> bool {
        match self {
            Job::Relative(axis, _) => capabilities.clamps(axis),
            Job::TrackAbsolute { pan_delta, tilt_delta } => correctable(
                capabilities,
                pan_delta,
                tilt_delta,
            ),
            _ => true,
        }
    }
}

/// The operation whose outcome the worker waits for.
#[derive(Clone, Debug, PartialEq, Eq)]
pub enum Phase {
    /// Waits for a request or a tick.
    Idle,
    /// Stops the camera before a job; whether that worked does not matter.
    Halting(Job),
    /// Stops the camera because tracking ends.
    Stopping { started: u128 },
    ReadingPosition { started: u128 },
    ReadingRelative { axis: Axis, amount: Scalar, started: u128 },
    ReadingAbsolute { pan_delta: Scalar, tilt_delta: Scalar, started: u128 },
    /// Sends an absolute move.
    Applying { targets: Controls, started: u128, tracking: bool },
    /// Reads the position of a moving camera.
    Waiting { targets: Controls, started: u128, wait_started: u128, tracking: bool },
    /// Pauses before the next look at a moving camera.
    Resting { targets: Controls, started: u128, wait_started: u128, tracking: bool },
    /// Stops the camera between pulses.
    PulseStopping { started: u128 },
    /// Reads the position before a pulse.
    PulseReading { pan: i32, tilt: i32, started: u128 },
    /// Opens the relative controller for a pulse.
    PulseOpening { pan: i32, tilt: i32, started: u128 },
    /// Sends the directions of a pulse.
    PulseDriving { started: u128 },
    /// Stops the camera because the position could not be read.
    PulseHalting { error: String, started: u128 },
    Exited,
}

/// An operation on the device.
#[derive(Copy, Clone, Debug, PartialEq, Eq)]
pub enum WorkerAction {
    /// Wait until a request is queued, for a tick at most.
    Receive,
    /// Stop the relative controller.
    Stop,
    /// Open the relative controller.
    Open,
    /// Send directions to the relative controller.
    Drive { pan: i32, tilt: i32 },
    ReadControls,
    ApplyControls(Controls),
    /// Sleep for the poll interval.
    Pause,
    /// End the worker.
    Exit,
}

/// How an operation ended.
#[derive(Clone, Debug, PartialEq, Eq)]
pub enum WorkerEvent {
    /// The wait or the sleep is over.
    Woken,
    Succeeded,
    Failed(String),
    /// The position was read.
    Read(Controls),
}

impl Phase {
    /// The events that can end the operation of this phase.
    pub open spec fn expects(self, event: WorkerEvent) -> bool {
        match self {
            Phase::Idle | Phase::Resting { .. } => event is Woken,
            Phase::ReadingPosition { .. }
            | Phase::ReadingRelative { .. }
            | Phase::ReadingAbsolute { .. }
            | Phase::Waiting { .. }
            | Phase::PulseReading { .. } => event is Read || event is Failed,
            Phase::Exited => false,
            _ => event is Succeeded || event is Failed,
        }
    }

    pub open spec fn admissible(self, capabilities: ControlCapabilities) -> bool {
        match self {
            Phase::Halting(job) => job.admissible(capabilities),
            Phase::ReadingRelative { axis, .. } => capabilities.clamps(axis),
            Phase::ReadingAbsolute { pan_delta, tilt_delta, .. } => correctable(
                capabilities,
                pan_delta,
                tilt_delta,
            ),
            _ => true,
        }
    }
}

/// The controller as its contracts see it.
pub struct ControllerModel {
    pub capabilities: ControlCapabilities,
    /// Requests in the order in which they were made.
    pub queue: Seq<WorkerCommand>,
    pub state: WorkerState,
    pub tracking_pending: bool,
    pub pwm: TrackingPwm,
    pub link: Link,
    pub phase: Phase,
}

pub open spec fn error_of(event: WorkerEvent) -> Option<PtzError> {
    match event {
        WorkerEvent::Failed(text) => Some(PtzError::Device(text)),
        _ => None,
    }
}

/// The target of a relative move.
pub open spec fn relative_target<F: Fn(Operation) -> Scalar>(
    unit: F,
    current: Option<Scalar>,
    amount: Scalar,
    range: ControlRange,
) -> Scalar {
    let from = match current {
        Some(at) => at,
        None => range.default,
    };
    snapped(unit, plus(unit, from, amount).clamped(range.min, range.max), range)
}

/// The target of a tracking correction on one axis: none where there is
/// nothing to correct.
pub open spec fn correction_target<F: Fn(Operation) -> Scalar>(
    unit: F,
    current: Option<Scalar>,
    delta: Scalar,
    range: ControlRange,
    margin: Scalar,
) -> Option<Scalar> {
    if moves(delta) {
        let from = match current {
            Some(at) => at,
            None => range.default,
        };
        Some(safe_target(unit, plus(unit, from, delta), range, margin))
    } else {
        None
    }
}

/// The move that a tracking correction asks for, or the first axis that the
/// camera lacks.
pub open spec fn correction<F: Fn(Operation) -> Scalar>(
    unit: F,
    capabilities: ControlCapabilities,
    current: Controls,
    pan_delta: Scalar,
    tilt_delta: Scalar,
) -> Result<Controls, PtzError> {
    if moves(pan_delta) && capabilities.pan is None {
        Err(PtzError::Unsupported(Axis::Pan))
    } else if moves(tilt_delta) && capabilities.tilt is None {
        Err(PtzError::Unsupported(Axis::Tilt))
    } else {
        Ok(
            Controls {
                pan: if moves(pan_delta) {
                    correction_target(
                        unit,
                        current.pan,
                        pan_delta,
                        capabilities.pan->0,
                        Scalar { bits: TRACKING_PAN_LIMIT_MARGIN },
                    )
                } else {
                    None
                },
                tilt: if moves(tilt_delta) {
                    correction_target(
                        unit,
                        current.tilt,
                        tilt_delta,
                        capabilities.tilt->0,
                        Scalar { bits: TRACKING_TILT_LIMIT_MARGIN },
                    )
                } else {
                    None
                },
                zoom: None,
            },
        )
    }
}

impl ControllerModel {
    /// The worker still takes requests.
    pub open spec fn running(self) -> bool {
        !(self.phase is Exited)
    }

    /// Everything that waits in the queue can be carried out.
    pub open spec fn queue_wf(self) -> bool {
        &&& self.pwm.wf()
        &&& forall|i: int|
            0 <= i < self.queue.len() ==> (#[trigger] self.queue[i]).admissible(self.capabilities)
    }

    /// Everything that waits in the queue or is under way can be carried out.
    pub open spec fn wf(self) -> bool {
        self.queue_wf() && self.phase.admissible(self.capabilities)
    }

    /// A request at the end of the queue.
    pub open spec fn with_command(self, command: WorkerCommand) -> ControllerModel {
        ControllerModel { queue: self.queue.push(command), ..self }
    }

    /// The outcome of an operation that began at `started` is noted.
    pub open spec fn noted(
        self,
        started: u128,
        now: u128,
        error: Option<PtzError>,
    ) -> ControllerModel {
        ControllerModel {
            state: WorkerState {
                last_operation: elapsed_spec(now, started) as u128,
                last_error: error,
                ..self.state
            },
            ..self
        }
    }

    /// The position read back is noted.
    pub open spec fn at(self, controls: Controls) -> ControllerModel {
        ControllerModel { state: WorkerState { actual: controls, ..self.state }, ..self }
    }

    /// The targets of a move that the camera took are noted.
    pub open spec fn aimed(self, targets: Controls) -> ControllerModel {
        ControllerModel {
            state: WorkerState {
                target_pan: match targets.pan {
                    Some(target) => target,
                    None => self.state.target_pan,
                },
                target_tilt: match targets.tilt {
                    Some(target) => target,
                    None => self.state.target_tilt,
                },
                target_zoom: match targets.zoom {
                    Some(target) => target,
                    None => self.state.target_zoom,
                },
                ..self.state
            },
            ..self
        }
    }

    pub open spec fn in_phase(self, phase: Phase) -> ControllerModel {
        ControllerModel { phase, ..self }
    }

    /// The end of a pulse: its outcome is noted and the worker waits.
    pub open spec fn pulse_over(
        self,
        started: u128,
        now: u128,
        error: Option<PtzError>,
    ) -> (ControllerModel, WorkerAction) {
        (self.noted(started, now, error).in_phase(Phase::Idle), WorkerAction::Receive)
    }

    /// Stopping the camera as a pulse: only an open relative controller is
    /// told, and one that failed to open keeps failing.
    pub open spec fn pulse_stop(
        self,
        started: u128,
        now: u128,
    ) -> (ControllerModel, WorkerAction) {
        match self.link {
            Link::Open => (self.in_phase(Phase::PulseStopping { started }), WorkerAction::Stop),
            Link::Failed(text) => self.pulse_over(started, now, Some(PtzError::Device(text))),
            Link::Unopened => self.pulse_over(started, now, None),
        }
    }

    /// Driving directions as a pulse.
    pub open spec fn pulse_drive(
        self,
        pan: i32,
        tilt: i32,
        started: u128,
        now: u128,
    ) -> (ControllerModel, WorkerAction) {
        if pan == 0 && tilt == 0 {
            self.pulse_stop(started, now)
        } else {
            match self.link {
                Link::Open => (
                    self.in_phase(Phase::PulseDriving { started }),
                    WorkerAction::Drive { pan, tilt },
                ),
                Link::Failed(text) => self.pulse_over(started, now, Some(PtzError::Device(text))),
                Link::Unopened => (
                    self.in_phase(Phase::PulseOpening { pan, tilt, started }),
                    WorkerAction::Open,
                ),
            }
        }
    }

    /// Between two requests the pulsed output is looked at: a change to
    /// standstill stops the camera, another change first reads where it is.
    pub open spec fn settled(self, now: u128) -> (ControllerModel, WorkerAction) {
        let next = ControllerModel { pwm: self.pwm.advanced(now), ..self };
        match self.pwm.change(now) {
            None => (next.in_phase(Phase::Idle), WorkerAction::Receive),
            Some((pan, tilt)) => if pan == 0 && tilt == 0 {
                next.pulse_stop(now, now)
            } else {
                (
                    next.in_phase(Phase::PulseReading { pan, tilt, started: now }),
                    WorkerAction::ReadControls,
                )
            },
        }
    }

    /// The end of a request: its outcome is noted, a tracking request is no
    /// longer pending, and the output is looked at.
    pub open spec fn finished(
        self,
        started: u128,
        now: u128,
        error: Option<PtzError>,
        tracking: bool,
    ) -> (ControllerModel, WorkerAction) {
        let next = self.noted(started, now, error);
        let next = ControllerModel {
            tracking_pending: if tracking {
                false
            } else {
                next.tracking_pending
            },
            ..next
        };
        next.settled(now)
    }

    /// A job begins on a camera that stands still.
    pub open spec fn begun(self, job: Job, now: u128) -> (ControllerModel, WorkerAction) {
        match job {
            Job::Apply(targets) => (
                self.in_phase(Phase::Applying { targets, started: now, tracking: false }),
                WorkerAction::ApplyControls(targets),
            ),
            Job::Relative(axis, amount) => (
                self.in_phase(Phase::ReadingRelative { axis, amount, started: now }),
                WorkerAction::ReadControls,
            ),
            Job::TrackAbsolute { pan_delta, tilt_delta } => (
                self.in_phase(Phase::ReadingAbsolute { pan_delta, tilt_delta, started: now }),
                WorkerAction::ReadControls,
            ),
            Job::Shutdown => (
                ControllerModel { queue: Seq::empty(), phase: Phase::Exited, ..self },
                WorkerAction::Exit,
            ),
        }
    }

    /// A job first drops the tracking command and stops the camera.
    pub open spec fn halted(self, job: Job, now: u128) -> (ControllerModel, WorkerAction) {
        let next = ControllerModel { pwm: self.pwm.cleared(now), ..self };
        if next.link is Open {
            (next.in_phase(Phase::Halting(job)), WorkerAction::Stop)
        } else {
            next.begun(job, now)
        }
    }

    /// The oldest request is taken up.
    pub open spec fn dispatched(self, now: u128) -> (ControllerModel, WorkerAction) {
        let next = ControllerModel { queue: self.queue.drop_first(), ..self };
        match self.queue.first() {
            WorkerCommand::Apply(targets) => next.halted(Job::Apply(targets), now),
            WorkerCommand::Relative(axis, amount) => next.halted(Job::Relative(axis, amount), now),
            WorkerCommand::TrackVelocity { pan, tilt } => (ControllerModel {
                pwm: next.pwm.commanded(pan, tilt, now),
                tracking_pending: false,
                ..next
            }).settled(now),
            WorkerCommand::TrackAbsolute { pan_delta, tilt_delta } => next.halted(
                Job::TrackAbsolute { pan_delta, tilt_delta },
                now,
            ),
            WorkerCommand::StopTracking => {
                let next = ControllerModel { pwm: next.pwm.cleared(now), ..next };
                match next.link {
                    Link::Open => (
                        next.in_phase(Phase::Stopping { started: now }),
                        WorkerAction::Stop,
                    ),
                    Link::Failed(text) => next.finished(
                        now,
                        now,
                        Some(PtzError::Device(text)),
                        true,
                    ),
                    Link::Unopened => next.finished(now, now, None, true),
                }
            },
            WorkerCommand::ReadPosition => (
                next.in_phase(Phase::ReadingPosition { started: now }),
                WorkerAction::ReadControls,
            ),
            WorkerCommand::Shutdown => next.halted(Job::Shutdown, now),
        }
    }

    /// A move is sent.
    pub open spec fn applying(
        self,
        targets: Controls,
        started: u128,
        tracking: bool,
    ) -> (ControllerModel, WorkerAction) {
        (
            self.in_phase(Phase::Applying { targets, started, tracking }),
            WorkerAction::ApplyControls(targets),
        )
    }

    /// What the worker does next, once the operation it waits for has ended.
    pub open spec fn stepped<F: Fn(Operation) -> Scalar>(
        self,
        event: WorkerEvent,
        now: u128,
        unit: F,
    ) -> (ControllerModel, WorkerAction) {
        match self.phase {
            Phase::Idle => if self.queue.len() == 0 {
                self.settled(now)
            } else {
                self.dispatched(now)
            },
            Phase::Halting(job) => self.begun(job, now),
            Phase::Stopping { started } => self.finished(started, now, error_of(event), true),
            Phase::ReadingPosition { started } => match event {
                WorkerEvent::Read(controls) => self.at(controls).finished(
                    started,
                    now,
                    None,
                    false,
                ),
                _ => self.finished(started, now, error_of(event), false),
            },
            Phase::ReadingRelative { axis, amount, started } => match event {
                WorkerEvent::Read(controls) => match self.capabilities.range(axis) {
                    None => self.at(controls).finished(
                        started,
                        now,
                        Some(PtzError::Unsupported(axis)),
                        false,
                    ),
                    Some(range) => self.at(controls).applying(
                        Controls::single(
                            axis,
                            relative_target(unit, controls.get(axis), amount, range),
                        ),
                        started,
                        false,
                    ),
                },
                _ => self.finished(started, now, error_of(event), false),
            },
            Phase::ReadingAbsolute { pan_delta, tilt_delta, started } => match event {
                WorkerEvent::Read(controls) => match correction(
                    unit,
                    self.capabilities,
                    controls,
                    pan_delta,
                    tilt_delta,
                ) {
                    Err(error) => self.at(controls).finished(started, now, Some(error), true),
                    Ok(targets) => if targets.pan is None && targets.tilt is None {
                        self.at(controls).finished(started, now, None, true)
                    } else {
                        self.at(controls).applying(targets, started, true)
                    },
                },
                _ => self.finished(started, now, error_of(event), true),
            },
            Phase::Applying { targets, started, tracking } => match event {
                WorkerEvent::Succeeded => (
                    self.aimed(targets).in_phase(
                        Phase::Waiting { targets, started, wait_started: now, tracking },
                    ),
                    WorkerAction::ReadControls,
                ),
                _ => self.finished(started, now, error_of(event), tracking),
            },
            Phase::Waiting { targets, started, wait_started, tracking } => match event {
                WorkerEvent::Read(controls) => if all_reached(
                    unit,
                    targets,
                    controls,
                    self.capabilities,
                ) {
                    self.at(controls).finished(started, now, None, tracking)
                } else if elapsed_spec(now, wait_started) >= MOVE_TIMEOUT {
                    self.at(controls).finished(
                        started,
                        now,
                        Some(PtzError::TimedOut(controls)),
                        tracking,
                    )
                } else {
                    (
                        self.at(controls).in_phase(
                            Phase::Resting { targets, started, wait_started, tracking },
                        ),
                        WorkerAction::Pause,
                    )
                },
                _ => self.finished(started, now, error_of(event), tracking),
            },
            Phase::Resting { targets, started, wait_started, tracking } => (
                self.in_phase(Phase::Waiting { targets, started, wait_started, tracking }),
                WorkerAction::ReadControls,
            ),
            Phase::PulseStopping { started } => self.pulse_over(started, now, error_of(event)),
            Phase::PulseReading { pan, tilt, started } => match event {
                WorkerEvent::Read(controls) => self.pulse_drive(
                    limited(
                        unit,
                        controls.pan,
                        self.capabilities.pan,
                        Scalar { bits: TRACKING_PAN_LIMIT_MARGIN },
                        pan,
                    ),
                    limited(
                        unit,
                        controls.tilt,
                        self.capabilities.tilt,
                        Scalar { bits: TRACKING_TILT_LIMIT_MARGIN },
                        tilt,
                    ),
                    started,
                    now,
                ),
                WorkerEvent::Failed(text) => if self.link is Open {
                    (
                        self.in_phase(Phase::PulseHalting { error: text, started }),
                        WorkerAction::Stop,
                    )
                } else {
                    self.pulse_over(started, now, Some(PtzError::Device(text)))
                },
                _ => (self, WorkerAction::Receive),
            },
            Phase::PulseOpening { pan, tilt, started } => match event {
                WorkerEvent::Failed(text) => (ControllerModel {
                    link: Link::Failed(text),
                    ..self
                }).pulse_over(started, now, Some(PtzError::Device(text))),
                _ => (
                    (ControllerModel { link: Link::Open, ..self }).in_phase(
                        Phase::PulseDriving { started },
                    ),
                    WorkerAction::Drive { pan, tilt },
                ),
            },
            Phase::PulseDriving { started } => self.pulse_over(started, now, error_of(event)),
            Phase::PulseHalting { error, started } => self.pulse_over(
                started,
                now,
                Some(PtzError::Device(error)),
            ),
            Phase::Exited => (self, WorkerAction::Exit),
        }
    }
}

proof fn settling_keeps_wf(model: ControllerModel, now: u128)
    requires
        model.queue_wf(),
    ensures
        model.settled(now).0.wf(),
        model.settled(now).0.capabilities == model.capabilities,
{
}

proof fn finishing_keeps_wf(
    model: ControllerModel,
    started: u128,
    now: u128,
    error: Option<PtzError>,
    tracking: bool,
)
    requires
        model.queue_wf(),
    ensures
        model.finished(started, now, error, tracking).0.wf(),
        model.finished(started, now, error, tracking).0.capabilities == model.capabilities,
{
    let next = model.noted(started, now, error);
    let next = ControllerModel {
        tracking_pending: if tracking {
            false
        } else {
            next.tracking_pending
        },
        ..next
    };
    settling_keeps_wf(next, now);
}

proof fn dispatching_keeps_wf(model: ControllerModel, now: u128)
    requires
        model.queue_wf(),
        model.queue.len() > 0,
    ensures
        model.dispatched(now).0.wf(),
        model.dispatched(now).0.capabilities == model.capabilities,
{
    let next = ControllerModel { queue: model.queue.drop_first(), ..model };
    assert(model.queue[0].admissible(model.capabilities));
    assert forall|i: int| 0 <= i < next.queue.len() implies (
    #[trigger] next.queue[i]).admissible(model.capabilities) by {
        assert(next.queue[i] == model.queue[i + 1]);
    }
    match model.queue.first() {
        WorkerCommand::TrackVelocity { pan, tilt } => {
            settling_keeps_wf(
                ControllerModel {
                    pwm: next.pwm.commanded(pan, tilt, now),
                    tracking_pending: false,
                    ..next
                },
                now,
            );
        },
        WorkerCommand::StopTracking => {
            let cleared = ControllerModel { pwm: next.pwm.cleared(now), ..next };
            finishing_keeps_wf(cleared, now, now, None, true);
            if let Link::Failed(text) = cleared.link {
                finishing_keeps_wf(cleared, now, now, Some(PtzError::Device(text)), true);
            }
        },
        _ => {},
    }
}

/// Every step of the worker keeps what waits or is under way possible.
pub proof fn step_keeps_wf<F: Fn(Operation) -> Scalar>(
    model: ControllerModel,
    event: WorkerEvent,
    now: u128,
    unit: F,
)
    requires
        model.wf(),
        model.phase.expects(event),
    ensures
        model.stepped(event, now, unit).0.wf(),
        model.stepped(event, now, unit).0.capabilities == model.capabilities,
{
    match model.phase {
        Phase::Idle => {
            if model.queue.len() == 0 {
                settling_keeps_wf(model, now);
            } else {
                dispatching_keeps_wf(model, now);
            }
        },
        Phase::Stopping { started } => {
            finishing_keeps_wf(model, started, now, error_of(event), true);
        },
        Phase::ReadingPosition { started } => {
            finishing_keeps_wf(model, started, now, error_of(event), false);
            if let WorkerEvent::Read(controls) = event {
                finishing_keeps_wf(model.at(controls), started, now, None, false);
            }
        },
        Phase::ReadingRelative { axis, started, .. } => {
            finishing_keeps_wf(model, started, now, error_of(event), false);
            if let WorkerEvent::Read(controls) = event {
                finishing_keeps_wf(
                    model.at(controls),
                    started,
                    now,
                    Some(PtzError::Unsupported(axis)),
                    false,
                );
            }
        },
        Phase::ReadingAbsolute { pan_delta, tilt_delta, started } => {
            finishing_keeps_wf(model, started, now, error_of(event), true);
            if let WorkerEvent::Read(controls) = event {
                finishing_keeps_wf(model.at(controls), started, now, None, true);
                if let Err(error) = correction(
                    unit,
                    model.capabilities,
                    controls,
                    pan_delta,
                    tilt_delta,
                ) {
                    finishing_keeps_wf(model.at(controls), started, now, Some(error), true);
                }
            }
        },
        Phase::Applying { started, tracking, .. } => {
            finishing_keeps_wf(model, started, now, error_of(event), tracking);
        },
        Phase::Waiting { started, tracking, .. } => {
            finishing_keeps_wf(model, started, now, error_of(event), tracking);
            if let WorkerEvent::Read(controls) = event {
                finishing_keeps_wf(model.at(controls), started, now, None, tracking);
                finishing_keeps_wf(
                    model.at(controls),
                    started,
                    now,
                    Some(PtzError::TimedOut(controls)),
                    tracking,
                );
            }
        },
        _ => {},
    }
}

/// A move that the worker works out itself never leaves the range of an axis:
/// the targets it sends for a relative move or a tracking correction lie in the
/// range that the camera reports, or are NaN.
pub proof fn moves_stay_in_range<F: Fn(Operation) -> Scalar>(
    model: ControllerModel,
    event: WorkerEvent,
    now: u128,
    unit: F,
    targets: Controls,
    axis: Axis,
)
    requires
        model.wf(),
        model.phase.expects(event),
        model.phase is ReadingRelative || model.phase is ReadingAbsolute,
        model.stepped(event, now, unit).1 == WorkerAction::ApplyControls(targets),
    ensures
        targets.get(axis) matches Some(target) ==> target.nan() || (model.capabilities.range(axis)
            matches Some(range) && range.contains(target)),
{
    finishing_never_moves(now);
}

/// Ending a request never sends a move.
proof fn finishing_never_moves(now: u128)
    ensures
        forall|any: ControllerModel, started: u128, error: Option<PtzError>, tracking: bool|
            !((#[trigger] any.finished(started, now, error, tracking)).1 is ApplyControls),
{
}

/// While the relative controller is open, every absolute move, every
/// correction and the end of the worker begin with stopping the camera, and
/// the tracking command is dropped.
pub proof fn jobs_stop_the_camera_first(model: ControllerModel, now: u128)
    requires
        model.phase is Idle,
        model.queue.len() > 0,
        model.link is Open,
        model.queue[0] is Apply || model.queue[0] is Relative || model.queue[0] is TrackAbsolute
            || model.queue[0] is Shutdown,
    ensures
        model.dispatched(now).1 is Stop,
        model.dispatched(now).0.phase is Halting,
        model.dispatched(now).0.pwm.pan == 0,
        model.dispatched(now).0.pwm.tilt == 0,
{
}

/// Directions are driven only right after the position was read and limited,
/// or once the controller that such directions wait for is open.
pub proof fn driving_follows_the_limits<F: Fn(Operation) -> Scalar>(
    model: ControllerModel,
    event: WorkerEvent,
    now: u128,
    unit: F,
    pan: i32,
    tilt: i32,
)
    requires
        model.phase.expects(event),
        model.stepped(event, now, unit).1 == (WorkerAction::Drive { pan, tilt }),
    ensures
        match model.phase {
            Phase::PulseReading { pan: asked_pan, tilt: asked_tilt, .. } => {
                &&& event matches WorkerEvent::Read(controls)
                &&& pan == limited(
                    unit,
                    controls.pan,
                    model.capabilities.pan,
                    Scalar { bits: TRACKING_PAN_LIMIT_MARGIN },
                    asked_pan,
                )
                &&& tilt == limited(
                    unit,
                    controls.tilt,
                    model.capabilities.tilt,
                    Scalar { bits: TRACKING_TILT_LIMIT_MARGIN },
                    asked_tilt,
                )
                &&& pan != 0 || tilt != 0
            },
            Phase::PulseOpening { pan: asked_pan, tilt: asked_tilt, .. } => {
                pan == asked_pan && tilt == asked_tilt
            },
            _ => false,
        },
{
    finishing_never_drives(now);
}

/// Neither ending a request nor taking one up drives the camera.
proof fn finishing_never_drives(now: u128)
    ensures
        forall|any: ControllerModel, started: u128, error: Option<PtzError>, tracking: bool|
            !((#[trigger] any.finished(started, now, error, tracking)).1 is Drive),
        forall|any: ControllerModel| !((#[trigger] any.settled(now)).1 is Drive),
        forall|any: ControllerModel| !((#[trigger] any.dispatched(now)).1 is Drive),
{
}

/// A move is given up in time: the worker never pauses once the timeout has
/// passed since it began to wait.
pub proof fn waiting_ends_in_time<F: Fn(Operation) -> Scalar>(
    model: ControllerModel,
    event: WorkerEvent,
    now: u128,
    unit: F,
)
    requires
        model.phase.expects(event),
        model.phase matches Phase::Waiting { wait_started, .. } && elapsed_spec(now, wait_started)
            >= MOVE_TIMEOUT,
    ensures
        !(model.stepped(event, now, unit).0.phase is Resting),
        !(model.stepped(event, now, unit).0.phase is Waiting),
{
}

/// A tracking request is no longer pending once its outcome is noted: a
/// velocity at once, a stop and a correction when they end.
pub proof fn tracking_request_ends(
    model: ControllerModel,
    started: u128,
    now: u128,
    error: Option<PtzError>,
)
    ensures
        !model.finished(started, now, error, true).0.tracking_pending,
        model.queue.len() > 0 && model.queue[0] is TrackVelocity ==> !model.dispatched(
            now,
        ).0.tracking_pending,
{
}

/// Requests are worked off in the order in which they were made: only an idle
/// worker takes one, it takes the oldest, and nothing but the end of the worker
/// discards one.
pub proof fn requests_keep_their_order<F: Fn(Operation) -> Scalar>(
    model: ControllerModel,
    event: WorkerEvent,
    now: u128,
    unit: F,
)
    requires
        model.phase.expects(event),
        !(model.stepped(event, now, unit).1 is Exit),
    ensures
        model.phase is Idle && model.queue.len() > 0 ==> model.stepped(event, now, unit).0.queue
            == model.queue.drop_first(),
        !(model.phase is Idle) || model.queue.len() == 0 ==> model.stepped(event, now, unit).0.queue
            == model.queue,
{
}

} // verus!
