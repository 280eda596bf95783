//! Manual and tracking control of a camera's pan, tilt and zoom.

use crate::arithmetic::{computes, milliseconds, milliseconds_of, sum, Operation};
use crate::camera::controls::{
    limit_tracking_output, range_for_axis, snap_to_step, snapped, targets_reached,
    tracking_safe_target, Axis, ControlCapabilities, ControlRange, Controls,
    TRACKING_PAN_LIMIT_MARGIN, TRACKING_TILT_LIMIT_MARGIN,
};
use crate::camera::pwm::TrackingPwm;
use crate::camera::worker::{
    correctable, correction, error_of, moves, relative_target, step_keeps_wf, ControllerModel, Job,
    Link, Phase, PtzError, WorkerAction, WorkerCommand, WorkerEvent, WorkerState, MOVE_TIMEOUT,
};
use crate::clock::elapsed;
use crate::scalar::{Scalar, EPSILON, ZERO};
use vstd::prelude::*;

verus! {

fn is_move(delta: Scalar) -> (r: bool)
    ensures
        r == moves(delta),
{
    Scalar::from_bits(EPSILON).below(delta.abs())
}

/// The queue of requests, what is known of the camera, and the worker.
pub struct ManualController {
    capabilities: ControlCapabilities,
    queue: Vec<WorkerCommand>,
    state: WorkerState,
    tracking_pending: bool,
    pwm: TrackingPwm,
    link: Link,
    phase: Phase,
}

impl View for ManualController {
    type V = ControllerModel;

    closed spec fn view(&self) -> ControllerModel {
        ControllerModel {
            capabilities: self.capabilities,
            queue: self.queue@,
            state: self.state,
            tracking_pending: self.tracking_pending,
            pwm: self.pwm,
            link: self.link,
            phase: self.phase,
        }
    }
}

/// The value to start from: the position, else the default of the range, else 0.
pub open spec fn initial_target(position: Option<Scalar>, range: Option<ControlRange>) -> Scalar {
    match position {
        Some(at) => at,
        None => match range {
            Some(range) => range.default,
            None => Scalar { bits: ZERO },
        },
    }
}

fn starting_target(position: Option<Scalar>, range: Option<ControlRange>) -> (r: Scalar)
    ensures
        r == initial_target(position, range),
{
    match position {
        Some(at) => at,
        None => match range {
            Some(range) => range.default,
            None => Scalar::from_bits(ZERO),
        },
    }
}

fn event_error(event: WorkerEvent) -> (r: Option<PtzError>)
    ensures
        r == error_of(event),
{
    match event {
        WorkerEvent::Failed(text) => Some(PtzError::Device(text)),
        _ => None,
    }
}

fn move_by<F: Fn(Operation) -> Scalar>(
    current: Option<Scalar>,
    amount: Scalar,
    range: ControlRange,
    unit: &F,
) -> (r: Scalar)
    requires
        computes(*unit),
        range.ordered(),
    ensures
        r == relative_target(*unit, current, amount, range),
{
    let from = match current {
        Some(at) => at,
        None => range.default,
    };
    snap_to_step(sum(unit, from, amount).clamp(range.min, range.max), range, unit)
}

fn correct<F: Fn(Operation) -> Scalar>(
    capabilities: &ControlCapabilities,
    current: &Controls,
    pan_delta: Scalar,
    tilt_delta: Scalar,
    unit: &F,
) -> (r: Result<Controls, PtzError>)
    requires
        computes(*unit),
        correctable(*capabilities, pan_delta, tilt_delta),
    ensures
        r == correction(*unit, *capabilities, *current, pan_delta, tilt_delta),
{
    let pan = if is_move(pan_delta) {
        match capabilities.pan {
            None => {
                return Err(PtzError::Unsupported(Axis::Pan));
            },
            Some(range) => {
                assert(capabilities.range(Axis::Pan) == Some(range));
                let from = match current.pan {
                    Some(at) => at,
                    None => range.default,
                };
                Some(
                    tracking_safe_target(
                        sum(unit, from, pan_delta),
                        range,
                        Scalar::from_bits(TRACKING_PAN_LIMIT_MARGIN),
                        unit,
                    ),
                )
            },
        }
    } else {
        None
    };
    let tilt = if is_move(tilt_delta) {
        match capabilities.tilt {
            None => {
                return Err(PtzError::Unsupported(Axis::Tilt));
            },
            Some(range) => {
                assert(capabilities.range(Axis::Tilt) == Some(range));
                let from = match current.tilt {
                    Some(at) => at,
                    None => range.default,
                };
                Some(
                    tracking_safe_target(
                        sum(unit, from, tilt_delta),
                        range,
                        Scalar::from_bits(TRACKING_TILT_LIMIT_MARGIN),
                        unit,
                    ),
                )
            },
        }
    } else {
        None
    };
    Ok(Controls { pan, tilt, zoom: None })
}

impl ManualController {
    /// A controller for a camera with these capabilities at this position. The
    /// worker begins with `WorkerAction::Receive`.
    pub fn new(capabilities: ControlCapabilities, controls: Controls, now: u128) -> (r:
        ManualController)
        ensures
            r@.wf(),
            r@.capabilities == capabilities,
            r@.queue == Seq::<WorkerCommand>::empty(),
            r@.state == (WorkerState {
                actual: controls,
                target_pan: initial_target(controls.pan, capabilities.pan),
                target_tilt: initial_target(controls.tilt, capabilities.tilt),
                target_zoom: initial_target(controls.zoom, capabilities.zoom),
                last_error: None,
                last_operation: 0,
            }),
            !r@.tracking_pending,
            r@.pwm == (TrackingPwm {
                pan: 0,
                tilt: 0,
                cycle_started: now,
                last_refresh: now,
                output_pan: 0,
                output_tilt: 0,
            }),
            r@.link is Unopened,
            r@.phase is Idle,
    {
        ManualController {
            capabilities,
            queue: Vec::new(),
            state: WorkerState {
                actual: controls,
                target_pan: starting_target(controls.pan, capabilities.pan),
                target_tilt: starting_target(controls.tilt, capabilities.tilt),
                target_zoom: starting_target(controls.zoom, capabilities.zoom),
                last_error: None,
                last_operation: 0,
            },
            tracking_pending: false,
            pwm: TrackingPwm::new(now),
            link: Link::Unopened,
            phase: Phase::Idle,
        }
    }

    fn note(&mut self, started: u128, now: u128, error: Option<PtzError>)
        ensures
            final(self)@ == old(self)@.noted(started, now, error),
    {
        self.state.last_operation = elapsed(now, started);
        self.state.last_error = error;
    }

    fn note_position(&mut self, controls: Controls)
        ensures
            final(self)@ == old(self)@.at(controls),
    {
        self.state.actual = controls;
    }

    fn note_targets(&mut self, targets: &Controls)
        ensures
            final(self)@ == old(self)@.aimed(*targets),
    {
        if let Some(target) = targets.pan {
            self.state.target_pan = target;
        }
        if let Some(target) = targets.tilt {
            self.state.target_tilt = target;
        }
        if let Some(target) = targets.zoom {
            self.state.target_zoom = target;
        }
    }

    fn end_pulse(&mut self, started: u128, now: u128, error: Option<PtzError>) -> (r: WorkerAction)
        ensures
            (final(self)@, r) == old(self)@.pulse_over(started, now, error),
    {
        self.note(started, now, error);
        self.phase = Phase::Idle;
        WorkerAction::Receive
    }

    fn stop_pulse(&mut self, started: u128, now: u128) -> (r: WorkerAction)
        ensures
            (final(self)@, r) == old(self)@.pulse_stop(started, now),
    {
        match &self.link {
            Link::Open => {
                self.phase = Phase::PulseStopping { started };
                WorkerAction::Stop
            },
            Link::Failed(text) => {
                let text = text.clone();
                self.end_pulse(started, now, Some(PtzError::Device(text)))
            },
            Link::Unopened => self.end_pulse(started, now, None),
        }
    }

    fn drive_pulse(&mut self, pan: i32, tilt: i32, started: u128, now: u128) -> (r: WorkerAction)
        ensures
            (final(self)@, r) == old(self)@.pulse_drive(pan, tilt, started, now),
    {
        if pan == 0 && tilt == 0 {
            return self.stop_pulse(started, now);
        }
        match &self.link {
            Link::Open => {
                self.phase = Phase::PulseDriving { started };
                WorkerAction::Drive { pan, tilt }
            },
            Link::Failed(text) => {
                let text = text.clone();
                self.end_pulse(started, now, Some(PtzError::Device(text)))
            },
            Link::Unopened => {
                self.phase = Phase::PulseOpening { pan, tilt, started };
                WorkerAction::Open
            },
        }
    }

    fn settle(&mut self, now: u128) -> (r: WorkerAction)
        ensures
            (final(self)@, r) == old(self)@.settled(now),
    {
        match self.pwm.next_output(now) {
            None => {
                self.phase = Phase::Idle;
                WorkerAction::Receive
            },
            Some(output) => {
                let (pan, tilt) = output;
                if pan == 0 && tilt == 0 {
                    self.stop_pulse(now, now)
                } else {
                    self.phase = Phase::PulseReading { pan, tilt, started: now };
                    WorkerAction::ReadControls
                }
            },
        }
    }

    fn finish(
        &mut self,
        started: u128,
        now: u128,
        error: Option<PtzError>,
        tracking: bool,
    ) -> (r: WorkerAction)
        ensures
            (final(self)@, r) == old(self)@.finished(started, now, error, tracking),
    {
        self.note(started, now, error);
        if tracking {
            self.tracking_pending = false;
        }
        self.settle(now)
    }

    fn begin(&mut self, job: Job, now: u128) -> (r: WorkerAction)
        ensures
            (final(self)@, r) == old(self)@.begun(job, now),
    {
        match job {
            Job::Apply(targets) => {
                self.phase = Phase::Applying { targets, started: now, tracking: false };
                WorkerAction::ApplyControls(targets)
            },
            Job::Relative(axis, amount) => {
                self.phase = Phase::ReadingRelative { axis, amount, started: now };
                WorkerAction::ReadControls
            },
            Job::TrackAbsolute { pan_delta, tilt_delta } => {
                self.phase = Phase::ReadingAbsolute { pan_delta, tilt_delta, started: now };
                WorkerAction::ReadControls
            },
            Job::Shutdown => {
                self.queue.clear();
                self.phase = Phase::Exited;
                WorkerAction::Exit
            },
        }
    }

    fn halt(&mut self, job: Job, now: u128) -> (r: WorkerAction)
        ensures
            (final(self)@, r) == old(self)@.halted(job, now),
    {
        self.pwm.clear(now);
        match &self.link {
            Link::Open => {
                self.phase = Phase::Halting(job);
                WorkerAction::Stop
            },
            _ => self.begin(job, now),
        }
    }

    fn dispatch(&mut self, now: u128) -> (r: WorkerAction)
        requires
            old(self)@.queue.len() > 0,
        ensures
            (final(self)@, r) == old(self)@.dispatched(now),
    {
        let command = self.queue.remove(0);
        proof {
            assert(self.queue@ =~= old(self)@.queue.drop_first());
        }
        match command {
            WorkerCommand::Apply(targets) => self.halt(Job::Apply(targets), now),
            WorkerCommand::Relative(axis, amount) => self.halt(Job::Relative(axis, amount), now),
            WorkerCommand::TrackVelocity { pan, tilt } => {
                self.pwm.set_command(pan, tilt, now);
                self.tracking_pending = false;
                self.settle(now)
            },
            WorkerCommand::TrackAbsolute { pan_delta, tilt_delta } => self.halt(
                Job::TrackAbsolute { pan_delta, tilt_delta },
                now,
            ),
            WorkerCommand::StopTracking => {
                self.pwm.clear(now);
                match &self.link {
                    Link::Open => {
                        self.phase = Phase::Stopping { started: now };
                        WorkerAction::Stop
                    },
                    Link::Failed(text) => {
                        let text = text.clone();
                        self.finish(now, now, Some(PtzError::Device(text)), true)
                    },
                    Link::Unopened => self.finish(now, now, None, true),
                }
            },
            WorkerCommand::ReadPosition => {
                self.phase = Phase::ReadingPosition { started: now };
                WorkerAction::ReadControls
            },
            WorkerCommand::Shutdown => self.halt(Job::Shutdown, now),
        }
    }

    fn apply(&mut self, targets: Controls, started: u128, tracking: bool) -> (r: WorkerAction)
        ensures
            (final(self)@, r) == old(self)@.applying(targets, started, tracking),
    {
        self.phase = Phase::Applying { targets, started, tracking };
        WorkerAction::ApplyControls(targets)
    }

    /// Tells the worker how its operation ended at `now`, and gives the next one.
    pub fn advance<F: Fn(Operation) -> Scalar>(
        &mut self,
        event: WorkerEvent,
        now: u128,
        unit: &F,
    ) -> (r: WorkerAction)
        requires
            old(self)@.wf(),
            old(self)@.phase.expects(event),
            computes(*unit),
        ensures
            (final(self)@, r) == old(self)@.stepped(event, now, *unit),
            final(self)@.wf(),
    {
        proof {
            step_keeps_wf(self@, event, now, *unit);
        }
        match &self.phase {
            Phase::Idle => if self.queue.len() == 0 {
                self.settle(now)
            } else {
                self.dispatch(now)
            },
            Phase::Halting(job) => {
                let job = *job;
                self.begin(job, now)
            },
            Phase::Stopping { started } => {
                let started: u128 = *started;
                self.finish(started, now, event_error(event), true)
            },
            Phase::ReadingPosition { started } => {
                let started: u128 = *started;
                match event {
                    WorkerEvent::Read(controls) => {
                        self.note_position(controls);
                        self.finish(started, now, None, false)
                    },
                    _ => self.finish(started, now, event_error(event), false),
                }
            },
            Phase::ReadingRelative { axis, amount, started } => {
                let axis = *axis;
                let amount = *amount;
                let started: u128 = *started;
                match event {
                    WorkerEvent::Read(controls) => {
                        self.note_position(controls);
                        match range_for_axis(&self.capabilities, axis) {
                            None => self.finish(
                                started,
                                now,
                                Some(PtzError::Unsupported(axis)),
                                false,
                            ),
                            Some(range) => {
                                let target = move_by(
                                    controls.position(axis),
                                    amount,
                                    range,
                                    unit,
                                );
                                self.apply(Controls::on_axis(axis, target), started, false)
                            },
                        }
                    },
                    _ => self.finish(started, now, event_error(event), false),
                }
            },
            Phase::ReadingAbsolute { pan_delta, tilt_delta, started } => {
                let pan_delta = *pan_delta;
                let tilt_delta = *tilt_delta;
                let started: u128 = *started;
                match event {
                    WorkerEvent::Read(controls) => {
                        self.note_position(controls);
                        match correct(&self.capabilities, &controls, pan_delta, tilt_delta, unit) {
                            Err(error) => self.finish(started, now, Some(error), true),
                            Ok(targets) => if targets.pan.is_none() && targets.tilt.is_none() {
                                self.finish(started, now, None, true)
                            } else {
                                self.apply(targets, started, true)
                            },
                        }
                    },
                    _ => self.finish(started, now, event_error(event), true),
                }
            },
            Phase::Applying { targets, started, tracking } => {
                let targets = *targets;
                let started: u128 = *started;
                let tracking = *tracking;
                match event {
                    WorkerEvent::Succeeded => {
                        self.note_targets(&targets);
                        self.phase = Phase::Waiting {
                            targets,
                            started,
                            wait_started: now,
                            tracking,
                        };
                        WorkerAction::ReadControls
                    },
                    _ => self.finish(started, now, event_error(event), tracking),
                }
            },
            Phase::Waiting { targets, started, wait_started, tracking } => {
                let targets = *targets;
                let started: u128 = *started;
                let wait_started: u128 = *wait_started;
                let tracking = *tracking;
                match event {
                    WorkerEvent::Read(controls) => {
                        self.note_position(controls);
                        if targets_reached(&targets, &controls, &self.capabilities, unit) {
                            self.finish(started, now, None, tracking)
                        } else if elapsed(now, wait_started) >= MOVE_TIMEOUT {
                            self.finish(started, now, Some(PtzError::TimedOut(controls)), tracking)
                        } else {
                            self.phase = Phase::Resting {
                                targets,
                                started,
                                wait_started,
                                tracking,
                            };
                            WorkerAction::Pause
                        }
                    },
                    _ => self.finish(started, now, event_error(event), tracking),
                }
            },
            Phase::Resting { targets, started, wait_started, tracking } => {
                let targets = *targets;
                let started: u128 = *started;
                let wait_started: u128 = *wait_started;
                let tracking = *tracking;
                self.phase = Phase::Waiting { targets, started, wait_started, tracking };
                WorkerAction::ReadControls
            },
            Phase::PulseStopping { started } => {
                let started: u128 = *started;
                self.end_pulse(started, now, event_error(event))
            },
            Phase::PulseReading { pan, tilt, started } => {
                let pan: i32 = *pan;
                let tilt: i32 = *tilt;
                let started: u128 = *started;
                match event {
                    WorkerEvent::Read(controls) => {
                        let (safe_pan, safe_tilt) = limit_tracking_output(
                            &controls,
                            &self.capabilities,
                            pan,
                            tilt,
                            unit,
                        );
                        self.drive_pulse(safe_pan, safe_tilt, started, now)
                    },
                    WorkerEvent::Failed(text) => match &self.link {
                        Link::Open => {
                            self.phase = Phase::PulseHalting { error: text, started };
                            WorkerAction::Stop
                        },
                        _ => self.end_pulse(started, now, Some(PtzError::Device(text))),
                    },
                    _ => WorkerAction::Receive,
                }
            },
            Phase::PulseOpening { pan, tilt, started } => {
                let pan: i32 = *pan;
                let tilt: i32 = *tilt;
                let started: u128 = *started;
                match event {
                    WorkerEvent::Failed(text) => {
                        self.link = Link::Failed(text.clone());
                        self.end_pulse(started, now, Some(PtzError::Device(text)))
                    },
                    _ => {
                        self.link = Link::Open;
                        self.phase = Phase::PulseDriving { started };
                        WorkerAction::Drive { pan, tilt }
                    },
                }
            },
            Phase::PulseDriving { started } => {
                let started: u128 = *started;
                self.end_pulse(started, now, event_error(event))
            },
            Phase::PulseHalting { error, started } => {
                let text = error.clone();
                let started: u128 = *started;
                self.end_pulse(started, now, Some(PtzError::Device(text)))
            },
            Phase::Exited => WorkerAction::Exit,
        }
    }
}

impl ControllerModel {
    /// A request was made: a running worker has it at the end of its queue, and
    /// one that has ended refuses it.
    pub open spec fn sent(
        self,
        command: WorkerCommand,
        after: ControllerModel,
        outcome: Result<(), String>,
    ) -> bool {
        if self.running() {
            outcome is Ok && after == self.with_command(command)
        } else {
            &&& after == self
            &&& outcome matches Err(text)
            &&& text@ == "PTZ worker has stopped"@
        }
    }
}

/// A copy of an error.
fn copy_error(error: &PtzError) -> (r: PtzError)
    ensures
        r == *error,
{
    match error {
        PtzError::Device(text) => PtzError::Device(text.clone()),
        PtzError::Unsupported(axis) => PtzError::Unsupported(*axis),
        PtzError::TimedOut(controls) => PtzError::TimedOut(*controls),
    }
}

impl ManualController {
    pub fn pan_target(&self) -> (r: Scalar)
        ensures
            r == self@.state.target_pan,
    {
        self.state.target_pan
    }

    pub fn tilt_target(&self) -> (r: Scalar)
        ensures
            r == self@.state.target_tilt,
    {
        self.state.target_tilt
    }

    pub fn zoom_target(&self) -> (r: Scalar)
        ensures
            r == self@.state.target_zoom,
    {
        self.state.target_zoom
    }

    pub fn actual_pan(&self) -> (r: Option<Scalar>)
        ensures
            r == self@.state.actual.pan,
    {
        self.state.actual.pan
    }

    pub fn actual_tilt(&self) -> (r: Option<Scalar>)
        ensures
            r == self@.state.actual.tilt,
    {
        self.state.actual.tilt
    }

    pub fn actual_zoom(&self) -> (r: Option<Scalar>)
        ensures
            r == self@.state.actual.zoom,
    {
        self.state.actual.zoom
    }

    pub fn worker_error(&self) -> (r: Option<PtzError>)
        ensures
            r == self@.state.last_error,
    {
        match &self.state.last_error {
            Some(error) => Some(copy_error(error)),
            None => None,
        }
    }

    /// Length of the last operation in milliseconds.
    pub fn last_operation_ms<F: Fn(Operation) -> Scalar>(&self, unit: &F) -> (r: Scalar)
        requires
            computes(*unit),
        ensures
            r == milliseconds_of(*unit, self@.state.last_operation),
    {
        milliseconds(unit, self.state.last_operation)
    }

    pub fn zoom_range(&self) -> (r: Option<ControlRange>)
        ensures
            r == self@.capabilities.zoom,
    {
        self.capabilities.zoom
    }

    pub fn tracking_busy(&self) -> (r: bool)
        ensures
            r == self@.tracking_pending,
    {
        self.tracking_pending
    }

    fn send(&mut self, command: WorkerCommand) -> (r: Result<(), String>)
        requires
            old(self)@.wf(),
            old(self)@.running() ==> command.admissible(old(self)@.capabilities),
        ensures
            old(self)@.sent(command, final(self)@, r),
            final(self)@.wf(),
    {
        match &self.phase {
            Phase::Exited => Err("PTZ worker has stopped".to_owned()),
            _ => {
                self.queue.push(command);
                Ok(())
            },
        }
    }

    /// Asks for the position to be read.
    pub fn refresh_actual(&mut self) -> (r: Result<(), String>)
        requires
            old(self)@.wf(),
        ensures
            old(self)@.sent(WorkerCommand::ReadPosition, final(self)@, r),
            final(self)@.wf(),
    {
        self.send(WorkerCommand::ReadPosition)
    }

    pub fn pan_by(&mut self, amount: Scalar) -> (r: Result<(), String>)
        requires
            old(self)@.wf(),
            old(self)@.running() ==> old(self)@.capabilities.clamps(Axis::Pan),
        ensures
            old(self)@.sent(WorkerCommand::Relative(Axis::Pan, amount), final(self)@, r),
            final(self)@.wf(),
    {
        self.send(WorkerCommand::Relative(Axis::Pan, amount))
    }

    pub fn tilt_by(&mut self, amount: Scalar) -> (r: Result<(), String>)
        requires
            old(self)@.wf(),
            old(self)@.running() ==> old(self)@.capabilities.clamps(Axis::Tilt),
        ensures
            old(self)@.sent(WorkerCommand::Relative(Axis::Tilt, amount), final(self)@, r),
            final(self)@.wf(),
    {
        self.send(WorkerCommand::Relative(Axis::Tilt, amount))
    }

    pub fn zoom_by(&mut self, amount: Scalar) -> (r: Result<(), String>)
        requires
            old(self)@.wf(),
            old(self)@.running() ==> old(self)@.capabilities.clamps(Axis::Zoom),
        ensures
            old(self)@.sent(WorkerCommand::Relative(Axis::Zoom, amount), final(self)@, r),
            final(self)@.wf(),
    {
        self.send(WorkerCommand::Relative(Axis::Zoom, amount))
    }

    /// Asks for the camera to be stopped; the request counts as pending until
    /// it was carried out.
    pub fn stop_tracking(&mut self) -> (r: Result<(), String>)
        requires
            old(self)@.wf(),
        ensures
            (ControllerModel {
                tracking_pending: old(self)@.running(),
                ..old(self)@
            }).sent(WorkerCommand::StopTracking, final(self)@, r),
            final(self)@.wf(),
    {
        self.tracking_pending = true;
        if let Err(error) = self.send(WorkerCommand::StopTracking) {
            self.tracking_pending = false;
            return Err(error);
        }
        Ok(())
    }

    /// Asks for a velocity. No velocity is a stop. While another tracking request
    /// is pending the velocity is dropped, which the result tells.
    pub fn track_velocity(&mut self, pan: i32, tilt: i32) -> (r: Result<bool, String>)
        requires
            old(self)@.wf(),
        ensures
            pan == 0 && tilt == 0 ==> match r {
                Ok(taken) => taken && old(self)@.running() && final(self)@ == (ControllerModel {
                    tracking_pending: true,
                    ..old(self)@
                }).with_command(WorkerCommand::StopTracking),
                Err(text) => !old(self)@.running() && text@ == "PTZ worker has stopped"@
                    && final(self)@ == (ControllerModel { tracking_pending: false, ..old(self)@ }),
            },
            (pan != 0 || tilt != 0) && old(self)@.tracking_pending ==> r == Ok::<bool, String>(false)
                && final(self)@ == old(self)@,
            (pan != 0 || tilt != 0) && !old(self)@.tracking_pending ==> match r {
                Ok(taken) => taken && old(self)@.running() && final(self)@ == (ControllerModel {
                    tracking_pending: true,
                    ..old(self)@
                }).with_command(WorkerCommand::TrackVelocity { pan, tilt }),
                Err(text) => !old(self)@.running() && text@ == "PTZ worker has stopped"@
                    && final(self)@ == old(self)@,
            },
            final(self)@.wf(),
    {
        if pan == 0 && tilt == 0 {
            return match self.stop_tracking() {
                Ok(()) => Ok(true),
                Err(error) => Err(error),
            };
        }
        if self.tracking_pending {
            return Ok(false);
        }
        self.tracking_pending = true;
        if let Err(error) = self.send(WorkerCommand::TrackVelocity { pan, tilt }) {
            self.tracking_pending = false;
            return Err(error);
        }
        Ok(true)
    }

    /// Asks for a correction of the position. One that is too small, or comes
    /// while another tracking request is pending, is dropped, which the result
    /// tells.
    pub fn track_absolute_offset(&mut self, pan_delta: Scalar, tilt_delta: Scalar) -> (r: Result<
        bool,
        String,
    >)
        requires
            old(self)@.wf(),
            old(self)@.running() && !old(self)@.tracking_pending ==> correctable(
                old(self)@.capabilities,
                pan_delta,
                tilt_delta,
            ),
        ensures
            (negligible(pan_delta) && negligible(tilt_delta)) || old(self)@.tracking_pending ==> r
                == Ok::<bool, String>(false) && final(self)@ == old(self)@,
            !(negligible(pan_delta) && negligible(tilt_delta)) && !old(self)@.tracking_pending
                ==> match r {
                Ok(taken) => taken && old(self)@.running() && final(self)@ == (ControllerModel {
                    tracking_pending: true,
                    ..old(self)@
                }).with_command(WorkerCommand::TrackAbsolute { pan_delta, tilt_delta }),
                Err(text) => !old(self)@.running() && text@ == "PTZ worker has stopped"@
                    && final(self)@ == old(self)@,
            },
            final(self)@.wf(),
    {
        let epsilon = Scalar::from_bits(EPSILON);
        if pan_delta.abs().at_most(epsilon) && tilt_delta.abs().at_most(epsilon) {
            return Ok(false);
        }
        if self.tracking_pending {
            return Ok(false);
        }
        self.tracking_pending = true;
        if let Err(error) = self.send(WorkerCommand::TrackAbsolute { pan_delta, tilt_delta }) {
            self.tracking_pending = false;
            return Err(error);
        }
        Ok(true)
    }

    fn set_axis_target<F: Fn(Operation) -> Scalar>(
        &mut self,
        axis: Axis,
        target: Scalar,
        unit: &F,
    ) -> (r: Result<(), String>)
        requires
            old(self)@.wf(),
            old(self)@.capabilities.clamps(axis),
            computes(*unit),
        ensures
            old(self)@.aimed_axis(axis, target, *unit, final(self)@, r),
            final(self)@.wf(),
    {
        match range_for_axis(&self.capabilities, axis) {
            None => Ok(()),
            Some(range) => {
                let target = snap_to_step(target.clamp(range.min, range.max), range, unit);
                self.send(WorkerCommand::Apply(Controls::on_axis(axis, target)))
            },
        }
    }

    pub fn set_zoom<F: Fn(Operation) -> Scalar>(&mut self, target: Scalar, unit: &F) -> (r: Result<
        (),
        String,
    >)
        requires
            old(self)@.wf(),
            old(self)@.capabilities.clamps(Axis::Zoom),
            computes(*unit),
        ensures
            old(self)@.aimed_axis(Axis::Zoom, target, *unit, final(self)@, r),
            final(self)@.wf(),
    {
        self.set_axis_target(Axis::Zoom, target, unit)
    }

    /// Asks for pan and tilt to return to their defaults.
    pub fn center(&mut self) -> (r: Result<(), String>)
        requires
            old(self)@.wf(),
        ensures
            old(self)@.sent(
                WorkerCommand::Apply(centered(old(self)@.capabilities)),
                final(self)@,
                r,
            ),
            final(self)@.wf(),
    {
        let controls = center_controls(&self.capabilities);
        self.send(WorkerCommand::Apply(controls))
    }

    /// Asks for zoom to return to its default; without zoom there is nothing to do.
    pub fn wide<F: Fn(Operation) -> Scalar>(&mut self, unit: &F) -> (r: Result<(), String>)
        requires
            old(self)@.wf(),
            old(self)@.capabilities.clamps(Axis::Zoom),
            computes(*unit),
        ensures
            match old(self)@.capabilities.zoom {
                None => r is Ok && final(self)@ == old(self)@,
                Some(range) => old(self)@.aimed_axis(
                    Axis::Zoom,
                    range.default,
                    *unit,
                    final(self)@,
                    r,
                ),
            },
            final(self)@.wf(),
    {
        match self.capabilities.zoom {
            None => Ok(()),
            Some(range) => self.set_axis_target(Axis::Zoom, range.default, unit),
        }
    }

    /// Asks the worker to end.
    pub fn shut_down(&mut self) -> (r: Result<(), String>)
        requires
            old(self)@.wf(),
        ensures
            old(self)@.sent(WorkerCommand::Shutdown, final(self)@, r),
            final(self)@.wf(),
    {
        self.send(WorkerCommand::Shutdown)
    }

    /// A request waits in the queue.
    pub fn has_request(&self) -> (r: bool)
        ensures
            r == (self@.queue.len() > 0),
    {
        self.queue.len() > 0
    }
}

/// The correction is too small to ask for.
pub open spec fn negligible(delta: Scalar) -> bool {
    delta.absolute().less_equal(Scalar { bits: EPSILON })
}

/// The move that returns pan and tilt to their defaults.
pub open spec fn centered(capabilities: ControlCapabilities) -> Controls {
    Controls {
        pan: match capabilities.pan {
            Some(range) => Some(range.default),
            None => None,
        },
        tilt: match capabilities.tilt {
            Some(range) => Some(range.default),
            None => None,
        },
        zoom: None,
    }
}

/// The move that returns pan and tilt to their defaults.
pub fn center_controls(capabilities: &ControlCapabilities) -> (r: Controls)
    ensures
        r == centered(*capabilities),
{
    Controls {
        pan: match capabilities.pan {
            Some(range) => Some(range.default),
            None => None,
        },
        tilt: match capabilities.tilt {
            Some(range) => Some(range.default),
            None => None,
        },
        zoom: None,
    }
}

impl ControllerModel {
    /// A target was asked for on one axis: the nearest step in the range is
    /// requested; an axis without range is left alone.
    pub open spec fn aimed_axis<F: Fn(Operation) -> Scalar>(
        self,
        axis: Axis,
        target: Scalar,
        unit: F,
        after: ControllerModel,
        outcome: Result<(), String>,
    ) -> bool {
        match self.capabilities.range(axis) {
            None => outcome is Ok && after == self,
            Some(range) => self.sent(
                WorkerCommand::Apply(
                    Controls::single(
                        axis,
                        snapped(unit, target.clamped(range.min, range.max), range),
                    ),
                ),
                after,
                outcome,
            ),
        }
    }
}

} // verus!
