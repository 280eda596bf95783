use bareeye::arithmetic::Operation;
use bareeye::camera::controls::{ControlCapabilities, ControlRange, Controls};
use bareeye::camera::ptz::ManualController;
use bareeye::camera::worker::{PtzError, WorkerAction, WorkerEvent, MOVE_TIMEOUT};
use bareeye::preview::{PtzKeys, PtzPanel, PtzRequest};
use bareeye::scalar::Scalar;
use std::time::Duration;

fn unit(operation: Operation) -> Scalar {
    let f = |number: Scalar| f32::from_bits(number.bits);
    let result: f32 = match operation {
        Operation::Sum(a, b) => f(a) + f(b),
        Operation::Difference(a, b) => f(a) - f(b),
        Operation::Product(a, b) => f(a) * f(b),
        Operation::Quotient(a, b) => f(a) / f(b),
        Operation::Hypotenuse(a, b) => f(a).hypot(f(b)),
        Operation::FusedProduct(a, b, c) => f(a).mul_add(f(b), f(c)),
        Operation::SquareRoot(a) => f(a).sqrt(),
        Operation::Rounded(a) => f(a).round(),
        Operation::Tangent(a) => f(a).tan(),
        Operation::ArcTangent(a) => f(a).atan(),
        Operation::Radians(a) => f(a).to_radians(),
        Operation::Degrees(a) => f(a).to_degrees(),
        Operation::Count(n) => n as f32,
        Operation::Seconds(nanos) => {
            Duration::new((nanos / 1_000_000_000) as u64, (nanos % 1_000_000_000) as u32).as_secs_f32()
        }
    };
    Scalar { bits: result.to_bits() }
}

fn s(number: f32) -> Scalar {
    Scalar { bits: number.to_bits() }
}

fn v(number: Scalar) -> f32 {
    f32::from_bits(number.bits)
}

fn range(min: f32, max: f32, step: f32, default: f32) -> ControlRange {
    ControlRange { min: s(min), max: s(max), step: s(step), default: s(default) }
}

fn capabilities() -> ControlCapabilities {
    ControlCapabilities {
        pan: Some(range(-100.0, 100.0, 1.0, 0.0)),
        tilt: Some(range(-30.0, 90.0, 1.0, 0.0)),
        zoom: Some(range(0.0, 4000.0, 10.0, 0.0)),
    }
}

fn at(pan: f32, tilt: f32, zoom: f32) -> Controls {
    Controls { pan: Some(s(pan)), tilt: Some(s(tilt)), zoom: Some(s(zoom)) }
}

const MILLISECOND: u128 = 1_000_000;

fn none() -> Controls {
    Controls { pan: None, tilt: None, zoom: None }
}

fn controller() -> ManualController {
    ManualController::new(capabilities(), at(1.0, 2.0, 3.0), 0)
}

fn woken(controller: &mut ManualController, now: u128) -> WorkerAction {
    controller.advance(WorkerEvent::Woken, now, &unit)
}

#[test]
fn a_controller_starts_where_the_camera_is() {
    let known = controller();
    assert_eq!(v(known.pan_target()), 1.0);
    assert_eq!(v(known.tilt_target()), 2.0);
    assert_eq!(v(known.zoom_target()), 3.0);
    assert_eq!(known.actual_pan(), Some(s(1.0)));
    assert_eq!(known.actual_tilt(), Some(s(2.0)));
    assert_eq!(known.actual_zoom(), Some(s(3.0)));
    assert_eq!(known.worker_error(), None);
    assert_eq!(v(known.last_operation_ms(&unit)), 0.0);
    assert!(!known.tracking_busy());
    assert_eq!(known.zoom_range().map(|range| v(range.max)), Some(4000.0));
    let mut caps = capabilities();
    caps.pan = Some(range(-10.0, 10.0, 1.0, 4.0));
    caps.tilt = None;
    let unknown = ManualController::new(caps, none(), 0);
    assert_eq!(v(unknown.pan_target()), 4.0);
    assert_eq!(v(unknown.tilt_target()), 0.0);
}

#[test]
fn a_relative_move_goes_to_the_nearest_step_and_waits() {
    let mut c = controller();
    assert_eq!(c.pan_by(s(10.4)), Ok(()));
    assert!(c.has_request());
    assert_eq!(woken(&mut c, 0), WorkerAction::ReadControls);
    assert!(!c.has_request());
    let target = Controls { pan: Some(s(30.0)), tilt: None, zoom: None };
    assert_eq!(
        c.advance(WorkerEvent::Read(at(20.0, 0.0, 0.0)), MILLISECOND, &unit),
        WorkerAction::ApplyControls(target)
    );
    assert_eq!(c.actual_pan(), Some(s(20.0)));
    assert_eq!(v(c.pan_target()), 1.0);
    assert_eq!(
        c.advance(WorkerEvent::Succeeded, 2 * MILLISECOND, &unit),
        WorkerAction::ReadControls
    );
    assert_eq!(v(c.pan_target()), 30.0);
    assert_eq!(
        c.advance(WorkerEvent::Read(at(28.0, 0.0, 0.0)), 3 * MILLISECOND, &unit),
        WorkerAction::Pause
    );
    assert_eq!(woken(&mut c, 53 * MILLISECOND), WorkerAction::ReadControls);
    assert_eq!(
        c.advance(WorkerEvent::Read(at(29.0, 0.0, 0.0)), 60 * MILLISECOND, &unit),
        WorkerAction::Receive
    );
    assert_eq!(c.worker_error(), None);
    assert_eq!(v(c.last_operation_ms(&unit)), 0.06_f32 * 1000.0);
}

#[test]
fn a_move_that_never_arrives_times_out() {
    let mut c = controller();
    assert_eq!(c.center(), Ok(()));
    let home = Controls { pan: Some(s(0.0)), tilt: Some(s(0.0)), zoom: None };
    assert_eq!(woken(&mut c, 0), WorkerAction::ApplyControls(home));
    assert_eq!(c.advance(WorkerEvent::Succeeded, 1, &unit), WorkerAction::ReadControls);
    let stuck = at(50.0, 0.0, 0.0);
    assert_eq!(
        c.advance(WorkerEvent::Read(stuck), MOVE_TIMEOUT, &unit),
        WorkerAction::Pause
    );
    assert_eq!(woken(&mut c, MOVE_TIMEOUT), WorkerAction::ReadControls);
    assert_eq!(
        c.advance(WorkerEvent::Read(stuck), MOVE_TIMEOUT + 1, &unit),
        WorkerAction::Receive
    );
    assert_eq!(c.worker_error(), Some(PtzError::TimedOut(stuck)));
}

#[test]
fn a_refused_move_leaves_the_target() {
    let mut c = controller();
    assert_eq!(c.set_zoom(s(1234.0), &unit), Ok(()));
    let zoom = Controls { pan: None, tilt: None, zoom: Some(s(1230.0)) };
    assert_eq!(woken(&mut c, 0), WorkerAction::ApplyControls(zoom));
    let refused = WorkerEvent::Failed("busy".to_owned());
    assert_eq!(c.advance(refused, 1, &unit), WorkerAction::Receive);
    assert_eq!(v(c.zoom_target()), 3.0);
    assert_eq!(c.worker_error(), Some(PtzError::Device("busy".to_owned())));
    assert_eq!(c.worker_error().unwrap().message(), Some("busy".to_owned()));
}

#[test]
fn an_axis_that_is_missing_is_named() {
    let mut caps = capabilities();
    caps.tilt = None;
    let mut c = ManualController::new(caps, at(0.0, 0.0, 0.0), 0);
    assert_eq!(c.tilt_by(s(5.0)), Ok(()));
    assert_eq!(woken(&mut c, 0), WorkerAction::ReadControls);
    assert_eq!(
        c.advance(WorkerEvent::Read(at(7.0, 0.0, 0.0)), 1, &unit),
        WorkerAction::Receive
    );
    let error = c.worker_error().unwrap();
    assert_eq!(error.message(), Some("Tilt is not supported by this camera.".to_owned()));
    assert_eq!(c.actual_pan(), Some(s(7.0)));
}

#[test]
fn tracking_opens_the_relative_controller_and_pulses() {
    let mut c = controller();
    assert_eq!(c.track_velocity(3, 0), Ok(true));
    assert!(c.tracking_busy());
    assert_eq!(c.track_velocity(3, 0), Ok(false));
    assert_eq!(woken(&mut c, 0), WorkerAction::ReadControls);
    assert!(!c.tracking_busy());
    assert_eq!(
        c.advance(WorkerEvent::Read(at(0.0, 0.0, 0.0)), 1, &unit),
        WorkerAction::Open
    );
    assert_eq!(
        c.advance(WorkerEvent::Succeeded, 2, &unit),
        WorkerAction::Drive { pan: 1, tilt: 0 }
    );
    assert_eq!(c.advance(WorkerEvent::Succeeded, 3, &unit), WorkerAction::Receive);
    assert_eq!(woken(&mut c, 200 * MILLISECOND), WorkerAction::Stop);
    assert_eq!(
        c.advance(WorkerEvent::Succeeded, 201 * MILLISECOND, &unit),
        WorkerAction::Receive
    );
    assert_eq!(woken(&mut c, 300 * MILLISECOND), WorkerAction::ReadControls);
    // At the limit the pulse is not driven.
    assert_eq!(
        c.advance(WorkerEvent::Read(at(95.0, 0.0, 0.0)), 301 * MILLISECOND, &unit),
        WorkerAction::Stop
    );
}

#[test]
fn a_controller_that_cannot_be_opened_keeps_failing() {
    let mut c = controller();
    assert_eq!(c.track_velocity(0, -2), Ok(true));
    assert_eq!(woken(&mut c, 0), WorkerAction::ReadControls);
    assert_eq!(c.advance(WorkerEvent::Read(at(0.0, 0.0, 0.0)), 1, &unit), WorkerAction::Open);
    let refused = WorkerEvent::Failed("no access".to_owned());
    assert_eq!(c.advance(refused, 2, &unit), WorkerAction::Receive);
    assert_eq!(c.worker_error(), Some(PtzError::Device("no access".to_owned())));
    assert_eq!(c.stop_tracking(), Ok(()));
    assert!(c.tracking_busy());
    assert_eq!(woken(&mut c, 3), WorkerAction::Receive);
    assert!(!c.tracking_busy());
    assert_eq!(c.worker_error(), Some(PtzError::Device("no access".to_owned())));
}

#[test]
fn a_position_that_cannot_be_read_stops_the_pulse() {
    let mut c = controller();
    assert_eq!(c.track_velocity(1, 0), Ok(true));
    assert_eq!(woken(&mut c, 0), WorkerAction::ReadControls);
    assert_eq!(c.advance(WorkerEvent::Read(none()), 1, &unit), WorkerAction::Open);
    assert_eq!(
        c.advance(WorkerEvent::Succeeded, 2, &unit),
        WorkerAction::Drive { pan: 1, tilt: 0 }
    );
    assert_eq!(c.advance(WorkerEvent::Succeeded, 3, &unit), WorkerAction::Receive);
    assert_eq!(c.track_velocity(-1, 0), Ok(true));
    assert_eq!(woken(&mut c, 4), WorkerAction::ReadControls);
    let lost = WorkerEvent::Failed("lost".to_owned());
    assert_eq!(c.advance(lost, 5, &unit), WorkerAction::Stop);
    assert_eq!(c.advance(WorkerEvent::Succeeded, 6, &unit), WorkerAction::Receive);
    assert_eq!(c.worker_error(), Some(PtzError::Device("lost".to_owned())));
}

#[test]
fn corrections_keep_away_from_the_limits() {
    let mut c = controller();
    assert_eq!(c.track_absolute_offset(s(0.0), s(0.0)), Ok(false));
    assert_eq!(c.track_absolute_offset(s(20.0), s(0.0)), Ok(true));
    assert_eq!(c.track_absolute_offset(s(20.0), s(0.0)), Ok(false));
    assert_eq!(woken(&mut c, 0), WorkerAction::ReadControls);
    let target = Controls { pan: Some(s(92.0)), tilt: None, zoom: None };
    assert_eq!(
        c.advance(WorkerEvent::Read(at(80.0, 0.0, 0.0)), 1, &unit),
        WorkerAction::ApplyControls(target)
    );
    assert!(c.tracking_busy());
    assert_eq!(c.advance(WorkerEvent::Succeeded, 2, &unit), WorkerAction::ReadControls);
    assert_eq!(
        c.advance(WorkerEvent::Read(at(92.0, 0.0, 0.0)), 3, &unit),
        WorkerAction::Receive
    );
    assert!(!c.tracking_busy());
}

#[test]
fn a_move_stops_a_camera_that_is_being_driven() {
    let mut c = controller();
    assert_eq!(c.track_velocity(1, 0), Ok(true));
    woken(&mut c, 0);
    c.advance(WorkerEvent::Read(none()), 1, &unit);
    c.advance(WorkerEvent::Succeeded, 2, &unit);
    c.advance(WorkerEvent::Succeeded, 3, &unit);
    assert_eq!(c.wide(&unit), Ok(()));
    assert_eq!(woken(&mut c, 4), WorkerAction::Stop);
    let wide = Controls { pan: None, tilt: None, zoom: Some(s(0.0)) };
    let failed = WorkerEvent::Failed("ignored".to_owned());
    assert_eq!(c.advance(failed, 5, &unit), WorkerAction::ApplyControls(wide));
}

#[test]
fn requests_are_carried_out_in_order() {
    let mut c = controller();
    assert_eq!(c.refresh_actual(), Ok(()));
    assert_eq!(c.zoom_by(s(400.0)), Ok(()));
    assert_eq!(woken(&mut c, 0), WorkerAction::ReadControls);
    assert_eq!(
        c.advance(WorkerEvent::Read(at(9.0, 8.0, 7.0)), 1, &unit),
        WorkerAction::Receive
    );
    assert_eq!(c.actual_zoom(), Some(s(7.0)));
    assert_eq!(woken(&mut c, 2), WorkerAction::ReadControls);
    let target = Controls { pan: None, tilt: None, zoom: Some(s(410.0)) };
    assert_eq!(
        c.advance(WorkerEvent::Read(at(9.0, 8.0, 7.0)), 3, &unit),
        WorkerAction::ApplyControls(target)
    );
}

#[test]
fn a_worker_that_has_ended_refuses_requests() {
    let mut c = controller();
    assert_eq!(c.shut_down(), Ok(()));
    assert_eq!(woken(&mut c, 0), WorkerAction::Exit);
    let stopped = "PTZ worker has stopped".to_owned();
    assert_eq!(c.pan_by(s(1.0)), Err(stopped.clone()));
    assert_eq!(c.track_velocity(1, 0), Err(stopped.clone()));
    assert!(!c.tracking_busy());
    assert_eq!(c.stop_tracking(), Err(stopped.clone()));
    let mut panel = PtzPanel::new();
    panel.handle_keyboard_ptz(&keys(), &mut c);
    assert_eq!(panel.ptz_error, Some(stopped));
}

fn keys() -> PtzKeys {
    PtzKeys {
        left: true,
        right: false,
        up: true,
        down: false,
        zoom_out: false,
        zoom_in: true,
        center: true,
    }
}

#[test]
fn keys_become_requests_in_order() {
    assert_eq!(
        keys().requests(),
        vec![PtzRequest::Left, PtzRequest::Up, PtzRequest::ZoomIn, PtzRequest::Center]
    );
    let mut c = controller();
    let mut panel = PtzPanel::new();
    panel.record_ptz_result(Err("old".to_owned()));
    assert_eq!(panel.ptz_error, Some("old".to_owned()));
    panel.handle_keyboard_ptz(&keys(), &mut c);
    assert_eq!(panel.ptz_error, None);
    assert_eq!(woken(&mut c, 0), WorkerAction::ReadControls);
    let left = Controls { pan: Some(s(-10.0)), tilt: None, zoom: None };
    assert_eq!(
        c.advance(WorkerEvent::Read(at(0.0, 0.0, 0.0)), 1, &unit),
        WorkerAction::ApplyControls(left)
    );
    c.advance(WorkerEvent::Succeeded, 2, &unit);
    c.advance(WorkerEvent::Read(at(-10.0, 0.0, 0.0)), 3, &unit);
    assert_eq!(woken(&mut c, 4), WorkerAction::ReadControls);
    let up = Controls { pan: None, tilt: Some(s(5.0)), zoom: None };
    assert_eq!(
        c.advance(WorkerEvent::Read(at(0.0, 0.0, 0.0)), 5, &unit),
        WorkerAction::ApplyControls(up)
    );
}

#[test]
fn requests_move_by_their_amounts() {
    let moved = |request: PtzRequest| {
        let mut c = controller();
        assert_eq!(request.send(&mut c), Ok(()));
        woken(&mut c, 0);
        match c.advance(WorkerEvent::Read(at(0.0, 0.0, 1000.0)), 1, &unit) {
            WorkerAction::ApplyControls(controls) => controls,
            action => panic!("{:?}", action),
        }
    };
    assert_eq!(moved(PtzRequest::Right).pan, Some(s(10.0)));
    assert_eq!(moved(PtzRequest::Down).tilt, Some(s(-5.0)));
    assert_eq!(moved(PtzRequest::ZoomIn).zoom, Some(s(1400.0)));
    assert_eq!(moved(PtzRequest::ZoomOut).zoom, Some(s(600.0)));
}
