use bareeye::arithmetic::Operation;
use bareeye::camera::controls::{ControlCapabilities, ControlRange, Controls};
use bareeye::camera::motion::{snap_to_grid, step_tolerance};
use bareeye::camera::ptz_calibration::{
    calibration_midpoint, find_setting, measure, Calibration, CalibrationAction, CalibrationAxis,
    CalibrationError, CalibrationEvent, CalibrationStep, MissingRange, Setting,
    CALIBRATION_DIVISOR, CALIBRATION_HOME_POLL, CALIBRATION_HOME_SETTLE_TIME,
    CALIBRATION_HOME_TIMEOUT, CALIBRATION_MOVE_TIME, CALIBRATION_SETTLE_TIME, SETTING_COUNT,
    SHORTEST_TRIAL,
};
use bareeye::scalar::Scalar;
use std::time::Duration;

fn unit(operation: Operation) -> Scalar {
    let f = |number: Scalar| f32::from_bits(number.bits);
    let result: f32 = match operation {
        Operation::Sum(a, b) => f(a) + f(b),
        Operation::Difference(a, b) => f(a) - f(b),
        Operation::Product(a, b) => f(a) * f(b),
        Operation::Quotient(a, b) => f(a) / f(b),
        Operation::Hypotenuse(a, b) => f(a).hypot(f(b)),
        Operation::FusedProduct(a, b, c) => f(a).mul_add(f(b), f(c)),
        Operation::SquareRoot(a) => f(a).sqrt(),
        Operation::Rounded(a) => f(a).round(),
        Operation::Tangent(a) => f(a).tan(),
        Operation::ArcTangent(a) => f(a).atan(),
        Operation::Radians(a) => f(a).to_radians(),
        Operation::Degrees(a) => f(a).to_degrees(),
        Operation::Count(n) => n as f32,
        Operation::Seconds(nanos) => {
            Duration::new((nanos / 1_000_000_000) as u64, (nanos % 1_000_000_000) as u32).as_secs_f32()
        }
    };
    Scalar { bits: result.to_bits() }
}

fn s(number: f32) -> Scalar {
    Scalar { bits: number.to_bits() }
}

fn v(number: Scalar) -> f32 {
    f32::from_bits(number.bits)
}

fn range(min: f32, max: f32, step: f32, default: f32) -> ControlRange {
    ControlRange { min: s(min), max: s(max), step: s(step), default: s(default) }
}

fn capabilities() -> ControlCapabilities {
    ControlCapabilities {
        pan: Some(range(-100.0, 100.0, 1.0, 0.0)),
        tilt: Some(range(-30.0, 90.0, 1.0, 0.0)),
        zoom: Some(range(0.0, 4000.0, 10.0, 0.0)),
    }
}

fn at(pan: f32, tilt: f32, zoom: f32) -> Controls {
    Controls { pan: Some(s(pan)), tilt: Some(s(tilt)), zoom: Some(s(zoom)) }
}

#[test]
fn calibration_patterns_are_those_of_the_numbers() {
    assert_eq!(f32::from_bits(CALIBRATION_DIVISOR), 3.0);
    assert_eq!(f32::from_bits(SHORTEST_TRIAL), 0.001);
}

#[test]
fn settings_cover_all_speeds_in_both_directions() {
    let mut expected = Vec::new();
    for speed in [1, 2, 4, 8, 12, 16, 20, 24] {
        for direction in [1, -1] {
            expected.push(Setting { axis: CalibrationAxis::Pan, speed, direction });
        }
    }
    for speed in [1, 2, 4, 8, 12, 16, 20] {
        for direction in [1, -1] {
            expected.push(Setting { axis: CalibrationAxis::Tilt, speed, direction });
        }
    }
    let settings: Vec<Setting> = (0..SETTING_COUNT).map(|index| find_setting(index)).collect();
    assert_eq!(settings, expected);
    assert_eq!(CalibrationAxis::Pan.label(), "PAN");
    assert_eq!(CalibrationAxis::Tilt.label(), "TILT");
    assert_eq!(CalibrationAxis::Pan.command(-4), (-4, 0));
    assert_eq!(CalibrationAxis::Tilt.command(7), (0, 7));
}

#[test]
fn the_home_position_is_a_step_in_the_middle() {
    assert_eq!(v(calibration_midpoint(&range(-100.0, 100.0, 1.0, 0.0), &unit)), 0.0);
    assert_eq!(v(calibration_midpoint(&range(0.0, 9.0, 2.0, 0.0), &unit)), 4.0);
    assert_eq!(v(calibration_midpoint(&range(0.0, 9.0, -2.0, 0.0), &unit)), 4.0);
    assert_eq!(v(calibration_midpoint(&range(0.0, 9.0, 0.0, 0.0), &unit)), 4.5);
    assert_eq!(v(snap_to_grid(s(8.6), &range(0.0, 9.0, 2.0, 0.0), &unit)), 8.0);
    assert_eq!(v(snap_to_grid(s(9.9), &range(0.0, 9.0, 2.0, 0.0), &unit)), 9.0);
    assert_eq!(v(step_tolerance(&range(0.0, 9.0, -2.0, 0.0))), 2.0);
    assert_eq!(v(step_tolerance(&range(0.0, 9.0, 0.5, 0.0))), 1.0);
}

#[test]
fn a_trial_is_a_turn_over_time() {
    let trial = measure(1, s(10.0), s(4.0), 200_000_000, &unit);
    assert_eq!(v(trial.delta), -6.0);
    assert_eq!(v(trial.rate), 6.0_f32 / 0.2_f32);
    let instant = measure(1, s(10.0), s(4.0), 0, &unit);
    assert_eq!(v(instant.rate), 6.0_f32 / 0.001_f32);
}

/// A camera that turns as far as it is told, and a clock.
struct Stand {
    pan: f32,
    tilt: f32,
    now: u128,
    driven: (i32, i32),
}

impl Stand {
    fn perform(&mut self, action: &CalibrationAction) -> Option<CalibrationEvent> {
        self.now += 1_000_000;
        match action {
            CalibrationAction::Stop => {
                self.driven = (0, 0);
                Some(CalibrationEvent::Sent(Ok(())))
            }
            CalibrationAction::Go { pan, tilt } => {
                self.pan = v(*pan);
                self.tilt = v(*tilt);
                Some(CalibrationEvent::Sent(Ok(())))
            }
            CalibrationAction::Read => {
                Some(CalibrationEvent::Position(Ok(at(self.pan, self.tilt, 0.0))))
            }
            CalibrationAction::Pause(time) => {
                let seconds = *time as f32 / 1e9;
                self.pan += self.driven.0 as f32 * seconds;
                self.tilt += self.driven.1 as f32 * seconds;
                self.now += *time;
                Some(CalibrationEvent::Paused)
            }
            CalibrationAction::Drive { pan, tilt } => {
                self.driven = (*pan, *tilt);
                Some(CalibrationEvent::Sent(Ok(())))
            }
            CalibrationAction::Finish(_) => None,
        }
    }
}

#[test]
fn a_calibration_tries_every_setting_three_times() {
    let mut stand = Stand { pan: 33.0, tilt: 11.0, now: 0, driven: (0, 0) };
    let (mut calibration, mut step) =
        Calibration::new(&capabilities(), &at(33.0, 11.0, 0.0), &unit).unwrap();
    let mut trials = 0;
    let mut summaries = Vec::new();
    let mut begun = Vec::new();
    let outcome = loop {
        trials += step.trial.is_some() as usize;
        summaries.extend(step.summary);
        begun.extend(step.begins);
        match stand.perform(&step.action) {
            Some(event) => step = calibration.advance(event, stand.now, &unit),
            None => break step.action,
        }
    };
    assert!(matches!(outcome, CalibrationAction::Finish(Ok(()))));
    assert_eq!(trials, 90);
    assert_eq!(summaries.len(), 30);
    assert_eq!(begun, (0..30).map(|index| find_setting(index)).collect::<Vec<Setting>>());
    assert_eq!(begun, summaries.iter().map(|summary| summary.setting).collect::<Vec<Setting>>());
    assert_eq!((stand.pan, stand.tilt), (33.0, 11.0));
    // Speed 8 forward: 1.6 degrees in 203 ms.
    let summary = summaries[6];
    assert_eq!((summary.setting.speed, summary.setting.direction), (8, 1));
    let rate = v(summary.average_rate_deg_s);
    assert!((rate - 1.6 / 0.203).abs() < 0.01);
    assert!(v(summary.minimum_rate_deg_s) <= rate + 0.001);
    assert!(rate <= v(summary.maximum_rate_deg_s) + 0.001);
    assert!((v(summary.average_delta_deg) - 1.6).abs() < 0.001);
    assert!((v(summaries[7].average_delta_deg) + 1.6).abs() < 0.001);
}

fn begin() -> (Calibration, CalibrationStep) {
    Calibration::new(&capabilities(), &at(33.0, 11.0, 0.0), &unit).unwrap()
}

fn ok() -> CalibrationEvent {
    CalibrationEvent::Sent(Ok(()))
}

fn refused(text: &str) -> CalibrationEvent {
    CalibrationEvent::Sent(Err(text.to_owned()))
}

fn read(pan: f32, tilt: f32) -> CalibrationEvent {
    CalibrationEvent::Position(Ok(at(pan, tilt, 0.0)))
}

#[test]
fn a_camera_without_ranges_is_not_calibrated() {
    let mut caps = capabilities();
    caps.tilt = None;
    let refused = Calibration::new(&caps, &at(0.0, 0.0, 0.0), &unit);
    assert_eq!(refused.err(), Some(MissingRange::Tilt));
    caps.pan = None;
    let refused = Calibration::new(&caps, &at(0.0, 0.0, 0.0), &unit);
    assert_eq!(refused.err(), Some(MissingRange::Pan));
    assert_eq!(MissingRange::Pan.message(), "Camera does not expose an absolute pan range");
    assert_eq!(MissingRange::Tilt.message(), "Camera does not expose an absolute tilt range");
}

#[test]
fn a_camera_that_does_not_stop_ends_the_calibration() {
    let (mut calibration, step) = begin();
    assert!(matches!(step.action, CalibrationAction::Stop));
    let step = calibration.advance(refused("stuck"), 0, &unit);
    match step.action {
        CalibrationAction::Finish(Err(CalibrationError::Device(text))) => assert_eq!(text, "stuck"),
        action => panic!("{:?}", action),
    }
}

#[test]
fn a_home_that_is_not_reached_in_time_sends_the_camera_back() {
    let (mut calibration, _) = begin();
    let step = calibration.advance(ok(), 0, &unit);
    assert!(matches!(step.action, CalibrationAction::Go { pan, tilt } if v(pan) == 0.0 && v(tilt) == 30.0));
    calibration.advance(ok(), 100, &unit);
    let step = calibration.advance(read(50.0, 30.0), 200, &unit);
    assert!(matches!(step.action, CalibrationAction::Pause(CALIBRATION_HOME_POLL)));
    calibration.advance(CalibrationEvent::Paused, 300, &unit);
    let step = calibration.advance(read(50.0, 30.0), 100 + CALIBRATION_HOME_TIMEOUT, &unit);
    assert!(matches!(step.action, CalibrationAction::Stop));
    let step = calibration.advance(refused("no stop"), 0, &unit);
    assert!(step.restores);
    assert!(matches!(step.action, CalibrationAction::Go { pan, tilt } if v(pan) == 33.0 && v(tilt) == 11.0));
    let step = calibration.advance(refused("no way back"), 0, &unit);
    match step.action {
        CalibrationAction::Finish(Err(CalibrationError::TimedOut { wanted, actual })) => {
            assert_eq!((v(wanted.pan), v(wanted.tilt)), (0.0, 30.0));
            assert_eq!(actual, at(50.0, 30.0, 0.0));
        }
        action => panic!("{:?}", action),
    }
}

#[test]
fn a_position_that_is_missing_fails_the_trial() {
    let (mut calibration, _) = begin();
    calibration.advance(ok(), 0, &unit);
    calibration.advance(ok(), 0, &unit);
    let step = calibration.advance(read(0.5, 29.5), 0, &unit);
    assert!(matches!(step.action, CalibrationAction::Pause(CALIBRATION_HOME_SETTLE_TIME)));
    calibration.advance(CalibrationEvent::Paused, 0, &unit);
    let blind = Controls { pan: None, tilt: Some(s(0.0)), zoom: None };
    let step = calibration.advance(CalibrationEvent::Position(Ok(blind)), 0, &unit);
    assert!(matches!(step.action, CalibrationAction::Stop));
    calibration.advance(ok(), 0, &unit);
    calibration.advance(ok(), 0, &unit);
    let step = calibration.advance(read(33.0, 11.0), 0, &unit);
    assert!(matches!(
        step.action,
        CalibrationAction::Finish(Err(CalibrationError::Unavailable(CalibrationAxis::Pan)))
    ));
}

#[test]
fn a_trial_drives_stops_and_settles() {
    let (mut calibration, _) = begin();
    calibration.advance(ok(), 0, &unit);
    calibration.advance(ok(), 0, &unit);
    calibration.advance(read(0.0, 30.0), 0, &unit);
    calibration.advance(CalibrationEvent::Paused, 0, &unit);
    let step = calibration.advance(read(0.0, 30.0), 1000, &unit);
    assert!(matches!(step.action, CalibrationAction::Drive { pan: 1, tilt: 0 }));
    let step = calibration.advance(ok(), 2000, &unit);
    assert!(matches!(step.action, CalibrationAction::Pause(CALIBRATION_MOVE_TIME)));
    let step = calibration.advance(CalibrationEvent::Paused, 3000, &unit);
    assert!(matches!(step.action, CalibrationAction::Stop));
    let step = calibration.advance(ok(), 5000, &unit);
    assert!(matches!(step.action, CalibrationAction::Pause(CALIBRATION_SETTLE_TIME)));
    calibration.advance(CalibrationEvent::Paused, 6000, &unit);
    let step = calibration.advance(read(2.5, 30.0), 7000, &unit);
    let trial = step.trial.unwrap();
    assert_eq!(trial.elapsed, 4000);
    assert_eq!(trial.repeat, 1);
    assert_eq!(v(trial.delta), 2.5);
    assert!(step.summary.is_none());
    assert!(matches!(step.action, CalibrationAction::Go { .. }));
}
