use bareeye::arithmetic::Operation;
use bareeye::camera::controls::{
    limit_tracking_output, snap_to_step, tracking_safe_bounds, tracking_safe_target, Axis,
    ControlCapabilities, ControlRange, Controls, TRACKING_PAN_LIMIT_MARGIN, TRACKING_TILT_LIMIT_MARGIN,
};
use bareeye::scalar::Scalar;
use std::time::Duration;

fn unit(operation: Operation) -> Scalar {
    let f = |number: Scalar| f32::from_bits(number.bits);
    let result: f32 = match operation {
        Operation::Sum(a, b) => f(a) + f(b),
        Operation::Difference(a, b) => f(a) - f(b),
        Operation::Product(a, b) => f(a) * f(b),
        Operation::Quotient(a, b) => f(a) / f(b),
        Operation::Hypotenuse(a, b) => f(a).hypot(f(b)),
        Operation::FusedProduct(a, b, c) => f(a).mul_add(f(b), f(c)),
        Operation::SquareRoot(a) => f(a).sqrt(),
        Operation::Rounded(a) => f(a).round(),
        Operation::Tangent(a) => f(a).tan(),
        Operation::ArcTangent(a) => f(a).atan(),
        Operation::Radians(a) => f(a).to_radians(),
        Operation::Degrees(a) => f(a).to_degrees(),
        Operation::Count(n) => n as f32,
        Operation::Seconds(nanos) => {
            Duration::new((nanos / 1_000_000_000) as u64, (nanos % 1_000_000_000) as u32).as_secs_f32()
        }
    };
    Scalar { bits: result.to_bits() }
}

fn s(number: f32) -> Scalar {
    Scalar { bits: number.to_bits() }
}

fn v(number: Scalar) -> f32 {
    f32::from_bits(number.bits)
}

fn range(min: f32, max: f32, step: f32, default: f32) -> ControlRange {
    ControlRange { min: s(min), max: s(max), step: s(step), default: s(default) }
}

fn capabilities() -> ControlCapabilities {
    ControlCapabilities {
        pan: Some(range(-100.0, 100.0, 1.0, 0.0)),
        tilt: Some(range(-30.0, 90.0, 1.0, 0.0)),
        zoom: Some(range(0.0, 4000.0, 10.0, 0.0)),
    }
}

fn at(pan: f32, tilt: f32, zoom: f32) -> Controls {
    Controls { pan: Some(s(pan)), tilt: Some(s(tilt)), zoom: Some(s(zoom)) }
}

#[test]
fn margins_are_eight_degrees() {
    assert_eq!(f32::from_bits(TRACKING_PAN_LIMIT_MARGIN), 8.0);
    assert_eq!(f32::from_bits(TRACKING_TILT_LIMIT_MARGIN), 8.0);
}

#[test]
fn targets_move_to_the_nearest_step() {
    let zoom = range(5.0, 105.0, 10.0, 5.0);
    assert_eq!(v(snap_to_step(s(12.0), zoom, &unit)), 15.0);
    assert_eq!(v(snap_to_step(s(9.0), zoom, &unit)), 5.0);
    assert_eq!(v(snap_to_step(s(10.0), zoom, &unit)), 15.0);
    assert_eq!(v(snap_to_step(s(500.0), zoom, &unit)), 105.0);
    assert_eq!(v(snap_to_step(s(-500.0), zoom, &unit)), 5.0);
}

#[test]
fn a_range_without_steps_only_clamps() {
    for step in [0.0, -1.0] {
        let smooth = range(-1.0, 1.0, step, 0.0);
        assert_eq!(v(snap_to_step(s(0.3), smooth, &unit)), 0.3);
        assert_eq!(v(snap_to_step(s(3.0), smooth, &unit)), 1.0);
    }
}

#[test]
fn safe_bounds_keep_a_margin_where_there_is_room() {
    let bounds = tracking_safe_bounds(range(-100.0, 100.0, 1.0, 0.0), s(8.0), &unit);
    assert_eq!((v(bounds.0), v(bounds.1)), (-92.0, 92.0));
    let narrow = tracking_safe_bounds(range(-7.0, 7.0, 1.0, 0.0), s(8.0), &unit);
    assert_eq!((v(narrow.0), v(narrow.1)), (-7.0, 7.0));
    let exact = tracking_safe_bounds(range(-8.0, 8.0, 1.0, 0.0), s(8.0), &unit);
    assert_eq!((v(exact.0), v(exact.1)), (0.0, 0.0));
}

#[test]
fn safe_targets_stay_inside_the_bounds() {
    let pan = range(-100.0, 100.0, 1.0, 0.0);
    assert_eq!(v(tracking_safe_target(s(99.0), pan, s(8.0), &unit)), 92.0);
    assert_eq!(v(tracking_safe_target(s(-99.0), pan, s(8.0), &unit)), -92.0);
    assert_eq!(v(tracking_safe_target(s(10.4), pan, s(8.0), &unit)), 10.0);
}

#[test]
fn output_stops_at_the_limits_only() {
    let capabilities = capabilities();
    assert_eq!(limit_tracking_output(&at(92.0, 0.0, 0.0), &capabilities, 1, 1, &unit), (0, 1));
    assert_eq!(limit_tracking_output(&at(92.0, 0.0, 0.0), &capabilities, -1, 1, &unit), (-1, 1));
    assert_eq!(limit_tracking_output(&at(91.0, 0.0, 0.0), &capabilities, 1, 0, &unit), (1, 0));
    assert_eq!(limit_tracking_output(&at(-92.0, -22.0, 0.0), &capabilities, -1, -1, &unit), (0, 0));
    assert_eq!(limit_tracking_output(&at(0.0, 82.0, 0.0), &capabilities, 1, 1, &unit), (1, 0));
    let unknown = Controls { pan: None, tilt: None, zoom: None };
    assert_eq!(limit_tracking_output(&unknown, &capabilities, 1, -1, &unit), (1, -1));
}

#[test]
fn axes_have_labels() {
    assert_eq!(Axis::Pan.label(), "Pan");
    assert_eq!(Axis::Tilt.label(), "Tilt");
    assert_eq!(Axis::Zoom.label(), "Zoom");
}

#[test]
fn whole_numbers_are_snapped_to_the_nearest_step() {
    let nearest = |offset: i32, step: i32| (2 * offset + step) / (2 * step);
    for offset in 0..=2000 {
        for step in [1, 2, 3, 7, 10, 64, 99, 333, 1000] {
            let quotient = (offset as f32 / step as f32).round();
            assert_eq!(quotient, nearest(offset, step) as f32);
        }
    }
    for (min, max, step) in [(-170, 170, 1), (-30, 90, 7), (0, 1000, 64), (5, 5, 3)] {
        let range = ControlRange {
            min: s(min as f32),
            max: s(max as f32),
            step: s(step as f32),
            default: s(min as f32),
        };
        let mut last = min;
        for value in min..=max {
            let at = v(snap_to_step(s(value as f32), range, &unit)) as i32;
            assert_eq!(at, (min + nearest(value - min, step) * step).min(max));
            assert!(min <= at && at <= max);
            assert!(at == max || (at - min) % step == 0);
            assert!(2 * (at - value).abs() <= step);
            assert_eq!(v(snap_to_step(s(at as f32), range, &unit)) as i32, at);
            assert!(last <= at);
            last = at;
        }
    }
}
