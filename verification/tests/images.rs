use bareeye::arithmetic::Operation;
use bareeye::camera::controls::{ControlCapabilities, ControlRange, Controls};
use bareeye::camera::correlation::{
    are_short_searches, best_alignment_score, correlation_score, estimate_magnification, is_samplable,
    is_short_search, lerp, sample_luma, search_scale, try_estimate_magnification, ALIGNMENT_OFFSET,
    ALIGNMENT_OFFSET_BACK, COARSE_SCALE_MAX, COARSE_SCALE_MIN, COARSE_SCALE_STEP,
    FINE_SCALE_RADIUS, FINE_SCALE_STEP, GRID_SPAN, LEAST_SAMPLES, NO_MATCH,
};
use bareeye::camera::fresh_frame::FreshFrameError;
use bareeye::camera::profile::{
    build_profiles, estimate_shift, is_shiftable, luminance, ImageProfiles, BLUE_WEIGHT, GREEN_WEIGHT, RED_WEIGHT,
};
use bareeye::camera::ptz_subdegree::{
    find_row_plan, missing_control_message, unavailable_message, SubdegreeAction, SubdegreeError,
    SubdegreeEvent, SubdegreeTest, TestAxis, BASE_MOVE_TIMEOUT, BASE_PAN, BASE_SETTLE_TIME, BASE_TILT,
    FRACTIONAL_SETTLE_TIME, ROW_COUNT, STATIONARY_PAUSE,
};
use bareeye::camera::ptz_zoom_calibration::{
    horizontal_fov_for_magnification, missing_zoom_message, sample_fraction, snap_to_step, ZoomAction,
    ZoomCalibration, ZoomError, ZoomEvent, HUNDRED, PUBLISHED_OPTICAL_ZOOM,
    PUBLISHED_TELE_HORIZONTAL_FOV_DEG, SAMPLE_COUNT, WIDE_HORIZONTAL_FOV_DEG, ZOOM_MOVE_TIMEOUT,
    ZOOM_POLL_INTERVAL, ZOOM_SETTLE_TIME,
};
use bareeye::scalar::Scalar;
use bareeye::vision::letterbox::RgbaImage;
use std::time::Duration;

fn unit(operation: Operation) -> Scalar {
    let f = |number: Scalar| f32::from_bits(number.bits);
    let result: f32 = match operation {
        Operation::Sum(a, b) => f(a) + f(b),
        Operation::Difference(a, b) => f(a) - f(b),
        Operation::Product(a, b) => f(a) * f(b),
        Operation::Quotient(a, b) => f(a) / f(b),
        Operation::Hypotenuse(a, b) => f(a).hypot(f(b)),
        Operation::FusedProduct(a, b, c) => f(a).mul_add(f(b), f(c)),
        Operation::SquareRoot(a) => f(a).sqrt(),
        Operation::Rounded(a) => f(a).round(),
        Operation::Tangent(a) => f(a).tan(),
        Operation::ArcTangent(a) => f(a).atan(),
        Operation::Radians(a) => f(a).to_radians(),
        Operation::Degrees(a) => f(a).to_degrees(),
        Operation::Count(n) => n as f32,
        Operation::Seconds(nanos) => {
            Duration::new((nanos / 1_000_000_000) as u64, (nanos % 1_000_000_000) as u32).as_secs_f32()
        }
    };
    Scalar { bits: result.to_bits() }
}

fn s(number: f32) -> Scalar {
    Scalar { bits: number.to_bits() }
}

fn v(number: Scalar) -> f32 {
    f32::from_bits(number.bits)
}

fn range(min: f32, max: f32, step: f32, default: f32) -> ControlRange {
    ControlRange { min: s(min), max: s(max), step: s(step), default: s(default) }
}

fn capabilities() -> ControlCapabilities {
    ControlCapabilities {
        pan: Some(range(-100.0, 100.0, 1.0, 0.0)),
        tilt: Some(range(-30.0, 90.0, 1.0, 0.0)),
        zoom: Some(range(0.0, 4000.0, 10.0, 0.0)),
    }
}

fn at(pan: f32, tilt: f32, zoom: f32) -> Controls {
    Controls { pan: Some(s(pan)), tilt: Some(s(tilt)), zoom: Some(s(zoom)) }
}

/// Brightness that varies smoothly enough to be followed through scales.
fn scene(x: f32, y: f32) -> u8 {
    let value = 128.0
        + 40.0 * (x * 0.031).sin()
        + 30.0 * (y * 0.047 + 1.0).sin()
        + 25.0 * ((x + 2.0 * y) * 0.019).cos()
        + 20.0 * ((x - y) * 0.011 + 0.5).sin();
    value.clamp(0.0, 255.0) as u8
}

/// An image of the scene, enlarged around its middle.
fn picture(width: usize, height: usize, scale: f32) -> RgbaImage {
    let mut rgba = Vec::new();
    for y in 0..height {
        for x in 0..width {
            let dx = (x as f32 - width as f32 * 0.5) / scale;
            let dy = (y as f32 - height as f32 * 0.5) / scale;
            let level = scene(dx, dy);
            rgba.extend([level, level, level, 255]);
        }
    }
    RgbaImage { width, height, rgba }
}

#[test]
fn image_patterns_are_those_of_the_numbers() {
    assert_eq!(f32::from_bits(RED_WEIGHT), 0.2126);
    assert_eq!(f32::from_bits(GREEN_WEIGHT), 0.7152);
    assert_eq!(f32::from_bits(BLUE_WEIGHT), 0.0722);
    assert_eq!(f32::from_bits(GRID_SPAN), 0.32);
    assert_eq!(f32::from_bits(LEAST_SAMPLES), 100.0);
    assert_eq!(f32::from_bits(NO_MATCH), -1.0);
    assert_eq!(f32::from_bits(ALIGNMENT_OFFSET), 12.0);
    assert_eq!(f32::from_bits(ALIGNMENT_OFFSET_BACK), -12.0);
    assert_eq!(f32::from_bits(COARSE_SCALE_MIN), 1.0);
    assert_eq!(f32::from_bits(COARSE_SCALE_MAX), 14.0);
    assert_eq!(f32::from_bits(COARSE_SCALE_STEP), 0.05);
    assert_eq!(f32::from_bits(FINE_SCALE_RADIUS), 0.12);
    assert_eq!(f32::from_bits(FINE_SCALE_STEP), 0.005);
    assert_eq!(f32::from_bits(BASE_PAN), 0.0);
    assert_eq!(f32::from_bits(BASE_TILT), 30.0);
    assert_eq!(f32::from_bits(WIDE_HORIZONTAL_FOV_DEG), 72.5);
    assert_eq!(f32::from_bits(PUBLISHED_TELE_HORIZONTAL_FOV_DEG), 6.9);
    assert_eq!(f32::from_bits(PUBLISHED_OPTICAL_ZOOM), 12.0);
    assert_eq!(f32::from_bits(HUNDRED), 100.0);
}

fn gray(r: u8, g: u8, b: u8) -> f32 {
    r as f32 * 0.2126 + g as f32 * 0.7152 + b as f32 * 0.0722
}

#[test]
fn brightness_weighs_the_colors() {
    let image = RgbaImage { width: 2, height: 1, rgba: vec![0, 0, 0, 0, 200, 100, 50, 7] };
    assert_eq!(v(luminance(&image, 1, 0, &unit)), gray(200, 100, 50));
    assert_eq!(v(lerp(s(2.0), s(6.0), s(0.25), &unit)), 3.0);
}

#[test]
fn profiles_are_means_without_the_edges() {
    let mut rgba = Vec::new();
    for y in 0..20 {
        for x in 0..30 {
            rgba.extend([(x * 3) as u8, (y * 5) as u8, (x + y) as u8, 0]);
        }
    }
    let image = RgbaImage { width: 30, height: 20, rgba };
    let at = |x: usize, y: usize| gray((x * 3) as u8, (y * 5) as u8, (x + y) as u8);
    let profiles = build_profiles(&image, &unit);
    assert_eq!((profiles.x.len(), profiles.y.len()), (30, 20));
    for x in 0..30 {
        let mut total = 0.0_f32;
        for y in 2..18 {
            total += at(x, y);
        }
        assert_eq!(v(profiles.x[x]), total / 16.0);
    }
    for y in 0..20 {
        let mut total = 0.0_f32;
        for x in 3..27 {
            total += at(x, y);
        }
        assert_eq!(v(profiles.y[y]), total / 24.0);
    }
}

fn wave(length: usize, shift: i32) -> Vec<Scalar> {
    (0..length).map(|i| s(((i as f32 - shift as f32) * 0.13).sin() * 50.0 + 60.0)).collect()
}

#[test]
fn shifts_are_found() {
    for shift in [-17, -1, 0, 4, 20] {
        let (found, error) = estimate_shift(&wave(400, 0), &wave(400, shift), 22, &unit);
        assert_eq!(found, shift);
        assert!(v(error) < 3.0);
    }
}

#[test]
fn short_profiles_say_nothing() {
    let (shift, error) = estimate_shift(&wave(9, 0), &wave(400, 0), 80, &unit);
    assert_eq!(shift, 0);
    assert_eq!(v(error), f32::INFINITY);
    let (shift, error) = estimate_shift(&wave(40, 0), &wave(40, 0), -3, &unit);
    assert_eq!(shift, 0);
    assert_eq!(v(error), f32::INFINITY);
}

#[test]
fn an_equal_profile_has_no_error() {
    let (shift, error) = estimate_shift(&wave(100, 0), &wave(100, 0), 80, &unit);
    assert_eq!(shift, 0);
    assert_eq!(v(error), 0.0);
}

fn plain_shift(before: &[f32], after: &[f32], maximum_shift: i32) -> (i32, f32) {
    let length = before.len().min(after.len());
    let mean_before = before.iter().take(length).sum::<f32>() / length as f32;
    let mean_after = after.iter().take(length).sum::<f32>() / length as f32;
    let margin = length / 10;
    let mut best = (0, f32::INFINITY);
    for shift in -maximum_shift..=maximum_shift {
        let start = margin.max((-shift).max(0) as usize);
        let end = (length - margin).min((length as i32 - shift.max(0)) as usize);
        if end <= start {
            continue;
        }
        let mut error = 0.0_f32;
        for index in start..end {
            let shifted = (index as i32 + shift) as usize;
            error += ((before[index] - mean_before) - (after[shifted] - mean_after)).abs();
        }
        let average = error / (end - start) as f32;
        if average < best.1 {
            best = (shift, average);
        }
    }
    best
}

#[test]
fn a_short_profile_may_be_shifted_beyond_its_length() {
    let before: Vec<f32> = (0..20).map(|i| (i as f32 * 0.7).sin()).collect();
    let after: Vec<f32> = (0..98).map(|i| ((i as f32 - 63.0) * 0.7).sin()).collect();
    let (left, right): (Vec<Scalar>, Vec<Scalar>) =
        (before.iter().map(|&x| s(x)).collect(), after.iter().map(|&x| s(x)).collect());
    assert!(is_shiftable(&left, &right, 80));
    let (shift, error) = estimate_shift(&left, &right, 80, &unit);
    assert_eq!((shift, v(error)), plain_shift(&before, &after, 80));
    assert!(shift > 20);
    assert!(!is_shiftable(&left, &right[..97].to_vec(), 80));
    assert!(is_shiftable(&left, &left, 20));
    assert!(!is_shiftable(&left, &left, 21));
    assert!(!is_shiftable(&left, &left, i32::MIN));
}

#[test]
fn positions_between_pixels_are_interpolated() {
    let image = RgbaImage {
        width: 2,
        height: 2,
        rgba: vec![0, 0, 0, 0, 100, 100, 100, 0, 40, 40, 40, 0, 80, 80, 80, 0],
    };
    let level = |n: u8| gray(n, n, n);
    let mix = |a: f32, b: f32, t: f32| a + (b - a) * t;
    let sample = |x: f32, y: f32| sample_luma(&image, s(x), s(y), &unit).map(|n| v(n));
    assert_eq!(sample(0.0, 0.0), Some(level(0)));
    assert_eq!(sample(1.0, 1.0), Some(level(80)));
    let expected = mix(mix(level(0), level(100), 0.25), mix(level(40), level(80), 0.25), 0.5);
    assert_eq!(sample(0.25, 0.5), Some(expected));
    assert_eq!(sample(-0.01, 0.0), None);
    assert_eq!(sample(0.0, 1.01), None);
    assert_eq!(sample(f32::INFINITY, 0.0), None);
    assert!(sample(f32::NAN, 0.0).unwrap().is_nan());
    let thin = RgbaImage { width: 1, height: 2, rgba: vec![0; 8] };
    assert_eq!(sample_luma(&thin, s(0.0), s(0.0), &unit), None);
}

#[test]
fn an_image_matches_itself() {
    let image = picture(160, 90, 1.0);
    let score = v(correlation_score(&image, &image, s(1.0), s(0.0), s(0.0), &unit));
    assert!((score - 1.0).abs() < 0.001);
    let best = v(best_alignment_score(&image, &image, s(1.0), &unit));
    assert!(best >= score);
}

#[test]
fn images_without_contrast_or_size_do_not_match() {
    let flat = RgbaImage { width: 160, height: 90, rgba: vec![0; 160 * 90 * 4] };
    let image = picture(160, 90, 1.0);
    assert_eq!(v(correlation_score(&flat, &image, s(1.0), s(0.0), s(0.0), &unit)), -1.0);
    let dot = RgbaImage { width: 1, height: 1, rgba: vec![0; 4] };
    assert_eq!(v(correlation_score(&image, &dot, s(1.0), s(0.0), s(0.0), &unit)), -1.0);
    assert_eq!(v(best_alignment_score(&dot, &dot, s(1.0), &unit)), -1.0);
}

#[test]
fn searching_takes_the_best_scale() {
    let wide = picture(320, 180, 1.0);
    let zoomed = picture(320, 180, 2.0);
    let (scale, score) = search_scale(&wide, &zoomed, s(1.0), s(4.0), s(0.25), &unit);
    assert_eq!(v(scale), 2.0);
    assert!(v(score) > 0.99);
    let (scale, score) = search_scale(&wide, &zoomed, s(3.0), s(1.0), s(0.25), &unit);
    assert_eq!((v(scale), v(score)), (3.0, -1.0));
}

#[test]
fn magnification_is_found() {
    let wide = picture(160, 90, 1.0);
    let zoomed = picture(160, 90, 1.5);
    let (magnification, score) = estimate_magnification(&wide, &zoomed, &unit);
    assert!((v(magnification) - 1.5).abs() < 0.05);
    assert!(v(score) > 0.99);
}

#[test]
fn a_search_that_does_not_get_on_is_given_up() {
    assert!(is_short_search(s(1.0), s(14.0), s(0.05), &unit));
    assert!(is_short_search(s(3.0), s(1.0), s(0.25), &unit));
    assert!(!is_short_search(s(1.0), s(14.0), s(0.0), &unit));
    assert!(!is_short_search(s(1.0), s(14.0), s(-1.0), &unit));

    let wide = picture(160, 90, 1.0);
    let zoomed = picture(160, 90, 1.5);
    assert!(are_short_searches(&wide, &zoomed, &unit));
    let found = estimate_magnification(&wide, &zoomed, &unit);
    assert_eq!(try_estimate_magnification(&wide, &zoomed, &unit), Some(found));

    let stuck = |operation: Operation| match operation {
        Operation::Sum(left, _) => left,
        other => unit(other),
    };
    assert!(!are_short_searches(&wide, &zoomed, &stuck));
    assert_eq!(try_estimate_magnification(&wide, &zoomed, &stuck), None);
}

#[test]
fn zoom_calibration_refuses_images_without_pixels() {
    let zoom_range = ControlRange { min: s(0.0), max: s(100.0), step: s(1.0), default: s(0.0) };
    let position = Controls { pan: None, tilt: None, zoom: None };
    let (calibration, _) = ZoomCalibration::new(Some(zoom_range), &position, &unit).unwrap();
    let whole = picture(4, 4, 1.0);
    let torn = RgbaImage { width: 4, height: 4, rgba: vec![0; 3] };
    assert!(is_samplable(&whole) && !is_samplable(&torn));
    assert!(calibration.can_take(&ZoomEvent::Captured(Ok(whole)), &unit));
    assert!(!calibration.can_take(&ZoomEvent::Captured(Ok(torn)), &unit));
    assert!(calibration.can_take(&ZoomEvent::Paused, &unit));
}

#[test]
fn the_field_of_view_narrows_with_magnification() {
    let fov = |magnification: f32| v(horizontal_fov_for_magnification(s(magnification), &unit));
    assert!((fov(1.0) - 72.5).abs() < 0.001);
    let expected = 2.0 * ((72.5_f32.to_radians() * 0.5).tan() / 12.0).atan().to_degrees();
    assert_eq!(fov(12.0), expected);
}

#[test]
fn rows_try_every_offset_on_both_axes() {
    let offsets = [0.25, 0.50, 0.75, 1.00, -0.25, -0.50, -0.75, -1.00];
    for row in 0..ROW_COUNT {
        let (axis, offset) = find_row_plan(row);
        assert_eq!(axis, if row < 8 { TestAxis::Pan } else { TestAxis::Tilt });
        assert_eq!(v(offset), offsets[row % 8]);
    }
    assert_eq!(TestAxis::Pan.label(), "PAN");
    assert_eq!(TestAxis::Tilt.label(), "TILT");
    assert_eq!(unavailable_message(TestAxis::Pan), "Pan readback is unavailable");
    assert_eq!(unavailable_message(TestAxis::Tilt), "Tilt readback is unavailable");
    assert_eq!(
        missing_control_message(TestAxis::Pan),
        "Camera does not expose absolute pan control"
    );
    assert_eq!(
        missing_control_message(TestAxis::Tilt),
        "Camera does not expose absolute tilt control"
    );
}

fn profiles(pan: f32, tilt: f32) -> ImageProfiles {
    ImageProfiles {
        x: wave(400, (pan * 8.0).round() as i32),
        y: wave(300, (tilt * 4.0).round() as i32),
    }
}

#[test]
fn a_test_measures_every_row_and_returns() {
    let (mut pan, mut tilt) = (7.0_f32, 8.0_f32);
    let mut now: u128 = 0;
    let (mut test, mut step) =
        SubdegreeTest::new(&capabilities(), &at(pan, tilt, 0.0)).unwrap();
    let mut rows = Vec::new();
    let mut still = Vec::new();
    let outcome = loop {
        rows.extend(step.row);
        still.extend(step.stationary);
        now += 1_000_000;
        let event = match step.action {
            SubdegreeAction::Go { pan: p, tilt: t } => {
                pan = v(p);
                tilt = v(t);
                SubdegreeEvent::Sent(Ok(()))
            }
            SubdegreeAction::Read => SubdegreeEvent::Position(Ok(at(pan, tilt, 0.0))),
            SubdegreeAction::Pause(time) => {
                now += time;
                SubdegreeEvent::Paused
            }
            SubdegreeAction::Capture => SubdegreeEvent::Captured(Ok(profiles(pan, tilt))),
            SubdegreeAction::Finish(outcome) => break outcome,
        };
        step = test.advance(event, now, &unit);
    };
    assert!(outcome.is_ok());
    assert_eq!((pan, tilt), (7.0, 8.0));
    assert_eq!(still.len(), 1);
    assert_eq!((still[0].x, still[0].y), (0, 0));
    assert_eq!(rows.len(), 16);
    assert_eq!(rows[1].axis, TestAxis::Pan);
    assert_eq!(v(rows[1].offset), 0.5);
    assert_eq!(v(rows[1].reported_delta), 0.5);
    assert_eq!(rows[1].pixel_shift, 4);
    assert_eq!(rows[15].axis, TestAxis::Tilt);
    assert_eq!(v(rows[15].before), 30.0);
    assert_eq!(v(rows[15].after), 29.0);
    assert_eq!(rows[15].pixel_shift, -4);
}

#[test]
fn a_test_that_fails_brings_the_camera_back() {
    let (mut test, step) = SubdegreeTest::new(&capabilities(), &at(7.0, 8.0, 0.0)).unwrap();
    assert!(matches!(step.action, SubdegreeAction::Go { pan, tilt } if v(pan) == 0.0 && v(tilt) == 30.0));
    test.advance(SubdegreeEvent::Sent(Ok(())), 0, &unit);
    let step = test.advance(SubdegreeEvent::Position(Ok(at(1.0, 29.0, 0.0))), 1, &unit);
    assert!(matches!(step.action, SubdegreeAction::Pause(BASE_SETTLE_TIME)));
    let step = test.advance(SubdegreeEvent::Paused, 2, &unit);
    assert!(matches!(step.action, SubdegreeAction::Capture));
    let step = test.advance(SubdegreeEvent::Captured(Err(FreshFrameError::TimedOut)), 3, &unit);
    assert!(step.restores);
    assert!(matches!(step.action, SubdegreeAction::Go { pan, tilt } if v(pan) == 7.0 && v(tilt) == 8.0));
    let step = test.advance(SubdegreeEvent::Sent(Err("gone".to_owned())), 4, &unit);
    assert!(matches!(
        step.action,
        SubdegreeAction::Finish(Err(SubdegreeError::NoFrame(FreshFrameError::TimedOut)))
    ));
}

#[test]
fn a_base_that_is_not_reached_fails_the_test() {
    let (mut test, _) = SubdegreeTest::new(&capabilities(), &at(7.0, 8.0, 0.0)).unwrap();
    test.advance(SubdegreeEvent::Sent(Ok(())), 0, &unit);
    let blind = Controls { pan: None, tilt: Some(s(30.0)), zoom: None };
    let step = test.advance(SubdegreeEvent::Position(Ok(blind)), BASE_MOVE_TIMEOUT, &unit);
    assert!(step.restores);
    test.advance(SubdegreeEvent::Sent(Ok(())), 0, &unit);
    test.advance(SubdegreeEvent::Position(Ok(at(7.0, 8.0, 0.0))), 0, &unit);
    let step = test.advance(SubdegreeEvent::Paused, 0, &unit);
    match step.action {
        SubdegreeAction::Finish(Err(SubdegreeError::TimedOut { wanted, actual })) => {
            assert_eq!(v(wanted.tilt), 30.0);
            assert_eq!(actual, blind);
        }
        action => panic!("{:?}", action),
    }
    assert_eq!((FRACTIONAL_SETTLE_TIME, STATIONARY_PAUSE), (1_500_000_000, 250_000_000));
}

#[test]
fn an_axis_that_cannot_be_read_is_named() {
    let mut caps = capabilities();
    caps.pan = None;
    let refused = SubdegreeTest::new(&caps, &at(0.0, 0.0, 0.0));
    assert!(matches!(refused, Err(TestAxis::Pan)));
    caps = capabilities();
    caps.tilt = None;
    let refused = SubdegreeTest::new(&caps, &at(0.0, 0.0, 0.0));
    assert!(matches!(refused, Err(TestAxis::Tilt)));
    let (mut test, _) = SubdegreeTest::new(&capabilities(), &at(7.0, 8.0, 0.0)).unwrap();
    let base = || SubdegreeEvent::Position(Ok(at(0.0, 30.0, 0.0)));
    test.advance(SubdegreeEvent::Sent(Ok(())), 0, &unit);
    test.advance(base(), 0, &unit);
    test.advance(SubdegreeEvent::Paused, 0, &unit);
    test.advance(SubdegreeEvent::Captured(Ok(profiles(0.0, 0.0))), 0, &unit);
    test.advance(SubdegreeEvent::Paused, 0, &unit);
    let step = test.advance(SubdegreeEvent::Captured(Ok(profiles(0.0, 0.0))), 0, &unit);
    assert!(step.stationary.is_some());
    test.advance(SubdegreeEvent::Sent(Ok(())), 0, &unit);
    test.advance(base(), 0, &unit);
    test.advance(SubdegreeEvent::Paused, 0, &unit);
    let blind = Controls { pan: None, tilt: Some(s(30.0)), zoom: None };
    let step = test.advance(SubdegreeEvent::Position(Ok(blind)), 0, &unit);
    assert!(step.restores);
    let step = test.advance(SubdegreeEvent::Sent(Err("gone".to_owned())), 0, &unit);
    assert!(matches!(
        step.action,
        SubdegreeAction::Finish(Err(SubdegreeError::Unavailable(TestAxis::Pan)))
    ));
}

#[test]
fn zoom_samples_spread_over_the_range() {
    let fractions = [0.00, 0.05, 0.10, 0.20, 0.30, 0.40, 0.50, 0.60, 0.70, 0.80, 0.90, 1.00];
    for sample in 0..SAMPLE_COUNT {
        assert_eq!(v(sample_fraction(sample)), fractions[sample]);
    }
    let zoom = range(0.0, 4000.0, 10.0, 0.0);
    assert_eq!(v(snap_to_step(s(203.0), &zoom, &unit)), 200.0);
    assert_eq!(v(snap_to_step(s(9999.0), &zoom, &unit)), 4000.0);
    let smooth = range(0.0, 1.0, 0.0, 0.0);
    assert_eq!(v(snap_to_step(s(0.3), &smooth, &unit)), 0.3);
}

#[test]
fn a_zoom_calibration_measures_and_returns() {
    let zoom_range = range(0.0, 11.0, 1.0, 0.0);
    let mut zoom = 4.0_f32;
    let mut now: u128 = 0;
    let (mut calibration, mut step) =
        ZoomCalibration::new(Some(zoom_range), &at(0.0, 0.0, zoom), &unit).unwrap();
    let mut rows = Vec::new();
    let mut restored = false;
    let outcome = loop {
        rows.extend(step.row);
        restored = restored || step.restores;
        now += 1_000_000;
        let event = match step.action {
            ZoomAction::Go(target) => {
                zoom = v(target);
                ZoomEvent::Sent(Ok(()))
            }
            ZoomAction::Read => ZoomEvent::Position(Ok(at(0.0, 0.0, zoom))),
            ZoomAction::Pause(time) => {
                now += time;
                ZoomEvent::Paused
            }
            ZoomAction::Capture => {
                if rows.len() < 3 {
                    ZoomEvent::Captured(Ok(picture(120, 68, 1.0 + zoom * 0.1)))
                } else {
                    ZoomEvent::Captured(Err(FreshFrameError::Undecodable))
                }
            }
            ZoomAction::Finish(outcome) => break outcome,
        };
        step = calibration.advance(event, now, &unit);
    };
    assert!(matches!(outcome, Err(ZoomError::NoFrame(FreshFrameError::Undecodable))));
    assert!(restored);
    assert_eq!(zoom, 4.0);
    assert_eq!(rows.len(), 3);
    assert_eq!((v(rows[0].magnification), v(rows[0].score)), (1.0, 1.0));
    assert_eq!((v(rows[0].percent), v(rows[0].hfov_deg)), (0.0, 72.5));
    assert_eq!(v(rows[1].target), 1.0);
    assert_eq!(v(rows[1].percent), 0.05_f32 * 100.0);
    assert!((v(rows[1].magnification) - 1.1).abs() < 0.06);
    assert_eq!(
        v(rows[1].hfov_deg),
        v(horizontal_fov_for_magnification(rows[1].magnification, &unit))
    );
}

#[test]
fn a_zoom_that_does_not_arrive_times_out() {
    assert!(ZoomCalibration::new(None, &at(0.0, 0.0, 0.0), &unit).is_none());
    assert_eq!(missing_zoom_message(), "Camera does not expose absolute zoom control");
    let zoom_range = range(0.0, 1000.0, 10.0, 0.0);
    let (mut calibration, step) =
        ZoomCalibration::new(Some(zoom_range), &at(0.0, 0.0, 500.0), &unit).unwrap();
    assert!(matches!(step.action, ZoomAction::Go(target) if v(target) == 0.0));
    calibration.advance(ZoomEvent::Sent(Ok(())), 0, &unit);
    let step = calibration.advance(ZoomEvent::Position(Ok(at(0.0, 0.0, 11.0))), 1, &unit);
    assert!(matches!(step.action, ZoomAction::Pause(ZOOM_POLL_INTERVAL)));
    calibration.advance(ZoomEvent::Paused, 2, &unit);
    let late = ZoomEvent::Position(Ok(at(0.0, 0.0, 11.0)));
    let step = calibration.advance(late, ZOOM_MOVE_TIMEOUT, &unit);
    assert!(matches!(step.action, ZoomAction::Go(target) if v(target) == 500.0));
    assert!(step.restores);
    calibration.advance(ZoomEvent::Sent(Ok(())), 0, &unit);
    let step = calibration.advance(ZoomEvent::Position(Ok(at(0.0, 0.0, 495.0))), 1, &unit);
    assert!(matches!(step.action, ZoomAction::Pause(ZOOM_SETTLE_TIME)));
    let step = calibration.advance(ZoomEvent::Paused, 2, &unit);
    match step.action {
        ZoomAction::Finish(Err(ZoomError::TimedOut { target, actual })) => {
            assert_eq!(v(target), 0.0);
            assert_eq!(actual, Some(s(11.0)));
        }
        action => panic!("{:?}", action),
    }
}
