use bareeye::arithmetic::Operation;
use bareeye::camera::capture::{describe_selection, preview_request, StreamConfig};
use bareeye::camera::fresh_frame::{FreshFrame, FreshFrameAction, FreshFrameError, FRAME_TIMEOUT};
use bareeye::camera::telemetry::{FrameInfo, PixelFormat, StreamTelemetry};
use bareeye::meter::{Gauge, RateMeter};
use bareeye::preview::{
    conclude_repair, count_kind, fit_image, place_detection, repair_window, DisplayStats, Placement,
    PreviewQueue, PreviewWorkerStats, PtzPanel, PTZ_BUTTON_COOLDOWN,
};
use bareeye::scalar::Scalar;
use bareeye::vision::detection::{Detection, DetectionKind};
use std::time::Duration;

fn unit(operation: Operation) -> Scalar {
    let f = |number: Scalar| f32::from_bits(number.bits);
    let result: f32 = match operation {
        Operation::Sum(a, b) => f(a) + f(b),
        Operation::Difference(a, b) => f(a) - f(b),
        Operation::Product(a, b) => f(a) * f(b),
        Operation::Quotient(a, b) => f(a) / f(b),
        Operation::Hypotenuse(a, b) => f(a).hypot(f(b)),
        Operation::FusedProduct(a, b, c) => f(a).mul_add(f(b), f(c)),
        Operation::SquareRoot(a) => f(a).sqrt(),
        Operation::Rounded(a) => f(a).round(),
        Operation::Tangent(a) => f(a).tan(),
        Operation::ArcTangent(a) => f(a).atan(),
        Operation::Radians(a) => f(a).to_radians(),
        Operation::Degrees(a) => f(a).to_degrees(),
        Operation::Count(n) => n as f32,
        Operation::Seconds(nanos) => {
            Duration::new((nanos / 1_000_000_000) as u64, (nanos % 1_000_000_000) as u32).as_secs_f32()
        }
    };
    Scalar { bits: result.to_bits() }
}

fn s(number: f32) -> Scalar {
    Scalar { bits: number.to_bits() }
}

fn v(number: Scalar) -> f32 {
    f32::from_bits(number.bits)
}

const MILLISECOND: u128 = 1_000_000;
const SECOND: u128 = 1_000_000_000;

fn frame(width: u32, height: u32, pixel_format: PixelFormat, timestamp: u128) -> FrameInfo {
    FrameInfo { width, height, pixel_format, timestamp }
}

#[test]
fn odd_frames_are_counted() {
    let mut telemetry = StreamTelemetry::new(1920, 1080, PixelFormat::Mjpeg, 0);
    let good = frame(1920, 1080, PixelFormat::Mjpeg, 100 * MILLISECOND);
    telemetry.observe(&good, 1, &unit);
    telemetry.observe(&frame(1280, 1080, PixelFormat::Mjpeg, 180 * MILLISECOND), 2, &unit);
    telemetry.observe(&frame(1920, 720, PixelFormat::Nv12, 260 * MILLISECOND + 1), 3, &unit);
    telemetry.observe(&frame(1920, 1080, PixelFormat::Mjpeg, 260 * MILLISECOND), 4, &unit);
    let snapshot = telemetry.snapshot();
    assert_eq!(snapshot.arrived_frames, 4);
    assert_eq!(snapshot.dimension_anomalies, 2);
    assert_eq!(snapshot.format_anomalies, 1);
    assert_eq!(snapshot.timing_anomalies, 2);
    assert_eq!(v(snapshot.arrival_fps), 0.0);
}

#[test]
fn rates_are_measured_over_a_second() {
    let mut meter = RateMeter::new(0);
    for i in 1..30 {
        meter.tick(i * 33 * MILLISECOND, &unit);
        assert_eq!(v(meter.rate), 0.0);
    }
    meter.tick(SECOND - MILLISECOND, &unit);
    meter.tick(1250 * MILLISECOND, &unit);
    assert_eq!(v(meter.rate), 31.0_f32 / 1.25_f32);
    assert_eq!(meter.window_frames, 0);
    assert_eq!(meter.window_started, 1250 * MILLISECOND);
}

#[test]
fn gauges_keep_the_peak() {
    let mut gauge = Gauge::new();
    gauge.record(10 * MILLISECOND, 33 * MILLISECOND, &unit);
    gauge.record(33 * MILLISECOND, 33 * MILLISECOND, &unit);
    gauge.record(20 * MILLISECOND, 33 * MILLISECOND, &unit);
    assert_eq!(v(gauge.latest_ms), 0.02_f32 * 1000.0);
    assert_eq!(v(gauge.peak_ms), 0.033_f32 * 1000.0);
    assert_eq!(gauge.slow, 1);
}

#[test]
fn the_preview_asks_for_full_hd() {
    let request = preview_request();
    assert_eq!((request.width, request.height, request.framerate), (1920, 1080, 30));
    assert_eq!(request.pixel_format, PixelFormat::Bgra8);
    let selected = StreamConfig { width: 640, height: 480, framerate: 15, pixel_format: PixelFormat::Mjpeg };
    let info = describe_selection(Some(selected)).unwrap();
    assert_eq!((info.width, info.height, info.framerate), (640, 480, 15));
    assert_eq!(info.pixel_format, "Mjpeg");
    assert_eq!(describe_selection(None).err(), Some("camera reported no usable video formats"));
}

#[test]
fn fresh_frames_are_waited_for() {
    let (mut wait, action) = FreshFrame::new(5);
    assert_eq!(action, FreshFrameAction::Discard);
    assert_eq!(wait.missed(4 + FRAME_TIMEOUT), FreshFrameAction::Pause(5 * MILLISECOND));
    assert_eq!(wait.missed(5 + FRAME_TIMEOUT), FreshFrameAction::GiveUp(FreshFrameError::TimedOut));
    for i in 0..9 {
        assert_eq!(wait.undecodable(i), FreshFrameAction::Discard);
    }
    assert_eq!(wait.undecodable(9), FreshFrameAction::GiveUp(FreshFrameError::Undecodable));
    assert_eq!(
        FreshFrameError::TimedOut.message(),
        "Timed out waiting for a fresh camera frame"
    );
    assert_eq!(
        FreshFrameError::Undecodable.message(),
        "Could not decode a fresh MJPEG frame after 10 attempts"
    );
}

#[test]
fn a_full_queue_loses_its_oldest_frame() {
    let mut queue = PreviewQueue::new();
    assert!(!queue.push('a'));
    assert!(!queue.push('b'));
    assert!(queue.push('c'));
    assert_eq!(queue.depth(), 2);
    assert_eq!(queue.take(), Some('b'));
    assert_eq!(queue.take(), Some('c'));
    assert_eq!(queue.take(), None);
}

#[test]
fn the_first_image_in_a_frame_is_worth_another_attempt() {
    let window = |data: &[u8]| repair_window(PixelFormat::Mjpeg, data);
    assert_eq!(window(&[1, 0xFF, 0xD8, 5, 0xFF, 0xD9, 7, 8]), Some((1, 6)));
    assert_eq!(window(&[0xFF, 0xD8, 5, 0xFF, 0xD9, 7, 8]), Some((0, 5)));
    assert_eq!(window(&[9, 0xFF, 0xD8, 5, 6]), Some((1, 5)));
    assert_eq!(window(&[0xFF, 0xD9, 0xFF, 0xD8, 0xFF, 0xD9]), Some((2, 6)));
    assert_eq!(window(&[3, 0xFF, 0xD8]), Some((1, 3)));
    assert_eq!(window(&[0xFF, 0xD8, 5, 0xFF, 0xD9]), None);
    assert_eq!(window(&[0xFF, 0xD8, 5, 6, 7]), None);
    assert_eq!(window(&[1, 2, 3, 0xFF]), None);
    assert_eq!(window(&[]), None);
    assert_eq!(repair_window(PixelFormat::Nv12, &[1, 0xFF, 0xD8, 5, 0xFF, 0xD9]), None);
}

#[test]
fn a_repair_says_what_it_trimmed_or_both_errors() {
    let repaired = conclude_repair("bad".to_owned(), Ok::<u8, String>(7), (1, 6), 8);
    assert_eq!(repaired, (Ok(7), Some((1, 2))));
    let failed = conclude_repair("bad".to_owned(), Err::<u8, String>("worse".to_owned()), (1, 6), 8);
    assert_eq!(
        failed,
        (Err("bad; MJPEG repair attempt also failed: worse".to_owned()), None)
    );
}

#[test]
fn decodes_are_counted() {
    let mut stats = PreviewWorkerStats::new();
    stats.record_decode(40 * MILLISECOND, None, None, &unit);
    stats.record_decode(10 * MILLISECOND, Some((1, 2)), None, &unit);
    stats.record_decode(10 * MILLISECOND, None, Some("bad".to_owned()), &unit);
    stats.record_raw_drop();
    stats.record_push(true);
    stats.record_push(false);
    stats.record_push(true);
    assert_eq!(stats.decode.slow, 1);
    assert_eq!(stats.decode_repairs, 1);
    assert_eq!(stats.last_decode_repair, Some((1, 2)));
    assert_eq!(stats.decode_errors, 1);
    assert_eq!(stats.last_decode_error, Some("bad".to_owned()));
    assert_eq!(stats.raw_queue_drops, 1);
    assert_eq!(stats.queue_drops, 2);
    assert_eq!(stats.pipeline_drops(), 3);
}

#[test]
fn the_screen_is_measured() {
    let mut stats = DisplayStats::new(0);
    stats.begin_pass(49 * MILLISECOND, &unit);
    stats.begin_pass(99 * MILLISECOND, &unit);
    assert_eq!(stats.ui_gap.slow, 1);
    stats.record_upload(Ok(false), 50 * MILLISECOND, 100 * MILLISECOND, &unit);
    assert_eq!(stats.uploaded_frames, 0);
    assert_eq!(stats.texture_update.slow, 0);
    stats.record_upload(Err("lost".to_owned()), 1, 100 * MILLISECOND, &unit);
    assert_eq!(stats.last_error, Some("lost".to_owned()));
    stats.record_upload(Ok(true), 33 * MILLISECOND, 100 * MILLISECOND, &unit);
    assert_eq!(stats.last_error, None);
    assert_eq!(stats.display_gap.slow, 0);
    stats.record_upload(Ok(true), MILLISECOND, 145 * MILLISECOND, &unit);
    assert_eq!(stats.uploaded_frames, 2);
    assert_eq!(stats.texture_update.slow, 1);
    assert_eq!(stats.display_gap.slow, 1);
    assert_eq!(v(stats.display_gap.latest_ms), 0.045_f32 * 1000.0);
    stats.record_upload(Ok(true), MILLISECOND, SECOND, &unit);
    assert_eq!(v(stats.display.rate), 3.0);
}

#[test]
fn buttons_rest_after_a_press() {
    let mut panel = PtzPanel::new();
    assert!(panel.ptz_buttons_enabled(0));
    panel.mark_ptz_button_used(10);
    assert!(!panel.ptz_buttons_enabled(9 + PTZ_BUTTON_COOLDOWN));
    assert!(panel.ptz_buttons_enabled(10 + PTZ_BUTTON_COOLDOWN));
}

fn detection(kind: DetectionKind) -> Detection {
    Detection { kind, x1: s(10.0), y1: s(20.0), x2: s(30.0), y2: s(60.0), confidence: s(0.5), id: 1 }
}

#[test]
fn detections_are_counted_by_kind() {
    let detections = vec![
        detection(DetectionKind::Person),
        detection(DetectionKind::Face),
        detection(DetectionKind::Person),
    ];
    assert_eq!(count_kind(&detections, DetectionKind::Person), 2);
    assert_eq!(count_kind(&detections, DetectionKind::Face), 1);
}

#[test]
fn images_fill_the_space_there_is() {
    let wide = fit_image((s(1600.0), s(450.0)), s(16.0 / 9.0), &unit);
    assert_eq!(v(wide.0), 450.0_f32 * (16.0_f32 / 9.0));
    assert_eq!(v(wide.1), 450.0_f32 * (16.0_f32 / 9.0) / (16.0_f32 / 9.0));
    let tall = fit_image((s(320.0), s(900.0)), s(2.0), &unit);
    assert_eq!((v(tall.0), v(tall.1)), (320.0, 160.0));
    let placement = Placement { left: s(5.0), top: s(7.0), scale_x: s(0.5), scale_y: s(0.25) };
    let place = place_detection(&detection(DetectionKind::Face), &placement, &unit);
    assert_eq!((v(place.0), v(place.1), v(place.2), v(place.3)), (10.0, 12.0, 20.0, 22.0));
}
