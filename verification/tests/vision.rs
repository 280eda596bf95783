use bareeye::arithmetic::Operation;
use bareeye::scalar::Scalar;
use bareeye::vision::detection::DetectionKind;
use bareeye::vision::letterbox::{
    decode_detections, input_values, preprocess, FrameError, Letterbox, RgbaImage, LETTERBOX_LEVEL, MODEL_HEIGHT,
    MODEL_WIDTH, PLANE_SIZE,
};
use bareeye::vision::smoke_test::{
    is_end_to_end_shape, refusal_message, Benchmark, SmokeAction, SmokeStage, SmokeTest, BENCHMARK_RUNS,
};
use bareeye::vision::worker::{
    read_answer, DetectorOutput, VisionAction, VisionError, VisionEvent, VisionWorker,
    FACE_CONFIDENCE_THRESHOLD, PERSON_CONFIDENCE_THRESHOLD,
};
use std::time::Duration;

fn unit(operation: Operation) -> Scalar {
    let f = |number: Scalar| f32::from_bits(number.bits);
    let result: f32 = match operation {
        Operation::Sum(a, b) => f(a) + f(b),
        Operation::Difference(a, b) => f(a) - f(b),
        Operation::Product(a, b) => f(a) * f(b),
        Operation::Quotient(a, b) => f(a) / f(b),
        Operation::Hypotenuse(a, b) => f(a).hypot(f(b)),
        Operation::FusedProduct(a, b, c) => f(a).mul_add(f(b), f(c)),
        Operation::SquareRoot(a) => f(a).sqrt(),
        Operation::Rounded(a) => f(a).round(),
        Operation::Tangent(a) => f(a).tan(),
        Operation::ArcTangent(a) => f(a).atan(),
        Operation::Radians(a) => f(a).to_radians(),
        Operation::Degrees(a) => f(a).to_degrees(),
        Operation::Count(n) => n as f32,
        Operation::Seconds(nanos) => {
            Duration::new((nanos / 1_000_000_000) as u64, (nanos % 1_000_000_000) as u32).as_secs_f32()
        }
    };
    Scalar { bits: result.to_bits() }
}

fn s(number: f32) -> Scalar {
    Scalar { bits: number.to_bits() }
}

fn v(number: Scalar) -> f32 {
    f32::from_bits(number.bits)
}

fn gradient(width: usize, height: usize) -> RgbaImage {
    let mut rgba = Vec::new();
    for y in 0..height {
        for x in 0..width {
            rgba.push((x % 251) as u8);
            rgba.push((y % 241) as u8);
            rgba.push(((x + 3 * y) % 239) as u8);
            rgba.push(255);
        }
    }
    RgbaImage { width, height, rgba }
}

/// Scales by filling a canvas of bars, as a detector expects it.
fn letterboxed(image: &RgbaImage) -> (Vec<u8>, f32, usize, usize) {
    let (w, h) = (image.width, image.height);
    let scale = (640.0_f32 / w as f32).min(640.0_f32 / h as f32);
    let rw = ((w as f32 * scale).round() as usize).clamp(1, 640);
    let rh = ((h as f32 * scale).round() as usize).clamp(1, 640);
    let (px, py) = ((640 - rw) / 2, (640 - rh) / 2);
    let mut levels = vec![114_u8; 3 * 640 * 640];
    for y in 0..rh {
        for x in 0..rw {
            let source = ((y * h / rh) * w + x * w / rw) * 4;
            for plane in 0..3 {
                levels[plane * 640 * 640 + (py + y) * 640 + px + x] = image.rgba[source + plane];
            }
        }
    }
    (levels, scale, px, py)
}

#[test]
fn frames_are_fitted_between_bars() {
    for (width, height) in [(1920, 1080), (640, 640), (100, 333), (1, 2000), (7, 5)] {
        let image = gradient(width, height);
        let (expected, scale, pad_x, pad_y) = letterboxed(&image);
        let (levels, letterbox) = preprocess(&image, &unit).unwrap();
        assert!(levels == expected);
        assert_eq!(v(letterbox.scale), scale);
        assert_eq!(v(letterbox.pad_x), pad_x as f32);
        assert_eq!(v(letterbox.pad_y), pad_y as f32);
        assert_eq!(letterbox.source_width, width);
        assert_eq!(letterbox.source_height, height);
    }
    assert_eq!(MODEL_WIDTH * MODEL_HEIGHT, PLANE_SIZE);
    assert_eq!(LETTERBOX_LEVEL as f32 / 255.0, 114.0_f32 / 255.0);
}

#[test]
fn frames_without_pixels_or_bytes_are_refused() {
    let empty = RgbaImage { width: 0, height: 5, rgba: vec![] };
    assert_eq!(preprocess(&empty, &unit).err(), Some(FrameError::Empty));
    let empty = RgbaImage { width: 5, height: 0, rgba: vec![] };
    assert_eq!(preprocess(&empty, &unit).err(), Some(FrameError::Empty));
    let mut short = gradient(4, 4);
    short.rgba.pop();
    assert_eq!(preprocess(&short, &unit).err(), Some(FrameError::Truncated));
    let huge = RgbaImage { width: usize::MAX, height: usize::MAX, rgba: vec![0; 16] };
    assert_eq!(preprocess(&huge, &unit).err(), Some(FrameError::Truncated));
    assert_eq!(FrameError::Empty.message(), "Vision received an empty image");
    assert_eq!(FrameError::Truncated.message(), "Vision image buffer is smaller than expected");
}

fn full_hd() -> Letterbox {
    Letterbox {
        scale: s(1.0 / 3.0),
        pad_x: s(0.0),
        pad_y: s(140.0),
        source_width: 1920,
        source_height: 1080,
    }
}

fn row(x1: f32, y1: f32, x2: f32, y2: f32, confidence: f32, class: f32) -> Vec<Scalar> {
    vec![s(x1), s(y1), s(x2), s(y2), s(confidence), s(class)]
}

#[test]
fn rows_become_detections_the_surest_first() {
    let data = [
        row(10.0, 150.0, 110.0, 250.0, 0.5, 0.0),
        row(20.0, 160.0, 120.0, 260.0, 0.9, 0.4),
        row(30.0, 170.0, 130.0, 270.0, 0.9, -0.4),
        row(30.0, 170.0, 130.0, 270.0, 0.24, 0.0),
        row(30.0, 170.0, 130.0, 270.0, 0.9, 1.0),
        row(30.0, 170.0, 30.0, 270.0, 0.9, 0.0),
        row(30.0, 270.0, 40.0, 170.0, 0.9, 0.0),
        vec![s(1.0), s(2.0)],
    ]
    .concat();
    let found = decode_detections(&data, &full_hd(), DetectionKind::Face, s(0.25), 6, &unit);
    assert_eq!(found.len(), 3);
    let scale = 1.0_f32 / 3.0;
    assert_eq!(v(found[0].x1), 20.0 / scale);
    assert_eq!(v(found[0].y1), (160.0 - 140.0) / scale);
    assert_eq!(v(found[0].x2), 120.0 / scale);
    assert_eq!(v(found[1].x1), 30.0 / scale);
    assert_eq!(v(found[2].confidence), 0.5);
    assert!(found.iter().all(|d| d.kind == DetectionKind::Face && d.id == 0));
}

#[test]
fn boxes_are_cut_to_the_frame() {
    let data = row(-50.0, 100.0, 900.0, 900.0, 0.8, 0.0);
    let found = decode_detections(&data, &full_hd(), DetectionKind::Person, s(0.25), 6, &unit);
    assert_eq!(v(found[0].x1), 0.0);
    assert_eq!(v(found[0].y1), 0.0);
    assert_eq!(v(found[0].x2), 1920.0);
    assert_eq!(v(found[0].y2), 1080.0);
}

#[test]
fn wider_rows_are_skipped_over() {
    let mut data = row(10.0, 150.0, 110.0, 250.0, 0.5, 0.0);
    data.push(s(77.0));
    data.extend(row(20.0, 160.0, 120.0, 260.0, 0.6, 0.0));
    data.push(s(78.0));
    let found = decode_detections(&data, &full_hd(), DetectionKind::Person, s(0.25), 7, &unit);
    assert_eq!(found.len(), 2);
    assert_eq!(v(found[0].confidence), 0.6);
}

#[test]
fn thresholds_are_a_quarter() {
    assert_eq!(f32::from_bits(PERSON_CONFIDENCE_THRESHOLD), 0.25);
    assert_eq!(f32::from_bits(FACE_CONFIDENCE_THRESHOLD), 0.25);
}

#[test]
fn answers_of_another_shape_are_refused() {
    let read = |shape: Vec<i64>| {
        let output = DetectorOutput { shape, data: row(10.0, 150.0, 110.0, 250.0, 0.5, 0.0) };
        read_answer(Ok(Some(output)), &full_hd(), DetectionKind::Face, &unit)
    };
    for shape in [vec![], vec![1, 300], vec![2, 300, 6], vec![1, 299, 6], vec![1, 300, 5], vec![1, 300, 6, 1]] {
        match read(shape.clone()) {
            Err(VisionError::UnexpectedShape(DetectionKind::Face, found)) => assert_eq!(found, shape),
            other => panic!("{:?}", other),
        }
    }
    assert_eq!(read(vec![1, 300, 6]).unwrap().len(), 1);
    assert_eq!(read(vec![1, 300, i64::MAX]).unwrap().len(), 0);
    let nothing = read_answer(Ok(None), &full_hd(), DetectionKind::Person, &unit);
    assert!(matches!(nothing, Err(VisionError::NoOutputs(DetectionKind::Person))));
    let failed = read_answer(Err("oops".to_owned()), &full_hd(), DetectionKind::Person, &unit);
    assert!(matches!(failed, Err(VisionError::Session(text)) if text == "oops"));
}

fn started() -> VisionWorker {
    let (mut worker, action) = VisionWorker::spawn();
    assert!(matches!(action, VisionAction::CreateSession(DetectionKind::Person)));
    let action = worker.advance(VisionEvent::SessionCreated(Ok(())), 0, &unit);
    assert!(matches!(action, VisionAction::CreateSession(DetectionKind::Face)));
    let action = worker.advance(VisionEvent::SessionCreated(Ok(())), 0, &unit);
    assert!(matches!(action, VisionAction::WarmUp(DetectionKind::Person)));
    let action = worker.advance(VisionEvent::WarmedUp(Ok(())), 0, &unit);
    assert!(matches!(action, VisionAction::WarmUp(DetectionKind::Face)));
    assert!(!worker.snapshot().ready);
    let action = worker.advance(VisionEvent::WarmedUp(Ok(())), 0, &unit);
    assert!(matches!(action, VisionAction::Receive));
    assert!(worker.snapshot().ready);
    worker
}

fn answer(rows: Vec<Vec<Scalar>>) -> Result<Option<DetectorOutput>, String> {
    Ok(Some(DetectorOutput { shape: vec![1, 300, 6], data: rows.concat() }))
}

#[test]
fn a_frame_is_looked_at_twice_and_shown() {
    let mut worker = started();
    worker.input().submit(gradient(3, 2));
    let action = worker.advance(VisionEvent::Signalled, 0, &unit);
    assert!(matches!(action, VisionAction::Preprocess(frame) if frame.width == 3));
    let event = VisionEvent::Preprocessed { result: Ok(full_hd()), elapsed: 2_000_000 };
    assert!(matches!(worker.advance(event, 0, &unit), VisionAction::Detect(DetectionKind::Person)));
    let event = VisionEvent::Detected {
        result: answer(vec![row(10.0, 150.0, 110.0, 250.0, 0.5, 0.0)]),
        elapsed: 3_000_000,
    };
    assert!(matches!(worker.advance(event, 0, &unit), VisionAction::Detect(DetectionKind::Face)));
    let event = VisionEvent::Detected {
        result: answer(vec![row(20.0, 150.0, 60.0, 190.0, 0.7, 0.0)]),
        elapsed: 4_000_000,
    };
    assert!(matches!(worker.advance(event, 0, &unit), VisionAction::Receive));
    let snapshot = worker.snapshot();
    assert_eq!(snapshot.processed_frames, 1);
    assert_eq!(snapshot.detections.len(), 2);
    assert_eq!(snapshot.detections[0].kind, DetectionKind::Person);
    assert_eq!(snapshot.detections[1].kind, DetectionKind::Face);
    assert_eq!((snapshot.detections[0].id, snapshot.detections[1].id), (1, 2));
    assert_eq!(v(snapshot.preprocess_ms), 0.002_f32 * 1000.0);
    assert_eq!(v(snapshot.inference_ms), 0.003_f32 * 1000.0);
    assert_eq!(v(snapshot.face_inference_ms), 0.004_f32 * 1000.0);
    assert!(snapshot.last_error.is_none());
    // A frame that fails keeps the picture.
    worker.input().submit(gradient(3, 2));
    worker.advance(VisionEvent::Signalled, 0, &unit);
    let event = VisionEvent::Preprocessed { result: Err(FrameError::Empty), elapsed: 1 };
    assert!(matches!(worker.advance(event, 0, &unit), VisionAction::Receive));
    let snapshot = worker.snapshot();
    assert!(matches!(snapshot.last_error, Some(VisionError::Frame(FrameError::Empty))));
    assert_eq!(snapshot.detections.len(), 2);
    assert_eq!(snapshot.processed_frames, 1);
    assert!(snapshot.ready);
}

#[test]
fn a_detector_that_fails_leaves_its_error() {
    let mut worker = started();
    worker.input().submit(gradient(3, 2));
    worker.advance(VisionEvent::Signalled, 0, &unit);
    worker.advance(VisionEvent::Preprocessed { result: Ok(full_hd()), elapsed: 1 }, 0, &unit);
    let event = VisionEvent::Detected { result: Ok(None), elapsed: 1 };
    assert!(matches!(worker.advance(event, 0, &unit), VisionAction::Receive));
    assert!(matches!(
        worker.snapshot().last_error,
        Some(VisionError::NoOutputs(DetectionKind::Person))
    ));
}

#[test]
fn the_newest_frame_replaces_one_that_waits() {
    let mut worker = started();
    worker.input().submit(gradient(1, 1));
    worker.input().submit(gradient(2, 1));
    worker.input().submit(gradient(3, 1));
    assert_eq!(worker.snapshot().replaced_frames, 2);
    let action = worker.advance(VisionEvent::Signalled, 0, &unit);
    assert!(matches!(action, VisionAction::Preprocess(frame) if frame.width == 3));
    assert!(worker.input().next_signal().is_none());
}

#[test]
fn shutting_down_comes_behind_a_waiting_frame() {
    let mut worker = started();
    worker.input().submit(gradient(1, 1));
    worker.input().shut_down();
    assert!(matches!(
        worker.advance(VisionEvent::Signalled, 0, &unit),
        VisionAction::Preprocess(_)
    ));
    worker.advance(VisionEvent::Preprocessed { result: Err(FrameError::Empty), elapsed: 0 }, 0, &unit);
    worker.input().submit(gradient(1, 1));
    assert!(matches!(worker.advance(VisionEvent::Signalled, 0, &unit), VisionAction::Stop));
}

#[test]
fn a_session_that_fails_ends_the_worker() {
    let (mut worker, _) = VisionWorker::spawn();
    worker.advance(VisionEvent::SessionCreated(Ok(())), 0, &unit);
    let action = worker.advance(VisionEvent::SessionCreated(Err("no model".to_owned())), 0, &unit);
    assert!(matches!(action, VisionAction::Stop));
    let snapshot = worker.snapshot();
    assert!(!snapshot.ready);
    assert!(matches!(snapshot.last_error, Some(VisionError::Session(text)) if text == "no model"));
    let (mut worker, _) = VisionWorker::spawn();
    worker.advance(VisionEvent::SessionCreated(Ok(())), 0, &unit);
    worker.advance(VisionEvent::SessionCreated(Ok(())), 0, &unit);
    let action = worker.advance(VisionEvent::WarmedUp(Err("cold".to_owned())), 0, &unit);
    assert!(matches!(action, VisionAction::Stop));
}

#[test]
fn a_trial_run_keeps_its_times() {
    assert_eq!(BENCHMARK_RUNS, 10);
    let mut benchmark = Benchmark::new();
    assert_eq!(benchmark.minimum, None);
    for time in [30, 10, 20] {
        benchmark.record(time);
    }
    assert_eq!(benchmark, Benchmark { runs: 3, total: 60, minimum: Some(10), maximum: 30 });
    assert!(is_end_to_end_shape(&vec![1, 300, 6]));
    assert!(!is_end_to_end_shape(&vec![1, 300, 7]));
    assert!(!is_end_to_end_shape(&vec![1, 300]));
    assert_eq!(refusal_message(), "YOLO model returned no outputs");
}

#[test]
fn a_trial_run_warms_up_once_and_measures_ten_times() {
    let (mut test, action) = SmokeTest::new();
    assert_eq!(action, SmokeAction::WarmUp);
    let mut action = test.advance(1, 9_000);
    for run in 1..=10 {
        assert_eq!(action, SmokeAction::Measure(run));
        action = test.advance(2, 100 + u128::from(run));
    }
    let benchmark = Benchmark { runs: 10, total: 1_055, minimum: Some(101), maximum: 110 };
    assert_eq!(action, SmokeAction::Report(benchmark));
    assert_eq!(test.stage, SmokeStage::Ended);

    let (mut test, _) = SmokeTest::new();
    assert_eq!(test.advance(0, 5), SmokeAction::Refuse);
    let (mut test, _) = SmokeTest::new();
    test.advance(1, 5);
    test.advance(1, 5);
    assert_eq!(test.advance(0, 5), SmokeAction::Refuse);
}

#[test]
fn levels_become_parts_of_the_highest() {
    let values = input_values(&vec![0, 51, LETTERBOX_LEVEL, 255], &unit);
    let expected = [0.0, 51.0 / 255.0, 114.0 / 255.0, 1.0].map(|value: f32| value.to_bits());
    assert_eq!(values.iter().map(|value| value.bits).collect::<Vec<u32>>(), expected);
}

#[test]
fn vision_errors_have_words() {
    let words = |error: VisionError| error.message();
    assert_eq!(
        words(VisionError::Frame(FrameError::Empty)),
        "Vision received an empty image"
    );
    assert_eq!(
        words(VisionError::Frame(FrameError::Truncated)),
        "Vision image buffer is smaller than expected"
    );
    assert_eq!(
        words(VisionError::Session("person warm-up failed: no".to_owned())),
        "person warm-up failed: no"
    );
    assert_eq!(
        words(VisionError::NoOutputs(DetectionKind::Face)),
        "face detector returned no outputs"
    );
    let shape = vec![1, -20, 300, i64::MIN, 0];
    assert_eq!(
        words(VisionError::UnexpectedShape(DetectionKind::Face, shape.clone())),
        format!("Unexpected face output shape: {shape:?}")
    );
    assert_eq!(
        words(VisionError::UnexpectedShape(DetectionKind::Person, vec![])),
        "Unexpected person output shape: []"
    );
}
