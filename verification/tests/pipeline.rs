use bareeye::arithmetic::Operation;
use bareeye::camera::controls::Axis;
use bareeye::pipeline::{Decode, PreviewPipeline};
use bareeye::preview::{place_image, PtzRequest};
use bareeye::scalar::Scalar;
use bareeye::vision::letterbox::RgbaImage;
use bareeye::vision::worker::{VisionInput, VisionWorker};
use std::time::Duration;

fn unit(operation: Operation) -> Scalar {
    let f = |number: Scalar| f32::from_bits(number.bits);
    let result: f32 = match operation {
        Operation::Sum(a, b) => f(a) + f(b),
        Operation::Difference(a, b) => f(a) - f(b),
        Operation::Product(a, b) => f(a) * f(b),
        Operation::Quotient(a, b) => f(a) / f(b),
        Operation::Hypotenuse(a, b) => f(a).hypot(f(b)),
        Operation::FusedProduct(a, b, c) => f(a).mul_add(f(b), f(c)),
        Operation::SquareRoot(a) => f(a).sqrt(),
        Operation::Rounded(a) => f(a).round(),
        Operation::Tangent(a) => f(a).tan(),
        Operation::ArcTangent(a) => f(a).atan(),
        Operation::Radians(a) => f(a).to_radians(),
        Operation::Degrees(a) => f(a).to_degrees(),
        Operation::Count(n) => n as f32,
        Operation::Seconds(nanos) => {
            Duration::new((nanos / 1_000_000_000) as u64, (nanos % 1_000_000_000) as u32).as_secs_f32()
        }
    };
    Scalar { bits: result.to_bits() }
}

fn s(number: f32) -> Scalar {
    Scalar { bits: number.to_bits() }
}

fn v(number: Scalar) -> f32 {
    f32::from_bits(number.bits)
}

fn picture(number: u8) -> RgbaImage {
    RgbaImage { width: 1, height: 1, rgba: vec![number; 4] }
}

fn good(number: u8) -> Decode<u8> {
    Decode { result: Ok((number, picture(number))), repair: None, time: 1 }
}

fn bad(text: &str) -> Decode<u8> {
    Decode { result: Err(text.to_owned()), repair: None, time: 40_000_000 }
}

fn latest(input: &VisionInput) -> Option<u8> {
    input.latest_frame.as_ref().map(|frame| frame.rgba[0])
}

#[test]
fn decoded_frames_add_up() {
    let (mut worker, _) = VisionWorker::spawn();
    let mut pipeline: PreviewPipeline<u8> = PreviewPipeline::new();
    assert!(pipeline.can_count());
    assert_eq!(pipeline.take(), None);
    let mut shown = Vec::new();
    for number in 1..=7 {
        pipeline.take_decoded(good(number), worker.input(), &unit);
        assert_eq!(latest(worker.input()), Some(number));
        assert_eq!(worker.input().replaced_frames, u64::from(number) - 1);
        if number % 3 == 0 {
            shown.extend(pipeline.take());
        }
    }
    assert_eq!(shown, [2, 5]);
    assert_eq!(pipeline.depth(), 2);
    assert_eq!(pipeline.stats().queue_drops, 3);
    assert_eq!(7, shown.len() as u64 + pipeline.depth() as u64 + pipeline.stats().queue_drops);
    assert_eq!((pipeline.take(), pipeline.take(), pipeline.take()), (Some(6), Some(7), None));
}

#[test]
fn a_frame_that_fails_to_decode_goes_nowhere() {
    let (mut worker, _) = VisionWorker::spawn();
    let mut pipeline: PreviewPipeline<u8> = PreviewPipeline::new();
    pipeline.take_decoded(bad("torn"), worker.input(), &unit);
    pipeline.miss();
    assert_eq!(latest(worker.input()), None);
    assert!(!worker.input().frame_signalled);
    assert_eq!(pipeline.depth(), 0);
    assert_eq!(pipeline.stats().decode_errors, 1);
    assert_eq!(pipeline.stats().last_decode_error.as_deref(), Some("torn"));
    assert_eq!(pipeline.stats().decode.slow, 1);
    assert_eq!(pipeline.stats().raw_queue_drops, 1);
    let repaired = Decode { repair: Some((3, 4)), ..good(9) };
    pipeline.take_decoded(repaired, worker.input(), &unit);
    assert_eq!(pipeline.stats().decode_repairs, 1);
    assert_eq!(pipeline.stats().last_decode_repair, Some((3, 4)));
    assert_eq!(pipeline.stats().decode_errors, 1);
    assert_eq!(pipeline.take(), Some(9));
}

#[test]
fn an_image_is_scaled_to_what_it_fills() {
    let placement = place_image((s(3.0), s(4.0)), (s(960.0), s(270.0)), (1920, 1080), &unit);
    assert_eq!((v(placement.left), v(placement.top)), (3.0, 4.0));
    assert_eq!((v(placement.scale_x), v(placement.scale_y)), (0.5, 0.25));
}

#[test]
fn requests_move_one_axis_or_return_to_the_defaults() {
    assert_eq!(PtzRequest::Left.axis(), Some(Axis::Pan));
    assert_eq!(PtzRequest::Right.axis(), Some(Axis::Pan));
    assert_eq!(PtzRequest::Up.axis(), Some(Axis::Tilt));
    assert_eq!(PtzRequest::Down.axis(), Some(Axis::Tilt));
    assert_eq!(PtzRequest::ZoomIn.axis(), Some(Axis::Zoom));
    assert_eq!(PtzRequest::ZoomOut.axis(), Some(Axis::Zoom));
    assert_eq!(PtzRequest::Center.axis(), None);
}
