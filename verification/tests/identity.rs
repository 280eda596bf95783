use bareeye::arithmetic::Operation;
use bareeye::scalar::Scalar;
use bareeye::vision::detection::{
    detection_center, detection_diagonal, detection_iou, detection_separation, Detection, DetectionKind,
};
use bareeye::vision::identity::{IdentityTracker, IDENTITY_RETENTION};
use std::time::Duration;

fn unit(operation: Operation) -> Scalar {
    let f = |number: Scalar| f32::from_bits(number.bits);
    let result: f32 = match operation {
        Operation::Sum(a, b) => f(a) + f(b),
        Operation::Difference(a, b) => f(a) - f(b),
        Operation::Product(a, b) => f(a) * f(b),
        Operation::Quotient(a, b) => f(a) / f(b),
        Operation::Hypotenuse(a, b) => f(a).hypot(f(b)),
        Operation::FusedProduct(a, b, c) => f(a).mul_add(f(b), f(c)),
        Operation::SquareRoot(a) => f(a).sqrt(),
        Operation::Rounded(a) => f(a).round(),
        Operation::Tangent(a) => f(a).tan(),
        Operation::ArcTangent(a) => f(a).atan(),
        Operation::Radians(a) => f(a).to_radians(),
        Operation::Degrees(a) => f(a).to_degrees(),
        Operation::Count(n) => n as f32,
        Operation::Seconds(nanos) => {
            Duration::new((nanos / 1_000_000_000) as u64, (nanos % 1_000_000_000) as u32).as_secs_f32()
        }
    };
    Scalar { bits: result.to_bits() }
}

fn s(number: f32) -> Scalar {
    Scalar { bits: number.to_bits() }
}

fn v(number: Scalar) -> f32 {
    f32::from_bits(number.bits)
}

const MILLISECOND: u128 = 1_000_000;

fn face(x: f32, y: f32) -> Detection {
    Detection {
        kind: DetectionKind::Face,
        x1: s(x),
        y1: s(y),
        x2: s(x + 100.0),
        y2: s(y + 100.0),
        confidence: s(0.9),
        id: 0,
    }
}

#[test]
fn identity_survives_short_occlusion_by_elapsed_time() {
    let start: u128 = 1_000_000_000;
    let mut tracker = IdentityTracker::new();

    let mut first = vec![face(100.0, 100.0)];
    tracker.assign_at(&mut first, start, &unit);

    let original_id = first[0].id;

    let mut reacquired = vec![face(105.0, 102.0)];
    tracker.assign_at(&mut reacquired, start + IDENTITY_RETENTION - MILLISECOND, &unit);

    assert_eq!(reacquired[0].id, original_id);
}

#[test]
fn identity_expires_after_retention_window() {
    let start: u128 = 1_000_000_000;
    let mut tracker = IdentityTracker::new();

    let mut first = vec![face(100.0, 100.0)];
    tracker.assign_at(&mut first, start, &unit);

    let original_id = first[0].id;

    let mut reacquired = vec![face(100.0, 100.0)];
    tracker.assign_at(&mut reacquired, start + IDENTITY_RETENTION + MILLISECOND, &unit);

    assert_ne!(reacquired[0].id, original_id);
}

#[test]
fn identity_is_kept_up_to_the_end_of_the_window() {
    let mut tracker = IdentityTracker::new();
    let mut first = vec![face(100.0, 100.0)];
    tracker.assign_at(&mut first, 0, &unit);
    let mut second = vec![face(100.0, 100.0)];
    tracker.assign_at(&mut second, IDENTITY_RETENTION, &unit);
    assert_eq!(second[0].id, 1);
    let mut third = vec![face(100.0, 100.0)];
    tracker.assign_at(&mut third, 2 * IDENTITY_RETENTION + 1, &unit);
    assert_eq!(third[0].id, 2);
}

#[test]
fn identities_of_a_frame_differ_and_count_up() {
    let mut tracker = IdentityTracker::new();
    let mut frame = vec![face(0.0, 0.0), face(500.0, 0.0), face(0.0, 500.0)];
    tracker.assign_at(&mut frame, 0, &unit);
    assert_eq!(frame.iter().map(|d| d.id).collect::<Vec<u64>>(), vec![1, 2, 3]);
}

#[test]
fn the_most_alike_pair_is_matched_first() {
    let mut tracker = IdentityTracker::new();
    let mut first = vec![face(0.0, 0.0), face(60.0, 0.0)];
    tracker.assign_at(&mut first, 0, &unit);
    // The left one moved onto the place of the right one; the right one moved on.
    let mut second = vec![face(118.0, 0.0), face(61.0, 0.0)];
    tracker.assign_at(&mut second, MILLISECOND, &unit);
    assert_eq!(second[1].id, 2);
    assert_eq!(second[0].id, 1);
}

#[test]
fn kinds_do_not_share_identities() {
    let mut tracker = IdentityTracker::new();
    let mut first = vec![face(0.0, 0.0)];
    tracker.assign_at(&mut first, 0, &unit);
    let mut person = face(0.0, 0.0);
    person.kind = DetectionKind::Person;
    let mut second = vec![person];
    tracker.assign_at(&mut second, 1, &unit);
    assert_eq!(second[0].id, 2);
}

#[test]
fn a_face_out_of_reach_is_a_new_one() {
    // The diagonal is 141.42, and 1.25 times that is 176.8.
    let mut tracker = IdentityTracker::new();
    let mut first = vec![face(0.0, 0.0)];
    tracker.assign_at(&mut first, 0, &unit);
    let mut within = vec![face(176.0, 0.0)];
    tracker.assign_at(&mut within, 1, &unit);
    assert_eq!(within[0].id, 1);
    let mut beyond = vec![face(353.0, 0.0)];
    tracker.assign_at(&mut beyond, 2, &unit);
    assert_eq!(beyond[0].id, 2);
}

#[test]
fn overlap_is_shared_area_over_joint_area() {
    let left = face(0.0, 0.0);
    let right = face(50.0, 0.0);
    assert_eq!(v(detection_iou(&left, &right, &unit)), 5000.0_f32 / 15000.0_f32);
    assert_eq!(v(detection_iou(&left, &left, &unit)), 1.0);
    assert_eq!(v(detection_iou(&left, &face(300.0, 0.0), &unit)), 0.0);
    let mut empty = face(0.0, 0.0);
    empty.x2 = empty.x1;
    assert_eq!(v(detection_iou(&empty, &empty, &unit)), 0.0);
}

#[test]
fn boxes_have_centers_and_diagonals() {
    let mut detection = face(10.0, 20.0);
    detection.x2 = s(13.0);
    detection.y2 = s(24.0);
    let center = detection_center(&detection, &unit);
    assert_eq!((v(center.0), v(center.1)), (11.5, 22.0));
    assert_eq!(v(detection_diagonal(&detection, &unit)), 5.0);
    assert_eq!(v(detection_separation(&face(0.0, 0.0), &face(3.0, 4.0), &unit)), 5.0);
}

#[test]
fn kinds_have_labels() {
    assert_eq!(DetectionKind::Person.label(), "person");
    assert_eq!(DetectionKind::Face.label(), "face");
}

#[test]
fn newcomers_are_numbered_in_the_order_of_the_frame() {
    let mut tracker = IdentityTracker::new();
    let mut first = vec![face(100.0, 100.0), face(900.0, 100.0)];
    tracker.assign_at(&mut first, 0, &unit);
    assert_eq!(first.iter().map(|face| face.id).collect::<Vec<u64>>(), [1, 2]);
    let mut second = vec![face(3000.0, 0.0), face(905.0, 100.0), face(5000.0, 0.0), face(7000.0, 0.0)];
    tracker.assign_at(&mut second, MILLISECOND, &unit);
    assert_eq!(second.iter().map(|face| face.id).collect::<Vec<u64>>(), [3, 2, 4, 5]);
}

#[test]
fn only_identities_are_written_and_incoming_ones_are_not_read() {
    let frames = [
        vec![face(100.0, 100.0), face(900.0, 100.0)],
        vec![face(910.0, 90.0), face(95.0, 100.0), face(3000.0, 0.0)],
    ];
    let mut plain = IdentityTracker::new();
    let mut named = IdentityTracker::new();
    for frame in frames {
        let mut left = frame.clone();
        let mut right = frame.clone();
        for (index, face) in right.iter_mut().enumerate() {
            face.id = 70 - index as u64;
        }
        plain.assign_at(&mut left, 5, &unit);
        named.assign_at(&mut right, 5, &unit);
        assert_eq!(left, right);
        for (before, after) in frame.iter().zip(&left) {
            assert_eq!(Detection { id: after.id, ..*before }, *after);
        }
    }
}

#[test]
fn a_gone_identity_is_not_given_again() {
    let mut tracker = IdentityTracker::new();
    let mut first = vec![face(100.0, 100.0)];
    tracker.assign_at(&mut first, 0, &unit);
    let mut now = IDENTITY_RETENTION + 1;
    for expected in 2..6 {
        let mut again = vec![face(100.0, 100.0)];
        tracker.assign_at(&mut again, now, &unit);
        assert_eq!(again[0].id, expected);
        now += IDENTITY_RETENTION + 1;
    }
}
