use bareeye::arithmetic::Operation;
use bareeye::scalar::Scalar;
use bareeye::tracking::{SelectedTarget, TrackingState, REACQUIRED_DISPLAY_TIME, TARGET_LOST_TIMEOUT};
use bareeye::vision::detection::{Detection, DetectionKind};
use std::time::Duration;

fn unit(operation: Operation) -> Scalar {
    let f = |number: Scalar| f32::from_bits(number.bits);
    let result: f32 = match operation {
        Operation::Sum(a, b) => f(a) + f(b),
        Operation::Difference(a, b) => f(a) - f(b),
        Operation::Product(a, b) => f(a) * f(b),
        Operation::Quotient(a, b) => f(a) / f(b),
        Operation::Hypotenuse(a, b) => f(a).hypot(f(b)),
        Operation::FusedProduct(a, b, c) => f(a).mul_add(f(b), f(c)),
        Operation::SquareRoot(a) => f(a).sqrt(),
        Operation::Rounded(a) => f(a).round(),
        Operation::Tangent(a) => f(a).tan(),
        Operation::ArcTangent(a) => f(a).atan(),
        Operation::Radians(a) => f(a).to_radians(),
        Operation::Degrees(a) => f(a).to_degrees(),
        Operation::Count(n) => n as f32,
        Operation::Seconds(nanos) => {
            Duration::new((nanos / 1_000_000_000) as u64, (nanos % 1_000_000_000) as u32).as_secs_f32()
        }
    };
    Scalar { bits: result.to_bits() }
}

fn s(number: f32) -> Scalar {
    Scalar { bits: number.to_bits() }
}

fn v(number: Scalar) -> f32 {
    f32::from_bits(number.bits)
}

const MILLISECOND: u128 = 1_000_000;

fn face(id: u64, x: f32, y: f32) -> Detection {
    Detection {
        kind: DetectionKind::Face,
        x1: s(x),
        y1: s(y),
        x2: s(x + 100.0),
        y2: s(y + 100.0),
        confidence: s(0.9),
        id,
    }
}

#[test]
fn following_target_moves_through_search_lost_and_reacquired_states() {
    let start: u128 = 5_000_000_000;
    let detection = face(3, 100.0, 100.0);
    let mut target = SelectedTarget::new(detection.clone());

    assert_eq!(target.state(), TrackingState::Locked);

    target.refresh_at(&vec![detection], true, start, &unit);
    assert_eq!(target.state(), TrackingState::Following);

    target.refresh_at(&vec![], true, start + 10 * MILLISECOND, &unit);
    assert_eq!(target.state(), TrackingState::Searching);
    assert!(!target.visible);

    target.refresh_at(&vec![], true, start + TARGET_LOST_TIMEOUT + 20 * MILLISECOND, &unit);
    assert_eq!(target.state(), TrackingState::Lost);

    let reacquired_at = start + TARGET_LOST_TIMEOUT + 30 * MILLISECOND;

    target.refresh_at(&vec![detection], true, reacquired_at, &unit);
    assert_eq!(target.state(), TrackingState::Reacquired);
    assert!(target.visible);

    target.refresh_at(
        &vec![detection],
        true,
        reacquired_at + REACQUIRED_DISPLAY_TIME + MILLISECOND,
        &unit,
    );
    assert_eq!(target.state(), TrackingState::Following);
}

#[test]
fn reacquired_target_returns_to_locked_when_follow_is_disabled() {
    let start: u128 = 5_000_000_000;
    let detection = face(7, 200.0, 150.0);
    let mut target = SelectedTarget::new(detection.clone());

    target.refresh_at(&vec![], false, start, &unit);
    assert_eq!(target.state(), TrackingState::Searching);

    let reacquired_at = start + 100 * MILLISECOND;

    target.refresh_at(&vec![detection], false, reacquired_at, &unit);
    assert_eq!(target.state(), TrackingState::Reacquired);

    target.refresh_at(
        &vec![detection],
        false,
        reacquired_at + REACQUIRED_DISPLAY_TIME + MILLISECOND,
        &unit,
    );
    assert_eq!(target.state(), TrackingState::Locked);
}

#[test]
fn reacquired_state_lasts_for_the_display_time() {
    let detection = face(7, 200.0, 150.0);
    let mut target = SelectedTarget::new(detection);
    target.refresh(&vec![], true, 0, &unit);
    target.refresh(&vec![detection], true, 1000, &unit);
    target.refresh(&vec![detection], true, 1000 + REACQUIRED_DISPLAY_TIME - 1, &unit);
    assert_eq!(target.state(), TrackingState::Reacquired);
    target.refresh(&vec![detection], true, 1000 + REACQUIRED_DISPLAY_TIME, &unit);
    assert_eq!(target.state(), TrackingState::Following);
}

#[test]
fn target_is_lost_exactly_at_the_timeout() {
    let mut target = SelectedTarget::new(face(1, 0.0, 0.0));
    target.refresh_at(&vec![], true, 7, &unit);
    target.refresh_at(&vec![], true, 7 + TARGET_LOST_TIMEOUT - 1, &unit);
    assert_eq!(target.state(), TrackingState::Searching);
    target.refresh_at(&vec![], true, 7 + TARGET_LOST_TIMEOUT, &unit);
    assert_eq!(target.state(), TrackingState::Lost);
}

#[test]
fn identity_wins_over_distance() {
    let mut target = SelectedTarget::new(face(4, 100.0, 100.0));
    let near = face(9, 101.0, 100.0);
    let far = face(4, 900.0, 700.0);
    target.refresh_at(&vec![near, far], true, 0, &unit);
    assert_eq!(target.detection, far);
}

#[test]
fn nearest_of_the_kind_within_reach_is_taken() {
    let mut target = SelectedTarget::new(face(4, 100.0, 100.0));
    let mut person = face(9, 100.0, 100.0);
    person.kind = DetectionKind::Person;
    target.refresh_at(&vec![person, face(5, 140.0, 100.0), face(6, 130.0, 100.0)], true, 0, &unit);
    assert_eq!(target.detection.id, 6);
    assert!(target.visible);
}

#[test]
fn reach_of_a_face_is_a_part_of_its_diagonal() {
    // The diagonal is 141.4, and 0.45 of it is 63.6.
    let mut target = SelectedTarget::new(face(4, 100.0, 100.0));
    target.refresh_at(&vec![face(5, 163.0, 100.0)], true, 0, &unit);
    assert!(target.visible);
    let mut target = SelectedTarget::new(face(4, 100.0, 100.0));
    target.refresh_at(&vec![face(5, 164.0, 100.0)], true, 0, &unit);
    assert!(!target.visible);
    assert_eq!(target.detection.id, 4);
}

#[test]
fn reach_of_a_person_is_larger() {
    let person = |id: u64, x: f32| {
        let mut detection = face(id, x, 100.0);
        detection.kind = DetectionKind::Person;
        detection
    };
    // 0.75 of the diagonal is 106.07.
    let mut target = SelectedTarget::new(person(1, 100.0));
    target.refresh_at(&vec![person(2, 206.0)], true, 0, &unit);
    assert!(target.visible);
    let mut target = SelectedTarget::new(person(1, 100.0));
    target.refresh_at(&vec![person(2, 207.0)], true, 0, &unit);
    assert!(!target.visible);
}

#[test]
fn states_have_labels() {
    assert_eq!(TrackingState::Locked.label(), "LOCKED");
    assert_eq!(TrackingState::Following.label(), "FOLLOWING");
    assert_eq!(TrackingState::Searching.label(), "SEARCHING");
    assert_eq!(TrackingState::Lost.label(), "LOST");
    assert_eq!(TrackingState::Reacquired.label(), "REACQUIRED");
}
