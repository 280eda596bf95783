//! Detected people and faces, and how far apart two of them are.

use crate::arithmetic::{
    computes, difference, hypot, hypotenuse, minus, over, plus, product, quotient, sum, times,
    Operation,
};
use crate::scalar::{Scalar, EPSILON, HALF, ZERO};
use vstd::prelude::*;

verus! {

/// What a detector looks for.
#[derive(Copy, Clone, Debug, Eq, PartialEq, Structural)]
pub enum DetectionKind {
    Person,
    Face,
}

impl DetectionKind {
    /// What the kind is called.
    pub open spec fn name(self) -> Seq<char> {
        match self {
            DetectionKind::Person => "person"@,
            DetectionKind::Face => "face"@,
        }
    }

    pub fn label(self) -> (r: &'static str)
        ensures
            r@ == self.name(),
    {
        match self {
            DetectionKind::Person => "person",
            DetectionKind::Face => "face",
        }
    }
}

/// A box in source pixels, with the identity it was given.
#[derive(Copy, Clone, Debug, Eq, PartialEq, Structural)]
pub struct Detection {
    pub kind: DetectionKind,
    pub x1: Scalar,
    pub y1: Scalar,
    pub x2: Scalar,
    pub y2: Scalar,
    pub confidence: Scalar,
    pub id: u64,
}

/// Middle of the box.
pub open spec fn center<F: Fn(Operation) -> Scalar>(unit: F, detection: Detection) -> (
    Scalar,
    Scalar,
) {
    (
        times(unit, plus(unit, detection.x1, detection.x2), Scalar { bits: HALF }),
        times(unit, plus(unit, detection.y1, detection.y2), Scalar { bits: HALF }),
    )
}

pub fn detection_center<F: Fn(Operation) -> Scalar>(detection: &Detection, unit: &F) -> (r: (
    Scalar,
    Scalar,
))
    requires
        computes(*unit),
    ensures
        r == center(*unit, *detection),
{
    let half = Scalar::from_bits(HALF);
    (
        product(unit, sum(unit, detection.x1, detection.x2), half),
        product(unit, sum(unit, detection.y1, detection.y2), half),
    )
}

/// Distance between the middles of two boxes, seen from `from`.
pub open spec fn separation<F: Fn(Operation) -> Scalar>(unit: F, from: Detection, to: Detection) -> Scalar {
    hypot(
        unit,
        minus(unit, center(unit, to).0, center(unit, from).0),
        minus(unit, center(unit, to).1, center(unit, from).1),
    )
}

pub fn detection_separation<F: Fn(Operation) -> Scalar>(
    from: &Detection,
    to: &Detection,
    unit: &F,
) -> (r: Scalar)
    requires
        computes(*unit),
    ensures
        r == separation(*unit, *from, *to),
{
    let (from_x, from_y) = detection_center(from, unit);
    let (to_x, to_y) = detection_center(to, unit);
    hypotenuse(unit, difference(unit, to_x, from_x), difference(unit, to_y, from_y))
}

/// Length of the box's diagonal.
pub open spec fn diagonal<F: Fn(Operation) -> Scalar>(unit: F, detection: Detection) -> Scalar {
    hypot(
        unit,
        minus(unit, detection.x2, detection.x1),
        minus(unit, detection.y2, detection.y1),
    )
}

pub fn detection_diagonal<F: Fn(Operation) -> Scalar>(detection: &Detection, unit: &F) -> (r: Scalar)
    requires
        computes(*unit),
    ensures
        r == diagonal(*unit, *detection),
{
    hypotenuse(
        unit,
        difference(unit, detection.x2, detection.x1),
        difference(unit, detection.y2, detection.y1),
    )
}

/// Distance from `low` up to `high`, or nothing.
pub open spec fn extent<F: Fn(Operation) -> Scalar>(unit: F, low: Scalar, high: Scalar) -> Scalar {
    minus(unit, high, low).larger(Scalar { bits: ZERO })
}

fn detection_extent<F: Fn(Operation) -> Scalar>(low: Scalar, high: Scalar, unit: &F) -> (r: Scalar)
    requires
        computes(*unit),
    ensures
        r == extent(*unit, low, high),
{
    difference(unit, high, low).max(Scalar::from_bits(ZERO))
}

/// Area of the box.
pub open spec fn area<F: Fn(Operation) -> Scalar>(unit: F, detection: Detection) -> Scalar {
    times(
        unit,
        extent(unit, detection.x1, detection.x2),
        extent(unit, detection.y1, detection.y2),
    )
}

/// Area that two boxes share.
pub open spec fn shared_area<F: Fn(Operation) -> Scalar>(
    unit: F,
    left: Detection,
    right: Detection,
) -> Scalar {
    times(
        unit,
        extent(unit, left.x1.larger(right.x1), left.x2.smaller(right.x2)),
        extent(unit, left.y1.larger(right.y1), left.y2.smaller(right.y2)),
    )
}

/// Share of the joint area that both boxes cover; zero where there is hardly
/// any area.
pub open spec fn iou<F: Fn(Operation) -> Scalar>(unit: F, left: Detection, right: Detection) -> Scalar {
    let shared = shared_area(unit, left, right);
    let joint = minus(unit, plus(unit, area(unit, left), area(unit, right)), shared);
    if joint.less_equal(Scalar { bits: EPSILON }) {
        Scalar { bits: ZERO }
    } else {
        over(unit, shared, joint)
    }
}

pub fn detection_iou<F: Fn(Operation) -> Scalar>(
    left: &Detection,
    right: &Detection,
    unit: &F,
) -> (r: Scalar)
    requires
        computes(*unit),
    ensures
        r == iou(*unit, *left, *right),
{
    let width = detection_extent(left.x1.max(right.x1), left.x2.min(right.x2), unit);
    let height = detection_extent(left.y1.max(right.y1), left.y2.min(right.y2), unit);
    let shared = product(unit, width, height);
    let left_area = product(
        unit,
        detection_extent(left.x1, left.x2, unit),
        detection_extent(left.y1, left.y2, unit),
    );
    let right_area = product(
        unit,
        detection_extent(right.x1, right.x2, unit),
        detection_extent(right.y1, right.y2, unit),
    );
    let joint = difference(unit, sum(unit, left_area, right_area), shared);
    if joint.at_most(Scalar::from_bits(EPSILON)) {
        Scalar::from_bits(ZERO)
    } else {
        quotient(unit, shared, joint)
    }
}

} // verus!
