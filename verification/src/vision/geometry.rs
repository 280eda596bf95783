//! What the measures of boxes are where the boxes lie on whole pixels.

use crate::arithmetic::{over, Operation};
use crate::camera::grid::{stands_for, zero_is_zero};
use crate::scalar::{order_is_numeric, Scalar, EPSILON, ZERO};
use crate::vision::detection::{area, center, diagonal, extent, iou, separation, shared_area, Detection};
use crate::whole::{
    countable, exact_on_counts, measures_distances, stands_for_half, whole_numbers_are_compared,
    whole_numbers_are_halves,
};
use vstd::arithmetic::power2::{lemma2_to64, lemma_pow2_adds, lemma_pow2_pos, pow2};
use vstd::prelude::*;

verus! {

/// Pixels of the longest side.
pub const LONGEST_SIDE: i64 = 2048;

/// A box on whole pixels.
pub struct PixelBox {
    pub left: int,
    pub top: int,
    pub right: int,
    pub bottom: int,
}

pub open spec fn lesser(a: int, b: int) -> int {
    if a <= b {
        a
    } else {
        b
    }
}

pub open spec fn greater(a: int, b: int) -> int {
    if a >= b {
        a
    } else {
        b
    }
}

impl PixelBox {
    pub open spec fn wf(self) -> bool {
        &&& 0 <= self.left <= self.right <= LONGEST_SIDE
        &&& 0 <= self.top <= self.bottom <= LONGEST_SIDE
    }

    /// The detection shows this box.
    pub open spec fn of(self, detection: Detection) -> bool {
        &&& stands_for(detection.x1, self.left)
        &&& stands_for(detection.y1, self.top)
        &&& stands_for(detection.x2, self.right)
        &&& stands_for(detection.y2, self.bottom)
    }

    pub open spec fn width(self) -> int {
        self.right - self.left
    }

    pub open spec fn height(self) -> int {
        self.bottom - self.top
    }

    /// How many pixels two boxes share.
    pub open spec fn shared(self, other: PixelBox) -> int {
        greater(0, lesser(self.right, other.right) - greater(self.left, other.left)) * greater(
            0,
            lesser(self.bottom, other.bottom) - greater(self.top, other.top),
        )
    }

    /// How many pixels two boxes cover together.
    pub open spec fn joint(self, other: PixelBox) -> int {
        self.width() * self.height() + other.width() * other.height() - self.shared(other)
    }
}

/// The middle of a box is half of what its edges add up to.
pub proof fn centers_lie_in_the_middle<F: Fn(Operation) -> Scalar>(
    unit: F,
    detection: Detection,
    pixels: PixelBox,
)
    requires
        exact_on_counts(unit),
        pixels.wf(),
        pixels.of(detection),
    ensures
        stands_for_half(center(unit, detection).0, pixels.left + pixels.right),
        stands_for_half(center(unit, detection).1, pixels.top + pixels.bottom),
{
}

/// The distance of two boxes is that of their middles, by Pythagoras: `k` counts
/// halves of a pixel.
pub proof fn separation_is_a_distance<F: Fn(Operation) -> Scalar>(
    unit: F,
    from: Detection,
    to: Detection,
    here: PixelBox,
    there: PixelBox,
    k: int,
)
    requires
        exact_on_counts(unit),
        measures_distances(unit),
        here.wf(),
        here.of(from),
        there.wf(),
        there.of(to),
        0 <= k,
        ({
            let across = (there.left + there.right) - (here.left + here.right);
            let down = (there.top + there.bottom) - (here.top + here.bottom);
            across * across + down * down == k * k
        }),
    ensures
        stands_for_half(separation(unit, from, to), k),
{
    let across = (there.left + there.right) - (here.left + here.right);
    let down = (there.top + there.bottom) - (here.top + here.bottom);
    centers_lie_in_the_middle(unit, from, here);
    centers_lie_in_the_middle(unit, to, there);
    lemma_side(across, down, k);
    assert(countable(k));
}

proof fn lemma_side(across: int, down: int, k: int)
    requires
        -8192 <= across <= 8192,
        -8192 <= down <= 8192,
        0 <= k,
        across * across + down * down == k * k,
    ensures
        k <= 16384,
{
    assert(across * across <= 8192 * 8192) by (nonlinear_arith)
        requires
            -8192 <= across <= 8192,
    ;
    assert(down * down <= 8192 * 8192) by (nonlinear_arith)
        requires
            -8192 <= down <= 8192,
    ;
    assert(k <= 16384) by (nonlinear_arith)
        requires
            0 <= k,
            k * k <= 2 * 8192 * 8192,
    ;
}

/// The diagonal of a box, by Pythagoras.
pub proof fn diagonal_is_the_hypotenuse<F: Fn(Operation) -> Scalar>(
    unit: F,
    detection: Detection,
    pixels: PixelBox,
    k: int,
)
    requires
        exact_on_counts(unit),
        measures_distances(unit),
        pixels.wf(),
        pixels.of(detection),
        0 <= k,
        pixels.width() * pixels.width() + pixels.height() * pixels.height() == k * k,
    ensures
        stands_for_half(diagonal(unit, detection), 2 * k),
{
    let w = pixels.width();
    let h = pixels.height();
    lemma_side(w, h, k);
    let across = crate::arithmetic::minus(unit, detection.x2, detection.x1);
    let down = crate::arithmetic::minus(unit, detection.y2, detection.y1);
    assert(stands_for(across, w));
    assert(stands_for(down, h));
    whole_numbers_are_halves(across, w);
    whole_numbers_are_halves(down, h);
    assert((2 * w) * (2 * w) + (2 * h) * (2 * h) == (2 * k) * (2 * k)) by (nonlinear_arith)
        requires
            w * w + h * h == k * k,
    ;
    assert(countable(2 * k));
}

proof fn lemma_extent<F: Fn(Operation) -> Scalar>(unit: F, low: Scalar, high: Scalar, m: int, n: int)
    requires
        exact_on_counts(unit),
        stands_for(low, m),
        stands_for(high, n),
        0 <= m <= LONGEST_SIDE,
        0 <= n <= LONGEST_SIDE,
    ensures
        stands_for(extent(unit, low, high), greater(0, n - m)),
{
    let distance = crate::arithmetic::minus(unit, high, low);
    assert(stands_for(distance, n - m));
    zero_is_zero();
    whole_numbers_are_compared(distance, Scalar { bits: ZERO }, n - m, 0);
}

proof fn lemma_small_area(w: int, h: int)
    by (nonlinear_arith)
    requires
        0 <= w <= 2048,
        0 <= h <= 2048,
    ensures
        0 <= w * h <= 2048 * 2048,
{
}

/// The overlap of two boxes is the share of the pixels they cover together that
/// both of them cover; zero where they cover none.
pub proof fn overlap_is_a_share<F: Fn(Operation) -> Scalar>(
    unit: F,
    left: Detection,
    right: Detection,
    here: PixelBox,
    there: PixelBox,
)
    requires
        exact_on_counts(unit),
        here.wf(),
        here.of(left),
        there.wf(),
        there.of(right),
    ensures
        here.joint(there) <= 0 ==> iou(unit, left, right) == (Scalar { bits: ZERO }),
        here.joint(there) > 0 ==> exists|shared: Scalar, joint: Scalar|
            {
                &&& stands_for(shared, here.shared(there))
                &&& stands_for(joint, here.joint(there))
                &&& iou(unit, left, right) == #[trigger] over(unit, shared, joint)
            },
{
    whole_numbers_are_compared(left.x1, right.x1, here.left, there.left);
    whole_numbers_are_compared(left.x2, right.x2, here.right, there.right);
    whole_numbers_are_compared(left.y1, right.y1, here.top, there.top);
    whole_numbers_are_compared(left.y2, right.y2, here.bottom, there.bottom);
    lemma_extent(
        unit,
        left.x1.larger(right.x1),
        left.x2.smaller(right.x2),
        greater(here.left, there.left),
        lesser(here.right, there.right),
    );
    lemma_extent(
        unit,
        left.y1.larger(right.y1),
        left.y2.smaller(right.y2),
        greater(here.top, there.top),
        lesser(here.bottom, there.bottom),
    );
    let w = greater(0, lesser(here.right, there.right) - greater(here.left, there.left));
    let h = greater(0, lesser(here.bottom, there.bottom) - greater(here.top, there.top));
    lemma_small_area(w, h);
    assert(stands_for(shared_area(unit, left, right), w * h));
    lemma_extent(unit, left.x1, left.x2, here.left, here.right);
    lemma_extent(unit, left.y1, left.y2, here.top, here.bottom);
    lemma_small_area(here.width(), here.height());
    assert(stands_for(area(unit, left), here.width() * here.height()));
    lemma_extent(unit, right.x1, right.x2, there.left, there.right);
    lemma_extent(unit, right.y1, right.y2, there.top, there.bottom);
    lemma_small_area(there.width(), there.height());
    assert(stands_for(area(unit, right), there.width() * there.height()));
    let both = crate::arithmetic::plus(unit, area(unit, left), area(unit, right));
    assert(stands_for(
        both,
        here.width() * here.height() + there.width() * there.height(),
    ));
    let joint = crate::arithmetic::minus(unit, both, shared_area(unit, left, right));
    assert(stands_for(joint, here.joint(there)));
    lemma_epsilon(joint, here.joint(there));
    if here.joint(there) > 0 {
        assert(iou(unit, left, right) == over(unit, shared_area(unit, left, right), joint));
    }
}

/// A whole number is at most epsilon exactly when it is not positive.
proof fn lemma_epsilon(scalar: Scalar, number: int)
    requires
        stands_for(scalar, number),
    ensures
        scalar.less_equal(Scalar { bits: EPSILON }) <==> number <= 0,
{
    let epsilon = Scalar { bits: EPSILON };
    order_is_numeric(scalar, epsilon);
    assert(epsilon.quanta() == 0x80_0000 * pow2(103));
    lemma2_to64();
    lemma_pow2_adds(23, 103);
    lemma_pow2_adds(23, 126);
    lemma_pow2_pos(126);
    assert(pow2(149) == 0x80_0000 * pow2(126));
    let unit = pow2(149) as int;
    let small = pow2(126) as int;
    assert((number * unit <= small) == (number <= 0)) by (nonlinear_arith)
        requires
            unit == 0x80_0000 * small,
            0 < small,
    ;
}

} // verus!
