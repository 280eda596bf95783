//! How much larger one image shows the middle of another, found by comparing
//! brightness on a grid.

use crate::arithmetic::{
    computes, count_of, counted, difference, minus, over, plus, product, quotient, root, square_root,
    sum, times, Operation,
};
use crate::camera::profile::{luminance, pixel_luma};
use crate::camera::grid::{stands_for, whole_numbers_are_ordered, zero_is_zero};
use crate::scalar::{order_is_numeric, whole_part_is_bounded, Scalar, EPSILON, HALF, ONE, ZERO};
use crate::vision::letterbox::RgbaImage;
use crate::whole::{divides_counts, exact_on_counts};
use vstd::arithmetic::div_mod::lemma_fundamental_div_mod_converse;
use vstd::arithmetic::power2::{lemma_pow2_pos, pow2};
use vstd::prelude::*;

verus! {

/// Points of the grid.
pub const GRID_WIDTH: usize = 48;

pub const GRID_HEIGHT: usize = 27;

/// Bit pattern of 0.32, the half extent of the grid in parts of the image.
pub const GRID_SPAN: u32 = 0x3EA3_D70A;

/// Bit pattern of two.
pub const TWO: u32 = 0x4000_0000;

/// Bit pattern of minus one, the score of images that do not match at all.
pub const NO_MATCH: u32 = 0xBF80_0000;

/// Bit pattern of 100, the samples that a score needs.
pub const LEAST_SAMPLES: u32 = 0x42C8_0000;

/// Bit patterns of 12 and -12, by how many pixels the middle may be off.
pub const ALIGNMENT_OFFSET: u32 = 0x4140_0000;

pub const ALIGNMENT_OFFSET_BACK: u32 = 0xC140_0000;

/// Bit patterns of the scales that are searched: 1 to 14 in steps of 0.05, then
/// within 0.12 of the best in steps of 0.005.
pub const COARSE_SCALE_MIN: u32 = 0x3F80_0000;

pub const COARSE_SCALE_MAX: u32 = 0x4160_0000;

pub const COARSE_SCALE_STEP: u32 = 0x3D4C_CCCD;

pub const FINE_SCALE_RADIUS: u32 = 0x3DF5_C28F;

pub const FINE_SCALE_STEP: u32 = 0x3BA3_D70A;

/// Steps within which a short search ends.
pub const SHORT_SEARCH: u32 = 100_000;

/// Longest side of which every pixel has a position of its own.
pub const LONGEST_SIDE: usize = 0x100_0000;

/// The image can be sampled: it is complete, and no side is too long.
pub open spec fn samplable(image: RgbaImage) -> bool {
    &&& image.complete()
    &&& image.width <= LONGEST_SIDE
    &&& image.height <= LONGEST_SIDE
}

pub fn is_samplable(image: &RgbaImage) -> (r: bool)
    ensures
        r == samplable(*image),
{
    image.is_complete() && image.width <= LONGEST_SIDE && image.height <= LONGEST_SIDE
}

/// The way from one number to another.
pub open spec fn between<F: Fn(Operation) -> Scalar>(
    unit: F,
    start: Scalar,
    end: Scalar,
    amount: Scalar,
) -> Scalar {
    plus(unit, start, times(unit, minus(unit, end, start), amount))
}

pub fn lerp<F: Fn(Operation) -> Scalar>(start: Scalar, end: Scalar, amount: Scalar, unit: &F) -> (r:
    Scalar)
    requires
        computes(*unit),
    ensures
        r == between(*unit, start, end, amount),
{
    sum(unit, start, product(unit, difference(unit, end, start), amount))
}

/// The position lies between the first and the last pixel of a side.
pub open spec fn inside(position: Scalar, side: usize) -> bool {
    !position.less(Scalar { bits: ZERO }) && !position.exceeds(side - 1)
}

/// The pixel behind, or the last one.
pub open spec fn next_pixel(at: int, side: usize) -> int {
    if at + 1 < side {
        at + 1
    } else {
        side - 1
    }
}

/// Brightness at a position between pixels; none outside of the image.
pub open spec fn sampled<F: Fn(Operation) -> Scalar>(
    unit: F,
    image: RgbaImage,
    x: Scalar,
    y: Scalar,
) -> Option<Scalar> {
    if image.width < 2 || image.height < 2 || !inside(x, image.width) || !inside(y, image.height) {
        None
    } else {
        let x0 = x.whole();
        let y0 = y.whole();
        let x1 = next_pixel(x0, image.width);
        let y1 = next_pixel(y0, image.height);
        let x_fraction = minus(unit, x, count_of(unit, x0 as u64));
        let y_fraction = minus(unit, y, count_of(unit, y0 as u64));
        let top = between(
            unit,
            pixel_luma(unit, image, x0, y0),
            pixel_luma(unit, image, x1, y0),
            x_fraction,
        );
        let bottom = between(
            unit,
            pixel_luma(unit, image, x0, y1),
            pixel_luma(unit, image, x1, y1),
            x_fraction,
        );
        Some(between(unit, top, bottom, y_fraction))
    }
}

/// The largest positions in an image.
#[derive(Copy, Clone, Debug)]
pub struct Limits {
    pub x: Scalar,
    pub y: Scalar,
}

impl Limits {
    /// They are those of the image.
    pub open spec fn of(self, image: RgbaImage) -> bool {
        &&& image.width >= 1 ==> forall|x: Scalar|
            #[trigger] self.x.less(x) <==> x.exceeds(image.width - 1)
        &&& image.height >= 1 ==> forall|y: Scalar|
            #[trigger] self.y.less(y) <==> y.exceeds(image.height - 1)
    }

    fn new(image: &RgbaImage) -> (r: Limits)
        requires
            samplable(*image),
        ensures
            r.of(*image),
    {
        Limits { x: last_position(image.width), y: last_position(image.height) }
    }
}

fn last_position(side: usize) -> (r: Scalar)
    requires
        side <= LONGEST_SIDE,
    ensures
        side >= 1 ==> forall|x: Scalar| #[trigger] r.less(x) <==> x.exceeds(side - 1),
{
    if side == 0 {
        return Scalar::from_bits(ZERO);
    }
    let r = Scalar::from_count((side - 1) as u32);
    proof {
        assert forall|x: Scalar| #[trigger] r.less(x) <==> x.exceeds(side - 1) by {
            if !x.nan() {
                crate::scalar::order_is_numeric(r, x);
            }
        }
    }
    r
}

fn sample_within<F: Fn(Operation) -> Scalar>(
    image: &RgbaImage,
    limits: &Limits,
    x: Scalar,
    y: Scalar,
    unit: &F,
) -> (r: Option<Scalar>)
    requires
        computes(*unit),
        samplable(*image),
        limits.of(*image),
    ensures
        r == sampled(*unit, *image, x, y),
{
    let width: usize = image.width;
    let height: usize = image.height;
    if width < 2 || height < 2 {
        return None;
    }
    let zero = Scalar::from_bits(ZERO);
    if x.below(zero) || y.below(zero) || limits.x.below(x) || limits.y.below(y) {
        return None;
    }
    proof {
        whole_part_is_bounded(x, width - 1);
        whole_part_is_bounded(y, height - 1);
    }
    let x0: usize = x.to_i32() as usize;
    let y0: usize = y.to_i32() as usize;
    let x1: usize = if x0 + 1 < width {
        x0 + 1
    } else {
        width - 1
    };
    let y1: usize = if y0 + 1 < height {
        y0 + 1
    } else {
        height - 1
    };
    let x_fraction = difference(unit, x, counted(unit, x0 as u64));
    let y_fraction = difference(unit, y, counted(unit, y0 as u64));
    let top = lerp(
        luminance(image, x0, y0, unit),
        luminance(image, x1, y0, unit),
        x_fraction,
        unit,
    );
    let bottom = lerp(
        luminance(image, x0, y1, unit),
        luminance(image, x1, y1, unit),
        x_fraction,
        unit,
    );
    Some(lerp(top, bottom, y_fraction, unit))
}

pub fn sample_luma<F: Fn(Operation) -> Scalar>(image: &RgbaImage, x: Scalar, y: Scalar, unit: &F) -> (r:
    Option<Scalar>)
    requires
        computes(*unit),
        samplable(*image),
    ensures
        r == sampled(*unit, *image, x, y),
{
    sample_within(image, &Limits::new(image), x, y, unit)
}

/// Where a grid line lies, in parts of the image from its middle.
pub open spec fn grid_line<F: Fn(Operation) -> Scalar>(unit: F, line: int, lines: int) -> Scalar {
    times(
        unit,
        minus(
            unit,
            times(
                unit,
                over(unit, count_of(unit, line as u64), count_of(unit, (lines - 1) as u64)),
                Scalar { bits: TWO },
            ),
            Scalar { bits: ONE },
        ),
        Scalar { bits: GRID_SPAN },
    )
}

fn find_grid_line<F: Fn(Operation) -> Scalar>(line: usize, lines: usize, unit: &F) -> (r: Scalar)
    requires
        computes(*unit),
        1 <= lines,
    ensures
        r == grid_line(*unit, line as int, lines as int),
{
    let fraction = quotient(
        unit,
        counted(unit, line as u64),
        counted(unit, (lines - 1) as u64),
    );
    product(
        unit,
        difference(
            unit,
            product(unit, fraction, Scalar::from_bits(TWO)),
            Scalar::from_bits(ONE),
        ),
        Scalar::from_bits(GRID_SPAN),
    )
}

/// Position on a side of the zoomed image.
pub open spec fn zoomed_position<F: Fn(Operation) -> Scalar>(
    unit: F,
    side: usize,
    line: Scalar,
) -> Scalar {
    let size = count_of(unit, side as u64);
    plus(unit, times(unit, size, Scalar { bits: HALF }), times(unit, line, size))
}

/// The same position on a side of the wide image, which shows it smaller.
pub open spec fn wide_position<F: Fn(Operation) -> Scalar>(
    unit: F,
    side: usize,
    line: Scalar,
    scale: Scalar,
    offset: Scalar,
) -> Scalar {
    let size = count_of(unit, side as u64);
    plus(
        unit,
        plus(
            unit,
            times(unit, size, Scalar { bits: HALF }),
            over(unit, times(unit, line, size), scale),
        ),
        offset,
    )
}

/// What the samples add up to.
#[derive(Copy, Clone, Debug)]
pub struct Sums {
    pub wide: Scalar,
    pub zoomed: Scalar,
    pub wide_squared: Scalar,
    pub zoomed_squared: Scalar,
    pub cross: Scalar,
    pub count: Scalar,
}

impl Sums {
    pub open spec fn empty() -> Sums {
        let zero = Scalar { bits: ZERO };
        Sums {
            wide: zero,
            zoomed: zero,
            wide_squared: zero,
            zoomed_squared: zero,
            cross: zero,
            count: zero,
        }
    }

    /// One more pair of samples.
    pub open spec fn with<F: Fn(Operation) -> Scalar>(self, unit: F, wide: Scalar, zoomed: Scalar) -> Sums {
        Sums {
            wide: plus(unit, self.wide, wide),
            zoomed: plus(unit, self.zoomed, zoomed),
            wide_squared: plus(unit, self.wide_squared, times(unit, wide, wide)),
            zoomed_squared: plus(unit, self.zoomed_squared, times(unit, zoomed, zoomed)),
            cross: plus(unit, self.cross, times(unit, wide, zoomed)),
            count: plus(unit, self.count, Scalar { bits: ONE }),
        }
    }

    /// How alike the two series are: their correlation, or no match where there
    /// are too few samples or hardly any contrast.
    pub open spec fn score<F: Fn(Operation) -> Scalar>(self, unit: F) -> Scalar {
        let covariance = minus(
            unit,
            self.cross,
            over(unit, times(unit, self.wide, self.zoomed), self.count),
        );
        let wide_variance = minus(
            unit,
            self.wide_squared,
            over(unit, times(unit, self.wide, self.wide), self.count),
        );
        let zoomed_variance = minus(
            unit,
            self.zoomed_squared,
            over(unit, times(unit, self.zoomed, self.zoomed), self.count),
        );
        let denominator = root(unit, times(unit, wide_variance, zoomed_variance));
        if self.count.less(Scalar { bits: LEAST_SAMPLES }) {
            Scalar { bits: NO_MATCH }
        } else if denominator.less_equal(Scalar { bits: EPSILON }) {
            Scalar { bits: NO_MATCH }
        } else {
            over(unit, covariance, denominator)
        }
    }

    fn add_pair<F: Fn(Operation) -> Scalar>(&self, wide: Scalar, zoomed: Scalar, unit: &F) -> (r: Sums)
        requires
            computes(*unit),
        ensures
            r == self.with(*unit, wide, zoomed),
    {
        Sums {
            wide: sum(unit, self.wide, wide),
            zoomed: sum(unit, self.zoomed, zoomed),
            wide_squared: sum(unit, self.wide_squared, product(unit, wide, wide)),
            zoomed_squared: sum(unit, self.zoomed_squared, product(unit, zoomed, zoomed)),
            cross: sum(unit, self.cross, product(unit, wide, zoomed)),
            count: sum(unit, self.count, Scalar::from_bits(ONE)),
        }
    }

    fn find_score<F: Fn(Operation) -> Scalar>(&self, unit: &F) -> (r: Scalar)
        requires
            computes(*unit),
        ensures
            r == self.score(*unit),
    {
        if self.count.below(Scalar::from_bits(LEAST_SAMPLES)) {
            return Scalar::from_bits(NO_MATCH);
        }
        let covariance = difference(
            unit,
            self.cross,
            quotient(unit, product(unit, self.wide, self.zoomed), self.count),
        );
        let wide_variance = difference(
            unit,
            self.wide_squared,
            quotient(unit, product(unit, self.wide, self.wide), self.count),
        );
        let zoomed_variance = difference(
            unit,
            self.zoomed_squared,
            quotient(unit, product(unit, self.zoomed, self.zoomed), self.count),
        );
        let denominator = square_root(unit, product(unit, wide_variance, zoomed_variance));
        if denominator.at_most(Scalar::from_bits(EPSILON)) {
            return Scalar::from_bits(NO_MATCH);
        }
        quotient(unit, covariance, denominator)
    }
}

/// Two images, the second of which may show the middle of the first enlarged by
/// `scale`, with the middle off by the offsets.
#[derive(Copy, Clone, Debug)]
pub struct Alignment {
    pub scale: Scalar,
    pub offset_x: Scalar,
    pub offset_y: Scalar,
}

/// What the samples at the first `n` points of the grid add up to, row by row. A
/// point that lies outside of either image does not count.
pub open spec fn grid_sums<F: Fn(Operation) -> Scalar>(
    unit: F,
    wide: RgbaImage,
    zoomed: RgbaImage,
    alignment: Alignment,
    n: int,
) -> Sums
    decreases n,
{
    if n <= 0 {
        Sums::empty()
    } else {
        let earlier = grid_sums(unit, wide, zoomed, alignment, n - 1);
        let line_x = grid_line(unit, (n - 1) % GRID_WIDTH as int, GRID_WIDTH as int);
        let line_y = grid_line(unit, (n - 1) / GRID_WIDTH as int, GRID_HEIGHT as int);
        let wide_value = sampled(
            unit,
            wide,
            wide_position(unit, wide.width, line_x, alignment.scale, alignment.offset_x),
            wide_position(unit, wide.height, line_y, alignment.scale, alignment.offset_y),
        );
        let zoomed_value = sampled(
            unit,
            zoomed,
            zoomed_position(unit, zoomed.width, line_x),
            zoomed_position(unit, zoomed.height, line_y),
        );
        match (wide_value, zoomed_value) {
            (Some(left), Some(right)) => earlier.with(unit, left, right),
            _ => earlier,
        }
    }
}

/// How well the images match at an alignment.
pub open spec fn score_at<F: Fn(Operation) -> Scalar>(
    unit: F,
    wide: RgbaImage,
    zoomed: RgbaImage,
    alignment: Alignment,
) -> Scalar {
    grid_sums(unit, wide, zoomed, alignment, GRID_WIDTH * GRID_HEIGHT).score(unit)
}

fn find_zoomed_position<F: Fn(Operation) -> Scalar>(side: usize, line: Scalar, unit: &F) -> (r: Scalar)
    requires
        computes(*unit),
    ensures
        r == zoomed_position(*unit, side, line),
{
    let size = counted(unit, side as u64);
    sum(unit, product(unit, size, Scalar::from_bits(HALF)), product(unit, line, size))
}

fn find_wide_position<F: Fn(Operation) -> Scalar>(
    side: usize,
    line: Scalar,
    scale: Scalar,
    offset: Scalar,
    unit: &F,
) -> (r: Scalar)
    requires
        computes(*unit),
    ensures
        r == wide_position(*unit, side, line, scale, offset),
{
    let size = counted(unit, side as u64);
    let middle = product(unit, size, Scalar::from_bits(HALF));
    sum(unit, sum(unit, middle, quotient(unit, product(unit, line, size), scale)), offset)
}

pub fn correlation_score<F: Fn(Operation) -> Scalar>(
    wide: &RgbaImage,
    zoomed: &RgbaImage,
    scale: Scalar,
    offset_x: Scalar,
    offset_y: Scalar,
    unit: &F,
) -> (r: Scalar)
    requires
        computes(*unit),
        samplable(*wide),
        samplable(*zoomed),
    ensures
        r == score_at(*unit, *wide, *zoomed, (Alignment { scale, offset_x, offset_y })),
{
    let ghost alignment = Alignment { scale, offset_x, offset_y };
    let wide_limits = Limits::new(wide);
    let zoomed_limits = Limits::new(zoomed);
    let zero = Scalar::from_bits(ZERO);
    let mut sums = Sums {
        wide: zero,
        zoomed: zero,
        wide_squared: zero,
        zoomed_squared: zero,
        cross: zero,
        count: zero,
    };
    let mut point: usize = 0;
    while point < GRID_WIDTH * GRID_HEIGHT
        invariant
            computes(*unit),
            samplable(*wide),
            samplable(*zoomed),
            wide_limits.of(*wide),
            zoomed_limits.of(*zoomed),
            alignment == (Alignment { scale, offset_x, offset_y }),
            point <= GRID_WIDTH * GRID_HEIGHT,
            sums == grid_sums(*unit, *wide, *zoomed, alignment, point as int),
        decreases GRID_WIDTH * GRID_HEIGHT - point,
    {
        let line_x = find_grid_line(point % GRID_WIDTH, GRID_WIDTH, unit);
        let line_y = find_grid_line(point / GRID_WIDTH, GRID_HEIGHT, unit);
        let wide_value = sample_within(
            wide,
            &wide_limits,
            find_wide_position(wide.width, line_x, scale, offset_x, unit),
            find_wide_position(wide.height, line_y, scale, offset_y, unit),
            unit,
        );
        let zoomed_value = sample_within(
            zoomed,
            &zoomed_limits,
            find_zoomed_position(zoomed.width, line_x, unit),
            find_zoomed_position(zoomed.height, line_y, unit),
            unit,
        );
        match (wide_value, zoomed_value) {
            (Some(left), Some(right)) => {
                sums = sums.add_pair(left, right, unit);
            },
            _ => {},
        }
        point += 1;
    }
    sums.find_score(unit)
}

/// The offsets that are tried on either axis.
pub open spec fn alignment_offset(place: int) -> Scalar {
    if place == 0 {
        Scalar { bits: ALIGNMENT_OFFSET_BACK }
    } else if place == 1 {
        Scalar { bits: ZERO }
    } else {
        Scalar { bits: ALIGNMENT_OFFSET }
    }
}

fn find_alignment_offset(place: usize) -> (r: Scalar)
    ensures
        r == alignment_offset(place as int),
{
    if place == 0 {
        Scalar::from_bits(ALIGNMENT_OFFSET_BACK)
    } else if place == 1 {
        Scalar::from_bits(ZERO)
    } else {
        Scalar::from_bits(ALIGNMENT_OFFSET)
    }
}

/// The alignment at `place`, of nine: the vertical offset changes last.
pub open spec fn nth_alignment(scale: Scalar, place: int) -> Alignment {
    Alignment {
        scale,
        offset_x: alignment_offset(place % 3),
        offset_y: alignment_offset(place / 3),
    }
}

/// The best score of the first `n` alignments.
pub open spec fn best_aligned<F: Fn(Operation) -> Scalar>(
    unit: F,
    wide: RgbaImage,
    zoomed: RgbaImage,
    scale: Scalar,
    n: int,
) -> Scalar
    decreases n,
{
    if n <= 0 {
        Scalar { bits: NO_MATCH }
    } else {
        let best = best_aligned(unit, wide, zoomed, scale, n - 1);
        let score = score_at(unit, wide, zoomed, nth_alignment(scale, n - 1));
        if best.less(score) {
            score
        } else {
            best
        }
    }
}

pub fn best_alignment_score<F: Fn(Operation) -> Scalar>(
    wide: &RgbaImage,
    zoomed: &RgbaImage,
    scale: Scalar,
    unit: &F,
) -> (r: Scalar)
    requires
        computes(*unit),
        samplable(*wide),
        samplable(*zoomed),
    ensures
        r == best_aligned(*unit, *wide, *zoomed, scale, 9),
{
    let mut best = Scalar::from_bits(NO_MATCH);
    let mut place: usize = 0;
    while place < 9
        invariant
            computes(*unit),
            samplable(*wide),
            samplable(*zoomed),
            place <= 9,
            best == best_aligned(*unit, *wide, *zoomed, scale, place as int),
        decreases 9 - place,
    {
        let offset_x = find_alignment_offset(place % 3);
        let offset_y = find_alignment_offset(place / 3);
        let score = correlation_score(wide, zoomed, scale, offset_x, offset_y, unit);
        if best.below(score) {
            best = score;
        }
        place += 1;
    }
    best
}

/// The scale after `n` steps.
pub open spec fn nth_scale<F: Fn(Operation) -> Scalar>(
    unit: F,
    minimum: Scalar,
    step: Scalar,
    n: nat,
) -> Scalar
    decreases n,
{
    if n == 0 {
        minimum
    } else {
        plus(unit, nth_scale(unit, minimum, step, (n - 1) as nat), step)
    }
}

/// The largest scale that is searched: half a step above the maximum, so that
/// rounding does not lose the last one.
pub open spec fn scale_limit<F: Fn(Operation) -> Scalar>(unit: F, maximum: Scalar, step: Scalar) -> Scalar {
    plus(unit, maximum, times(unit, step, Scalar { bits: HALF }))
}

/// The best of the first `n` scales and its score; the smallest where several are
/// as good.
pub open spec fn best_scaled<F: Fn(Operation) -> Scalar>(
    unit: F,
    wide: RgbaImage,
    zoomed: RgbaImage,
    minimum: Scalar,
    step: Scalar,
    n: nat,
) -> (Scalar, Scalar)
    decreases n,
{
    if n == 0 {
        (minimum, Scalar { bits: NO_MATCH })
    } else {
        let best = best_scaled(unit, wide, zoomed, minimum, step, (n - 1) as nat);
        let scale = nth_scale(unit, minimum, step, (n - 1) as nat);
        let score = best_aligned(unit, wide, zoomed, scale, 9);
        if best.1.less(score) {
            (scale, score)
        } else {
            best
        }
    }
}

/// `n` is the number of scales that are searched: the steps up to the first one
/// that goes beyond the limit.
pub open spec fn searched<F: Fn(Operation) -> Scalar>(
    unit: F,
    minimum: Scalar,
    maximum: Scalar,
    step: Scalar,
    n: nat,
) -> bool {
    let limit = scale_limit(unit, maximum, step);
    &&& !nth_scale(unit, minimum, step, n).less_equal(limit)
    &&& forall|i: nat| i < n ==> (#[trigger] nth_scale(unit, minimum, step, i)).less_equal(limit)
}

/// The steps lead beyond the maximum at last.
pub open spec fn search_ends<F: Fn(Operation) -> Scalar>(
    unit: F,
    minimum: Scalar,
    maximum: Scalar,
    step: Scalar,
) -> bool {
    exists|n: nat|
        !(#[trigger] nth_scale(unit, minimum, step, n)).less_equal(
            scale_limit(unit, maximum, step),
        )
}

/// The scale at which the images match best, and how well.
pub open spec fn best_scale<F: Fn(Operation) -> Scalar>(
    unit: F,
    wide: RgbaImage,
    zoomed: RgbaImage,
    minimum: Scalar,
    maximum: Scalar,
    step: Scalar,
) -> (Scalar, Scalar) {
    let n = choose|n: nat| searched(unit, minimum, maximum, step, n);
    best_scaled(unit, wide, zoomed, minimum, step, n)
}

proof fn lemma_searched_once<F: Fn(Operation) -> Scalar>(
    unit: F,
    minimum: Scalar,
    maximum: Scalar,
    step: Scalar,
    m: nat,
    n: nat,
)
    requires
        searched(unit, minimum, maximum, step, m),
        searched(unit, minimum, maximum, step, n),
    ensures
        m == n,
{
    if m < n {
        assert(nth_scale(unit, minimum, step, m).less_equal(scale_limit(unit, maximum, step)));
    }
    if n < m {
        assert(nth_scale(unit, minimum, step, n).less_equal(scale_limit(unit, maximum, step)));
    }
}

pub fn search_scale<F: Fn(Operation) -> Scalar>(
    wide: &RgbaImage,
    zoomed: &RgbaImage,
    minimum: Scalar,
    maximum: Scalar,
    step: Scalar,
    unit: &F,
) -> (r: (Scalar, Scalar))
    requires
        computes(*unit),
        samplable(*wide),
        samplable(*zoomed),
        search_ends(*unit, minimum, maximum, step),
    ensures
        r == best_scale(*unit, *wide, *zoomed, minimum, maximum, step),
{
    let limit = sum(unit, maximum, product(unit, step, Scalar::from_bits(HALF)));
    let ghost end = choose|n: nat|
        !(#[trigger] nth_scale(*unit, minimum, step, n)).less_equal(
            scale_limit(*unit, maximum, step),
        );
    let ghost mut n: nat = 0;
    let mut best = (minimum, Scalar::from_bits(NO_MATCH));
    let mut scale = minimum;
    while scale.at_most(limit)
        invariant
            computes(*unit),
            samplable(*wide),
            samplable(*zoomed),
            limit == scale_limit(*unit, maximum, step),
            !nth_scale(*unit, minimum, step, end).less_equal(limit),
            n <= end,
            scale == nth_scale(*unit, minimum, step, n),
            forall|i: nat|
                i < n ==> (#[trigger] nth_scale(*unit, minimum, step, i)).less_equal(limit),
            best == best_scaled(*unit, *wide, *zoomed, minimum, step, n),
        decreases end - n,
    {
        let score = best_alignment_score(wide, zoomed, scale, unit);
        if best.1.below(score) {
            best = (scale, score);
        }
        scale = sum(unit, scale, step);
        proof {
            n = n + 1;
        }
    }
    proof {
        assert(searched(*unit, minimum, maximum, step, n));
        let chosen = choose|m: nat| searched(*unit, minimum, maximum, step, m);
        lemma_searched_once(*unit, minimum, maximum, step, chosen, n);
    }
    best
}

/// The steps lead beyond the maximum before they are too many.
pub open spec fn search_is_short<F: Fn(Operation) -> Scalar>(
    unit: F,
    minimum: Scalar,
    maximum: Scalar,
    step: Scalar,
) -> bool {
    exists|n: nat|
        n <= SHORT_SEARCH && !(#[trigger] nth_scale(unit, minimum, step, n)).less_equal(
            scale_limit(unit, maximum, step),
        )
}

/// Whether a search ends before its steps are too many.
pub fn is_short_search<F: Fn(Operation) -> Scalar>(
    minimum: Scalar,
    maximum: Scalar,
    step: Scalar,
    unit: &F,
) -> (r: bool)
    requires
        computes(*unit),
    ensures
        r == search_is_short(*unit, minimum, maximum, step),
        r ==> search_ends(*unit, minimum, maximum, step),
{
    let limit = sum(unit, maximum, product(unit, step, Scalar::from_bits(HALF)));
    let mut scale = minimum;
    let mut n: u32 = 0;
    while scale.at_most(limit)
        invariant
            computes(*unit),
            limit == scale_limit(*unit, maximum, step),
            n <= SHORT_SEARCH,
            scale == nth_scale(*unit, minimum, step, n as nat),
            forall|i: nat|
                i < n ==> (#[trigger] nth_scale(*unit, minimum, step, i)).less_equal(limit),
        decreases SHORT_SEARCH - n,
    {
        if n == SHORT_SEARCH {
            return false;
        }
        scale = sum(unit, scale, step);
        n += 1;
    }
    true
}

/// The result of the coarse search.
pub open spec fn coarse_scale<F: Fn(Operation) -> Scalar>(
    unit: F,
    wide: RgbaImage,
    zoomed: RgbaImage,
) -> Scalar {
    best_scale(
        unit,
        wide,
        zoomed,
        Scalar { bits: COARSE_SCALE_MIN },
        Scalar { bits: COARSE_SCALE_MAX },
        Scalar { bits: COARSE_SCALE_STEP },
    ).0
}

/// Where the fine search begins and ends.
pub open spec fn fine_range<F: Fn(Operation) -> Scalar>(unit: F, coarse: Scalar) -> (Scalar, Scalar) {
    (
        minus(unit, coarse, Scalar { bits: FINE_SCALE_RADIUS }).larger(
            Scalar { bits: COARSE_SCALE_MIN },
        ),
        plus(unit, coarse, Scalar { bits: FINE_SCALE_RADIUS }).smaller(
            Scalar { bits: COARSE_SCALE_MAX },
        ),
    )
}

/// Both searches end.
pub open spec fn searches_end<F: Fn(Operation) -> Scalar>(
    unit: F,
    wide: RgbaImage,
    zoomed: RgbaImage,
) -> bool {
    let (fine_min, fine_max) = fine_range(unit, coarse_scale(unit, wide, zoomed));
    &&& search_ends(
        unit,
        Scalar { bits: COARSE_SCALE_MIN },
        Scalar { bits: COARSE_SCALE_MAX },
        Scalar { bits: COARSE_SCALE_STEP },
    )
    &&& search_ends(unit, fine_min, fine_max, Scalar { bits: FINE_SCALE_STEP })
}

/// Neither search takes too many steps.
pub open spec fn searches_are_short<F: Fn(Operation) -> Scalar>(
    unit: F,
    wide: RgbaImage,
    zoomed: RgbaImage,
) -> bool {
    let (fine_min, fine_max) = fine_range(unit, coarse_scale(unit, wide, zoomed));
    &&& search_is_short(
        unit,
        Scalar { bits: COARSE_SCALE_MIN },
        Scalar { bits: COARSE_SCALE_MAX },
        Scalar { bits: COARSE_SCALE_STEP },
    )
    &&& search_is_short(unit, fine_min, fine_max, Scalar { bits: FINE_SCALE_STEP })
}

/// The magnification found, and how well the images match at it.
pub open spec fn magnification<F: Fn(Operation) -> Scalar>(
    unit: F,
    wide: RgbaImage,
    zoomed: RgbaImage,
) -> (Scalar, Scalar) {
    let (fine_min, fine_max) = fine_range(unit, coarse_scale(unit, wide, zoomed));
    best_scale(unit, wide, zoomed, fine_min, fine_max, Scalar { bits: FINE_SCALE_STEP })
}

/// Runs the coarse search.
fn find_fine_range<F: Fn(Operation) -> Scalar>(wide: &RgbaImage, zoomed: &RgbaImage, unit: &F) -> (r: (
    Scalar,
    Scalar,
))
    requires
        computes(*unit),
        samplable(*wide),
        samplable(*zoomed),
        search_ends(
            *unit,
            Scalar { bits: COARSE_SCALE_MIN },
            Scalar { bits: COARSE_SCALE_MAX },
            Scalar { bits: COARSE_SCALE_STEP },
        ),
    ensures
        r == fine_range(*unit, coarse_scale(*unit, *wide, *zoomed)),
{
    let least = Scalar::from_bits(COARSE_SCALE_MIN);
    let most = Scalar::from_bits(COARSE_SCALE_MAX);
    let radius = Scalar::from_bits(FINE_SCALE_RADIUS);
    let coarse = search_scale(
        wide,
        zoomed,
        least,
        most,
        Scalar::from_bits(COARSE_SCALE_STEP),
        unit,
    );
    (difference(unit, coarse.0, radius).max(least), sum(unit, coarse.0, radius).min(most))
}

/// Whether neither search takes too many steps.
pub fn are_short_searches<F: Fn(Operation) -> Scalar>(
    wide: &RgbaImage,
    zoomed: &RgbaImage,
    unit: &F,
) -> (r: bool)
    requires
        computes(*unit),
        samplable(*wide),
        samplable(*zoomed),
    ensures
        r == searches_are_short(*unit, *wide, *zoomed),
        r ==> searches_end(*unit, *wide, *zoomed),
{
    if !is_short_search(
        Scalar::from_bits(COARSE_SCALE_MIN),
        Scalar::from_bits(COARSE_SCALE_MAX),
        Scalar::from_bits(COARSE_SCALE_STEP),
        unit,
    ) {
        return false;
    }
    let (fine_min, fine_max) = find_fine_range(wide, zoomed, unit);
    is_short_search(fine_min, fine_max, Scalar::from_bits(FINE_SCALE_STEP), unit)
}

/// By how much the second image enlarges the first, and how well they match: a
/// coarse search over all scales, then a fine one around the best.
pub fn estimate_magnification<F: Fn(Operation) -> Scalar>(
    wide: &RgbaImage,
    zoomed: &RgbaImage,
    unit: &F,
) -> (r: (Scalar, Scalar))
    requires
        computes(*unit),
        samplable(*wide),
        samplable(*zoomed),
        searches_end(*unit, *wide, *zoomed),
    ensures
        r == magnification(*unit, *wide, *zoomed),
{
    let (fine_min, fine_max) = find_fine_range(wide, zoomed, unit);
    search_scale(wide, zoomed, fine_min, fine_max, Scalar::from_bits(FINE_SCALE_STEP), unit)
}

/// Does as `estimate_magnification` where neither search takes too many steps, and
/// gives up where one would.
pub fn try_estimate_magnification<F: Fn(Operation) -> Scalar>(
    wide: &RgbaImage,
    zoomed: &RgbaImage,
    unit: &F,
) -> (r: Option<(Scalar, Scalar)>)
    requires
        computes(*unit),
        samplable(*wide),
        samplable(*zoomed),
    ensures
        r == (if searches_are_short(*unit, *wide, *zoomed) {
            Some(magnification(*unit, *wide, *zoomed))
        } else {
            None
        }),
{
    if are_short_searches(wide, zoomed, unit) {
        Some(estimate_magnification(wide, zoomed, unit))
    } else {
        None
    }
}

/// The scale found is one of those searched, or the smallest; its score is its
/// own, and none of those searched scores better.
pub proof fn best_scale_is_best<F: Fn(Operation) -> Scalar>(
    unit: F,
    wide: RgbaImage,
    zoomed: RgbaImage,
    minimum: Scalar,
    step: Scalar,
    n: nat,
)
    ensures
        ({
            let best = best_scaled(unit, wide, zoomed, minimum, step, n);
            &&& !best.1.nan()
            &&& best == (minimum, Scalar { bits: NO_MATCH }) || exists|i: nat|
                i < n && best.0 == #[trigger] nth_scale(unit, minimum, step, i) && best.1
                    == best_aligned(unit, wide, zoomed, best.0, 9)
            &&& forall|i: nat|
                i < n ==> !best.1.less(
                    best_aligned(
                        unit,
                        wide,
                        zoomed,
                        #[trigger] nth_scale(unit, minimum, step, i),
                        9,
                    ),
                )
        }),
    decreases n,
{
    if n > 0 {
        best_scale_is_best(unit, wide, zoomed, minimum, step, (n - 1) as nat);
    }
}

/// Between four pixels brightness is mixed by how near each is: along the two rows
/// first, then between them. Outside the image, and in one without a second row or
/// column, there is nothing to see.
pub proof fn samples_mix_the_pixels_around<F: Fn(Operation) -> Scalar>(
    unit: F,
    image: RgbaImage,
    x: Scalar,
    y: Scalar,
)
    requires
        samplable(image),
    ensures
        ({
            let outside = image.width < 2 || image.height < 2 || x.less(Scalar { bits: 0 }) || y.less(
                Scalar { bits: 0 },
            ) || x.exceeds(image.width - 1) || y.exceeds(image.height - 1);
            let (left, right) = (
                x.whole(),
                if x.whole() + 1 < image.width {
                    x.whole() + 1
                } else {
                    image.width - 1
                },
            );
            let (upper, lower) = (
                y.whole(),
                if y.whole() + 1 < image.height {
                    y.whole() + 1
                } else {
                    image.height - 1
                },
            );
            let across = minus(unit, x, count_of(unit, left as u64));
            let down = minus(unit, y, count_of(unit, upper as u64));
            let mix = |from: Scalar, to: Scalar, part: Scalar|
                plus(unit, from, times(unit, minus(unit, to, from), part));
            match sampled(unit, image, x, y) {
                None => outside,
                Some(seen) => !outside && seen == mix(
                    mix(
                        pixel_luma(unit, image, left, upper),
                        pixel_luma(unit, image, right, upper),
                        across,
                    ),
                    mix(
                        pixel_luma(unit, image, left, lower),
                        pixel_luma(unit, image, right, lower),
                        across,
                    ),
                    down,
                ),
            }
        }),
{
}

proof fn lemma_whole(position: Scalar, place: int)
    requires
        stands_for(position, place),
        0 <= place < 0x100_0000,
    ensures
        position.whole() == place,
        !position.less(Scalar { bits: 0 }),
{
    zero_is_zero();
    whole_numbers_are_ordered(position, Scalar { bits: 0 }, place, 0);
    lemma_pow2_pos(149);
    let quantum = pow2(149) as int;
    if position.negative() {
        assert(place == 0 && position.magnitude() == 0) by {
            order_is_numeric(position, Scalar { bits: 0 });
            assert(place * quantum >= 0) by (nonlinear_arith)
                requires
                    0 <= place,
                    0 < quantum,
            ;
        }
        lemma_fundamental_div_mod_converse(0, quantum, 0, 0);
    } else {
        lemma_fundamental_div_mod_converse(place * quantum, quantum, place, 0);
    }
}

/// On a pixel its own brightness is seen.
pub proof fn pixels_are_seen_as_they_are<F: Fn(Operation) -> Scalar>(
    unit: F,
    image: RgbaImage,
    x: Scalar,
    y: Scalar,
    column: int,
    row: int,
    brightness: spec_fn(int, int) -> int,
)
    requires
        exact_on_counts(unit),
        divides_counts(unit),
        samplable(image),
        2 <= image.width && 2 <= image.height,
        stands_for(x, column),
        stands_for(y, row),
        0 <= column < image.width,
        0 <= row < image.height,
        forall|i: int, j: int|
            0 <= i < image.width && 0 <= j < image.height ==> 0 <= #[trigger] brightness(i, j) <= 255
                && stands_for(pixel_luma(unit, image, i, j), brightness(i, j)),
    ensures
        sampled(unit, image, x, y) matches Some(seen) && stands_for(seen, brightness(column, row)),
{
    if column < 0x100_0000 && row < 0x100_0000 {
        lemma_whole(x, column);
        lemma_whole(y, row);
        lemma_pow2_pos(149);
        let quantum = pow2(149) as int;
        assert(column * quantum <= (image.width - 1) * quantum) by (nonlinear_arith)
            requires
                column <= image.width - 1,
                0 < quantum,
        ;
        assert(row * quantum <= (image.height - 1) * quantum) by (nonlinear_arith)
            requires
                row <= image.height - 1,
                0 < quantum,
        ;
        let across = minus(unit, x, count_of(unit, column as u64));
        let down = minus(unit, y, count_of(unit, row as u64));
        assert(stands_for(count_of(unit, column as u64), column));
        assert(stands_for(count_of(unit, row as u64), row));
        assert(stands_for(across, 0));
        assert(stands_for(down, 0));
        let right = next_pixel(column, image.width);
        let lower = next_pixel(row, image.height);
        let at = brightness(column, row);
        lemma_mixed_with_nothing(
            unit,
            pixel_luma(unit, image, column, row),
            pixel_luma(unit, image, right, row),
            across,
            at,
            brightness(right, row),
        );
        lemma_mixed_with_nothing(
            unit,
            pixel_luma(unit, image, column, lower),
            pixel_luma(unit, image, right, lower),
            across,
            brightness(column, lower),
            brightness(right, lower),
        );
        lemma_mixed_with_nothing(
            unit,
            between(
                unit,
                pixel_luma(unit, image, column, row),
                pixel_luma(unit, image, right, row),
                across,
            ),
            between(
                unit,
                pixel_luma(unit, image, column, lower),
                pixel_luma(unit, image, right, lower),
                across,
            ),
            down,
            at,
            brightness(column, lower),
        );
    }
}

proof fn lemma_mixed_with_nothing<F: Fn(Operation) -> Scalar>(
    unit: F,
    from: Scalar,
    to: Scalar,
    part: Scalar,
    m: int,
    n: int,
)
    requires
        exact_on_counts(unit),
        stands_for(from, m),
        stands_for(to, n),
        stands_for(part, 0),
        0 <= m <= 255 && 0 <= n <= 255,
    ensures
        stands_for(between(unit, from, to, part), m),
{
    let way = minus(unit, to, from);
    assert(stands_for(way, n - m));
    let moved = times(unit, way, part);
    assert(stands_for(moved, (n - m) * 0));
    assert(stands_for(plus(unit, from, moved), m + 0));
}

/// The grid spans 48 by 27 points around the middle, 0.32 of the image to each side;
/// in the wide image the same points lie nearer to the middle by the scale, and off by
/// the offset.
pub proof fn grid_surrounds_the_middle<F: Fn(Operation) -> Scalar>(
    unit: F,
    side: usize,
    line: int,
    lines: int,
    scale: Scalar,
    offset: Scalar,
)
    ensures
        GRID_WIDTH == 48 && GRID_HEIGHT == 27,
        ({
            let size = count_of(unit, side as u64);
            let half = times(unit, size, Scalar { bits: 0x3F00_0000 });
            let part = over(unit, count_of(unit, line as u64), count_of(unit, (lines - 1) as u64));
            let from_middle = times(
                unit,
                minus(
                    unit,
                    times(unit, part, Scalar { bits: 0x4000_0000 }),
                    Scalar { bits: 0x3F80_0000 },
                ),
                Scalar { bits: 0x3EA3_D70A },
            );
            let away = times(unit, from_middle, size);
            &&& grid_line(unit, line, lines) == from_middle
            &&& zoomed_position(unit, side, grid_line(unit, line, lines)) == plus(unit, half, away)
            &&& wide_position(unit, side, grid_line(unit, line, lines), scale, offset) == plus(
                unit,
                plus(unit, half, over(unit, away, scale)),
                offset,
            )
        }),
{
}

/// The images compared on the first points of the grid, taken row by row: every point
/// that both show adds its two brightnesses, their squares and their product, and
/// counts; a point that either lacks adds nothing.
pub proof fn points_seen_in_both_count<F: Fn(Operation) -> Scalar>(
    unit: F,
    wide: RgbaImage,
    zoomed: RgbaImage,
    alignment: Alignment,
    row: int,
    column: int,
)
    requires
        0 <= row < 27,
        0 <= column < 48,
    ensures
        ({
            let n = row * 48 + column;
            let before = grid_sums(unit, wide, zoomed, alignment, n);
            let after = grid_sums(unit, wide, zoomed, alignment, n + 1);
            let across = grid_line(unit, column, 48);
            let down = grid_line(unit, row, 27);
            let in_wide = sampled(
                unit,
                wide,
                wide_position(unit, wide.width, across, alignment.scale, alignment.offset_x),
                wide_position(unit, wide.height, down, alignment.scale, alignment.offset_y),
            );
            let in_zoomed = sampled(
                unit,
                zoomed,
                zoomed_position(unit, zoomed.width, across),
                zoomed_position(unit, zoomed.height, down),
            );
            &&& in_wide is None || in_zoomed is None ==> after == before
            &&& (in_wide matches Some(a) ==> (in_zoomed matches Some(b) ==> {
                &&& after.wide == plus(unit, before.wide, a)
                &&& after.zoomed == plus(unit, before.zoomed, b)
                &&& after.wide_squared == plus(unit, before.wide_squared, times(unit, a, a))
                &&& after.zoomed_squared == plus(unit, before.zoomed_squared, times(unit, b, b))
                &&& after.cross == plus(unit, before.cross, times(unit, a, b))
                &&& after.count == plus(unit, before.count, Scalar { bits: 0x3F80_0000 })
            }))
            &&& score_at(unit, wide, zoomed, alignment) == grid_sums(
                unit,
                wide,
                zoomed,
                alignment,
                1296,
            ).score(unit)
            &&& grid_sums(unit, wide, zoomed, alignment, 0).count.bits == 0
        }),
{
    lemma_fundamental_div_mod_converse(row * 48 + column, 48, row, column);
}

/// Brightnesses that are alike score one; so few as not to reach a hundred, or so even
/// that they tell nothing, score minus one.
pub proof fn alike_scores_one<F: Fn(Operation) -> Scalar>(unit: F, sums: Sums)
    ensures
        sums.count.less(Scalar { bits: 0x42C8_0000 }) ==> sums.score(unit).bits == 0xBF80_0000,
        ({
            let spread = minus(
                unit,
                sums.wide_squared,
                over(unit, times(unit, sums.wide, sums.wide), sums.count),
            );
            let size = root(unit, times(unit, spread, spread));
            &&& sums.wide == sums.zoomed && sums.wide_squared == sums.zoomed_squared && sums.cross
                == sums.wide_squared && size == spread && over(unit, spread, spread).bits
                == 0x3F80_0000 && (Scalar { bits: 0x3400_0000 }).less(spread) && !sums.count.less(
                Scalar { bits: 0x42C8_0000 },
            ) ==> sums.score(unit).bits == 0x3F80_0000
            &&& sums.wide == sums.zoomed && sums.wide_squared == sums.zoomed_squared
                && size.less_equal(Scalar { bits: 0x3400_0000 }) ==> sums.score(unit).bits
                == 0xBF80_0000
        }),
{
}

/// Which of two images is the wide one does not matter to a score.
pub proof fn scores_are_symmetric<F: Fn(Operation) -> Scalar>(unit: F, sums: Sums)
    requires
        forall|a: Scalar, b: Scalar| #[trigger] times(unit, a, b) == times(unit, b, a),
    ensures
        (Sums {
            wide: sums.zoomed,
            zoomed: sums.wide,
            wide_squared: sums.zoomed_squared,
            zoomed_squared: sums.wide_squared,
            ..sums
        }).score(unit) == sums.score(unit),
{
}

/// Twelve pixels to either side, or none.
pub open spec fn is_offset(offset: Scalar) -> bool {
    offset.bits == 0xC140_0000 || offset.bits == 0 || offset.bits == 0x4140_0000
}

proof fn lemma_best_aligned<F: Fn(Operation) -> Scalar>(
    unit: F,
    wide: RgbaImage,
    zoomed: RgbaImage,
    scale: Scalar,
    n: int,
)
    requires
        0 <= n <= 9,
    ensures
        ({
            let best = best_aligned(unit, wide, zoomed, scale, n);
            &&& !best.nan()
            &&& best.bits == 0xBF80_0000 || exists|place: int|
                0 <= place < n && best == score_at(
                    unit,
                    wide,
                    zoomed,
                    #[trigger] nth_alignment(scale, place),
                )
            &&& forall|place: int|
                0 <= place < n ==> !best.less(
                    score_at(unit, wide, zoomed, #[trigger] nth_alignment(scale, place)),
                )
        }),
    decreases n,
{
    if n > 0 {
        lemma_best_aligned(unit, wide, zoomed, scale, n - 1);
    }
}

/// At a scale the images are laid over each other in nine ways, off by twelve pixels
/// or not at all along each side, and the best way counts.
pub proof fn best_of_nine_ways_counts<F: Fn(Operation) -> Scalar>(
    unit: F,
    wide: RgbaImage,
    zoomed: RgbaImage,
    scale: Scalar,
)
    ensures
        ({
            let best = best_aligned(unit, wide, zoomed, scale, 9);
            &&& !best.nan()
            &&& !best.less(Scalar { bits: 0xBF80_0000 })
            &&& best.bits == 0xBF80_0000 || exists|offset_x: Scalar, offset_y: Scalar|
                is_offset(offset_x) && is_offset(offset_y) && best == #[trigger] score_at(
                    unit,
                    wide,
                    zoomed,
                    Alignment { scale, offset_x, offset_y },
                )
            &&& forall|offset_x: Scalar, offset_y: Scalar|
                is_offset(offset_x) && is_offset(offset_y) ==> !best.less(
                    #[trigger] score_at(
                        unit,
                        wide,
                        zoomed,
                        Alignment { scale, offset_x, offset_y },
                    ),
                )
        }),
{
    lemma_best_aligned(unit, wide, zoomed, scale, 9);
    lemma_no_worse_than_nothing(unit, wide, zoomed, scale, 9);
    let best = best_aligned(unit, wide, zoomed, scale, 9);
    if best.bits != 0xBF80_0000 {
        let place = choose|place: int|
            0 <= place < 9 && best == score_at(
                unit,
                wide,
                zoomed,
                #[trigger] nth_alignment(scale, place),
            );
        let way = nth_alignment(scale, place);
        assert(is_offset(way.offset_x) && is_offset(way.offset_y));
        assert(way == (Alignment { scale, offset_x: way.offset_x, offset_y: way.offset_y }));
    }
    assert forall|offset_x: Scalar, offset_y: Scalar|
        is_offset(offset_x) && is_offset(offset_y) implies !best.less(
        #[trigger] score_at(unit, wide, zoomed, Alignment { scale, offset_x, offset_y }),
    ) by {
        let i: int = if offset_x.bits == 0xC140_0000 {
            0
        } else if offset_x.bits == 0 {
            1
        } else {
            2
        };
        let j: int = if offset_y.bits == 0xC140_0000 {
            0
        } else if offset_y.bits == 0 {
            1
        } else {
            2
        };
        assert(nth_alignment(scale, 3 * j + i) == (Alignment { scale, offset_x, offset_y }));
    }
}

proof fn lemma_no_worse_than_nothing<F: Fn(Operation) -> Scalar>(
    unit: F,
    wide: RgbaImage,
    zoomed: RgbaImage,
    scale: Scalar,
    n: int,
)
    ensures
        !best_aligned(unit, wide, zoomed, scale, n).less(Scalar { bits: 0xBF80_0000 }),
    decreases n,
{
    if n > 0 {
        lemma_no_worse_than_nothing(unit, wide, zoomed, scale, n - 1);
        let best = best_aligned(unit, wide, zoomed, scale, n - 1);
        let score = score_at(unit, wide, zoomed, nth_alignment(scale, n - 1));
        if best.less(score) {
            order_is_numeric(best, score);
            order_is_numeric(best, Scalar { bits: 0xBF80_0000 });
            order_is_numeric(score, Scalar { bits: 0xBF80_0000 });
        }
    }
}

/// A search tries its scales step by step up to half a step beyond the maximum, and
/// finds one that no other beats.
pub proof fn searches_find_the_best_scale<F: Fn(Operation) -> Scalar>(
    unit: F,
    wide: RgbaImage,
    zoomed: RgbaImage,
    minimum: Scalar,
    maximum: Scalar,
    step: Scalar,
    n: nat,
)
    requires
        forall|i: nat|
            i <= n ==> ((#[trigger] nth_scale(unit, minimum, step, i)).less_equal(
                plus(unit, maximum, times(unit, step, Scalar { bits: 0x3F00_0000 })),
            ) <==> i < n),
    ensures
        ({
            let best = best_scale(unit, wide, zoomed, minimum, maximum, step);
            &&& best == (minimum, Scalar { bits: 0xBF80_0000 }) || exists|i: nat|
                i < n && best.0 == #[trigger] nth_scale(unit, minimum, step, i) && best.1
                    == best_aligned(unit, wide, zoomed, best.0, 9)
            &&& forall|i: nat|
                i < n ==> !best.1.less(
                    best_aligned(
                        unit,
                        wide,
                        zoomed,
                        #[trigger] nth_scale(unit, minimum, step, i),
                        9,
                    ),
                )
            &&& nth_scale(unit, minimum, step, 0) == minimum
            &&& forall|i: nat|
                #[trigger] nth_scale(unit, minimum, step, i + 1) == plus(
                    unit,
                    nth_scale(unit, minimum, step, i),
                    step,
                )
        }),
{
    assert(!nth_scale(unit, minimum, step, n).less_equal(scale_limit(unit, maximum, step)));
    assert(searched(unit, minimum, maximum, step, n));
    let found = choose|n: nat| searched(unit, minimum, maximum, step, n);
    lemma_searched_once(unit, minimum, maximum, step, found, n);
    best_scale_is_best(unit, wide, zoomed, minimum, step, n);
}

/// The magnification is searched from 1 to 14 in steps of 0.05, then by 0.005 within
/// 0.12 of the best of those, but not beyond 1 and 14.
pub proof fn magnification_is_searched_twice<F: Fn(Operation) -> Scalar>(
    unit: F,
    wide: RgbaImage,
    zoomed: RgbaImage,
)
    ensures
        ({
            let coarse = best_scale(
                unit,
                wide,
                zoomed,
                Scalar { bits: 0x3F80_0000 },
                Scalar { bits: 0x4160_0000 },
                Scalar { bits: 0x3D4C_CCCD },
            ).0;
            let radius = Scalar { bits: 0x3DF5_C28F };
            magnification(unit, wide, zoomed) == best_scale(
                unit,
                wide,
                zoomed,
                minus(unit, coarse, radius).larger(Scalar { bits: 0x3F80_0000 }),
                plus(unit, coarse, radius).smaller(Scalar { bits: 0x4160_0000 }),
                Scalar { bits: 0x3BA3_D70A },
            )
        }),
{
}

/// Of scales that match as well the first is found.
pub proof fn first_best_scale_is_found<F: Fn(Operation) -> Scalar>(
    unit: F,
    wide: RgbaImage,
    zoomed: RgbaImage,
    minimum: Scalar,
    step: Scalar,
    n: nat,
) -> (place: nat)
    ensures
        ({
            let best = best_scaled(unit, wide, zoomed, minimum, step, n);
            best != (minimum, Scalar { bits: 0xBF80_0000 }) ==> {
                &&& place < n
                &&& best.0 == nth_scale(unit, minimum, step, place)
                &&& forall|i: nat|
                    i < place ==> best_aligned(
                        unit,
                        wide,
                        zoomed,
                        #[trigger] nth_scale(unit, minimum, step, i),
                        9,
                    ).less(best.1)
            }
        }),
    decreases n,
{
    if n == 0 {
        0
    } else {
        let earlier = (n - 1) as nat;
        let place = first_best_scale_is_found(unit, wide, zoomed, minimum, step, earlier);
        best_scale_is_best(unit, wide, zoomed, minimum, step, earlier);
        let best = best_scaled(unit, wide, zoomed, minimum, step, earlier);
        let scale = nth_scale(unit, minimum, step, earlier);
        let score = best_aligned(unit, wide, zoomed, scale, 9);
        if best.1.less(score) {
            assert forall|i: nat| i < earlier implies best_aligned(
                unit,
                wide,
                zoomed,
                #[trigger] nth_scale(unit, minimum, step, i),
                9,
            ).less(score) by {
                lemma_best_aligned(unit, wide, zoomed, nth_scale(unit, minimum, step, i), 9);
            }
            earlier
        } else {
            place
        }
    }
}

} // verus!
