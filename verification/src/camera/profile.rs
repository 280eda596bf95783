//! Brightness profiles of an image, and by how much one is shifted against
//! another.

use crate::arithmetic::{
    computes, count_of, counted, difference, minus, over, plus, product, quotient, sum, times,
    Operation,
};
use crate::camera::grid::{stands_for, zero_is_zero};
use crate::camera::limits::absolute_values;
use crate::scalar::{Scalar, INFINITY, ZERO};
use crate::vision::letterbox::RgbaImage;
use crate::whole::{countable, divides_counts, exact_on_counts, sum_of, sums_grow};
use vstd::prelude::*;

verus! {

/// Bit patterns of the weights of red, green and blue: 0.2126, 0.7152, 0.0722.
pub const RED_WEIGHT: u32 = 0x3E59_B3D0;

pub const GREEN_WEIGHT: u32 = 0x3F37_1759;

pub const BLUE_WEIGHT: u32 = 0x3D93_DD98;

/// Brightness of a color.
pub open spec fn luma<F: Fn(Operation) -> Scalar>(unit: F, red: u8, green: u8, blue: u8) -> Scalar {
    plus(
        unit,
        plus(
            unit,
            times(unit, count_of(unit, red as u64), Scalar { bits: RED_WEIGHT }),
            times(unit, count_of(unit, green as u64), Scalar { bits: GREEN_WEIGHT }),
        ),
        times(unit, count_of(unit, blue as u64), Scalar { bits: BLUE_WEIGHT }),
    )
}

/// Brightness of a pixel.
pub open spec fn pixel_luma<F: Fn(Operation) -> Scalar>(unit: F, image: RgbaImage, x: int, y: int) -> Scalar {
    let at = (y * image.width + x) * 4;
    luma(unit, image.rgba@[at], image.rgba@[at + 1], image.rgba@[at + 2])
}

proof fn lemma_pixel(x: int, y: int, width: int, height: int)
    by (nonlinear_arith)
    requires
        0 <= x < width,
        0 <= y < height,
    ensures
        0 <= y * width,
        0 <= y * width + x,
        y * width + x < width * height,
        (y * width + x) * 4 + 3 < width * height * 4,
{
}

pub fn luminance<F: Fn(Operation) -> Scalar>(image: &RgbaImage, x: usize, y: usize, unit: &F) -> (r:
    Scalar)
    requires
        computes(*unit),
        image.complete(),
        x < image.width,
        y < image.height,
    ensures
        r == pixel_luma(*unit, *image, x as int, y as int),
{
    proof {
        lemma_pixel(x as int, y as int, image.width as int, image.height as int);
        assert(image.rgba.len() <= usize::MAX);
    }
    let at: usize = (y * image.width + x) * 4;
    let red = product(
        unit,
        counted(unit, image.rgba[at] as u64),
        Scalar::from_bits(RED_WEIGHT),
    );
    let green = product(
        unit,
        counted(unit, image.rgba[at + 1] as u64),
        Scalar::from_bits(GREEN_WEIGHT),
    );
    let blue = product(
        unit,
        counted(unit, image.rgba[at + 2] as u64),
        Scalar::from_bits(BLUE_WEIGHT),
    );
    sum(unit, sum(unit, red, green), blue)
}

/// Mean brightness of each column and of each row.
#[derive(Debug)]
pub struct ImageProfiles {
    pub x: Vec<Scalar>,
    pub y: Vec<Scalar>,
}

/// Total brightness of a column between two rows.
pub open spec fn column_total<F: Fn(Operation) -> Scalar>(
    unit: F,
    image: RgbaImage,
    x: int,
    from: int,
    to: int,
) -> Scalar
    decreases to - from,
{
    if to <= from {
        Scalar { bits: ZERO }
    } else {
        plus(
            unit,
            column_total(unit, image, x, from, to - 1),
            pixel_luma(unit, image, x, to - 1),
        )
    }
}

/// Total brightness of a row between two columns.
pub open spec fn row_total<F: Fn(Operation) -> Scalar>(
    unit: F,
    image: RgbaImage,
    y: int,
    from: int,
    to: int,
) -> Scalar
    decreases to - from,
{
    if to <= from {
        Scalar { bits: ZERO }
    } else {
        plus(unit, row_total(unit, image, y, from, to - 1), pixel_luma(unit, image, to - 1, y))
    }
}

/// A tenth of a side, which the profiles leave out at either end.
pub open spec fn crop(side: int) -> int {
    side / 10
}

/// Mean brightness of a column, without the rows at the ends.
pub open spec fn column_mean<F: Fn(Operation) -> Scalar>(unit: F, image: RgbaImage, x: int) -> Scalar {
    let from = crop(image.height as int);
    let to = image.height - from;
    over(
        unit,
        column_total(unit, image, x, from, to),
        count_of(unit, (to - from) as u64),
    )
}

/// Mean brightness of a row, without the columns at the ends.
pub open spec fn row_mean<F: Fn(Operation) -> Scalar>(unit: F, image: RgbaImage, y: int) -> Scalar {
    let from = crop(image.width as int);
    let to = image.width - from;
    over(unit, row_total(unit, image, y, from, to), count_of(unit, (to - from) as u64))
}

pub fn build_profiles<F: Fn(Operation) -> Scalar>(image: &RgbaImage, unit: &F) -> (r: ImageProfiles)
    requires
        computes(*unit),
        image.complete(),
    ensures
        r.x@ == Seq::new(image.width as nat, |x: int| column_mean(*unit, *image, x)),
        r.y@ == Seq::new(image.height as nat, |y: int| row_mean(*unit, *image, y)),
{
    let width: usize = image.width;
    let height: usize = image.height;
    let left: usize = width / 10;
    let right: usize = width - left;
    let top: usize = height / 10;
    let bottom: usize = height - top;
    let mut columns: Vec<Scalar> = Vec::new();
    let mut x: usize = 0;
    while x < width
        invariant
            computes(*unit),
            image.complete(),
            x <= width == image.width,
            height == image.height,
            top == crop(height as int),
            bottom == height - top,
            columns@.len() == x,
            forall|i: int| 0 <= i < x ==> columns@[i] == column_mean(*unit, *image, i),
        decreases width - x,
    {
        let mut total = Scalar::from_bits(ZERO);
        let mut y: usize = top;
        while y < bottom
            invariant
                computes(*unit),
                image.complete(),
                x < width == image.width,
                height == image.height,
                top <= y <= bottom <= height,
                total == column_total(*unit, *image, x as int, top as int, y as int),
            decreases bottom - y,
        {
            total = sum(unit, total, luminance(image, x, y, unit));
            y += 1;
        }
        columns.push(quotient(unit, total, counted(unit, (bottom - top) as u64)));
        x += 1;
    }
    let mut rows: Vec<Scalar> = Vec::new();
    let mut y: usize = 0;
    while y < height
        invariant
            computes(*unit),
            image.complete(),
            y <= height == image.height,
            width == image.width,
            left == crop(width as int),
            right == width - left,
            rows@.len() == y,
            forall|i: int| 0 <= i < y ==> rows@[i] == row_mean(*unit, *image, i),
        decreases height - y,
    {
        let mut total = Scalar::from_bits(ZERO);
        let mut column: usize = left;
        while column < right
            invariant
                computes(*unit),
                image.complete(),
                y < height == image.height,
                width == image.width,
                left <= column <= right <= width,
                total == row_total(*unit, *image, y as int, left as int, column as int),
            decreases right - column,
        {
            total = sum(unit, total, luminance(image, column, y, unit));
            column += 1;
        }
        rows.push(quotient(unit, total, counted(unit, (right - left) as u64)));
        y += 1;
    }
    ImageProfiles { x: columns, y: rows }
}

/// Sum of the first `n` numbers.
pub open spec fn total<F: Fn(Operation) -> Scalar>(unit: F, numbers: Seq<Scalar>, n: int) -> Scalar
    decreases n,
{
    if n <= 0 {
        Scalar { bits: ZERO }
    } else {
        plus(unit, total(unit, numbers, n - 1), numbers[n - 1])
    }
}

/// Mean of the first `n` numbers.
pub open spec fn mean<F: Fn(Operation) -> Scalar>(unit: F, numbers: Seq<Scalar>, n: int) -> Scalar {
    over(unit, total(unit, numbers, n), count_of(unit, n as u64))
}

fn find_mean<F: Fn(Operation) -> Scalar>(numbers: &Vec<Scalar>, n: usize, unit: &F) -> (r: Scalar)
    requires
        computes(*unit),
        n <= numbers@.len(),
    ensures
        r == mean(*unit, numbers@, n as int),
{
    let mut result = Scalar::from_bits(ZERO);
    let mut i: usize = 0;
    while i < n
        invariant
            computes(*unit),
            i <= n <= numbers@.len(),
            result == total(*unit, numbers@, i as int),
        decreases n - i,
    {
        result = sum(unit, result, numbers[i]);
        i += 1;
    }
    quotient(unit, result, counted(unit, n as u64))
}

/// The shorter of two lengths.
pub open spec fn shorter(left: int, right: int) -> int {
    if left <= right {
        left
    } else {
        right
    }
}

/// The larger of two numbers.
pub open spec fn upper(left: int, right: int) -> int {
    if left >= right {
        left
    } else {
        right
    }
}

/// Where the first profile is compared for a shift: a tenth is left out at
/// either end, and so is what has no counterpart in as much of the second. A shift
/// by more than that leads to what the second has beyond it, and nothing more is
/// left out.
pub open spec fn compared(length: int, shift: int) -> (int, int) {
    let margin = crop(length);
    (
        upper(margin, -shift),
        if shift > length {
            length - margin
        } else {
            shorter(length - margin, length - upper(shift, 0))
        },
    )
}

/// Profiles of these lengths are too short to say anything, or every place that a
/// shift leads to is there.
pub open spec fn shiftable(before: int, after: int, maximum_shift: int) -> bool {
    let length = shorter(before, after);
    length < 10 || {
        &&& i32::MIN < maximum_shift
        &&& length <= i32::MAX
        &&& maximum_shift <= length || length - crop(length) + maximum_shift <= shorter(
            after,
            i32::MAX + 1,
        )
    }
}

/// Whether every place that a shift leads to is there.
pub fn is_shiftable(before: &Vec<Scalar>, after: &Vec<Scalar>, maximum_shift: i32) -> (r: bool)
    ensures
        r == shiftable(before@.len() as int, after@.len() as int, maximum_shift as int),
{
    let length: usize = if before.len() <= after.len() {
        before.len()
    } else {
        after.len()
    };
    if length < 10 {
        return true;
    }
    if maximum_shift == i32::MIN || length as u64 > i32::MAX as u64 {
        return false;
    }
    let size: i64 = length as i64;
    let farthest: i64 = size - size / 10 + maximum_shift as i64;
    maximum_shift as i64 <= size || (farthest <= i32::MAX as i64 + 1 && farthest as u64
        <= after.len() as u64)
}

/// Total difference of two profiles, one shifted, each seen from its mean.
pub open spec fn mismatch<F: Fn(Operation) -> Scalar>(
    unit: F,
    before: Seq<Scalar>,
    after: Seq<Scalar>,
    length: int,
    shift: int,
    from: int,
    to: int,
) -> Scalar
    decreases to - from,
{
    if to <= from {
        Scalar { bits: ZERO }
    } else {
        plus(
            unit,
            mismatch(unit, before, after, length, shift, from, to - 1),
            minus(
                unit,
                minus(unit, before[to - 1], mean(unit, before, length)),
                minus(unit, after[to - 1 + shift], mean(unit, after, length)),
            ).absolute(),
        )
    }
}

/// Mean difference for a shift; none where nothing is left to compare.
pub open spec fn shift_error<F: Fn(Operation) -> Scalar>(
    unit: F,
    before: Seq<Scalar>,
    after: Seq<Scalar>,
    length: int,
    shift: int,
) -> Option<Scalar> {
    let (from, to) = compared(length, shift);
    if to <= from {
        None
    } else {
        Some(
            over(
                unit,
                mismatch(unit, before, after, length, shift, from, to),
                count_of(unit, (to - from) as u64),
            ),
        )
    }
}

/// The best of the shifts from `first` to before `end`, and its error; the
/// earliest where several are as good.
pub open spec fn best_shift<F: Fn(Operation) -> Scalar>(
    unit: F,
    before: Seq<Scalar>,
    after: Seq<Scalar>,
    length: int,
    first: int,
    end: int,
) -> (int, Scalar)
    decreases end - first,
{
    if end <= first {
        (0, Scalar { bits: INFINITY })
    } else {
        let earlier = best_shift(unit, before, after, length, first, end - 1);
        match shift_error(unit, before, after, length, end - 1) {
            Some(error) => if error.less(earlier.1) {
                (end - 1, error)
            } else {
                earlier
            },
            None => earlier,
        }
    }
}

fn find_error<F: Fn(Operation) -> Scalar>(
    before: &Vec<Scalar>,
    after: &Vec<Scalar>,
    means: (Scalar, Scalar),
    length: usize,
    shift: i32,
    unit: &F,
) -> (r: Option<Scalar>)
    requires
        computes(*unit),
        length <= before@.len(),
        length <= after@.len(),
        length <= i32::MAX,
        i32::MIN < shift,
        shift <= length || length - crop(length as int) + shift <= after@.len(),
        means.0 == mean(*unit, before@, length as int),
        means.1 == mean(*unit, after@, length as int),
    ensures
        r == shift_error(*unit, before@, after@, length as int, shift as int),
{
    let margin: i64 = (length / 10) as i64;
    let size: i64 = length as i64;
    let offset: i64 = shift as i64;
    let from: i64 = if margin >= -offset {
        margin
    } else {
        -offset
    };
    let lost: i64 = if offset >= 0 {
        offset
    } else {
        0
    };
    let to: i64 = if offset > size || size - margin <= size - lost {
        size - margin
    } else {
        size - lost
    };
    if to <= from {
        return None;
    }
    let mut error = Scalar::from_bits(ZERO);
    let mut index: i64 = from;
    while index < to
        invariant
            computes(*unit),
            size == length,
            offset == shift,
            length <= before@.len(),
            length <= after@.len(),
            length <= i32::MAX,
            0 <= from <= index <= to <= size,
            0 <= from + offset,
            to + offset <= after@.len(),
            means.0 == mean(*unit, before@, length as int),
            means.1 == mean(*unit, after@, length as int),
            error == mismatch(
                *unit,
                before@,
                after@,
                length as int,
                shift as int,
                from as int,
                index as int,
            ),
        decreases to - index,
    {
        let shifted: i64 = index + offset;
        let before_value = difference(unit, before[index as usize], means.0);
        let after_value = difference(unit, after[shifted as usize], means.1);
        error = sum(unit, error, difference(unit, before_value, after_value).abs());
        index += 1;
    }
    Some(quotient(unit, error, counted(unit, (to - from) as u64)))
}

/// By how many places the second profile is shifted against the first, and how
/// well the two then agree. Short profiles say nothing.
pub fn estimate_shift<F: Fn(Operation) -> Scalar>(
    before: &Vec<Scalar>,
    after: &Vec<Scalar>,
    maximum_shift: i32,
    unit: &F,
) -> (r: (i32, Scalar))
    requires
        computes(*unit),
        shiftable(before@.len() as int, after@.len() as int, maximum_shift as int),
    ensures
        ({
            let length = shorter(before@.len() as int, after@.len() as int);
            if length < 10 {
                r == (0i32, Scalar { bits: INFINITY })
            } else {
                (r.0 as int, r.1) == best_shift(
                    *unit,
                    before@,
                    after@,
                    length,
                    -maximum_shift,
                    maximum_shift + 1,
                )
            }
        }),
{
    let length: usize = if before.len() <= after.len() {
        before.len()
    } else {
        after.len()
    };
    if length < 10 {
        return (0, Scalar::from_bits(INFINITY));
    }
    let means = (find_mean(before, length, unit), find_mean(after, length, unit));
    let first: i64 = -(maximum_shift as i64);
    let end: i64 = maximum_shift as i64 + 1;
    let mut best: i32 = 0;
    let mut best_error = Scalar::from_bits(INFINITY);
    let mut shift: i64 = first;
    while shift < end
        invariant
            computes(*unit),
            10 <= length <= i32::MAX,
            length <= before@.len(),
            length <= after@.len(),
            i32::MIN < maximum_shift,
            maximum_shift <= length || length - crop(length as int) + maximum_shift
                <= after@.len(),
            first == -maximum_shift,
            end == maximum_shift + 1,
            first <= shift,
            shift <= end || shift == first,
            means.0 == mean(*unit, before@, length as int),
            means.1 == mean(*unit, after@, length as int),
            (best as int, best_error) == best_shift(
                *unit,
                before@,
                after@,
                length as int,
                first as int,
                shift as int,
            ),
        decreases end - shift,
    {
        match find_error(before, after, means, length, shift as i32, unit) {
            Some(error) => {
                if error.below(best_error) {
                    best = shift as i32;
                    best_error = error;
                }
            },
            None => {},
        }
        shift += 1;
    }
    assert(best_shift(
        *unit,
        before@,
        after@,
        length as int,
        -maximum_shift,
        maximum_shift + 1,
    ) == (best as int, best_error));
    (best, best_error)
}

/// The shift found is one of those looked at, or none; and no shift looked at has
/// a smaller error.
pub proof fn best_shift_is_best<F: Fn(Operation) -> Scalar>(
    unit: F,
    before: Seq<Scalar>,
    after: Seq<Scalar>,
    length: int,
    first: int,
    end: int,
)
    ensures
        ({
            let best = best_shift(unit, before, after, length, first, end);
            &&& (first <= best.0 < end && shift_error(unit, before, after, length, best.0) == Some(
                best.1,
            )) || best == (0int, Scalar { bits: INFINITY })
            &&& !best.1.nan()
            &&& forall|shift: int|
                first <= shift < end ==> (#[trigger] shift_error(
                    unit,
                    before,
                    after,
                    length,
                    shift,
                ) matches Some(error) ==> !error.less(best.1))
        }),
    decreases end - first,
{
    if first < end {
        best_shift_is_best(unit, before, after, length, first, end - 1);
    }
}

/// The brightness of a pixel is a weighted sum of its red, its green and its blue,
/// the first three of its four bytes; the pixels stand row by row.
pub proof fn brightness_weighs_the_colors<F: Fn(Operation) -> Scalar>(
    unit: F,
    image: RgbaImage,
    x: int,
    y: int,
)
    ensures
        ({
            let red = count_of(unit, image.rgba@[4 * (y * image.width + x)] as u64);
            let green = count_of(unit, image.rgba@[4 * (y * image.width + x) + 1] as u64);
            let blue = count_of(unit, image.rgba@[4 * (y * image.width + x) + 2] as u64);
            let warm = plus(
                unit,
                times(unit, red, Scalar { bits: 0x3E59_B3D0 }),
                times(unit, green, Scalar { bits: 0x3F37_1759 }),
            );
            pixel_luma(unit, image, x, y) == plus(
                unit,
                warm,
                times(unit, blue, Scalar { bits: 0x3D93_DD98 }),
            )
        }),
{
}

proof fn lemma_column_sum<F: Fn(Operation) -> Scalar>(
    unit: F,
    image: RgbaImage,
    x: int,
    from: int,
    to: int,
    end: int,
    values: spec_fn(int) -> int,
)
    requires
        exact_on_counts(unit),
        from <= to <= end,
        forall|y: int|
            from <= y < end ==> 0 <= #[trigger] values(y) && stands_for(
                pixel_luma(unit, image, x, y),
                values(y),
            ),
        countable(sum_of(values, from, end)),
    ensures
        stands_for(column_total(unit, image, x, from, to), sum_of(values, from, to)),
        countable(sum_of(values, from, to)),
    decreases to - from,
{
    sums_grow(values, from, to, end);
    if from < to {
        lemma_column_sum(unit, image, x, from, to - 1, end, values);
        sums_grow(values, from, to - 1, end);
        assert(stands_for(pixel_luma(unit, image, x, to - 1), values(to - 1)));
        assert(countable(values(to - 1)));
    } else {
        zero_is_zero();
    }
}

proof fn lemma_row_sum<F: Fn(Operation) -> Scalar>(
    unit: F,
    image: RgbaImage,
    y: int,
    from: int,
    to: int,
    end: int,
    values: spec_fn(int) -> int,
)
    requires
        exact_on_counts(unit),
        from <= to <= end,
        forall|x: int|
            from <= x < end ==> 0 <= #[trigger] values(x) && stands_for(
                pixel_luma(unit, image, x, y),
                values(x),
            ),
        countable(sum_of(values, from, end)),
    ensures
        stands_for(row_total(unit, image, y, from, to), sum_of(values, from, to)),
        countable(sum_of(values, from, to)),
    decreases to - from,
{
    sums_grow(values, from, to, end);
    if from < to {
        lemma_row_sum(unit, image, y, from, to - 1, end, values);
        sums_grow(values, from, to - 1, end);
        assert(stands_for(pixel_luma(unit, image, to - 1, y), values(to - 1)));
        assert(countable(values(to - 1)));
    } else {
        zero_is_zero();
    }
}

/// The profile of an image holds, for each column, the mean brightness of its pixels
/// without the uppermost and the lowest tenth.
pub proof fn columns_are_averaged<F: Fn(Operation) -> Scalar>(
    unit: F,
    image: RgbaImage,
    x: int,
    values: spec_fn(int) -> int,
    average: int,
)
    requires
        exact_on_counts(unit),
        divides_counts(unit),
        0 < image.height <= 0x100_0000,
        forall|y: int|
            image.height as int / 10 <= y < image.height - image.height as int / 10 ==> 0
                <= #[trigger] values(y) && stands_for(pixel_luma(unit, image, x, y), values(y)),
        sum_of(
            values,
            image.height as int / 10,
            image.height - image.height as int / 10,
        ) == average * (image.height - 2 * (image.height as int / 10)),
        countable(average * (image.height - 2 * (image.height as int / 10))),
    ensures
        stands_for(column_mean(unit, image, x), average),
{
    let from = image.height as int / 10;
    let to = image.height - from;
    lemma_column_sum(unit, image, x, from, to, to, values);
    let kept = count_of(unit, (to - from) as u64);
    assert(stands_for(kept, to - from));
    assert(stands_for(column_total(unit, image, x, from, to), average * (to - from)));
}

/// It holds, for each row, the mean brightness of its pixels without the leftmost and
/// the rightmost tenth.
pub proof fn rows_are_averaged<F: Fn(Operation) -> Scalar>(
    unit: F,
    image: RgbaImage,
    y: int,
    values: spec_fn(int) -> int,
    average: int,
)
    requires
        exact_on_counts(unit),
        divides_counts(unit),
        0 < image.width <= 0x100_0000,
        forall|x: int|
            image.width as int / 10 <= x < image.width - image.width as int / 10 ==> 0
                <= #[trigger] values(x) && stands_for(pixel_luma(unit, image, x, y), values(x)),
        sum_of(
            values,
            image.width as int / 10,
            image.width - image.width as int / 10,
        ) == average * (image.width - 2 * (image.width as int / 10)),
        countable(average * (image.width - 2 * (image.width as int / 10))),
    ensures
        stands_for(row_mean(unit, image, y), average),
{
    let from = image.width as int / 10;
    let to = image.width - from;
    lemma_row_sum(unit, image, y, from, to, to, values);
    let kept = count_of(unit, (to - from) as u64);
    assert(stands_for(kept, to - from));
    assert(stands_for(row_total(unit, image, y, from, to), average * (to - from)));
}

proof fn lemma_total<F: Fn(Operation) -> Scalar>(
    unit: F,
    numbers: Seq<Scalar>,
    n: int,
    end: int,
    values: spec_fn(int) -> int,
)
    requires
        exact_on_counts(unit),
        0 <= n <= end,
        forall|i: int| 0 <= i < end ==> 0 <= #[trigger] values(i) && stands_for(numbers[i], values(i)),
        countable(sum_of(values, 0, end)),
    ensures
        stands_for(total(unit, numbers, n), sum_of(values, 0, n)),
        countable(sum_of(values, 0, n)),
    decreases n,
{
    sums_grow(values, 0, n, end);
    if 0 < n {
        lemma_total(unit, numbers, n - 1, end, values);
        sums_grow(values, 0, n - 1, end);
        assert(stands_for(numbers[n - 1], values(n - 1)));
        assert(countable(values(n - 1)));
    } else {
        zero_is_zero();
    }
}

/// The mean of whole numbers is their sum by how many they are.
pub proof fn means_are_shares_of_the_sum<F: Fn(Operation) -> Scalar>(
    unit: F,
    numbers: Seq<Scalar>,
    n: int,
    values: spec_fn(int) -> int,
    average: int,
)
    requires
        exact_on_counts(unit),
        divides_counts(unit),
        0 < n <= 0x100_0000,
        forall|i: int| 0 <= i < n ==> 0 <= #[trigger] values(i) && stands_for(numbers[i], values(i)),
        sum_of(values, 0, n) == average * n,
        countable(average * n),
    ensures
        stands_for(mean(unit, numbers, n), average),
{
    lemma_total(unit, numbers, n, n, values);
    assert(stands_for(count_of(unit, n as u64), n));
    assert(stands_for(total(unit, numbers, n), average * n));
}

/// Two profiles are compared exactly where both have a value once one is shifted,
/// without the first and the last tenth of their common length.
pub proof fn profiles_are_compared_where_they_overlap(length: int, shift: int, place: int)
    requires
        0 <= length,
        shift <= length,
    ensures
        ({
            let (from, to) = compared(length, shift);
            from <= place < to <==> {
                &&& length / 10 <= place < length - length / 10
                &&& 0 <= place + shift < length
            }
        }),
{
}

/// How far two profiles, each taken against its own mean, are apart at a place.
pub open spec fn apart(
    before: spec_fn(int) -> int,
    middle: int,
    after: spec_fn(int) -> int,
    other_middle: int,
    shift: int,
) -> spec_fn(int) -> int {
    |place: int|
        {
            let off = (before(place) - middle) - (after(place + shift) - other_middle);
            if off < 0 {
                -off
            } else {
                off
            }
        }
}

/// The mismatch at a shift is the sum of the distances between the profiles, each
/// taken against its own mean.
pub proof fn mismatch_sums_the_distances<F: Fn(Operation) -> Scalar>(
    unit: F,
    before: Seq<Scalar>,
    after: Seq<Scalar>,
    length: int,
    shift: int,
    from: int,
    to: int,
    first: spec_fn(int) -> int,
    second: spec_fn(int) -> int,
    middle: int,
    other_middle: int,
)
    requires
        exact_on_counts(unit),
        from <= to,
        stands_for(mean(unit, before, length), middle),
        stands_for(mean(unit, after, length), other_middle),
        0 <= middle <= 255 && 0 <= other_middle <= 255,
        forall|i: int|
            from <= i < to ==> 0 <= #[trigger] first(i) <= 255 && stands_for(before[i], first(i)),
        forall|i: int|
            from <= i - shift < to ==> 0 <= #[trigger] second(i) <= 255 && stands_for(
                after[i],
                second(i),
            ),
        to - from <= 0x4000,
    ensures
        stands_for(
            mismatch(unit, before, after, length, shift, from, to),
            sum_of(apart(first, middle, second, other_middle, shift), from, to),
        ),
        0 <= sum_of(apart(first, middle, second, other_middle, shift), from, to) <= 1020 * (to - from),
    decreases to - from,
{
    if from < to {
        mismatch_sums_the_distances(
            unit,
            before,
            after,
            length,
            shift,
            from,
            to - 1,
            first,
            second,
            middle,
            other_middle,
        );
        let i = to - 1;
        assert(stands_for(before[i], first(i)));
        assert(0 <= second(i + shift) <= 255 && stands_for(after[i + shift], second(i + shift)));
        let left = minus(unit, before[i], mean(unit, before, length));
        let right = minus(unit, after[i + shift], mean(unit, after, length));
        assert(stands_for(left, first(i) - middle));
        assert(stands_for(right, second(i + shift) - other_middle));
        let off = (first(i) - middle) - (second(i + shift) - other_middle);
        assert(stands_for(minus(unit, left, right), off));
        absolute_values(minus(unit, left, right), off);
    } else {
        zero_is_zero();
    }
}

/// The error at a shift is the mismatch by the number of places compared, and there
/// is none where nothing is left to compare.
pub proof fn errors_are_averaged<F: Fn(Operation) -> Scalar>(
    unit: F,
    before: Seq<Scalar>,
    after: Seq<Scalar>,
    length: int,
    shift: int,
)
    requires
        0 <= length <= 0x100_0000,
        shift <= length,
    ensures
        match shift_error(unit, before, after, length, shift) {
            None => forall|place: int|
                length / 10 <= place < length - length / 10 ==> !(0 <= #[trigger] (place + shift)
                    < length),
            Some(error) => exists|from: int, to: int|
                from < to && error == over(
                    unit,
                    #[trigger] mismatch(unit, before, after, length, shift, from, to),
                    count_of(unit, (to - from) as u64),
                ) && forall|place: int|
                    from <= place < to <==> length / 10 <= place < length - length / 10 && 0
                        <= #[trigger] (place + shift) < length,
        },
{
    let (from, to) = compared(length, shift);
    assert forall|place: int|
        from <= place < to <==> length / 10 <= place < length - length / 10 && 0 <= #[trigger] (place
            + shift) < length by {
        profiles_are_compared_where_they_overlap(length, shift, place);
    }
    if to > from {
        let sum = mismatch(unit, before, after, length, shift, from, to);
    }
}

/// Of shifts that fit as well the first is found.
pub proof fn first_best_shift_is_found<F: Fn(Operation) -> Scalar>(
    unit: F,
    before: Seq<Scalar>,
    after: Seq<Scalar>,
    length: int,
    first: int,
    end: int,
)
    ensures
        ({
            let best = best_shift(unit, before, after, length, first, end);
            !best.1.same_number(Scalar { bits: 0x7F80_0000 }) ==> forall|shift: int|
                first <= shift < best.0 ==> (#[trigger] shift_error(
                    unit,
                    before,
                    after,
                    length,
                    shift,
                ) matches Some(error) ==> !error.same_number(best.1))
        }),
    decreases end - first,
{
    if first < end {
        first_best_shift_is_found(unit, before, after, length, first, end - 1);
        best_shift_is_best(unit, before, after, length, first, end - 1);
    }
}

} // verus!
