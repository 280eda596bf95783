//! Fits a frame into the square that the detectors see, and finds the way back.

use crate::arithmetic::{
    computes, count_of, counted, difference, minus, over, product, quotient, round, rounded, times,
    Operation,
};
use crate::camera::grid::stands_for;
use crate::order::{order_exists, orders, precedes, sorted_order, stable_order};
use crate::scalar::{order_is_numeric, Scalar, ZERO};
use crate::vision::detection::{Detection, DetectionKind};
use crate::whole::patterns_denote_whole_numbers;
use vstd::arithmetic::power2::lemma2_to64;
use vstd::prelude::*;

verus! {

/// Width and height of a detector's input.
pub const MODEL_WIDTH: usize = 640;

pub const MODEL_HEIGHT: usize = 640;

/// Levels in one color plane of a detector's input.
pub const PLANE_SIZE: usize = 409_600;

/// Level of the bars beside the frame.
pub const LETTERBOX_LEVEL: u8 = 114;

/// Bit pattern of 255, the highest level.
pub const HIGHEST_LEVEL: u32 = 0x437F_0000;

/// The class that each detector is asked for.
pub const DETECTOR_CLASS_ID: i32 = 0;

/// A frame, four bytes per pixel, row by row.
#[derive(Clone, Debug)]
pub struct RgbaImage {
    pub width: usize,
    pub height: usize,
    pub rgba: Vec<u8>,
}

impl RgbaImage {
    /// Every pixel has its bytes.
    pub open spec fn complete(self) -> bool {
        self.rgba@.len() >= self.width * self.height * 4
    }

    pub fn is_complete(&self) -> (r: bool)
        ensures
            r == self.complete(),
    {
        proof {
            let w = self.width as int;
            let h = self.height as int;
            assert(0 <= w * h <= 0xFFFF_FFFF_FFFF_FFFF * 0xFFFF_FFFF_FFFF_FFFF)
                by (nonlinear_arith)
                requires
                    0 <= w <= 0xFFFF_FFFF_FFFF_FFFF,
                    0 <= h <= 0xFFFF_FFFF_FFFF_FFFF,
            ;
        }
        let pixels: u128 = self.width as u128 * self.height as u128;
        self.rgba.len() as u128 / 4 >= pixels
    }
}

/// Where a frame lies in a detector's input.
#[derive(Copy, Clone, Debug)]
pub struct Letterbox {
    pub scale: Scalar,
    pub pad_x: Scalar,
    pub pad_y: Scalar,
    pub source_width: usize,
    pub source_height: usize,
}

/// Why a frame cannot be fitted.
#[derive(Copy, Clone, Debug, Eq, PartialEq, Structural)]
pub enum FrameError {
    Empty,
    Truncated,
}

impl FrameError {
    pub fn message(self) -> (r: &'static str)
        ensures
            r@ == (match self {
                FrameError::Empty => "Vision received an empty image"@,
                FrameError::Truncated => "Vision image buffer is smaller than expected"@,
            }),
    {
        match self {
            FrameError::Empty => "Vision received an empty image",
            FrameError::Truncated => "Vision image buffer is smaller than expected",
        }
    }
}

/// `x`, or the bound that it lies beyond.
pub open spec fn bounded(x: int, low: int, high: int) -> int {
    if x < low {
        low
    } else if x > high {
        high
    } else {
        x
    }
}

/// By how much a frame is scaled.
pub open spec fn fit_scale<F: Fn(Operation) -> Scalar>(unit: F, width: usize, height: usize) -> Scalar {
    over(unit, count_of(unit, MODEL_WIDTH as u64), count_of(unit, width as u64)).smaller(
        over(unit, count_of(unit, MODEL_HEIGHT as u64), count_of(unit, height as u64)),
    )
}

/// Size of a side once it is scaled.
pub open spec fn fitted<F: Fn(Operation) -> Scalar>(
    unit: F,
    side: usize,
    scale: Scalar,
    limit: usize,
) -> int {
    bounded(round(unit, times(unit, count_of(unit, side as u64), scale)).whole(), 1, limit as int)
}

/// Source position of a target position, where `fitted` stands for `side`.
pub open spec fn source_position(target: int, side: int, fitted: int) -> int {
    target * side / fitted
}

/// Level `index` of the input, of which each plane holds one color.
pub open spec fn input_level(
    image: RgbaImage,
    fitted_width: int,
    fitted_height: int,
    index: int,
) -> u8 {
    let plane = index / PLANE_SIZE as int;
    let x = index % MODEL_WIDTH as int - (MODEL_WIDTH - fitted_width) / 2;
    let y = index % PLANE_SIZE as int / MODEL_WIDTH as int - (MODEL_HEIGHT - fitted_height) / 2;
    if 0 <= x < fitted_width && 0 <= y < fitted_height {
        let source_x = source_position(x, image.width as int, fitted_width);
        let source_y = source_position(y, image.height as int, fitted_height);
        image.rgba@[(source_y * image.width + source_x) * 4 + plane]
    } else {
        LETTERBOX_LEVEL
    }
}

fn fit_side<F: Fn(Operation) -> Scalar>(side: usize, scale: Scalar, limit: usize, unit: &F) -> (r: usize)
    requires
        computes(*unit),
        1 <= limit <= MODEL_WIDTH,
    ensures
        r == fitted(*unit, side, scale, limit),
        1 <= r <= limit,
{
    let size: i32 = rounded(unit, product(unit, counted(unit, side as u64), scale)).to_i32();
    if size < 1 {
        1
    } else if size as i64 > limit as i64 {
        limit
    } else {
        size as usize
    }
}

proof fn lemma_position(target: int, side: int, fitted: int)
    by (nonlinear_arith)
    requires
        0 <= target < fitted,
        0 < side,
    ensures
        0 <= source_position(target, side, fitted) < side,
{
}

proof fn lemma_pixel(x: int, y: int, width: int, height: int)
    by (nonlinear_arith)
    requires
        0 <= x < width,
        0 <= y < height,
    ensures
        0 <= y * width + x,
        (y * width + x) * 4 + 3 < width * height * 4,
{
}

fn locate(target: usize, side: usize, fitted: usize) -> (r: usize)
    requires
        target < fitted <= MODEL_WIDTH,
        0 < side,
    ensures
        r == source_position(target as int, side as int, fitted as int),
        r < side,
{
    proof {
        lemma_position(target as int, side as int, fitted as int);
        assert(target * side <= MODEL_WIDTH * side) by (nonlinear_arith)
            requires
                target <= MODEL_WIDTH,
        ;
    }
    (target as u128 * side as u128 / fitted as u128) as usize
}

/// Scales a frame by nearest neighbor, centers it between bars and splits it into
/// planes of red, green and blue levels.
pub fn preprocess<F: Fn(Operation) -> Scalar>(image: &RgbaImage, unit: &F) -> (r: Result<
    (Vec<u8>, Letterbox),
    FrameError,
>)
    requires
        computes(*unit),
    ensures
        r == Err::<(Vec<u8>, Letterbox), FrameError>(FrameError::Empty) <==> image.width == 0
            || image.height == 0,
        r == Err::<(Vec<u8>, Letterbox), FrameError>(FrameError::Truncated) <==> image.width > 0
            && image.height > 0 && !image.complete(),
        r matches Ok((levels, letterbox)) ==> {
            let scale = fit_scale(*unit, image.width, image.height);
            let fitted_width = fitted(*unit, image.width, scale, MODEL_WIDTH);
            let fitted_height = fitted(*unit, image.height, scale, MODEL_HEIGHT);
            &&& letterbox == (Letterbox {
                scale,
                pad_x: count_of(*unit, ((MODEL_WIDTH - fitted_width) / 2) as u64),
                pad_y: count_of(*unit, ((MODEL_HEIGHT - fitted_height) / 2) as u64),
                source_width: image.width,
                source_height: image.height,
            })
            &&& levels@ == Seq::new(
                (3 * PLANE_SIZE) as nat,
                |i: int| input_level(*image, fitted_width, fitted_height, i),
            )
        },
{
    let width: usize = image.width;
    let height: usize = image.height;
    if width == 0 || height == 0 {
        return Err(FrameError::Empty);
    }
    let scale = quotient(
        unit,
        counted(unit, MODEL_WIDTH as u64),
        counted(unit, width as u64),
    ).min(quotient(unit, counted(unit, MODEL_HEIGHT as u64), counted(unit, height as u64)));
    let fitted_width: usize = fit_side(width, scale, MODEL_WIDTH, unit);
    let fitted_height: usize = fit_side(height, scale, MODEL_HEIGHT, unit);
    let pad_x: usize = (MODEL_WIDTH - fitted_width) / 2;
    let pad_y: usize = (MODEL_HEIGHT - fitted_height) / 2;
    if !image.is_complete() {
        return Err(FrameError::Truncated);
    }
    let mut levels: Vec<u8> = Vec::new();
    let mut index: usize = 0;
    while index < 3 * PLANE_SIZE
        invariant
            index <= 3 * PLANE_SIZE,
            width == image.width,
            height == image.height,
            0 < width,
            0 < height,
            image.complete(),
            1 <= fitted_width <= MODEL_WIDTH,
            1 <= fitted_height <= MODEL_HEIGHT,
            pad_x == (MODEL_WIDTH - fitted_width) / 2,
            pad_y == (MODEL_HEIGHT - fitted_height) / 2,
            levels@.len() == index,
            forall|i: int|
                0 <= i < index ==> levels@[i] == input_level(
                    *image,
                    fitted_width as int,
                    fitted_height as int,
                    i,
                ),
        decreases 3 * PLANE_SIZE - index,
    {
        let plane: usize = index / PLANE_SIZE;
        let x: usize = index % MODEL_WIDTH;
        let y: usize = index % PLANE_SIZE / MODEL_WIDTH;
        let mut level: u8 = LETTERBOX_LEVEL;
        if pad_x <= x && x < pad_x + fitted_width && pad_y <= y && y < pad_y + fitted_height {
            let source_x: usize = locate(x - pad_x, width, fitted_width);
            let source_y: usize = locate(y - pad_y, height, fitted_height);
            proof {
                lemma_pixel(source_x as int, source_y as int, width as int, height as int);
                assert(image.rgba.len() <= usize::MAX);
                assert(plane < 3);
            }
            level = image.rgba[(source_y * width + source_x) * 4 + plane];
        }
        levels.push(level);
        index += 1;
    }
    let letterbox = Letterbox {
        scale,
        pad_x: counted(unit, pad_x as u64),
        pad_y: counted(unit, pad_y as u64),
        source_width: width,
        source_height: height,
    };
    Ok((levels, letterbox))
}

/// Source coordinate of a coordinate in the input.
pub open spec fn unfitted<F: Fn(Operation) -> Scalar>(
    unit: F,
    coordinate: Scalar,
    pad: Scalar,
    scale: Scalar,
    side: usize,
) -> Scalar {
    over(unit, minus(unit, coordinate, pad), scale).clamped(
        Scalar { bits: ZERO },
        count_of(unit, side as u64),
    )
}

/// What a detector sees of a level: its part of the highest one.
pub open spec fn input_value<F: Fn(Operation) -> Scalar>(unit: F, level: u8) -> Scalar {
    over(unit, count_of(unit, level as u64), Scalar { bits: HIGHEST_LEVEL })
}

/// What a detector sees of levels.
pub fn input_values<F: Fn(Operation) -> Scalar>(levels: &Vec<u8>, unit: &F) -> (r: Vec<Scalar>)
    requires
        computes(*unit),
    ensures
        r@ == levels@.map_values(|level: u8| input_value(*unit, level)),
{
    let highest = Scalar::from_bits(HIGHEST_LEVEL);
    let mut r: Vec<Scalar> = Vec::new();
    let mut i: usize = 0;
    while i < levels.len()
        invariant
            computes(*unit),
            highest.bits == HIGHEST_LEVEL,
            i <= levels@.len(),
            r@.len() == i,
            forall|k: int| 0 <= k < i ==> r@[k] == input_value(*unit, levels@[k]),
        decreases levels@.len() - i,
    {
        r.push(quotient(unit, counted(unit, levels[i] as u64), highest));
        i += 1;
    }
    assert(r@ =~= levels@.map_values(|level: u8| input_value(*unit, level)));
    r
}

/// Both sides of the frame count as numbers that are not negative.
pub open spec fn measurable<F: Fn(Operation) -> Scalar>(unit: F, letterbox: Letterbox) -> bool {
    let zero = Scalar { bits: ZERO };
    &&& zero.less_equal(count_of(unit, letterbox.source_width as u64))
    &&& zero.less_equal(count_of(unit, letterbox.source_height as u64))
}

pub fn is_measurable<F: Fn(Operation) -> Scalar>(letterbox: &Letterbox, unit: &F) -> (r: bool)
    requires
        computes(*unit),
    ensures
        r == measurable(*unit, *letterbox),
{
    let zero = Scalar::from_bits(ZERO);
    zero.at_most(counted(unit, letterbox.source_width as u64)) && zero.at_most(
        counted(unit, letterbox.source_height as u64),
    )
}

/// The detection that a row of a detector's output stands for: its corners,
/// confidence and class. Nothing where the class is another, the confidence is
/// too low or the box is empty.
pub open spec fn decoded<F: Fn(Operation) -> Scalar>(
    unit: F,
    row: Seq<Scalar>,
    letterbox: Letterbox,
    kind: DetectionKind,
    threshold: Scalar,
) -> Option<Detection> {
    let x1 = unfitted(unit, row[0], letterbox.pad_x, letterbox.scale, letterbox.source_width);
    let y1 = unfitted(unit, row[1], letterbox.pad_y, letterbox.scale, letterbox.source_height);
    let x2 = unfitted(unit, row[2], letterbox.pad_x, letterbox.scale, letterbox.source_width);
    let y2 = unfitted(unit, row[3], letterbox.pad_y, letterbox.scale, letterbox.source_height);
    if round(unit, row[5]).whole() != DETECTOR_CLASS_ID || row[4].less(threshold) {
        None
    } else if x2.less_equal(x1) || y2.less_equal(y1) {
        None
    } else {
        Some(Detection { kind, x1, y1, x2, y2, confidence: row[4], id: 0 })
    }
}

/// Row `r` of a detector's output.
pub open spec fn output_row(data: Seq<Scalar>, row_width: int, r: int) -> Seq<Scalar> {
    Seq::new(row_width as nat, |i: int| data[r * row_width + i])
}

/// Detections of the first `n` rows, in their order.
pub open spec fn decoded_rows<F: Fn(Operation) -> Scalar>(
    unit: F,
    data: Seq<Scalar>,
    letterbox: Letterbox,
    kind: DetectionKind,
    threshold: Scalar,
    row_width: int,
    n: int,
) -> Seq<Detection>
    decreases n,
{
    if n <= 0 {
        Seq::empty()
    } else {
        let earlier = decoded_rows(unit, data, letterbox, kind, threshold, row_width, n - 1);
        match decoded(unit, output_row(data, row_width, n - 1), letterbox, kind, threshold) {
            Some(detection) => earlier.push(detection),
            None => earlier,
        }
    }
}

/// Sorting keys that put the surest first.
pub open spec fn confidence_keys(detections: Seq<Detection>) -> Seq<i64> {
    Seq::new(detections.len(), |i: int| (-detections[i].confidence.total_rank()) as i64)
}

/// The detections from the surest to the least sure; as they came where equal.
pub open spec fn by_confidence(detections: Seq<Detection>) -> Seq<Detection> {
    let order = sorted_order(confidence_keys(detections));
    Seq::new(order.len(), |i: int| detections[order[i] as int])
}

fn unfit<F: Fn(Operation) -> Scalar>(
    coordinate: Scalar,
    pad: Scalar,
    scale: Scalar,
    side: usize,
    unit: &F,
) -> (r: Scalar)
    requires
        computes(*unit),
        (Scalar { bits: ZERO }).less_equal(count_of(*unit, side as u64)),
    ensures
        r == unfitted(*unit, coordinate, pad, scale, side),
{
    quotient(unit, difference(unit, coordinate, pad), scale).clamp(
        Scalar::from_bits(ZERO),
        counted(unit, side as u64),
    )
}

fn decode_row<F: Fn(Operation) -> Scalar>(
    data: &Vec<Scalar>,
    start: usize,
    letterbox: &Letterbox,
    kind: DetectionKind,
    threshold: Scalar,
    unit: &F,
) -> (r: Option<Detection>)
    requires
        computes(*unit),
        measurable(*unit, *letterbox),
        start + 6 <= data@.len(),
    ensures
        forall|row: Seq<Scalar>|
            6 <= row.len() && (forall|i: int| 0 <= i < 6 ==> row[i] == data@[start + i]) ==> r
                == #[trigger] decoded(*unit, row, *letterbox, kind, threshold),
{
    assert(data.len() <= usize::MAX);
    let confidence = data[start + 4];
    let class_id: i32 = rounded(unit, data[start + 5]).to_i32();
    if class_id != DETECTOR_CLASS_ID || confidence.below(threshold) {
        return None;
    }
    let width: usize = letterbox.source_width;
    let height: usize = letterbox.source_height;
    let x1 = unfit(data[start], letterbox.pad_x, letterbox.scale, width, unit);
    let y1 = unfit(data[start + 1], letterbox.pad_y, letterbox.scale, height, unit);
    let x2 = unfit(data[start + 2], letterbox.pad_x, letterbox.scale, width, unit);
    let y2 = unfit(data[start + 3], letterbox.pad_y, letterbox.scale, height, unit);
    if x2.at_most(x1) || y2.at_most(y1) {
        return None;
    }
    Some(Detection { kind, x1, y1, x2, y2, confidence, id: 0 })
}

fn sort_detections(detections: &Vec<Detection>) -> (r: Vec<Detection>)
    ensures
        r@ == by_confidence(detections@),
        r@.len() == detections@.len(),
{
    let count: usize = detections.len();
    let mut keys: Vec<i64> = Vec::new();
    let mut i: usize = 0;
    while i < count
        invariant
            i <= count == detections@.len(),
            keys@.len() == i,
            forall|k: int| 0 <= k < i ==> keys@[k] == -detections@[k].confidence.total_rank(),
        decreases count - i,
    {
        keys.push(-detections[i].confidence.total_key());
        i += 1;
    }
    assert(keys@ =~= confidence_keys(detections@));
    let order = stable_order(&keys);
    let mut r: Vec<Detection> = Vec::new();
    let mut j: usize = 0;
    while j < order.len()
        invariant
            j <= order@.len(),
            orders(keys@, 0, keys@.len() as int, order@),
            keys@.len() == detections@.len(),
            r@.len() == j,
            forall|k: int| 0 <= k < j ==> r@[k] == detections@[order@[k] as int],
        decreases order@.len() - j,
    {
        let index: usize = order[j];
        r.push(detections[index]);
        j += 1;
    }
    assert(r@ =~= by_confidence(detections@));
    r
}

/// Reads a detector's output: the detections of its complete rows, the surest
/// first.
pub fn decode_detections<F: Fn(Operation) -> Scalar>(
    data: &Vec<Scalar>,
    letterbox: &Letterbox,
    kind: DetectionKind,
    confidence_threshold: Scalar,
    row_width: usize,
    unit: &F,
) -> (r: Vec<Detection>)
    requires
        computes(*unit),
        6 <= row_width,
        measurable(*unit, *letterbox),
    ensures
        r@ == by_confidence(
            decoded_rows(
                *unit,
                data@,
                *letterbox,
                kind,
                confidence_threshold,
                row_width as int,
                data@.len() as int / row_width as int,
            ),
        ),
        r@.len() <= data@.len() as int / row_width as int,
{
    let count: usize = data.len() / row_width;
    let mut found: Vec<Detection> = Vec::new();
    let mut r: usize = 0;
    while r < count
        invariant
            computes(*unit),
            6 <= row_width,
            measurable(*unit, *letterbox),
            r <= count == data@.len() as int / row_width as int,
            found@.len() <= r,
            found@ == decoded_rows(
                *unit,
                data@,
                *letterbox,
                kind,
                confidence_threshold,
                row_width as int,
                r as int,
            ),
        decreases count - r,
    {
        proof {
            let length = data@.len() as int;
            let width = row_width as int;
            assert(r * width + width <= length && 0 <= r * width) by (nonlinear_arith)
                requires
                    0 <= r < length / width,
                    0 < width,
                    0 <= length,
            ;
            assert(data.len() <= usize::MAX);
        }
        let ghost row = output_row(data@, row_width as int, r as int);
        match decode_row(data, r * row_width, letterbox, kind, confidence_threshold, unit) {
            Some(detection) => {
                assert(decoded(*unit, row, *letterbox, kind, confidence_threshold) is Some);
                found.push(detection);
            },
            None => {
                assert(decoded(*unit, row, *letterbox, kind, confidence_threshold) is None);
            },
        }
        r += 1;
    }
    sort_detections(&found)
}

/// The coordinate lies within the frame, unless it is not a number.
pub open spec fn within<F: Fn(Operation) -> Scalar>(unit: F, coordinate: Scalar, side: usize) -> bool {
    coordinate.nan() || ((Scalar { bits: ZERO }).less_equal(coordinate) && coordinate.less_equal(
        count_of(unit, side as u64),
    ))
}

/// What is decoded lies in the frame, is not empty, is of the kind asked for
/// and has no identity yet.
pub open spec fn presentable<F: Fn(Operation) -> Scalar>(
    unit: F,
    letterbox: Letterbox,
    kind: DetectionKind,
    threshold: Scalar,
    detection: Detection,
) -> bool {
    &&& detection.kind == kind
    &&& detection.id == 0
    &&& !detection.confidence.less(threshold)
    &&& !detection.x2.less_equal(detection.x1)
    &&& !detection.y2.less_equal(detection.y1)
    &&& within(unit, detection.x1, letterbox.source_width)
    &&& within(unit, detection.x2, letterbox.source_width)
    &&& within(unit, detection.y1, letterbox.source_height)
    &&& within(unit, detection.y2, letterbox.source_height)
}

proof fn lemma_decoded_rows<F: Fn(Operation) -> Scalar>(
    unit: F,
    data: Seq<Scalar>,
    letterbox: Letterbox,
    kind: DetectionKind,
    threshold: Scalar,
    row_width: int,
    n: int,
)
    requires
        measurable(unit, letterbox),
        0 <= n,
    ensures
        ({
            let rows = decoded_rows(unit, data, letterbox, kind, threshold, row_width, n);
            &&& rows.len() <= n
            &&& forall|i: int|
                0 <= i < rows.len() ==> presentable(
                    unit,
                    letterbox,
                    kind,
                    threshold,
                    #[trigger] rows[i],
                )
        }),
    decreases n,
{
    if n > 0 {
        lemma_decoded_rows(unit, data, letterbox, kind, threshold, row_width, n - 1);
    }
}

/// Whatever a detector answers, every detection read from it lies in the frame,
/// covers something, has the kind asked for and is sure enough; and no detection
/// comes after a less sure one.
pub proof fn decoded_detections_fit_the_frame<F: Fn(Operation) -> Scalar>(
    unit: F,
    data: Seq<Scalar>,
    letterbox: Letterbox,
    kind: DetectionKind,
    threshold: Scalar,
    row_width: int,
)
    requires
        measurable(unit, letterbox),
        6 <= row_width,
        data.len() <= usize::MAX,
    ensures
        ({
            let rows = decoded_rows(
                unit,
                data,
                letterbox,
                kind,
                threshold,
                row_width,
                data.len() as int / row_width,
            );
            let sorted = by_confidence(rows);
            &&& sorted.len() == rows.len()
            &&& forall|i: int|
                0 <= i < sorted.len() ==> presentable(
                    unit,
                    letterbox,
                    kind,
                    threshold,
                    #[trigger] sorted[i],
                )
            &&& forall|i: int, j: int|
                0 <= i < j < sorted.len() ==> (
                #[trigger] sorted[i]).confidence.total_rank() >= (
                #[trigger] sorted[j]).confidence.total_rank()
        }),
{
    let length = data.len() as int;
    let n = length / row_width;
    assert(0 <= n <= length) by (nonlinear_arith)
        requires
            n == length / row_width,
            6 <= row_width,
            0 <= length,
    ;
    lemma_decoded_rows(unit, data, letterbox, kind, threshold, row_width, n);
    let rows = decoded_rows(unit, data, letterbox, kind, threshold, row_width, n);
    let keys = confidence_keys(rows);
    order_exists(keys);
    let order = sorted_order(keys);
    let sorted = by_confidence(rows);
    assert forall|i: int, j: int| 0 <= i < j < sorted.len() implies (
    #[trigger] sorted[i]).confidence.total_rank() >= (
    #[trigger] sorted[j]).confidence.total_rank() by {
        assert(precedes(keys, order[i] as int, order[j] as int));
    }
}

/// The edge of a box in source pixels: what a detector gave, without the bar and
/// without the scale, moved into the frame.
pub open spec fn edge<F: Fn(Operation) -> Scalar>(
    unit: F,
    given: Scalar,
    bar: Scalar,
    scale: Scalar,
    side: usize,
    result: Scalar,
) -> bool {
    let free = over(unit, minus(unit, given, bar), scale);
    let far = count_of(unit, side as u64);
    if free.less(Scalar { bits: 0 }) {
        result == (Scalar { bits: 0 })
    } else if far.less(free) {
        result == far
    } else {
        result == free
    }
}

/// The detection is what row `r` of a detector's output says: its edges from the
/// first four numbers, its confidence from the fifth.
pub open spec fn comes_from<F: Fn(Operation) -> Scalar>(
    unit: F,
    data: Seq<Scalar>,
    letterbox: Letterbox,
    row_width: int,
    r: int,
    detection: Detection,
) -> bool {
    let at = r * row_width;
    let (width, height) = (letterbox.source_width, letterbox.source_height);
    &&& edge(unit, data[at], letterbox.pad_x, letterbox.scale, width, detection.x1)
    &&& edge(unit, data[at + 1], letterbox.pad_y, letterbox.scale, height, detection.y1)
    &&& edge(unit, data[at + 2], letterbox.pad_x, letterbox.scale, width, detection.x2)
    &&& edge(unit, data[at + 3], letterbox.pad_y, letterbox.scale, height, detection.y2)
    &&& detection.confidence == data[at + 4]
}

/// Row `r` is of the first class and not less sure than it has to be.
pub open spec fn sure_row<F: Fn(Operation) -> Scalar>(
    unit: F,
    data: Seq<Scalar>,
    threshold: Scalar,
    row_width: int,
    r: int,
) -> bool {
    &&& round(unit, data[r * row_width + 5]).whole() == 0
    &&& !data[r * row_width + 4].less(threshold)
}

/// The detections read from the first `n` rows are those of the rows of the first
/// class, whatever the kind asked for, that are sure enough and whose box is not
/// empty: each row once, in the order of the rows. Gives the row of each detection.
pub proof fn rows_of_the_class_are_read<F: Fn(Operation) -> Scalar>(
    unit: F,
    data: Seq<Scalar>,
    letterbox: Letterbox,
    kind: DetectionKind,
    threshold: Scalar,
    row_width: int,
    n: int,
) -> (rows: Seq<int>)
    requires
        measurable(unit, letterbox),
        6 <= row_width,
        0 <= n,
    ensures
        ({
            let found = decoded_rows(unit, data, letterbox, kind, threshold, row_width, n);
            &&& rows.len() == found.len()
            &&& forall|i: int|
                0 <= i < found.len() ==> {
                    &&& 0 <= #[trigger] rows[i] < n
                    &&& sure_row(unit, data, threshold, row_width, rows[i])
                    &&& comes_from(unit, data, letterbox, row_width, rows[i], found[i])
                    &&& found[i].kind == kind
                    &&& found[i].id == 0
                    &&& !found[i].x2.less_equal(found[i].x1)
                    &&& !found[i].y2.less_equal(found[i].y1)
                }
            &&& forall|i: int, j: int|
                0 <= i < j < rows.len() ==> #[trigger] rows[i] < #[trigger] rows[j]
            &&& forall|r: int, detection: Detection|
                0 <= r < n && #[trigger] comes_from(
                    unit,
                    data,
                    letterbox,
                    row_width,
                    r,
                    detection,
                ) && sure_row(unit, data, threshold, row_width, r) && !detection.x2.less_equal(
                    detection.x1,
                ) && !detection.y2.less_equal(detection.y1) ==> rows.contains(r)
        }),
    decreases n,
{
    if n == 0 {
        Seq::empty()
    } else {
        let earlier = rows_of_the_class_are_read(
            unit,
            data,
            letterbox,
            kind,
            threshold,
            row_width,
            n - 1,
        );
        let last = n - 1;
        let row = output_row(data, row_width, last);
        assert(forall|i: int| 0 <= i < 6 ==> row[i] == data[last * row_width + i]);
        let before = decoded_rows(unit, data, letterbox, kind, threshold, row_width, last);
        let found = decoded_rows(unit, data, letterbox, kind, threshold, row_width, n);
        let taken = decoded(unit, row, letterbox, kind, threshold);
        let rows = match taken {
            Some(_) => earlier.push(last),
            None => earlier,
        };
        assert forall|i: int| 0 <= i < found.len() implies {
            &&& 0 <= #[trigger] rows[i] < n
            &&& sure_row(unit, data, threshold, row_width, rows[i])
            &&& comes_from(unit, data, letterbox, row_width, rows[i], found[i])
            &&& found[i].kind == kind
            &&& found[i].id == 0
            &&& !found[i].x2.less_equal(found[i].x1)
            &&& !found[i].y2.less_equal(found[i].y1)
        } by {
            if i < before.len() {
                assert(rows[i] == earlier[i]);
            }
        }
        assert forall|r: int, detection: Detection|
            0 <= r < n && #[trigger] comes_from(
                unit,
                data,
                letterbox,
                row_width,
                r,
                detection,
            ) && sure_row(unit, data, threshold, row_width, r) && !detection.x2.less_equal(
                detection.x1,
            ) && !detection.y2.less_equal(detection.y1) implies rows.contains(r) by {
            if r < last {
                let i = choose|i: int| 0 <= i < earlier.len() && earlier[i] == r;
                assert(rows[i] == r);
            } else {
                assert(taken is Some);
                assert(rows[earlier.len() as int] == r);
            }
        }
        rows
    }
}

/// Sorting rearranges detections: each is still there once, no detection comes
/// before a surer one, and detections that are as sure stay in their order. Gives
/// the old place of each.
pub proof fn surest_come_first(detections: Seq<Detection>) -> (places: Seq<usize>)
    requires
        detections.len() <= usize::MAX,
    ensures
        by_confidence(detections).len() == places.len() == detections.len(),
        forall|i: int|
            0 <= i < places.len() ==> #[trigger] places[i] < detections.len() && by_confidence(
                detections,
            )[i] == detections[places[i] as int],
        forall|k: int| 0 <= k < detections.len() ==> places.contains(#[trigger] (k as usize)),
        forall|i: int, j: int|
            0 <= i < j < places.len() ==> {
                let before = detections[#[trigger] places[i] as int].confidence.total_rank();
                let after = detections[#[trigger] places[j] as int].confidence.total_rank();
                before > after || (before == after && places[i] < places[j])
            },
{
    let keys = confidence_keys(detections);
    order_exists(keys);
    let order = sorted_order(keys);
    assert forall|i: int, j: int| 0 <= i < j < order.len() implies {
        let before = detections[#[trigger] order[i] as int].confidence.total_rank();
        let after = detections[#[trigger] order[j] as int].confidence.total_rank();
        before > after || (before == after && order[i] < order[j])
    } by {
        assert(precedes(keys, order[i] as int, order[j] as int));
    }
    order
}

/// A frame lies in the middle of a detector's input, between bars of level 114 that
/// differ by a column or a row at most. Each plane holds one color of the pixel that
/// lies as far into the frame as the place does into the middle.
pub proof fn frame_lies_between_bars(
    image: RgbaImage,
    fitted_width: int,
    fitted_height: int,
    plane: int,
    x: int,
    y: int,
)
    requires
        0 < image.width,
        0 < image.height,
        1 <= fitted_width <= 640,
        1 <= fitted_height <= 640,
        0 <= plane < 3,
        0 <= x < 640,
        0 <= y < 640,
    ensures
        ({
            let level = input_level(
                image,
                fitted_width,
                fitted_height,
                plane * 409_600 + y * 640 + x,
            );
            let left = (640 - fitted_width) / 2;
            let top = (640 - fitted_height) / 2;
            let right = 640 - fitted_width - left;
            let bottom = 640 - fitted_height - top;
            &&& left <= right <= left + 1
            &&& top <= bottom <= top + 1
            &&& x < left || x >= 640 - right || y < top || y >= 640 - bottom ==> level == 114
            &&& left <= x < 640 - right && top <= y < 640 - bottom ==> exists|
                source_x: int,
                source_y: int,
            |
                {
                    &&& 0 <= source_x < image.width
                    &&& 0 <= source_y < image.height
                    &&& source_x * fitted_width <= (x - left) * image.width < (source_x + 1)
                        * fitted_width
                    &&& source_y * fitted_height <= (y - top) * image.height < (source_y + 1)
                        * fitted_height
                    &&& level == #[trigger] image.rgba@[(source_y * image.width + source_x) * 4
                        + plane]
                }
        }),
{
    let index = plane * 409_600 + y * 640 + x;
    assert(index / 409_600 == plane && index % 409_600 == y * 640 + x);
    assert((y * 640 + x) / 640 == y && index % 640 == x);
    let left = (640 - fitted_width) / 2;
    let top = (640 - fitted_height) / 2;
    if left <= x < left + fitted_width && top <= y < top + fitted_height {
        let source_x = source_position(x - left, image.width as int, fitted_width);
        let source_y = source_position(y - top, image.height as int, fitted_height);
        lemma_position(x - left, image.width as int, fitted_width);
        lemma_position(y - top, image.height as int, fitted_height);
        lemma_quotient((x - left) * image.width, fitted_width);
        lemma_quotient((y - top) * image.height, fitted_height);
        assert(input_level(image, fitted_width, fitted_height, index)
            == image.rgba@[(source_y * image.width + source_x) * 4 + plane]);
    }
}

proof fn lemma_quotient(number: int, divisor: int)
    by (nonlinear_arith)
    requires
        0 < divisor,
    ensures
        number / divisor * divisor <= number < (number / divisor + 1) * divisor,
{
}

/// A frame is scaled by the smaller of what its width and its height allow, to at
/// least one pixel and no more than there is room for.
pub proof fn frame_is_scaled_to_fit<F: Fn(Operation) -> Scalar>(unit: F, width: usize, height: usize)
    ensures
        ({
            let scale = fit_scale(unit, width, height);
            let across = over(unit, count_of(unit, 640), count_of(unit, width as u64));
            let down = over(unit, count_of(unit, 640), count_of(unit, height as u64));
            let fitted_width = fitted(unit, width, scale, MODEL_WIDTH);
            let fitted_height = fitted(unit, height, scale, MODEL_HEIGHT);
            let exact_width = round(unit, times(unit, count_of(unit, width as u64), scale)).whole();
            let exact_height = round(
                unit,
                times(unit, count_of(unit, height as u64), scale),
            ).whole();
            &&& scale == across || scale == down
            &&& !across.less(scale)
            &&& !down.less(scale)
            &&& scale.nan() ==> across.nan() && down.nan()
            &&& 1 <= fitted_width <= 640
            &&& 1 <= fitted_height <= 640
            &&& 1 <= exact_width <= 640 ==> fitted_width == exact_width
            &&& 1 <= exact_height <= 640 ==> fitted_height == exact_height
            &&& exact_width > 640 ==> fitted_width == 640
            &&& exact_height > 640 ==> fitted_height == 640
        }),
{
}

/// A detector sees a level as its part of 255.
pub proof fn levels_are_parts_of_the_highest<F: Fn(Operation) -> Scalar>(
    unit: F,
    level: u8,
    highest: Scalar,
)
    requires
        stands_for(highest, 255),
        !highest.negative(),
    ensures
        input_value(unit, level) == over(unit, count_of(unit, level as u64), highest),
{
    lemma2_to64();
    patterns_denote_whole_numbers(HIGHEST_LEVEL, 255, 16);
    order_is_numeric(highest, Scalar { bits: HIGHEST_LEVEL });
    assert(highest.bits == HIGHEST_LEVEL);
}

} // verus!
