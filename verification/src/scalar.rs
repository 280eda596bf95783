//! Single-precision numbers held as their IEEE 754 bit patterns.
//!
//! Comparing, clamping, negating and truncating a number are exact operations on
//! its pattern and are verified here. Rounded arithmetic is not done here: see
//! the `arithmetic` module.

use vstd::arithmetic::div_mod::{
    lemma_div_by_multiple, lemma_div_is_ordered, lemma_div_multiples_vanish_quotient,
    lemma_fundamental_div_mod, lemma_basic_div,
};
use vstd::arithmetic::mul::{
    lemma_mul_inequality, lemma_mul_is_associative, lemma_mul_is_commutative,
    lemma_mul_strict_inequality,
};
use vstd::arithmetic::power2::{
    lemma2_to64, lemma_pow2_adds, lemma_pow2_pos, lemma_pow2_strictly_increases,
    lemma_pow2_unfold, pow2,
};
use vstd::bits::{lemma_u64_shl_is_mul, lemma_u64_shr_is_div};
use vstd::prelude::*;

verus! {

/// Bit pattern of zero.
pub const ZERO: u32 = 0x0000_0000;

/// Bit pattern of one half.
pub const HALF: u32 = 0x3F00_0000;

/// Bit pattern of a thousand.
pub const THOUSAND: u32 = 0x447A_0000;

/// Bit pattern of one.
pub const ONE: u32 = 0x3F80_0000;

/// Bit pattern of the machine epsilon, two to the power of minus 23.
pub const EPSILON: u32 = 0x3400_0000;

/// Bit pattern of positive infinity.
pub const INFINITY: u32 = 0x7F80_0000;

/// Bit pattern of negative infinity.
pub const NEG_INFINITY: u32 = 0xFF80_0000;

/// Weight of the sign bit.
pub const SIGN: u32 = 0x8000_0000;

/// Number of patterns that share one exponent.
pub const BINADE: u32 = 0x0080_0000;

/// A single-precision number. Derived equality compares patterns, so it tells
/// the two zeros apart and finds a NaN equal to itself; `equals` is the numeric
/// comparison.
#[derive(Copy, Clone, Debug, PartialEq, Eq, Structural)]
pub struct Scalar {
    pub bits: u32,
}

impl Scalar {
    /// The sign bit is set.
    pub open spec fn negative(self) -> bool {
        self.bits >= SIGN
    }

    /// The pattern without its sign bit.
    pub open spec fn magnitude(self) -> int {
        if self.negative() {
            self.bits - SIGN
        } else {
            self.bits as int
        }
    }

    /// The pattern denotes no number.
    pub open spec fn nan(self) -> bool {
        self.magnitude() > INFINITY
    }

    /// Position in numeric order: both zeros stand at 0.
    pub open spec fn rank(self) -> int {
        if self.negative() {
            -self.magnitude()
        } else {
            self.magnitude()
        }
    }

    /// Position in the total order of all patterns, NaNs at both ends.
    pub open spec fn total_rank(self) -> int {
        if self.negative() {
            -self.magnitude() - 1
        } else {
            self.magnitude()
        }
    }

    /// Numeric `self < other`: false as soon as one of them is a NaN.
    pub open spec fn less(self, other: Scalar) -> bool {
        !self.nan() && !other.nan() && self.rank() < other.rank()
    }

    /// Numeric `self <= other`: false as soon as one of them is a NaN.
    pub open spec fn less_equal(self, other: Scalar) -> bool {
        !self.nan() && !other.nan() && self.rank() <= other.rank()
    }

    /// Numeric equality: false as soon as one of them is a NaN.
    pub open spec fn same_number(self, other: Scalar) -> bool {
        !self.nan() && !other.nan() && self.rank() == other.rank()
    }

    /// The larger number; of a number and a NaN, the number.
    pub open spec fn larger(self, other: Scalar) -> Scalar {
        if self.nan() || self.less(other) {
            other
        } else {
            self
        }
    }

    /// The smaller number; of a number and a NaN, the number.
    pub open spec fn smaller(self, other: Scalar) -> Scalar {
        if self.nan() || other.less(self) {
            other
        } else {
            self
        }
    }

    /// The closest number between `low` and `high`; a NaN stays as it is.
    pub open spec fn clamped(self, low: Scalar, high: Scalar) -> Scalar {
        if self.less(low) {
            low
        } else if high.less(self) {
            high
        } else {
            self
        }
    }

    /// The number without its sign.
    pub open spec fn absolute(self) -> Scalar {
        Scalar { bits: self.magnitude() as u32 }
    }

    /// The number's value in units of the smallest positive number, two to the
    /// power of minus 149. An infinity counts as the number that would follow
    /// the largest finite one.
    pub open spec fn quanta(self) -> int {
        if self.negative() {
            -magnitude_quanta(self.magnitude())
        } else {
            magnitude_quanta(self.magnitude())
        }
    }

    /// The number is larger than a whole count.
    pub open spec fn exceeds(self, count: int) -> bool {
        !self.nan() && self.quanta() > count * pow2(149)
    }

    /// The whole part, cut toward zero and to the range of `i32`; 0 for a NaN.
    pub open spec fn whole(self) -> int {
        let units = magnitude_quanta(self.magnitude()) / (pow2(149) as int);
        if self.nan() {
            0
        } else if self.negative() {
            if units <= 0x8000_0000 {
                -units
            } else {
                -0x8000_0000
            }
        } else if units <= 0x7FFF_FFFF {
            units
        } else {
            0x7FFF_FFFF
        }
    }

    pub fn from_bits(bits: u32) -> (r: Scalar)
        ensures
            r.bits == bits,
    {
        Scalar { bits }
    }

    fn magnitude_bits(self) -> (r: u32)
        ensures
            r == self.magnitude(),
    {
        if self.bits >= SIGN {
            self.bits - SIGN
        } else {
            self.bits
        }
    }

    fn numeric_key(self) -> (r: i64)
        ensures
            r == self.rank(),
    {
        if self.bits >= SIGN {
            -((self.bits - SIGN) as i64)
        } else {
            self.bits as i64
        }
    }

    /// The key that orders numbers as `total_rank` does.
    pub fn total_key(self) -> (r: i64)
        ensures
            r == self.total_rank(),
    {
        if self.bits >= SIGN {
            -((self.bits - SIGN) as i64) - 1
        } else {
            self.bits as i64
        }
    }

    pub fn is_nan(self) -> (r: bool)
        ensures
            r == self.nan(),
    {
        self.magnitude_bits() > INFINITY
    }

    /// Numeric `self < other`.
    pub fn below(self, other: Scalar) -> (r: bool)
        ensures
            r == self.less(other),
    {
        !self.is_nan() && !other.is_nan() && self.numeric_key() < other.numeric_key()
    }

    /// Numeric `self <= other`.
    pub fn at_most(self, other: Scalar) -> (r: bool)
        ensures
            r == self.less_equal(other),
    {
        !self.is_nan() && !other.is_nan() && self.numeric_key() <= other.numeric_key()
    }

    /// Numeric `self == other`.
    pub fn equals(self, other: Scalar) -> (r: bool)
        ensures
            r == self.same_number(other),
    {
        !self.is_nan() && !other.is_nan() && self.numeric_key() == other.numeric_key()
    }

    pub fn max(self, other: Scalar) -> (r: Scalar)
        ensures
            r == self.larger(other),
    {
        if self.is_nan() || self.below(other) {
            other
        } else {
            self
        }
    }

    pub fn min(self, other: Scalar) -> (r: Scalar)
        ensures
            r == self.smaller(other),
    {
        if self.is_nan() || other.below(self) {
            other
        } else {
            self
        }
    }

    pub fn clamp(self, low: Scalar, high: Scalar) -> (r: Scalar)
        requires
            low.less_equal(high),
        ensures
            r == self.clamped(low, high),
            !self.nan() ==> low.less_equal(r) && r.less_equal(high),
            self.nan() ==> r == self,
    {
        if self.below(low) {
            low
        } else if high.below(self) {
            high
        } else {
            self
        }
    }

    pub fn abs(self) -> (r: Scalar)
        ensures
            r == self.absolute(),
    {
        Scalar { bits: self.magnitude_bits() }
    }

    /// The whole part of the number, as a cast to `i32` gives it.
    pub fn to_i32(self) -> (r: i32)
        ensures
            r == self.whole(),
    {
        let magnitude: u32 = self.magnitude_bits();
        if magnitude > INFINITY {
            return 0;
        }
        let exponent: u32 = magnitude / BINADE;
        let fraction: u32 = magnitude % BINADE;
        let units: i64;
        if exponent < 127 {
            proof {
                lemma_small_units(exponent as int, fraction as int);
            }
            units = 0;
        } else if exponent >= 158 {
            proof {
                lemma_large_units(exponent as int, fraction as int);
            }
            return if self.bits >= SIGN {
                i32::MIN
            } else {
                i32::MAX
            };
        } else if exponent >= 150 {
            let shift: u64 = (exponent - 150) as u64;
            let significand: u64 = (BINADE + fraction) as u64;
            proof {
                lemma_left_units(exponent as int, fraction as int);
                lemma2_to64();
                lemma_pow2_pos(shift as nat);
                lemma_pow2_bound(shift as nat, 7);
                lemma_product_below(significand as int, 0x100_0000, pow2(shift as nat) as int, 128);
                lemma_u64_shl_is_mul(significand, shift);
            }
            units = (significand << shift) as i64;
        } else {
            let shift: u64 = (150 - exponent) as u64;
            let significand: u64 = (BINADE + fraction) as u64;
            proof {
                lemma_right_units(exponent as int, fraction as int);
                lemma_u64_shr_is_div(significand, shift);
                lemma_pow2_pos(shift as nat);
                lemma_div_at_most(significand as int, pow2(shift as nat) as int);
            }
            units = (significand >> shift) as i64;
        }
        if self.bits >= SIGN {
            (-units) as i32
        } else {
            units as i32
        }
    }

    /// The number equal to a whole count. Every count up to two to the power
    /// of 24 has one.
    pub fn from_count(count: u32) -> (r: Scalar)
        requires
            count <= 0x100_0000,
        ensures
            !r.nan(),
            !r.negative(),
            r.quanta() == count * pow2(149),
    {
        if count == 0 {
            return Scalar { bits: ZERO };
        }
        if count == 0x100_0000 {
            proof {
                lemma2_to64();
                lemma_pow2_adds(1, 149);
                lemma_mul_is_associative(0x80_0000, 2, pow2(149) as int);
            }
            return Scalar { bits: 0x4B80_0000 };
        }
        let mut significand: u32 = count;
        let mut exponent: u32 = 150;
        proof {
            lemma2_to64();
        }
        while significand < BINADE
            invariant
                1 <= significand < 0x100_0000,
                significand * pow2(exponent as nat) == count * pow2(150),
                127 <= exponent <= 150,
                significand as int >= pow2((150 - exponent) as nat),
            decreases exponent,
        {
            proof {
                lemma2_to64();
                if exponent == 127 {
                    assert(pow2(23) == 0x80_0000);
                }
                lemma_pow2_unfold(exponent as nat);
                lemma_pow2_unfold((150 - exponent + 1) as nat);
                lemma_mul_is_associative(significand as int, 2, pow2((exponent - 1) as nat) as int);
                lemma_mul_is_commutative(significand as int, 2);
            }
            significand = significand * 2;
            exponent = exponent - 1;
        }
        let r = Scalar { bits: exponent * BINADE + (significand - BINADE) };
        proof {
            let magnitude = r.magnitude();
            assert(magnitude == exponent * BINADE + (significand - BINADE));
            assert(magnitude / (BINADE as int) == exponent);
            assert(magnitude % (BINADE as int) == significand - BINADE);
            lemma_pow2_unfold(exponent as nat);
            lemma_pow2_unfold(150);
            lemma_mul_is_associative(significand as int, 2, pow2((exponent - 1) as nat) as int);
            lemma_mul_is_associative(2, significand as int, pow2((exponent - 1) as nat) as int);
            lemma_mul_is_commutative(significand as int, 2);
            lemma_mul_is_associative(count as int, 2, pow2(149) as int);
            lemma_mul_is_associative(2, count as int, pow2(149) as int);
            lemma_mul_is_commutative(count as int, 2);
        }
        r
    }
}

/// Value of a pattern without sign: a subnormal counts its fraction, every
/// further exponent doubles the value of a step.
pub open spec fn magnitude_quanta(magnitude: int) -> int {
    let exponent = magnitude / (BINADE as int);
    let fraction = magnitude % (BINADE as int);
    if exponent == 0 {
        fraction
    } else {
        (BINADE + fraction) * pow2((exponent - 1) as nat)
    }
}

proof fn lemma_pow2_bound(low: nat, high: nat)
    requires
        low <= high,
    ensures
        pow2(low) <= pow2(high),
{
    if low < high {
        lemma_pow2_strictly_increases(low, high);
    }
}

proof fn lemma_product_below(x: int, x_bound: int, y: int, y_bound: int)
    by (nonlinear_arith)
    requires
        0 <= x < x_bound,
        0 < y <= y_bound,
    ensures
        0 <= x * y < x_bound * y_bound,
{
}

proof fn lemma_div_at_most(x: int, d: int)
    by (nonlinear_arith)
    requires
        0 <= x,
        0 < d,
    ensures
        0 <= x / d <= x,
{
}

/// Numbers below one have no whole part.
proof fn lemma_small_units(exponent: int, fraction: int)
    requires
        0 <= exponent < 127,
        0 <= fraction < BINADE,
    ensures
        magnitude_quanta(exponent * BINADE + fraction) / (pow2(149) as int) == 0,
{
    let quanta = magnitude_quanta(exponent * BINADE + fraction);
    assert((exponent * BINADE + fraction) / (BINADE as int) == exponent);
    assert((exponent * BINADE + fraction) % (BINADE as int) == fraction);
    lemma2_to64();
    lemma_pow2_pos(149);
    if exponent == 0 {
        lemma_pow2_bound(23, 149);
    } else {
        let scale = pow2((exponent - 1) as nat);
        lemma_pow2_pos((exponent - 1) as nat);
        lemma_pow2_bound((exponent - 1) as nat, 125);
        lemma_mul_strict_inequality(BINADE + fraction, 0x100_0000, scale as int);
        lemma_mul_inequality(scale as int, pow2(125) as int, 0x100_0000);
        lemma_pow2_adds(125, 24);
        lemma_mul_is_commutative(scale as int, 0x100_0000);
        assert(0 <= quanta) by (nonlinear_arith)
            requires
                quanta == (BINADE + fraction) * scale,
                0 <= fraction,
        ;
    }
    lemma_basic_div(quanta, pow2(149) as int);
}

/// Numbers from two to the power of 31 on exceed the range of `i32`.
proof fn lemma_large_units(exponent: int, fraction: int)
    requires
        158 <= exponent,
        0 <= fraction < BINADE,
    ensures
        magnitude_quanta(exponent * BINADE + fraction) / (pow2(149) as int) >= 0x8000_0000,
{
    let quanta = magnitude_quanta(exponent * BINADE + fraction);
    assert((exponent * BINADE + fraction) / (BINADE as int) == exponent);
    assert((exponent * BINADE + fraction) % (BINADE as int) == fraction);
    lemma2_to64();
    lemma_pow2_pos(149);
    let scale = pow2((exponent - 1) as nat);
    lemma_pow2_bound(157, (exponent - 1) as nat);
    lemma_mul_inequality(BINADE as int, BINADE + fraction, scale as int);
    lemma_mul_inequality(pow2(157) as int, scale as int, BINADE as int);
    lemma_mul_is_commutative(scale as int, BINADE as int);
    lemma_pow2_adds(157, 23);
    lemma_pow2_adds(31, 149);
    assert(quanta >= pow2(180));
    lemma_div_is_ordered(pow2(180) as int, quanta, pow2(149) as int);
    lemma_div_by_multiple(0x8000_0000, pow2(149) as int);
}

/// From two to the power of 23 on a number is whole.
proof fn lemma_left_units(exponent: int, fraction: int)
    requires
        150 <= exponent,
        0 <= fraction < BINADE,
    ensures
        magnitude_quanta(exponent * BINADE + fraction) / (pow2(149) as int) == (BINADE + fraction)
            * pow2((exponent - 150) as nat),
{
    assert((exponent * BINADE + fraction) / (BINADE as int) == exponent);
    assert((exponent * BINADE + fraction) % (BINADE as int) == fraction);
    lemma_pow2_pos(149);
    let scale = pow2((exponent - 150) as nat) as int;
    lemma_pow2_adds((exponent - 150) as nat, 149);
    lemma_mul_is_associative(BINADE + fraction, scale, pow2(149) as int);
    lemma_div_by_multiple((BINADE + fraction) * scale, pow2(149) as int);
}

/// Below two to the power of 23 the whole part drops the low bits.
proof fn lemma_right_units(exponent: int, fraction: int)
    requires
        1 <= exponent < 150,
        0 <= fraction < BINADE,
    ensures
        magnitude_quanta(exponent * BINADE + fraction) / (pow2(149) as int) == (BINADE + fraction) / (
        pow2((150 - exponent) as nat) as int),
{
    assert((exponent * BINADE + fraction) / (BINADE as int) == exponent);
    assert((exponent * BINADE + fraction) % (BINADE as int) == fraction);
    let scale = pow2((exponent - 1) as nat) as int;
    let rest = pow2((150 - exponent) as nat) as int;
    lemma_pow2_pos((exponent - 1) as nat);
    lemma_pow2_pos((150 - exponent) as nat);
    lemma_pow2_adds((exponent - 1) as nat, (150 - exponent) as nat);
    lemma_div_multiples_vanish_quotient(scale, BINADE + fraction, rest);
    lemma_mul_is_commutative(scale, BINADE + fraction);
}

proof fn lemma_quanta_increases(low: int, high: int)
    requires
        0 <= low < high,
    ensures
        0 <= magnitude_quanta(low) < magnitude_quanta(high),
{
    let binade = BINADE as int;
    let low_exponent = low / binade;
    let high_exponent = high / binade;
    let low_fraction = low % binade;
    let high_fraction = high % binade;
    lemma_fundamental_div_mod(low, binade);
    lemma_fundamental_div_mod(high, binade);
    lemma_div_is_ordered(low, high, binade);
    if low_exponent == high_exponent {
        if low_exponent > 0 {
            let scale = pow2((low_exponent - 1) as nat) as int;
            lemma_pow2_pos((low_exponent - 1) as nat);
            lemma_mul_strict_inequality(binade + low_fraction, binade + high_fraction, scale);
            lemma_mul_inequality(0, binade + low_fraction, scale);
        }
    } else {
        let high_scale = pow2((high_exponent - 1) as nat) as int;
        lemma_pow2_pos((high_exponent - 1) as nat);
        lemma_mul_inequality(binade, binade + high_fraction, high_scale);
        if low_exponent == 0 {
            lemma_mul_inequality(1, high_scale, binade);
            lemma_mul_is_commutative(high_scale, binade);
        } else {
            let low_scale = pow2((low_exponent - 1) as nat) as int;
            lemma_pow2_pos((low_exponent - 1) as nat);
            lemma_mul_inequality(0, binade + low_fraction, low_scale);
            lemma_mul_strict_inequality(binade + low_fraction, 2 * binade, low_scale);
            lemma_pow2_unfold(low_exponent as nat);
            lemma_pow2_bound(low_exponent as nat, (high_exponent - 1) as nat);
            lemma_mul_inequality(pow2(low_exponent as nat) as int, high_scale, binade);
            assert((2 * binade) * low_scale == pow2(low_exponent as nat) * binade)
                by (nonlinear_arith)
                requires
                    pow2(low_exponent as nat) == 2 * low_scale,
            ;
            lemma_mul_is_commutative(high_scale, binade);
        }
    }
}

/// Numeric order is the order of values: of two patterns that denote numbers,
/// one compares less exactly when its value is smaller, and they compare equal
/// exactly when their values are equal.
pub proof fn order_is_numeric(left: Scalar, right: Scalar)
    requires
        !left.nan(),
        !right.nan(),
    ensures
        left.less(right) <==> left.quanta() < right.quanta(),
        left.same_number(right) <==> left.quanta() == right.quanta(),
        left.less_equal(right) <==> left.quanta() <= right.quanta(),
{
    let l = left.magnitude();
    let r = right.magnitude();
    assert(magnitude_quanta(0) == 0);
    if l > 0 {
        lemma_quanta_increases(0, l);
    }
    if r > 0 {
        lemma_quanta_increases(0, r);
    }
    if l < r {
        lemma_quanta_increases(l, r);
    } else if r < l {
        lemma_quanta_increases(r, l);
    }
}

/// The whole part of a number that is neither negative nor larger than a count
/// is not larger than that count either.
pub proof fn whole_part_is_bounded(number: Scalar, count: int)
    requires
        0 <= count,
        !number.less(Scalar { bits: ZERO }),
        !number.exceeds(count),
    ensures
        0 <= number.whole() <= count,
{
    if !number.nan() {
        let unit = pow2(149) as int;
        lemma_pow2_pos(149);
        if number.negative() {
            assert(number.magnitude() == 0);
            assert(magnitude_quanta(0) == 0);
            assert(0int / unit == 0) by (nonlinear_arith)
                requires
                    unit > 0,
            ;
        } else {
            let quanta = number.quanta();
            if number.magnitude() > 0 {
                lemma_quanta_increases(0, number.magnitude());
            }
            assert(magnitude_quanta(0) == 0);
            assert(0 <= quanta / unit <= count) by (nonlinear_arith)
                requires
                    0 <= quanta <= count * unit,
                    unit > 0,
            ;
        }
    }
}

/// The total order tells all patterns apart and agrees with numeric order
/// wherever numeric order decides.
pub proof fn total_order_refines_numeric(left: Scalar, right: Scalar)
    ensures
        left.total_rank() == right.total_rank() <==> left == right,
        left.less(right) ==> left.total_rank() < right.total_rank(),
{
}

/// Clamping gives a number between the bounds, keeps a number that lies there
/// already, and changes nothing when done twice.
pub proof fn clamping_is_idempotent(number: Scalar, low: Scalar, high: Scalar)
    requires
        low.less_equal(high),
    ensures
        number.clamped(low, high).clamped(low, high) == number.clamped(low, high),
        !number.nan() ==> low.less_equal(number.clamped(low, high)) && number.clamped(
            low,
            high,
        ).less_equal(high),
        low.less_equal(number) && number.less_equal(high) ==> number.clamped(low, high) == number,
{
}

/// A number below the bounds is moved up to the lower one, a number above them down to
/// the upper one; what is no number stays.
pub proof fn clamping_moves_to_the_nearer_bound(number: Scalar, low: Scalar, high: Scalar)
    requires
        low.less_equal(high),
    ensures
        number.less(low) ==> number.clamped(low, high) == low,
        high.less(number) ==> number.clamped(low, high) == high,
        number.nan() ==> number.clamped(low, high) == number,
{
}

/// Of two numbers the larger and the smaller are what they say, and one of the two; of
/// a number and what is none, either is the number.
pub proof fn larger_and_smaller_are_picked(left: Scalar, right: Scalar)
    ensures
        left.larger(right) == left || left.larger(right) == right,
        left.smaller(right) == left || left.smaller(right) == right,
        !left.nan() && !right.nan() ==> left.less_equal(left.larger(right)) && right.less_equal(
            left.larger(right),
        ) && left.smaller(right).less_equal(left) && left.smaller(right).less_equal(right),
        left.nan() ==> left.larger(right) == right && left.smaller(right) == right,
        right.nan() && !left.nan() ==> left.larger(right) == left && left.smaller(right) == left,
{
}

/// The absolute value is the number or what it lacks to zero; it is never negative.
pub proof fn absolute_values_have_no_sign(number: Scalar)
    ensures
        number.absolute().quanta() == if number.quanta() < 0 {
            -number.quanta()
        } else {
            number.quanta()
        },
        !number.absolute().negative(),
        number.absolute().nan() == number.nan(),
{
    assert(magnitude_quanta(0) == 0);
    if number.magnitude() > 0 {
        lemma_quanta_increases(0, number.magnitude());
    }
}

/// The whole part is the number cut toward zero, as far as 32 bits reach.
pub proof fn whole_part_cuts_toward_zero(number: Scalar)
    ensures
        number.nan() ==> number.whole() == 0,
        !number.nan() && 0 <= number.quanta() < 0x8000_0000 * pow2(149) ==> number.whole() * pow2(
            149,
        ) <= number.quanta() < (number.whole() + 1) * pow2(149),
        !number.nan() && -0x8000_0000 * pow2(149) < number.quanta() < 0 ==> (number.whole() - 1)
            * pow2(149) < number.quanta() <= number.whole() * pow2(149),
        !number.nan() && number.quanta() >= 0x8000_0000 * pow2(149) ==> number.whole()
            == 0x7FFF_FFFF,
        !number.nan() && number.quanta() <= -0x8000_0000 * pow2(149) ==> number.whole()
            == -0x8000_0000,
{
    if !number.nan() {
        let unit = pow2(149) as int;
        lemma_pow2_pos(149);
        assert(magnitude_quanta(0) == 0);
        if number.magnitude() > 0 {
            lemma_quanta_increases(0, number.magnitude());
        }
        let size = magnitude_quanta(number.magnitude());
        let units = size / unit;
        lemma_fundamental_div_mod(size, unit);
        assert(units * unit <= size < (units + 1) * unit && 0 <= units) by (nonlinear_arith)
            requires
                size == unit * units + size % unit,
                0 <= size % unit < unit,
                0 <= size,
                0 < unit,
                units == size / unit,
        ;
        assert((size < 0x8000_0000 * unit) == (units < 0x8000_0000)) by (nonlinear_arith)
            requires
                units * unit <= size < (units + 1) * unit,
                0 < unit,
        ;
        assert((-units) * unit == -(units * unit)) by (nonlinear_arith);
        assert((-units - 1) * unit == -((units + 1) * unit)) by (nonlinear_arith);
        if number.negative() && size == 0 {
            assert(units == 0) by (nonlinear_arith)
                requires
                    units * unit <= 0,
                    0 <= units,
                    0 < unit,
            ;
        }
    }
}

/// The patterns of the infinities are numbers, and those beyond them are not; the two
/// zeros are the same number.
pub proof fn some_patterns_are_no_numbers(bits: u32)
    ensures
        (Scalar { bits }).nan() <==> 0x7F80_0000 < bits < 0x8000_0000 || 0xFF80_0000 < bits,
        (Scalar { bits: 0x8000_0000 }).same_number(Scalar { bits: 0 }),
        (Scalar { bits }).negative() <==> bits >= 0x8000_0000,
{
}

} // verus!
