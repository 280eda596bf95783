use bareeye::arithmetic::{milliseconds, Operation};
use bareeye::clock::elapsed;
use bareeye::order::stable_order;
use bareeye::scalar::{Scalar, EPSILON, HALF, INFINITY, NEG_INFINITY, ONE, THOUSAND, ZERO};
use std::time::Duration;

fn unit(operation: Operation) -> Scalar {
    let f = |number: Scalar| f32::from_bits(number.bits);
    let result: f32 = match operation {
        Operation::Sum(a, b) => f(a) + f(b),
        Operation::Difference(a, b) => f(a) - f(b),
        Operation::Product(a, b) => f(a) * f(b),
        Operation::Quotient(a, b) => f(a) / f(b),
        Operation::Hypotenuse(a, b) => f(a).hypot(f(b)),
        Operation::FusedProduct(a, b, c) => f(a).mul_add(f(b), f(c)),
        Operation::SquareRoot(a) => f(a).sqrt(),
        Operation::Rounded(a) => f(a).round(),
        Operation::Tangent(a) => f(a).tan(),
        Operation::ArcTangent(a) => f(a).atan(),
        Operation::Radians(a) => f(a).to_radians(),
        Operation::Degrees(a) => f(a).to_degrees(),
        Operation::Count(n) => n as f32,
        Operation::Seconds(nanos) => {
            Duration::new((nanos / 1_000_000_000) as u64, (nanos % 1_000_000_000) as u32).as_secs_f32()
        }
    };
    Scalar { bits: result.to_bits() }
}

fn s(number: f32) -> Scalar {
    Scalar { bits: number.to_bits() }
}

fn v(number: Scalar) -> f32 {
    f32::from_bits(number.bits)
}

fn samples() -> Vec<f32> {
    let mut samples = vec![
        0.0,
        -0.0,
        1.0,
        -1.0,
        0.5,
        1.5,
        2.5,
        -2.5,
        1e-40,
        -1e-40,
        f32::MIN_POSITIVE,
        f32::MAX,
        f32::MIN,
        f32::INFINITY,
        f32::NEG_INFINITY,
        f32::NAN,
        -f32::NAN,
        2147483648.0,
        2147483520.0,
        -2147483648.0,
        -2147483904.0,
        16777216.0,
        123456.78,
        0.99999994,
        -0.99999994,
    ];
    let mut bits: u32 = 12345;
    for _ in 0..200 {
        bits = bits.wrapping_mul(1664525).wrapping_add(1013904223);
        samples.push(f32::from_bits(bits));
    }
    samples
}

#[test]
fn patterns_are_those_of_the_numbers() {
    assert_eq!(ZERO, 0.0_f32.to_bits());
    assert_eq!(HALF, 0.5_f32.to_bits());
    assert_eq!(ONE, 1.0_f32.to_bits());
    assert_eq!(THOUSAND, 1000.0_f32.to_bits());
    assert_eq!(EPSILON, f32::EPSILON.to_bits());
    assert_eq!(INFINITY, f32::INFINITY.to_bits());
    assert_eq!(NEG_INFINITY, f32::NEG_INFINITY.to_bits());
}

#[test]
fn comparisons_agree_with_floating_point() {
    for &a in &samples() {
        for &b in &samples() {
            assert_eq!(s(a).below(s(b)), a < b);
            assert_eq!(s(a).at_most(s(b)), a <= b);
            assert_eq!(s(a).equals(s(b)), a == b);
            assert_eq!(s(a).total_key() < s(b).total_key(), a.total_cmp(&b).is_lt());
            let larger = v(s(a).max(s(b)));
            let smaller = v(s(a).min(s(b)));
            if a.is_nan() && b.is_nan() {
                assert!(larger.is_nan() && smaller.is_nan());
            } else {
                assert_eq!(larger, a.max(b));
                assert_eq!(smaller, a.min(b));
            }
        }
    }
}

#[test]
fn unary_operations_agree_with_floating_point() {
    for &a in &samples() {
        assert_eq!(s(a).is_nan(), a.is_nan());
        assert_eq!(s(a).abs().bits, a.abs().to_bits());
        assert_eq!(s(a).to_i32(), a as i32);
        let clamped = v(s(a).clamp(s(-3.5), s(7.25)));
        if a.is_nan() {
            assert!(clamped.is_nan());
        } else {
            assert_eq!(clamped, a.clamp(-3.5, 7.25));
        }
    }
}

#[test]
fn counts_become_numbers() {
    for count in [0, 1, 2, 3, 7, 640, 1919, 65535, 65536, 8388607, 8388608, 16777215, 16777216] {
        assert_eq!(Scalar::from_count(count).bits, (count as f32).to_bits());
    }
}

#[test]
fn clamping_twice_changes_nothing() {
    for &a in &samples() {
        let once = s(a).clamp(s(-1.0), s(1.0));
        assert_eq!(once.clamp(s(-1.0), s(1.0)).bits, once.bits);
    }
}

#[test]
fn whole_parts_stay_below_a_bound() {
    assert_eq!(s(1919.0).to_i32(), 1919);
    assert_eq!(s(1918.9999).to_i32(), 1918);
    assert_eq!(s(-0.0).to_i32(), 0);
    assert_eq!(s(f32::NAN).to_i32(), 0);
}

#[test]
fn sorting_is_stable() {
    assert_eq!(stable_order(&vec![3, 1, 2, 1, 3, 0]), vec![5, 1, 3, 2, 0, 4]);
    assert_eq!(stable_order(&vec![]), Vec::<usize>::new());
    let keys: Vec<i64> = (0..500).map(|i: i64| (i * 7919) % 13).collect();
    let mut expected: Vec<usize> = (0..500).collect();
    expected.sort_by_key(|&i| keys[i]);
    assert_eq!(stable_order(&keys), expected);
}

#[test]
fn elapsed_time_does_not_go_below_nothing() {
    assert_eq!(elapsed(10, 4), 6);
    assert_eq!(elapsed(4, 10), 0);
}

#[test]
fn milliseconds_are_a_thousandth() {
    assert_eq!(v(milliseconds(&unit, 33_000_000)), 0.033_f32 * 1000.0);
}
