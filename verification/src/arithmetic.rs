//! The rounded operations that the numeric logic asks an arithmetic unit for.
//!
//! A unit is any function from an operation to its result that answers the same
//! question the same way every time. Contracts speak of `value(unit, operation)`,
//! the unit's answer; `evaluate` obtains it.

use crate::scalar::{Scalar, THOUSAND};
use vstd::prelude::*;

verus! {

/// One rounded operation on single-precision numbers.
#[derive(Copy, Clone, Debug)]
pub enum Operation {
    Sum(Scalar, Scalar),
    Difference(Scalar, Scalar),
    Product(Scalar, Scalar),
    Quotient(Scalar, Scalar),
    /// Length of the hypotenuse of a right triangle.
    Hypotenuse(Scalar, Scalar),
    /// Product of the first two plus the third, rounded once.
    FusedProduct(Scalar, Scalar, Scalar),
    SquareRoot(Scalar),
    /// Nearest whole number, halves away from zero.
    Rounded(Scalar),
    Tangent(Scalar),
    ArcTangent(Scalar),
    /// Degrees turned into radians.
    Radians(Scalar),
    /// Radians turned into degrees.
    Degrees(Scalar),
    /// The number nearest to a count.
    Count(u64),
    /// A time in nanoseconds turned into seconds.
    Seconds(u128),
}

/// The unit answers every operation, each with one result.
pub open spec fn computes<F: Fn(Operation) -> Scalar>(unit: F) -> bool {
    &&& forall|operation: Operation| #[trigger] call_requires(unit, (operation,))
    &&& forall|operation: Operation, left: Scalar, right: Scalar|
        #[trigger] call_ensures(unit, (operation,), left) && #[trigger] call_ensures(
            unit,
            (operation,),
            right,
        ) ==> left == right
}

/// The unit's result of an operation.
pub open spec fn value<F: Fn(Operation) -> Scalar>(unit: F, operation: Operation) -> Scalar {
    choose|result: Scalar| call_ensures(unit, (operation,), result)
}

/// Asks the unit for the result of an operation.
pub fn evaluate<F: Fn(Operation) -> Scalar>(unit: &F, operation: Operation) -> (r: Scalar)
    requires
        computes(*unit),
    ensures
        r == value(*unit, operation),
        call_ensures(*unit, (operation,), r),
{
    unit(operation)
}

pub open spec fn plus<F: Fn(Operation) -> Scalar>(unit: F, left: Scalar, right: Scalar) -> Scalar {
    value(unit, Operation::Sum(left, right))
}

pub fn sum<F: Fn(Operation) -> Scalar>(unit: &F, left: Scalar, right: Scalar) -> (r: Scalar)
    requires
        computes(*unit),
    ensures
        r == plus(*unit, left, right),
{
    evaluate(unit, Operation::Sum(left, right))
}

pub open spec fn minus<F: Fn(Operation) -> Scalar>(unit: F, left: Scalar, right: Scalar) -> Scalar {
    value(unit, Operation::Difference(left, right))
}

pub fn difference<F: Fn(Operation) -> Scalar>(unit: &F, left: Scalar, right: Scalar) -> (r: Scalar)
    requires
        computes(*unit),
    ensures
        r == minus(*unit, left, right),
{
    evaluate(unit, Operation::Difference(left, right))
}

pub open spec fn times<F: Fn(Operation) -> Scalar>(unit: F, left: Scalar, right: Scalar) -> Scalar {
    value(unit, Operation::Product(left, right))
}

pub fn product<F: Fn(Operation) -> Scalar>(unit: &F, left: Scalar, right: Scalar) -> (r: Scalar)
    requires
        computes(*unit),
    ensures
        r == times(*unit, left, right),
{
    evaluate(unit, Operation::Product(left, right))
}

pub open spec fn over<F: Fn(Operation) -> Scalar>(unit: F, left: Scalar, right: Scalar) -> Scalar {
    value(unit, Operation::Quotient(left, right))
}

pub fn quotient<F: Fn(Operation) -> Scalar>(unit: &F, left: Scalar, right: Scalar) -> (r: Scalar)
    requires
        computes(*unit),
    ensures
        r == over(*unit, left, right),
{
    evaluate(unit, Operation::Quotient(left, right))
}

pub open spec fn hypot<F: Fn(Operation) -> Scalar>(unit: F, left: Scalar, right: Scalar) -> Scalar {
    value(unit, Operation::Hypotenuse(left, right))
}

pub fn hypotenuse<F: Fn(Operation) -> Scalar>(unit: &F, left: Scalar, right: Scalar) -> (r: Scalar)
    requires
        computes(*unit),
    ensures
        r == hypot(*unit, left, right),
{
    evaluate(unit, Operation::Hypotenuse(left, right))
}

pub open spec fn root<F: Fn(Operation) -> Scalar>(unit: F, number: Scalar) -> Scalar {
    value(unit, Operation::SquareRoot(number))
}

pub fn square_root<F: Fn(Operation) -> Scalar>(unit: &F, number: Scalar) -> (r: Scalar)
    requires
        computes(*unit),
    ensures
        r == root(*unit, number),
{
    evaluate(unit, Operation::SquareRoot(number))
}

pub open spec fn round<F: Fn(Operation) -> Scalar>(unit: F, number: Scalar) -> Scalar {
    value(unit, Operation::Rounded(number))
}

pub fn rounded<F: Fn(Operation) -> Scalar>(unit: &F, number: Scalar) -> (r: Scalar)
    requires
        computes(*unit),
    ensures
        r == round(*unit, number),
{
    evaluate(unit, Operation::Rounded(number))
}

pub open spec fn tan<F: Fn(Operation) -> Scalar>(unit: F, number: Scalar) -> Scalar {
    value(unit, Operation::Tangent(number))
}

pub fn tangent<F: Fn(Operation) -> Scalar>(unit: &F, number: Scalar) -> (r: Scalar)
    requires
        computes(*unit),
    ensures
        r == tan(*unit, number),
{
    evaluate(unit, Operation::Tangent(number))
}

pub open spec fn atan<F: Fn(Operation) -> Scalar>(unit: F, number: Scalar) -> Scalar {
    value(unit, Operation::ArcTangent(number))
}

pub fn arc_tangent<F: Fn(Operation) -> Scalar>(unit: &F, number: Scalar) -> (r: Scalar)
    requires
        computes(*unit),
    ensures
        r == atan(*unit, number),
{
    evaluate(unit, Operation::ArcTangent(number))
}

pub open spec fn to_radians<F: Fn(Operation) -> Scalar>(unit: F, number: Scalar) -> Scalar {
    value(unit, Operation::Radians(number))
}

pub fn radians<F: Fn(Operation) -> Scalar>(unit: &F, number: Scalar) -> (r: Scalar)
    requires
        computes(*unit),
    ensures
        r == to_radians(*unit, number),
{
    evaluate(unit, Operation::Radians(number))
}

pub open spec fn to_degrees<F: Fn(Operation) -> Scalar>(unit: F, number: Scalar) -> Scalar {
    value(unit, Operation::Degrees(number))
}

pub fn degrees<F: Fn(Operation) -> Scalar>(unit: &F, number: Scalar) -> (r: Scalar)
    requires
        computes(*unit),
    ensures
        r == to_degrees(*unit, number),
{
    evaluate(unit, Operation::Degrees(number))
}

pub open spec fn seconds_of<F: Fn(Operation) -> Scalar>(unit: F, nanos: u128) -> Scalar {
    value(unit, Operation::Seconds(nanos))
}

pub fn seconds<F: Fn(Operation) -> Scalar>(unit: &F, nanos: u128) -> (r: Scalar)
    requires
        computes(*unit),
    ensures
        r == seconds_of(*unit, nanos),
{
    evaluate(unit, Operation::Seconds(nanos))
}

pub open spec fn milliseconds_of<F: Fn(Operation) -> Scalar>(unit: F, nanos: u128) -> Scalar {
    times(unit, seconds_of(unit, nanos), Scalar { bits: THOUSAND })
}

pub fn milliseconds<F: Fn(Operation) -> Scalar>(unit: &F, nanos: u128) -> (r: Scalar)
    requires
        computes(*unit),
    ensures
        r == milliseconds_of(*unit, nanos),
{
    product(unit, seconds(unit, nanos), Scalar::from_bits(THOUSAND))
}

pub open spec fn count_of<F: Fn(Operation) -> Scalar>(unit: F, count: u64) -> Scalar {
    value(unit, Operation::Count(count))
}

pub fn counted<F: Fn(Operation) -> Scalar>(unit: &F, count: u64) -> (r: Scalar)
    requires
        computes(*unit),
    ensures
        r == count_of(*unit, count),
{
    evaluate(unit, Operation::Count(count))
}

pub open spec fn fused_of<F: Fn(Operation) -> Scalar>(
    unit: F,
    left: Scalar,
    right: Scalar,
    addend: Scalar,
) -> Scalar {
    value(unit, Operation::FusedProduct(left, right, addend))
}

pub fn fused<F: Fn(Operation) -> Scalar>(
    unit: &F,
    left: Scalar,
    right: Scalar,
    addend: Scalar,
) -> (r: Scalar)
    requires
        computes(*unit),
    ensures
        r == fused_of(*unit, left, right, addend),
{
    evaluate(unit, Operation::FusedProduct(left, right, addend))
}

} // verus!
