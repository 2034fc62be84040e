//! The engine's data model: samples, strategies, and the trusted boundary to
//! the floating-point values carried in `imbue::DataPoint`.

use vstd::prelude::*;

verus! {

/// `imbue::DataPoint` carries a sample as a pair of `f64` coordinates. The
/// engine never reads the coordinates itself: a point is an opaque carrier of
/// its `y` value, reasoned about only through `value_bits`.
#[verifier::external_type_specification]
#[verifier::external_body]
pub struct ExDataPoint(imbue::DataPoint);

/// The IEEE-754 bit pattern of the value (the `y` coordinate) carried by a
/// point: what `p.y.to_bits()` returns. Two points carry the same value
/// exactly when their `value_bits` agree.
pub uninterp spec fn value_bits(p: imbue::DataPoint) -> u64;

/// The IEEE-754 arithmetic mean `(a + b) / 2` of the two values encoded by
/// `a` and `b`, itself as a bit pattern. Where the mean is determined (see
/// `mean_is_determined`) IEEE-754 fixes the result exactly, so it is a
/// function of the operands' bit patterns — but one that no specification
/// here writes out; the result is only named. On other operands the mean is
/// a NaN whose bit pattern is not portable, so nothing applies this name
/// there and it is unconstrained.
pub uninterp spec fn mean_of(a: u64, b: u64) -> u64;

/// `v` encodes an IEEE-754 NaN: exponent bits all ones and a nonzero
/// mantissa.
pub open spec fn is_nan_bits(v: u64) -> bool {
    v & 0x7ff0_0000_0000_0000u64 == 0x7ff0_0000_0000_0000u64 && v & 0x000f_ffff_ffff_ffffu64
        != 0u64
}

/// The bit pattern of IEEE-754 positive infinity.
pub open spec fn pos_infinity_bits() -> u64 {
    0x7ff0_0000_0000_0000u64
}

/// The bit pattern of IEEE-754 negative infinity.
pub open spec fn neg_infinity_bits() -> u64 {
    0xfff0_0000_0000_0000u64
}

/// The mean of the values encoded by `a` and `b` is a number or an infinity,
/// which IEEE-754 pins down exactly. Outside these operands — a NaN among
/// them, or infinities of opposite sign, whose sum is NaN — the mean is a
/// NaN, and the bit pattern of a NaN produced by arithmetic is not a
/// function of the operands.
pub open spec fn mean_is_determined(a: u64, b: u64) -> bool {
    &&& !is_nan_bits(a)
    &&& !is_nan_bits(b)
    &&& !(a == pos_infinity_bits() && b == neg_infinity_bits())
    &&& !(a == neg_infinity_bits() && b == pos_infinity_bits())
}

/// Relies on `imbue::DataPoint::new` storing its second argument as the `y`
/// coordinate unchanged, and on IEEE-754: the bit pattern of `+0.0` is 0.
#[verifier::external_body]
pub(crate) fn zero_point() -> (r: imbue::DataPoint)
    ensures
        value_bits(r) == 0,
{
    imbue::DataPoint::new(0i32.into(), 0i32.into())
}

/// Relies on `imbue::DataPoint::new` storing its second argument as the `y`
/// coordinate unchanged; the second argument is the IEEE-754 mean of the
/// values carried by `a` and `b`, computed in `f64` arithmetic. IEEE-754
/// fixes add and divide exactly where the result is a number or an infinity;
/// where the result is a NaN its bit pattern is not portable, so only its
/// NaN-ness is promised.
#[verifier::external_body]
pub(crate) fn mean_point(a: &imbue::DataPoint, b: &imbue::DataPoint) -> (r: imbue::DataPoint)
    ensures
        mean_is_determined(value_bits(*a), value_bits(*b)) ==> value_bits(r) == mean_of(
            value_bits(*a),
            value_bits(*b),
        ),
        !mean_is_determined(value_bits(*a), value_bits(*b)) ==> is_nan_bits(value_bits(r)),
{
    // Verified source stays free of float syntax, so the divisor 2 is read
    // back out of a point coordinate rather than written as a literal.
    let two = imbue::DataPoint::new(2i32.into(), 0i32.into()).x;
    imbue::DataPoint::new(0i32.into(), (a.y + b.y) / two)
}

/// How a missing value is synthesized from the two samples bounding its gap.
#[derive(Clone, Copy)]
pub enum Strategy {
    /// The arithmetic mean of the two bounding values, repeated across the
    /// whole gap.
    Average,
    /// Zero at every missing position, regardless of the bounding values.
    Zeroed,
    /// The value of the nearest preceding observed sample.
    LastKnown,
}

/// An observed or synthesized sample: an integer unit-step position and a
/// numeric value. The value is the `y` coordinate of `point`; the `x`
/// coordinate of `point` plays no role in the engine, which keeps the
/// position as the plain integer `pos`.
pub struct Sample {
    /// The position on the unit-step axis.
    pub pos: i64,
    /// The carrier of the sample's value.
    pub point: imbue::DataPoint,
}

impl Sample {
    /// The IEEE-754 encoding of the sample's value.
    pub open spec fn val(self) -> u64 {
        value_bits(self.point)
    }

    /// Builds a sample at `pos` whose value is the `y` coordinate of `point`.
    pub fn new(pos: i64, point: imbue::DataPoint) -> (s: Sample)
        ensures
            s.pos == pos,
            s.val() == value_bits(point),
    {
        Sample { pos, point }
    }

    /// The carrier of the sample's value.
    pub fn point(&self) -> (r: &imbue::DataPoint)
        ensures
            value_bits(*r) == self.val(),
    {
        &self.point
    }
}

} // verus!
