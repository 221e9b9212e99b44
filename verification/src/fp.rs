//! Scalars of the network are IEEE 754 binary32 values, carried as their raw
//! 32-bit patterns. The arithmetic itself is delegated to the software
//! implementation in `rustc_apfloat` (round to nearest, ties to even), behind
//! the trusted wrappers below; each result is named by an uninterpreted
//! function of the operand bits, so contracts elsewhere can speak of the
//! arithmetic exactly.

use vstd::prelude::*;
use rustc_apfloat::Float;
use rustc_apfloat::Round;
use rustc_apfloat::ieee::Single;

verus! {

/// Bit pattern of +0.0.
pub const POS_ZERO: u32 = 0x0000_0000;
/// Bit pattern of 1.0.
pub const ONE_BITS: u32 = 0x3F80_0000;
/// Bit pattern of 2.0.
pub const TWO_BITS: u32 = 0x4000_0000;
/// Bit pattern of 3.0.
pub const THREE_BITS: u32 = 0x4040_0000;
/// Bit pattern of -1.0.
pub const NEG_ONE_BITS: u32 = 0xBF80_0000;
/// Bit pattern of +infinity.
pub const INF_BITS: u32 = 0x7F80_0000;

/// A binary32 pattern encodes NaN exactly when its exponent field is all
/// ones and its significand field is not zero.
pub open spec fn is_nan_bits(a: u32) -> bool {
    (a >> 23) & 0xFF == 0xFF && a & 0x7F_FFFF != 0
}

/// The sum of two binary32 values, round to nearest even, as bit patterns.
pub uninterp spec fn add_bits_of(a: u32, b: u32) -> u32;

/// The difference of two binary32 values, as bit patterns.
pub uninterp spec fn sub_bits_of(a: u32, b: u32) -> u32;

/// The product of two binary32 values, as bit patterns.
pub uninterp spec fn mul_bits_of(a: u32, b: u32) -> u32;

/// The quotient of two binary32 values, as bit patterns.
pub uninterp spec fn div_bits_of(a: u32, b: u32) -> u32;

/// Whether the first binary32 value compares strictly greater than the
/// second (false whenever either is NaN).
pub uninterp spec fn gt_bits_of(a: u32, b: u32) -> bool;

/// The binary32 value nearest to the given integer, as a bit pattern.
pub uninterp spec fn from_int_bits_of(n: int) -> u32;

/// The integer nearest to the given binary32 value (ties to even), clamped
/// to the `i32` range; 0 for NaN.
pub uninterp spec fn round_bits_of(a: u32) -> i32;

/// The binary32 value times 2 to the given power, as bit patterns.
pub uninterp spec fn scalbn_bits_of(a: u32, n: i32) -> u32;

/// Relies on `rustc_apfloat::ieee::Single` addition (IEEE binary32, round
/// to nearest even): a pure function of the operand bits.
#[verifier::external_body]
pub(crate) fn add_bits(a: u32, b: u32) -> (r: u32)
    ensures
        r == add_bits_of(a, b),
{
    (Single::from_bits(a as u128) + Single::from_bits(b as u128)).value.to_bits() as u32
}

/// Relies on `rustc_apfloat::ieee::Single` subtraction. Subtracting +0.0
/// returns the other operand unchanged whenever it is not NaN (the
/// operation is then exact, and -0.0 - +0.0 is -0.0).
#[verifier::external_body]
pub(crate) fn sub_bits(a: u32, b: u32) -> (r: u32)
    ensures
        r == sub_bits_of(a, b),
        b == POS_ZERO && !is_nan_bits(a) ==> r == a,
{
    (Single::from_bits(a as u128) - Single::from_bits(b as u128)).value.to_bits() as u32
}

/// Relies on `rustc_apfloat::ieee::Single` multiplication. The product of
/// +0.0 with itself is +0.0.
#[verifier::external_body]
pub(crate) fn mul_bits(a: u32, b: u32) -> (r: u32)
    ensures
        r == mul_bits_of(a, b),
        a == POS_ZERO && b == POS_ZERO ==> r == POS_ZERO,
{
    (Single::from_bits(a as u128) * Single::from_bits(b as u128)).value.to_bits() as u32
}

/// Relies on `rustc_apfloat::ieee::Single` division.
#[verifier::external_body]
pub(crate) fn div_bits(a: u32, b: u32) -> (r: u32)
    ensures
        r == div_bits_of(a, b),
{
    (Single::from_bits(a as u128) / Single::from_bits(b as u128)).value.to_bits() as u32
}

/// Relies on `PartialOrd for rustc_apfloat::ieee::IeeeFloat`: the IEEE
/// ordering, under which any comparison with NaN is false.
#[verifier::external_body]
pub(crate) fn gt_bits(a: u32, b: u32) -> (r: bool)
    ensures
        r == gt_bits_of(a, b),
{
    Single::from_bits(a as u128) > Single::from_bits(b as u128)
}

/// Relies on `rustc_apfloat::Float::from_i128_r` with round to nearest
/// even.
#[verifier::external_body]
pub(crate) fn from_i128_bits(n: i128) -> (r: u32)
    ensures
        r == from_int_bits_of(n as int),
{
    Single::from_i128_r(n, Round::NearestTiesToEven).value.to_bits() as u32
}

/// Relies on `rustc_apfloat::Float::to_i128_r` at width 32 with round to
/// nearest even: nearest integer, clamped to the `i32` range, 0 for NaN.
#[verifier::external_body]
pub(crate) fn round_bits(a: u32) -> (r: i32)
    ensures
        r == round_bits_of(a),
{
    let mut exact = false;
    Single::from_bits(a as u128).to_i128_r(32, Round::NearestTiesToEven, &mut exact).value as i32
}

/// Relies on `rustc_apfloat::Float::scalbn`: multiplication by a power of
/// two, with IEEE overflow to infinity and gradual underflow.
#[verifier::external_body]
pub(crate) fn scalbn_bits(a: u32, n: i32) -> (r: u32)
    ensures
        r == scalbn_bits_of(a, n),
{
    Single::from_bits(a as u128).scalbn(n).to_bits() as u32
}

/// Negation of a binary32 value flips exactly its sign bit.
pub open spec fn neg_bits_of(a: u32) -> u32 {
    a ^ 0x8000_0000
}

pub(crate) fn neg_bits(a: u32) -> (r: u32)
    ensures
        r == neg_bits_of(a),
{
    a ^ 0x8000_0000
}

} // verus!
