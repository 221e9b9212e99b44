//! The activation function and its derivative, selected once at network
//! construction: the logistic sigmoid, or a rectified-linear variant with a
//! configurable negative slope. The exponential the sigmoid needs is
//! computed here from the trusted scalar primitives: the argument is split
//! as x = n·ln 2 + r, a degree-six polynomial evaluates e^r, and the result
//! is scaled by 2^n. Every step is specified exactly over the named
//! operations.

use vstd::prelude::*;
use crate::fp;

verus! {

/// Bit pattern of log2(e).
pub const LOG2E_BITS: u32 = 0x3FB8_AA3B;
/// Bit pattern of ln(2).
pub const LN2_BITS: u32 = 0x3F31_7218;
/// Bit pattern of 1/2.
pub const INV_2_BITS: u32 = 0x3F00_0000;
/// Bit pattern of 1/6.
pub const INV_6_BITS: u32 = 0x3E2A_AAAB;
/// Bit pattern of 1/24.
pub const INV_24_BITS: u32 = 0x3D2A_AAAB;
/// Bit pattern of 1/120.
pub const INV_120_BITS: u32 = 0x3C08_8889;
/// Bit pattern of 1/720.
pub const INV_720_BITS: u32 = 0x3AB6_0B61;
/// Bit pattern of 89.0: above every argument whose exponential is finite.
pub const EXP_HI_BITS: u32 = 0x42B2_0000;
/// Bit pattern of -88.0: below every argument whose exponential is normal.
pub const EXP_LO_BITS: u32 = 0xC2B0_0000;

/// The selected function/derivative pair. `Linear` carries the bit pattern
/// of the slope applied to negative arguments (+0.0 for a plain rectifier).
#[derive(Clone, Copy, Debug, PartialEq, Eq, Structural)]
pub enum Activation {
    Sigmoid,
    Linear(u32),
}

/// The degree-six polynomial 1 + r + r²/2 + ... + r⁶/720, evaluated by
/// Horner's rule over the named operations.
pub open spec fn exp_poly_of(r: u32) -> u32 {
    let acc6 = INV_720_BITS;
    let acc5 = fp::add_bits_of(fp::mul_bits_of(acc6, r), INV_120_BITS);
    let acc4 = fp::add_bits_of(fp::mul_bits_of(acc5, r), INV_24_BITS);
    let acc3 = fp::add_bits_of(fp::mul_bits_of(acc4, r), INV_6_BITS);
    let acc2 = fp::add_bits_of(fp::mul_bits_of(acc3, r), INV_2_BITS);
    let acc1 = fp::add_bits_of(fp::mul_bits_of(acc2, r), fp::ONE_BITS);
    fp::add_bits_of(fp::mul_bits_of(acc1, r), fp::ONE_BITS)
}

/// The exponential of a binary32 value: +inf above 89, +0 below -88, and
/// otherwise 2^n · p(x - n·ln 2) with n the nearest integer to x·log2(e).
pub open spec fn exp_of(x: u32) -> u32 {
    if fp::gt_bits_of(x, EXP_HI_BITS) {
        fp::INF_BITS
    } else if fp::gt_bits_of(EXP_LO_BITS, x) {
        fp::POS_ZERO
    } else {
        let n = fp::round_bits_of(fp::mul_bits_of(x, LOG2E_BITS));
        let r = fp::sub_bits_of(x, fp::mul_bits_of(fp::from_int_bits_of(n as int), LN2_BITS));
        fp::scalbn_bits_of(exp_poly_of(r), n)
    }
}

/// The logistic sigmoid 1 / (1 + e^(-x)).
pub open spec fn sigmoid_of(x: u32) -> u32 {
    fp::div_bits_of(
        fp::ONE_BITS,
        fp::add_bits_of(fp::ONE_BITS, exp_of(fp::neg_bits_of(x))),
    )
}

/// What the selected activation returns on a pre-activation value.
pub open spec fn act_of(f: Activation, x: u32) -> u32 {
    match f {
        Activation::Sigmoid => sigmoid_of(x),
        Activation::Linear(a) => if fp::gt_bits_of(x, fp::POS_ZERO) {
            x
        } else {
            fp::mul_bits_of(x, a)
        },
    }
}

/// What the selected activation's derivative returns on a pre-activation
/// value; for the sigmoid it is computed as s·(1 - s) from s = sigmoid(x).
pub open spec fn act_deriv_of(f: Activation, x: u32) -> u32 {
    match f {
        Activation::Sigmoid => {
            let s = sigmoid_of(x);
            fp::mul_bits_of(s, fp::sub_bits_of(fp::ONE_BITS, s))
        },
        Activation::Linear(a) => if fp::gt_bits_of(x, fp::POS_ZERO) {
            fp::ONE_BITS
        } else {
            a
        },
    }
}

fn exp_bits(x: u32) -> (r: u32)
    ensures
        r == exp_of(x),
{
    if fp::gt_bits(x, EXP_HI_BITS) {
        fp::INF_BITS
    } else if fp::gt_bits(EXP_LO_BITS, x) {
        fp::POS_ZERO
    } else {
        let n = fp::round_bits(fp::mul_bits(x, LOG2E_BITS));
        let r = fp::sub_bits(x, fp::mul_bits(fp::from_i128_bits(n as i128), LN2_BITS));
        let mut acc = fp::add_bits(fp::mul_bits(INV_720_BITS, r), INV_120_BITS);
        acc = fp::add_bits(fp::mul_bits(acc, r), INV_24_BITS);
        acc = fp::add_bits(fp::mul_bits(acc, r), INV_6_BITS);
        acc = fp::add_bits(fp::mul_bits(acc, r), INV_2_BITS);
        acc = fp::add_bits(fp::mul_bits(acc, r), fp::ONE_BITS);
        acc = fp::add_bits(fp::mul_bits(acc, r), fp::ONE_BITS);
        fp::scalbn_bits(acc, n)
    }
}

/// The activation applied to one pre-activation value.
pub fn activation_function(f: Activation, x: u32) -> (r: u32)
    ensures
        r == act_of(f, x),
{
    match f {
        Activation::Sigmoid => {
            let e = exp_bits(fp::neg_bits(x));
            fp::div_bits(fp::ONE_BITS, fp::add_bits(fp::ONE_BITS, e))
        },
        Activation::Linear(a) => {
            if fp::gt_bits(x, fp::POS_ZERO) {
                x
            } else {
                fp::mul_bits(x, a)
            }
        },
    }
}

/// The activation's derivative on one pre-activation value.
pub fn activation_function_derivate(f: Activation, x: u32) -> (r: u32)
    ensures
        r == act_deriv_of(f, x),
{
    match f {
        Activation::Sigmoid => {
            let s = activation_function(Activation::Sigmoid, x);
            fp::mul_bits(s, fp::sub_bits(fp::ONE_BITS, s))
        },
        Activation::Linear(a) => {
            if fp::gt_bits(x, fp::POS_ZERO) {
                fp::ONE_BITS
            } else {
                a
            }
        },
    }
}

} // verus!
