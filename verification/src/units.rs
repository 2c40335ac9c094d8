use vstd::prelude::*;
use vstd::arithmetic::mul::{lemma_mul_inequality, lemma_mul_nonnegative};

use crate::errors::Error;
use crate::wide::{div_rem_3limb, mul_3limb, mul_div, mul_wide, p128, p256};

verus! {

/// Fixed-point scale denominators used throughout the protocol.
///
/// Fractional values are represented as integers scaled by one of these
/// denominators. `BLN`, `WAD` and `RAY` are decimal scales; `X96` is the
/// binary scale used for square-root pool prices.
pub const BLN: u128 = 1_000_000_000;

/// 10^18, the scale of token amounts and debt.
pub const WAD: u128 = 1_000_000_000_000_000_000;

/// 10^27, the scale of rates, prices and debt indexes.
pub const RAY: u128 = 1_000_000_000_000_000_000_000_000_000;

/// 2^96, the binary scale of square-root pool prices.
pub const X96: u128 = 79_228_162_514_264_337_593_543_950_336;

/// 10^45 = WAD * RAY, the widest decimal scale. It exceeds the machine
/// word, so it only appears in specifications.
pub open spec fn rad() -> int {
    (WAD as int) * (RAY as int)
}

/// Rescale a fixed-point value to the BLN display scale: `value * BLN /
/// scale`, with the product held at full width. Dividing the result by
/// BLN as a float yields the display value.
pub fn rescale_to_bln(value: u128, scale: u128) -> (r: Result<u128, Error>)
    ensures
        match r {
            Ok(v) => scale > 0 && value * (BLN as int) / (scale as int) < p128() && v == value * (
            BLN as int) / (scale as int),
            Err(Error::DivideByZero) => scale == 0,
            Err(Error::ArithmeticOverflow) => scale > 0 && value * (BLN as int) / (scale as int)
                >= p128(),
            Err(_) => false,
        },
{
    if scale == 0 {
        return Err(Error::DivideByZero);
    }
    match mul_div(value, BLN, scale) {
        Some(v) => Ok(v),
        None => Err(Error::ArithmeticOverflow),
    }
}

/// Convert a RAY-scale price into reference-asset units at BLN scale:
/// `price * reference * BLN / RAY / RAY`, the triple product held in
/// three limbs before the two RAY divisions.
pub fn reference_price_bln(price: u128, reference: u128) -> (r: Result<u128, Error>)
    ensures
        match r {
            Ok(v) => price * reference * (BLN as int) / (RAY as int) / (RAY as int) < p128() && v
                == price * reference * (BLN as int) / (RAY as int) / (RAY as int),
            Err(Error::ArithmeticOverflow) => price * reference * (BLN as int) / (RAY as int) / (
            RAY as int) >= p128(),
            Err(_) => false,
        },
{
    let (h, l) = mul_wide(price, reference);
    let (m2, m1, m0) = mul_3limb(h, l, BLN);
    let (a2, a1, a0, _r1) = div_rem_3limb(m2, m1, m0, RAY);
    let (b2, b1, b0, _r2) = div_rem_3limb(a2, a1, a0, RAY);
    if b2 != 0 || b1 != 0 {
        proof {
            if b2 >= 1 {
                lemma_mul_inequality(1, b2 as int, p256());
            }
            if b1 >= 1 {
                lemma_mul_inequality(1, b1 as int, p128());
            }
            lemma_mul_nonnegative(b2 as int, p256());
            lemma_mul_nonnegative(b1 as int, p128());
        }
        return Err(Error::ArithmeticOverflow);
    }
    Ok(b0)
}

} // verus!
