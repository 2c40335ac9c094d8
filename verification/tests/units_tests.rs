use ricoterm::errors::Error;
use ricoterm::units::{reference_price_bln, rescale_to_bln, BLN, RAY, WAD, X96};
use ricoterm::wide::{add2_carry, div_rem_3limb, isqrt2, mul_div, mul_wide};

#[test]
fn scale_constants_are_exact() {
    assert_eq!(BLN, 10u128.pow(9));
    assert_eq!(WAD, 10u128.pow(18));
    assert_eq!(RAY, 10u128.pow(27));
    assert_eq!(WAD, BLN * BLN);
    assert_eq!(RAY, BLN * BLN * BLN);
    assert_eq!(X96, 1u128 << 96);
}

#[test]
fn rescaling_to_bln_moves_the_point() {
    // 2.5 WAD at BLN scale is 2.5e9
    assert_eq!(rescale_to_bln(2 * WAD + WAD / 2, WAD), Ok(2 * BLN + BLN / 2));
    // 1.25 RAY at BLN scale
    assert_eq!(rescale_to_bln(RAY + RAY / 4, RAY), Ok(BLN + BLN / 4));
    assert_eq!(rescale_to_bln(WAD, 0), Err(Error::DivideByZero));
    assert_eq!(rescale_to_bln(u128::MAX, 1), Err(Error::ArithmeticOverflow));
}

#[test]
fn reference_conversion_is_exact() {
    // price 2.0 RAY, reference 1500.0 RAY: 3000.0 at BLN scale
    assert_eq!(reference_price_bln(2 * RAY, 1500 * RAY), Ok(3000 * BLN));
    assert_eq!(reference_price_bln(0, 1500 * RAY), Ok(0));
}

#[test]
fn wide_product_splits_into_limbs() {
    assert_eq!(mul_wide(0, 12345), (0, 0));
    assert_eq!(mul_wide(1u128 << 64, 1u128 << 64), (1, 0));
    assert_eq!(mul_wide(u128::MAX, 1), (0, u128::MAX));
    assert_eq!(mul_wide(u128::MAX, u128::MAX), (u128::MAX - 1, 1));
}

#[test]
fn wide_division_returns_quotient_and_remainder() {
    assert_eq!(div_rem_3limb(0, 0, 100, 7), (0, 0, 14, 2));
    assert_eq!(div_rem_3limb(0, 1, 0, 2), (0, 0, 1u128 << 127, 0));
    let (q2, q1, q0, r) = div_rem_3limb(0, 0, u128::MAX, u128::MAX);
    assert_eq!((q2, q1, q0, r), (0, 0, 1, 0));
}

#[test]
fn wide_addition_carries() {
    assert_eq!(add2_carry(0, u128::MAX, 0, 1), (0, 1, 0));
    assert_eq!(add2_carry(u128::MAX, u128::MAX, 0, 1), (1, 0, 0));
    assert_eq!(add2_carry(1, 2, 3, 4), (0, 4, 6));
}

#[test]
fn checked_scaled_multiply_divides_exactly() {
    assert_eq!(mul_div(6 * RAY, 7 * RAY, RAY), Some(42 * RAY));
    assert_eq!(mul_div(u128::MAX, u128::MAX, 1), None);
    assert_eq!(mul_div(u128::MAX, u128::MAX, u128::MAX), Some(u128::MAX));
}

#[test]
fn integer_square_root_floors() {
    assert_eq!(isqrt2(0, 0), 0);
    assert_eq!(isqrt2(0, 144), 12);
    assert_eq!(isqrt2(0, 143), 11);
    assert_eq!(isqrt2(0, 15), 3);
    // sqrt(2^128) = 2^64
    assert_eq!(isqrt2(1, 0), 1u128 << 64);
    // sqrt of the largest two-limb value
    assert_eq!(isqrt2(u128::MAX, u128::MAX), u128::MAX);
}
