use ricoterm::errors::Error;
use ricoterm::units::{RAY, WAD, X96};
use ricoterm::valuation::{synthetic_pool_price, value_gem, value_pool_position};

#[test]
fn zero_amount_is_worth_zero() {
    assert_eq!(value_gem(3 * RAY, 0, RAY), Ok(0));
    assert_eq!(value_gem(u128::MAX, 0, 1), Ok(0));
}

#[test]
fn simple_value_is_additive_when_ratio_divides_price() {
    let feed: u128 = 10;
    let liqr: u128 = 5;
    let a = value_gem(feed, 3, liqr).unwrap();
    let b = value_gem(feed, 4, liqr).unwrap();
    let both = value_gem(feed, 7, liqr).unwrap();
    assert_eq!(a + b, both);
    assert_eq!(both, 14);
}

#[test]
fn simple_value_exact_example() {
    // price 2.0 (RAY), one WAD of collateral, liquidation ratio 1.0
    assert_eq!(value_gem(2 * RAY, WAD, RAY), Ok(2 * WAD));
    // ratio 2.0 halves the value
    assert_eq!(value_gem(2 * RAY, WAD, 2 * RAY), Ok(WAD));
}

#[test]
fn simple_value_zero_ratio_is_division_by_zero() {
    assert_eq!(value_gem(RAY, WAD, 0), Err(Error::DivideByZero));
}

#[test]
fn simple_value_overflow_is_reported() {
    assert_eq!(value_gem(u128::MAX, u128::MAX, 1), Err(Error::ArithmeticOverflow));
}

#[test]
fn equal_prices_give_the_x96_root() {
    // price1 / price0 == 1, so the synthetic square-root price is X96
    assert_eq!(synthetic_pool_price(RAY, RAY), Ok(X96));
    assert_eq!(synthetic_pool_price(7 * WAD, 7 * WAD), Ok(X96));
}

#[test]
fn four_to_one_prices_double_the_root() {
    assert_eq!(synthetic_pool_price(RAY, 4 * RAY), Ok(2 * X96));
    assert_eq!(synthetic_pool_price(4 * RAY, RAY), Ok(X96 / 2));
}

#[test]
fn pool_price_zero_denominator_is_division_by_zero() {
    assert_eq!(synthetic_pool_price(0, RAY), Err(Error::DivideByZero));
}

#[test]
fn pool_price_overflow_is_reported() {
    assert_eq!(synthetic_pool_price(1, u128::MAX), Err(Error::ArithmeticOverflow));
}

#[test]
fn pool_value_is_symmetric_under_token_swap() {
    let (a0, p0, l0) = (3 * WAD, 2 * RAY, RAY);
    let (a1, p1, l1) = (5 * WAD, 7 * RAY, 2 * RAY);
    let forward = value_pool_position(a0, p0, a1, p1, l0, l1).unwrap();
    let swapped = value_pool_position(a1, p1, a0, p0, l1, l0).unwrap();
    assert_eq!(forward, swapped);
}

#[test]
fn pool_value_uses_the_stricter_ratio() {
    // max(1 RAY, 2 RAY) = 2 RAY divides the summed legs
    let v = value_pool_position(WAD, 2 * RAY, WAD, 2 * RAY, RAY, 2 * RAY).unwrap();
    assert_eq!(v, 2 * WAD);
}

#[test]
fn scenario_equal_tokens_value_exact() {
    // equal price P and ratio L: value == (A0 + A1) * P / L exactly
    let a0: u128 = 3 * WAD;
    let a1: u128 = 5 * WAD;
    let p: u128 = 2 * RAY;
    let l: u128 = RAY;
    let v = value_pool_position(a0, p, a1, p, l, l).unwrap();
    assert_eq!(v, (a0 + a1) * 2);
}

#[test]
fn pool_value_both_ratios_zero_is_division_by_zero() {
    assert_eq!(value_pool_position(WAD, RAY, WAD, RAY, 0, 0), Err(Error::DivideByZero));
}

#[test]
fn pool_value_overflow_is_reported() {
    assert_eq!(
        value_pool_position(u128::MAX, u128::MAX, 0, 0, 1, 1),
        Err(Error::ArithmeticOverflow)
    );
}
