use vstd::prelude::*;
use vstd::arithmetic::div_mod::{lemma_div_by_multiple, lemma_fundamental_div_mod};
use vstd::arithmetic::mul::{lemma_mul_inequality, lemma_mul_nonnegative};

use crate::errors::Error;
use crate::units::X96;
use crate::wide::{add2_carry, div_rem_3limb, isqrt2, mul_div, mul_wide, p128, p256, val3};

verus! {

/// The larger of two liquidation ratios.
pub open spec fn max_liqr(l0: int, l1: int) -> int {
    if l0 >= l1 {
        l0
    } else {
        l1
    }
}

/// The value of a simple token holding: feed price times amount, divided
/// by the liquidation ratio.
pub open spec fn gem_value(feed: int, ink: int, liqr: int) -> int {
    feed * ink / liqr
}

/// The RAY-scale squared price ratio of a pool: `price1 * X96 * X96 /
/// price0`; its floored square root is the synthetic price handed to the
/// position decomposition.
pub open spec fn pool_ratio(price0: int, price1: int) -> int {
    price1 * (X96 as int) * (X96 as int) / price0
}

/// The value of a pool position given its two underlying token amounts:
/// both legs priced and summed, divided by the stricter (larger) of the
/// two liquidation ratios.
pub open spec fn pool_value(a0: int, p0: int, a1: int, p1: int, l0: int, l1: int) -> int {
    (a0 * p0 + a1 * p1) / max_liqr(l0, l1)
}

/// Value a simple token holding (`feed * ink / liqr`), with the product
/// taken at full width before the division.
pub fn value_gem(feed: u128, ink: u128, liqr: u128) -> (r: Result<u128, Error>)
    ensures
        match r {
            Ok(v) => liqr > 0 && gem_value(feed as int, ink as int, liqr as int) < p128() && v
                == gem_value(feed as int, ink as int, liqr as int),
            Err(Error::DivideByZero) => liqr == 0,
            Err(Error::ArithmeticOverflow) => liqr > 0 && gem_value(
                feed as int,
                ink as int,
                liqr as int,
            ) >= p128(),
            Err(_) => false,
        },
{
    if liqr == 0 {
        return Err(Error::DivideByZero);
    }
    match mul_div(feed, ink, liqr) {
        Some(v) => Ok(v),
        None => Err(Error::ArithmeticOverflow),
    }
}

/// A holding of zero is worth exactly zero, whatever the price and ratio.
pub proof fn lemma_gem_value_zero_amount(feed: int, liqr: int)
    requires
        liqr > 0,
    ensures
        gem_value(feed, 0, liqr) == 0,
{
    assert(feed * 0 == 0) by (nonlinear_arith);
}

/// Simple valuation is exactly additive in the held amount whenever the
/// liquidation ratio divides the feed price; with a remainder the floor
/// makes it only approximately linear.
pub proof fn lemma_gem_value_linear(feed: int, a1: int, a2: int, liqr: int)
    requires
        liqr > 0,
        feed >= 0,
        a1 >= 0,
        a2 >= 0,
        feed % liqr == 0,
    ensures
        gem_value(feed, a1 + a2, liqr) == gem_value(feed, a1, liqr) + gem_value(feed, a2, liqr),
{
    let k: int = feed / liqr;
    lemma_fundamental_div_mod(feed, liqr);
    assert(feed == k * liqr) by (nonlinear_arith)
        requires feed == liqr * k + feed % liqr && feed % liqr == 0;
    assert(k >= 0) by (nonlinear_arith)
        requires k * liqr >= 0 && liqr > 0;
    assert(feed * a1 == (k * a1) * liqr) by (nonlinear_arith)
        requires feed == k * liqr;
    assert(feed * a2 == (k * a2) * liqr) by (nonlinear_arith)
        requires feed == k * liqr;
    assert(feed * (a1 + a2) == (k * (a1 + a2)) * liqr) by (nonlinear_arith)
        requires feed == k * liqr;
    lemma_mul_nonnegative(k, a1);
    lemma_mul_nonnegative(k, a2);
    lemma_mul_nonnegative(k, a1 + a2);
    lemma_div_by_multiple(k * a1, liqr);
    lemma_div_by_multiple(k * a2, liqr);
    lemma_div_by_multiple(k * (a1 + a2), liqr);
    assert(k * (a1 + a2) == k * a1 + k * a2) by (nonlinear_arith);
}

/// Simple valuation also scales exactly in the held amount whenever the
/// liquidation ratio divides the feed price.
pub proof fn lemma_gem_value_scales(feed: int, k: int, a: int, liqr: int)
    requires
        liqr > 0,
        feed >= 0,
        k >= 0,
        a >= 0,
        feed % liqr == 0,
    ensures
        gem_value(feed, k * a, liqr) == k * gem_value(feed, a, liqr),
{
    let q: int = feed / liqr;
    lemma_fundamental_div_mod(feed, liqr);
    assert(feed == q * liqr) by (nonlinear_arith)
        requires feed == liqr * q + feed % liqr && feed % liqr == 0;
    assert(q >= 0) by (nonlinear_arith)
        requires q * liqr >= 0 && liqr > 0;
    assert(feed * a == (q * a) * liqr) by (nonlinear_arith)
        requires feed == q * liqr;
    assert(feed * (k * a) == ((q * a) * k) * liqr) by (nonlinear_arith)
        requires feed == q * liqr;
    lemma_mul_nonnegative(q, a);
    lemma_mul_nonnegative(q * a, k);
    lemma_div_by_multiple(q * a, liqr);
    lemma_div_by_multiple((q * a) * k, liqr);
    assert((q * a) * k == k * (q * a)) by (nonlinear_arith);
}

/// The synthetic square-root pool price: the price ratio of the two
/// tokens is scaled by X96 squared in a four-limb-wide intermediate, and
/// its floored integer square root is returned.
pub fn synthetic_pool_price(price0: u128, price1: u128) -> (r: Result<u128, Error>)
    ensures
        match r {
            Ok(v) => {
                &&& price0 > 0
                &&& pool_ratio(price0 as int, price1 as int) < p256()
                &&& v * v <= pool_ratio(price0 as int, price1 as int)
                &&& pool_ratio(price0 as int, price1 as int) < (v + 1) * (v + 1)
            },
            Err(Error::DivideByZero) => price0 == 0,
            Err(Error::ArithmeticOverflow) => price0 > 0 && pool_ratio(
                price0 as int,
                price1 as int,
            ) >= p256(),
            Err(_) => false,
        },
{
    if price0 == 0 {
        return Err(Error::DivideByZero);
    }
    let ph: u128 = price1 / crate::wide::P64;
    let pl: u128 = price1 % crate::wide::P64;
    proof {
        lemma_fundamental_div_mod(price1 as int, crate::wide::P64 as int);
    }
    let n1: u128 = pl * crate::wide::P64;
    let (q2, q1, q0, _rem) = div_rem_3limb(ph, n1, 0, price0);
    proof {
        // the three-limb dividend holds exactly price1 * X96 * X96
        assert(val3(ph, n1, 0) == price1 * (X96 as int) * (X96 as int)) by (nonlinear_arith)
            requires
                price1 == 0x1_0000_0000_0000_0000 * ph + pl,
                n1 == pl * 0x1_0000_0000_0000_0000,
                X96 == 79_228_162_514_264_337_593_543_950_336u128,
                val3(ph, n1, 0) == ph as int
                    * 0x1_0000_0000_0000_0000_0000_0000_0000_0000_0000_0000_0000_0000_0000_0000_0000_0000int
                    + n1 as int * 0x1_0000_0000_0000_0000_0000_0000_0000_0000int;
        if q2 != 0 {
            lemma_mul_inequality(1, q2 as int, p256());
            lemma_mul_nonnegative(q2 as int, p256());
            lemma_mul_nonnegative(q1 as int, p128());
        }
    }
    if q2 != 0 {
        return Err(Error::ArithmeticOverflow);
    }
    let root = isqrt2(q1, q0);
    Ok(root)
}

/// Value a pool position from the amounts its decomposition reported for
/// the two underlying tokens: both legs priced at full width, summed, and
/// divided by the stricter of the two liquidation ratios.
pub fn value_pool_position(
    amount0: u128,
    price0: u128,
    amount1: u128,
    price1: u128,
    liqr0: u128,
    liqr1: u128,
) -> (r: Result<u128, Error>)
    ensures
        match r {
            Ok(v) => {
                &&& max_liqr(liqr0 as int, liqr1 as int) > 0
                &&& pool_value(
                    amount0 as int,
                    price0 as int,
                    amount1 as int,
                    price1 as int,
                    liqr0 as int,
                    liqr1 as int,
                ) < p128()
                &&& v == pool_value(
                    amount0 as int,
                    price0 as int,
                    amount1 as int,
                    price1 as int,
                    liqr0 as int,
                    liqr1 as int,
                )
            },
            Err(Error::DivideByZero) => liqr0 == 0 && liqr1 == 0,
            Err(Error::ArithmeticOverflow) => max_liqr(liqr0 as int, liqr1 as int) > 0
                && pool_value(
                amount0 as int,
                price0 as int,
                amount1 as int,
                price1 as int,
                liqr0 as int,
                liqr1 as int,
            ) >= p128(),
            Err(_) => false,
        },
{
    let liqr: u128 = if liqr0 >= liqr1 {
        liqr0
    } else {
        liqr1
    };
    if liqr == 0 {
        return Err(Error::DivideByZero);
    }
    let (h0, l0) = mul_wide(amount0, price0);
    let (h1, l1) = mul_wide(amount1, price1);
    let (c, hh, ll) = add2_carry(h0, l0, h1, l1);
    let (q2, q1, q0, _rem) = div_rem_3limb(c, hh, ll, liqr);
    if q2 != 0 || q1 != 0 {
        proof {
            if q2 >= 1 {
                lemma_mul_inequality(1, q2 as int, p256());
            }
            if q1 >= 1 {
                lemma_mul_inequality(1, q1 as int, p128());
            }
            lemma_mul_nonnegative(q2 as int, p256());
            lemma_mul_nonnegative(q1 as int, p128());
        }
        return Err(Error::ArithmeticOverflow);
    }
    Ok(q0)
}

/// Swapping which token is token0/token1, together with swapping the
/// matching prices and liquidation ratios, never changes the computed
/// value.
pub proof fn lemma_pool_value_symmetric(a0: int, p0: int, a1: int, p1: int, l0: int, l1: int)
    ensures
        pool_value(a0, p0, a1, p1, l0, l1) == pool_value(a1, p1, a0, p0, l1, l0),
{
}

/// With both tokens at the same price and the same liquidation ratio the
/// position is worth exactly `(a0 + a1) * price / liqr`.
pub proof fn lemma_pool_value_equal_tokens(a0: int, a1: int, price: int, liqr: int)
    requires
        liqr > 0,
    ensures
        pool_value(a0, price, a1, price, liqr, liqr) == (a0 + a1) * price / liqr,
{
    assert(a0 * price + a1 * price == (a0 + a1) * price) by (nonlinear_arith);
}

} // verus!
