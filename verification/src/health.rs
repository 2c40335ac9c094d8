use vstd::prelude::*;
use vstd::arithmetic::div_mod::lemma_div_by_multiple;
use vstd::arithmetic::mul::{lemma_mul_inequality, lemma_mul_nonnegative};

use crate::accrual::{accrual_fits, syn_rack, syn_rack_index};
use crate::errors::Error;
use crate::units::{BLN, RAY};
use crate::valuation::gem_value;
use crate::wide::{div_rem_3limb, mul_3limb, mul_div, mul_wide, p128, p256};

verus! {

/// Per-class parameters, as read from the chain in one call: total
/// normalized debt, accumulated debt index, ceiling, minimum debt, rate,
/// last-accrual time, liquidation penalty, hook address, and the optional
/// held-token telemetry.
#[derive(Clone, Debug, PartialEq, Eq)]
pub struct Ilk {
    /// Total normalized debt of the class.
    pub tart: u128,
    /// Accumulated per-unit debt index; grows through accrual.
    pub rack: u128,
    /// Debt ceiling.
    pub line: u128,
    /// Minimum debt threshold.
    pub dust: u128,
    /// Per-second compounding rate, RAY-scaled.
    pub fee: u128,
    /// Timestamp of the last accrual update. Only the accrual source of
    /// truth advances it; it is never moved locally.
    pub rho: u64,
    /// Liquidation penalty.
    pub chop: u128,
    /// Hook address, 20 bytes.
    pub hook: Vec<u8>,
    /// Held-token balance of the class, when queried.
    pub tink: Option<u128>,
    /// Held-token decimals, when queried.
    pub inkd: Option<u128>,
}

/// One vault's collateral, art and the metrics derived from them.
#[derive(Clone, Debug, PartialEq, Eq)]
pub struct UrnData {
    /// Name of the collateral class.
    pub ink_name: String,
    /// Raw collateral amount, or the summed position value for
    /// pool-position collateral.
    pub ink: u128,
    /// The held position identifiers, for pool-position collateral.
    pub ninks: Option<Vec<u128>>,
    /// Normalized debt units.
    pub art: u128,
    /// Display debt: art scaled by the synthetic index.
    pub debt: u128,
    /// Loan: art scaled by the synthetic index and the price index.
    pub loan: u128,
    /// Collateral value.
    pub value: u128,
    /// Safety ratio at BLN scale: `value * BLN / loan`, or zero for a
    /// zero loan. The BLN denominator keeps integer precision; dividing
    /// by BLN as a float yields the displayed ratio around 1.0.
    pub safety: u128,
}

impl UrnData {
    /// An empty record: every amount zero, no name, no positions.
    pub fn new() -> (r: UrnData)
        ensures
            r.ink_name@ == Seq::<char>::empty(),
            r.ink == 0 && r.art == 0 && r.debt == 0 && r.loan == 0 && r.value == 0 && r.safety
                == 0,
            r.ninks is None,
    {
        UrnData {
            ink_name: String::new(),
            ink: 0,
            ninks: None,
            art: 0,
            debt: 0,
            loan: 0,
            value: 0,
            safety: 0,
        }
    }
}

impl Default for UrnData {
    fn default() -> (r: UrnData)
        ensures
            r.ink_name@ == Seq::<char>::empty(),
            r.ink == 0 && r.art == 0 && r.debt == 0 && r.loan == 0 && r.value == 0 && r.safety
                == 0,
            r.ninks is None,
    {
        UrnData::new()
    }
}

/// Whole elapsed seconds since the last accrual, clamped at zero for a
/// clock that reads earlier than the recorded update.
pub open spec fn elapsed_since(now: u64, rho: u64) -> nat {
    if now > rho {
        (now - rho) as nat
    } else {
        0
    }
}

/// The display debt: normalized debt scaled by the synthetic index.
pub open spec fn debt_of(art: int, syn: int) -> int {
    art * syn / (RAY as int)
}

/// The loan: normalized debt scaled by the synthetic index and the price
/// index, each RAY-scale factor divided back out.
pub open spec fn loan_of(art: int, syn: int, par: int) -> int {
    art * syn * par / (RAY as int) / (RAY as int)
}

/// The safety ratio at BLN scale; exactly zero for a zero loan, so it is
/// always defined and never an infinity.
pub open spec fn safety_ratio_bln(value: int, loan: int) -> int {
    if loan == 0 {
        0
    } else {
        value * (BLN as int) / loan
    }
}

/// Display debt, with the product taken at full width.
pub fn compute_debt(art: u128, syn: u128) -> (r: Result<u128, Error>)
    ensures
        match r {
            Ok(v) => debt_of(art as int, syn as int) < p128() && v == debt_of(
                art as int,
                syn as int,
            ),
            Err(Error::ArithmeticOverflow) => debt_of(art as int, syn as int) >= p128(),
            Err(_) => false,
        },
{
    match mul_div(art, syn, RAY) {
        Some(v) => Ok(v),
        None => Err(Error::ArithmeticOverflow),
    }
}

/// The loan, with the triple product held in three limbs before the two
/// RAY divisions.
pub fn compute_loan(art: u128, syn: u128, par: u128) -> (r: Result<u128, Error>)
    ensures
        match r {
            Ok(v) => loan_of(art as int, syn as int, par as int) < p128() && v == loan_of(
                art as int,
                syn as int,
                par as int,
            ),
            Err(Error::ArithmeticOverflow) => loan_of(art as int, syn as int, par as int)
                >= p128(),
            Err(_) => false,
        },
{
    let (h, l) = mul_wide(art, syn);
    let (m2, m1, m0) = mul_3limb(h, l, par);
    let (a2, a1, a0, _r1) = div_rem_3limb(m2, m1, m0, RAY);
    let (b2, b1, b0, _r2) = div_rem_3limb(a2, a1, a0, RAY);
    if b2 != 0 || b1 != 0 {
        proof {
            if b2 >= 1 {
                lemma_mul_inequality(1, b2 as int, p256());
            }
            if b1 >= 1 {
                lemma_mul_inequality(1, b1 as int, p128());
            }
            lemma_mul_nonnegative(b2 as int, p256());
            lemma_mul_nonnegative(b1 as int, p128());
        }
        return Err(Error::ArithmeticOverflow);
    }
    Ok(b0)
}

/// The safety ratio at BLN scale: `value * BLN / loan` for a positive
/// loan, zero for a zero loan.
pub fn compute_safety(value: u128, loan: u128) -> (r: Result<u128, Error>)
    ensures
        match r {
            Ok(v) => safety_ratio_bln(value as int, loan as int) < p128() && v == safety_ratio_bln(
                value as int,
                loan as int,
            ),
            Err(Error::ArithmeticOverflow) => loan > 0 && safety_ratio_bln(
                value as int,
                loan as int,
            ) >= p128(),
            Err(_) => false,
        },
{
    if loan == 0 {
        return Ok(0);
    }
    match mul_div(value, BLN, loan) {
        Some(v) => Ok(v),
        None => Err(Error::ArithmeticOverflow),
    }
}

/// One vault's collateral, as plain values: either a single held amount
/// with its feed price and liquidation ratio, or pool-position collateral
/// as the list of held position identifiers, each with the value its
/// decomposition produced at the synthetic price.
#[derive(Clone, Debug, PartialEq, Eq)]
pub enum CollateralInput {
    /// A plain held amount.
    Simple { ink: u128, feed_price: u128, liqr: u128 },
    /// Pool positions, each as (identifier, value).
    Pool { positions: Vec<(u128, u128)> },
}

/// The sum of a sequence of values.
pub open spec fn sum_values(s: Seq<u128>) -> int
    decreases s.len(),
{
    if s.len() == 0 {
        0
    } else {
        sum_values(s.drop_last()) + s.last()
    }
}

/// Every prefix sum is bounded by the whole sum.
proof fn lemma_sum_values_prefix(s: Seq<u128>, j: int)
    requires
        0 <= j <= s.len(),
    ensures
        sum_values(s.subrange(0, j)) <= sum_values(s),
    decreases s.len() - j,
{
    if j < s.len() {
        lemma_sum_values_prefix(s, j + 1);
        assert(s.subrange(0, j + 1).drop_last() =~= s.subrange(0, j));
        assert(s.subrange(0, j + 1).last() == s[j]);
    } else {
        assert(s.subrange(0, j) =~= s);
    }
}

/// The value a vault's collateral contributes: the simple-path formula
/// for a plain holding, the summed decomposition values for pool
/// positions.
pub open spec fn collateral_value(c: CollateralInput) -> int {
    match c {
        CollateralInput::Simple { ink, feed_price, liqr } => gem_value(
            feed_price as int,
            ink as int,
            liqr as int,
        ),
        CollateralInput::Pool { positions } => sum_values(
            positions@.map_values(|p: (u128, u128)| p.1),
        ),
    }
}

/// The displayed collateral amount: the raw holding for the simple path;
/// for pool positions the summed value stands in for the amount.
pub open spec fn collateral_ink(c: CollateralInput) -> int {
    match c {
        CollateralInput::Simple { ink, feed_price: _, liqr: _ } => ink as int,
        CollateralInput::Pool { positions: _ } => collateral_value(c),
    }
}

/// Sum the decomposition values of all held positions.
pub fn total_position_value(positions: &Vec<(u128, u128)>) -> (r: Result<u128, Error>)
    ensures
        match r {
            Ok(v) => v == sum_values(positions@.map_values(|p: (u128, u128)| p.1)),
            Err(Error::ArithmeticOverflow) => sum_values(
                positions@.map_values(|p: (u128, u128)| p.1),
            ) >= p128(),
            Err(_) => false,
        },
{
    let ghost vals: Seq<u128> = positions@.map_values(|p: (u128, u128)| p.1);
    let mut acc: u128 = 0;
    let mut i: usize = 0;
    proof {
        assert(vals.subrange(0, 0) =~= Seq::<u128>::empty());
    }
    while i < positions.len()
        invariant
            i <= positions.len(),
            vals == positions@.map_values(|p: (u128, u128)| p.1),
            vals.len() == positions@.len(),
            acc == sum_values(vals.subrange(0, i as int)),
        decreases positions.len() - i,
    {
        let x: u128 = positions[i].1;
        proof {
            assert(vals[i as int] == x);
            assert(vals.subrange(0, i + 1).drop_last() =~= vals.subrange(0, i as int));
            assert(vals.subrange(0, i + 1).last() == vals[i as int]);
        }
        match acc.checked_add(x) {
            Some(v) => {
                acc = v;
            },
            None => {
                proof {
                    lemma_sum_values_prefix(vals, i + 1);
                }
                return Err(Error::ArithmeticOverflow);
            },
        }
        i = i + 1;
    }
    proof {
        assert(vals.subrange(0, positions@.len() as int) =~= vals);
    }
    Ok(acc)
}

/// The held position identifiers, in order, for display.
pub fn position_ids(positions: &Vec<(u128, u128)>) -> (r: Vec<u128>)
    ensures
        r@ == positions@.map_values(|p: (u128, u128)| p.0),
{
    let ghost ids: Seq<u128> = positions@.map_values(|p: (u128, u128)| p.0);
    let mut r: Vec<u128> = Vec::new();
    let mut i: usize = 0;
    while i < positions.len()
        invariant
            i <= positions.len(),
            ids == positions@.map_values(|p: (u128, u128)| p.0),
            ids.len() == positions@.len(),
            r@ == ids.subrange(0, i as int),
        decreases positions.len() - i,
    {
        r.push(positions[i].0);
        proof {
            assert(ids.subrange(0, i + 1) =~= ids.subrange(0, i as int).push(ids[i as int]));
        }
        i = i + 1;
    }
    proof {
        assert(ids.subrange(0, positions@.len() as int) =~= ids);
    }
    r
}

/// Whether every step of a vault's metric computation stays within a
/// limb, and no divisor degenerates.
pub open spec fn urn_fits(ilk: Ilk, art: int, par: int, now: u64, c: CollateralInput) -> bool {
    let syn = syn_rack_index(ilk.rack as int, ilk.fee as int, elapsed_since(now, ilk.rho));
    &&& accrual_fits(ilk.rack as int, ilk.fee as int, elapsed_since(now, ilk.rho))
    &&& (match c {
        CollateralInput::Simple { ink: _, feed_price: _, liqr } => liqr > 0,
        CollateralInput::Pool { positions: _ } => true,
    })
    &&& collateral_value(c) < p128()
    &&& loan_of(art, syn, par) < p128()
    &&& debt_of(art, syn) < p128()
    &&& safety_ratio_bln(collateral_value(c), loan_of(art, syn, par)) < p128()
}

/// Whether a vault computation stops on a zero liquidation ratio: the
/// accrual itself fits, and the simple path resolves a ratio of zero.
pub open spec fn urn_divides_by_zero(ilk: Ilk, now: u64, c: CollateralInput) -> bool {
    &&& accrual_fits(ilk.rack as int, ilk.fee as int, elapsed_since(now, ilk.rho))
    &&& (match c {
        CollateralInput::Simple { ink: _, feed_price: _, liqr } => liqr == 0,
        CollateralInput::Pool { positions: _ } => false,
    })
}

/// Compute one vault's full metric record: synthetic index, collateral
/// value, display debt, loan and safety ratio, from the class parameters,
/// the vault's normalized debt, the price index, the clock and the
/// collateral read for it.
pub fn build_urn_data(
    ink_name: String,
    ilk: &Ilk,
    art: u128,
    par: u128,
    now: u64,
    collateral: &CollateralInput,
) -> (r: Result<UrnData, Error>)
    ensures
        match r {
            Ok(u) => {
                let syn = syn_rack_index(
                    ilk.rack as int,
                    ilk.fee as int,
                    elapsed_since(now, ilk.rho),
                );
                &&& urn_fits(*ilk, art as int, par as int, now, *collateral)
                &&& u.ink_name@ == ink_name@
                &&& u.art == art
                &&& u.ink == collateral_ink(*collateral)
                &&& u.value == collateral_value(*collateral)
                &&& u.debt == debt_of(art as int, syn)
                &&& u.loan == loan_of(art as int, syn, par as int)
                &&& u.safety == safety_ratio_bln(u.value as int, u.loan as int)
                &&& (match *collateral {
                    CollateralInput::Simple { ink: _, feed_price: _, liqr: _ } => u.ninks is None,
                    CollateralInput::Pool { positions } => u.ninks matches Some(ids) && ids@
                        == positions@.map_values(|p: (u128, u128)| p.0),
                })
            },
            Err(Error::DivideByZero) => urn_divides_by_zero(*ilk, now, *collateral),
            Err(Error::ArithmeticOverflow) => !urn_fits(*ilk, art as int, par as int, now, *collateral)
                && !urn_divides_by_zero(*ilk, now, *collateral),
            Err(_) => false,
        },
{
    let elapsed: u64 = if now > ilk.rho {
        now - ilk.rho
    } else {
        0
    };
    let syn: u128 = match syn_rack(ilk.rack, ilk.fee, elapsed) {
        Ok(v) => v,
        Err(e) => {
            return Err(e);
        },
    };
    let ink: u128;
    let value: u128;
    let ninks: Option<Vec<u128>>;
    match collateral {
        CollateralInput::Simple { ink: held, feed_price, liqr } => {
            value = match crate::valuation::value_gem(*feed_price, *held, *liqr) {
                Ok(v) => v,
                Err(e) => {
                    return Err(e);
                },
            };
            ink = *held;
            ninks = None;
        },
        CollateralInput::Pool { positions } => {
            let total: u128 = match total_position_value(positions) {
                Ok(v) => v,
                Err(e) => {
                    return Err(e);
                },
            };
            ink = total;
            value = total;
            ninks = Some(position_ids(positions));
        },
    }
    let loan: u128 = match compute_loan(art, syn, par) {
        Ok(v) => v,
        Err(e) => {
            return Err(e);
        },
    };
    let debt: u128 = match compute_debt(art, syn) {
        Ok(v) => v,
        Err(e) => {
            return Err(e);
        },
    };
    let safety: u128 = match compute_safety(value, loan) {
        Ok(v) => v,
        Err(e) => {
            return Err(e);
        },
    };
    Ok(UrnData { ink_name, ink, ninks, art, debt, loan, value, safety })
}

/// A zero loan yields a safety ratio of exactly zero, and a value equal
/// to a positive loan yields exactly the BLN-scale unit: the ratio is
/// always a finite non-negative number, with no division performed at the
/// boundary.
pub proof fn lemma_safety_ratio_boundary(value: int, loan: int)
    requires
        value >= 0,
        loan >= 0,
    ensures
        loan == 0 ==> safety_ratio_bln(value, loan) == 0,
        loan > 0 && value == loan ==> safety_ratio_bln(value, loan) == BLN as int,
{
    if loan > 0 && value == loan {
        assert(loan * (BLN as int) == (BLN as int) * loan) by (nonlinear_arith);
        lemma_div_by_multiple(BLN as int, loan);
    }
}

} // verus!
