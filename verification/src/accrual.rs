use vstd::prelude::*;
use vstd::arithmetic::div_mod::{lemma_div_by_multiple, lemma_div_is_ordered, lemma_div_pos_is_pos, lemma_fundamental_div_mod};
use vstd::arithmetic::mul::lemma_mul_inequality;
use vstd::arithmetic::power::{lemma_pow0, lemma_pow1, lemma_pow_adds, lemma_pow_multiplies, pow};

use crate::errors::Error;
use crate::units::RAY;
use crate::wide::{mul_div, p128};

verus! {

/// The synthetic accumulated debt index: starting from `rack`, one
/// multiply-by-`fee`-and-rescale-by-`RAY` step per elapsed whole second,
/// flooring at every step.
pub open spec fn syn_rack_index(rack: int, fee: int, n: nat) -> int
    decreases n,
{
    if n == 0 {
        rack
    } else {
        syn_rack_index(rack, fee, (n - 1) as nat) * fee / (RAY as int)
    }
}

/// Whether every index the accrual passes through stays within a limb.
pub open spec fn accrual_fits(rack: int, fee: int, n: nat) -> bool
    decreases n,
{
    if n == 0 {
        rack < p128()
    } else {
        accrual_fits(rack, fee, (n - 1) as nat) && syn_rack_index(rack, fee, n) < p128()
    }
}

/// If the accrual fits for `n` seconds, it fits for any prefix.
pub proof fn lemma_accrual_fits_prefix(rack: int, fee: int, k: nat, n: nat)
    requires
        k <= n,
        accrual_fits(rack, fee, n),
    ensures
        accrual_fits(rack, fee, k),
    decreases n,
{
    if k < n {
        lemma_accrual_fits_prefix(rack, fee, k, (n - 1) as nat);
    }
}

/// Compound the per-class debt index `rack` at the per-second rate `fee`
/// over `elapsed` whole seconds, exactly as the accrual source of truth
/// does: one floored multiply-and-rescale per second.
pub fn syn_rack(rack: u128, fee: u128, elapsed: u64) -> (r: Result<u128, Error>)
    ensures
        match r {
            Ok(v) => accrual_fits(rack as int, fee as int, elapsed as nat) && v
                == syn_rack_index(rack as int, fee as int, elapsed as nat),
            Err(e) => e == Error::ArithmeticOverflow && !accrual_fits(
                rack as int,
                fee as int,
                elapsed as nat,
            ),
        },
{
    let mut acc: u128 = rack;
    let mut i: u64 = 0;
    while i < elapsed
        invariant
            i <= elapsed,
            accrual_fits(rack as int, fee as int, i as nat),
            acc == syn_rack_index(rack as int, fee as int, i as nat),
        decreases elapsed - i,
    {
        match mul_div(acc, fee, RAY) {
            Some(v) => {
                acc = v;
            },
            None => {
                proof {
                    assert(!accrual_fits(rack as int, fee as int, (i + 1) as nat));
                    if accrual_fits(rack as int, fee as int, elapsed as nat) {
                        lemma_accrual_fits_prefix(
                            rack as int,
                            fee as int,
                            (i + 1) as nat,
                            elapsed as nat,
                        );
                    }
                }
                return Err(Error::ArithmeticOverflow);
            },
        }
        i = i + 1;
    }
    Ok(acc)
}

/// For a fee equal to the RAY-scaled value of one, accrual never moves the
/// index: the result equals `rack` for every elapsed time.
pub proof fn lemma_syn_rack_unit_fee(rack: int, fee: int, n: nat)
    requires
        rack >= 0,
        fee == RAY as int,
    ensures
        syn_rack_index(rack, fee, n) == rack,
    decreases n,
{
    if n > 0 {
        lemma_syn_rack_unit_fee(rack, fee, (n - 1) as nat);
        lemma_div_by_multiple(rack, RAY as int);
    }
}

/// For zero elapsed seconds the index is returned untouched, whatever the
/// fee.
pub proof fn lemma_syn_rack_zero_elapsed(rack: int, fee: int)
    ensures
        syn_rack_index(rack, fee, 0) == rack,
{
}

/// One accrual step strictly increases an index `x` exactly when
/// `x * (fee - RAY) >= RAY`, and that threshold is preserved by the step.
proof fn lemma_accrual_step_increases(x: int, fee: int)
    requires
        fee > RAY as int,
        x >= 0,
        x * (fee - RAY as int) >= RAY as int,
    ensures
        x * fee / (RAY as int) > x,
        (x * fee / (RAY as int)) * (fee - RAY as int) >= RAY as int,
        x * fee / (RAY as int) >= 0,
{
    let r: int = RAY as int;
    assert(x * fee == x * r + x * (fee - r)) by (nonlinear_arith);
    assert(x * r + r == (x + 1) * r) by (nonlinear_arith);
    lemma_div_is_ordered((x + 1) * r, x * fee, r);
    lemma_div_by_multiple(x + 1, r);
    assert(x * fee / r >= x + 1);
    lemma_mul_inequality(x, x * fee / r, fee - r);
}

/// For a fee strictly above the RAY-scaled value of one, the synthetic
/// index is strictly increasing in elapsed seconds, provided the starting
/// index is large enough for the very first step to round up: exactly when
/// `rack * (fee - RAY) >= RAY` (which holds for any index of at least one
/// RAY-scaled unit).
pub proof fn lemma_syn_rack_strictly_increasing(rack: int, fee: int, n1: nat, n2: nat)
    requires
        fee > RAY as int,
        rack >= 0,
        rack * (fee - RAY as int) >= RAY as int,
        n1 < n2,
    ensures
        syn_rack_index(rack, fee, n1) < syn_rack_index(rack, fee, n2),
    decreases n2,
{
    lemma_syn_rack_threshold(rack, fee, n1);
    if n2 == n1 + 1 {
    } else {
        lemma_syn_rack_strictly_increasing(rack, fee, n1, (n2 - 1) as nat);
        lemma_syn_rack_threshold(rack, fee, (n2 - 1) as nat);
    }
}

/// Every index along a strictly-compounding accrual keeps the rounding
/// threshold, so each step after it strictly increases as well.
proof fn lemma_syn_rack_threshold(rack: int, fee: int, n: nat)
    requires
        fee > RAY as int,
        rack >= 0,
        rack * (fee - RAY as int) >= RAY as int,
    ensures
        syn_rack_index(rack, fee, n) >= 0,
        syn_rack_index(rack, fee, n) * (fee - RAY as int) >= RAY as int,
        syn_rack_index(rack, fee, (n + 1) as nat) > syn_rack_index(rack, fee, n),
    decreases n,
{
    if n == 0 {
        lemma_accrual_step_increases(rack, fee);
    } else {
        lemma_syn_rack_threshold(rack, fee, (n - 1) as nat);
        lemma_accrual_step_increases(syn_rack_index(rack, fee, (n - 1) as nat), fee);
        lemma_accrual_step_increases(syn_rack_index(rack, fee, n), fee);
    }
}

/// The index computed by accrual in exponentiation-by-squaring form, with
/// the same floored rescale applied at every multiplication.
pub open spec fn pow_accrual(res: int, base: int, n: nat) -> int
    decreases n,
{
    if n == 0 {
        res
    } else {
        let res2 = if n % 2 == 1 {
            res * base / (RAY as int)
        } else {
            res
        };
        pow_accrual(res2, base * base / (RAY as int), n / 2)
    }
}

/// Whether every intermediate of the squaring form stays within a limb.
pub open spec fn pow_accrual_fits(res: int, base: int, n: nat) -> bool
    decreases n,
{
    if n == 0 {
        true
    } else {
        let res2 = if n % 2 == 1 {
            res * base / (RAY as int)
        } else {
            res
        };
        &&& res2 < p128()
        &&& (n / 2 > 0 ==> base * base / (RAY as int) < p128() && pow_accrual_fits(
            res2,
            base * base / (RAY as int),
            n / 2,
        ))
    }
}

/// Accrual by exponentiation-by-squaring: O(log elapsed) rescaled
/// multiplications instead of one per second.
pub fn syn_rack_pow(rack: u128, fee: u128, elapsed: u64) -> (r: Result<u128, Error>)
    ensures
        match r {
            Ok(v) => pow_accrual_fits(rack as int, fee as int, elapsed as nat) && v == pow_accrual(
                rack as int,
                fee as int,
                elapsed as nat,
            ),
            Err(e) => e == Error::ArithmeticOverflow && !pow_accrual_fits(
                rack as int,
                fee as int,
                elapsed as nat,
            ),
        },
{
    let mut acc: u128 = rack;
    let mut base: u128 = fee;
    let mut n: u64 = elapsed;
    while n > 0
        invariant
            pow_accrual(acc as int, base as int, n as nat) == pow_accrual(
                rack as int,
                fee as int,
                elapsed as nat,
            ),
            pow_accrual_fits(acc as int, base as int, n as nat) <==> pow_accrual_fits(
                rack as int,
                fee as int,
                elapsed as nat,
            ),
        decreases n,
    {
        let ghost acc0: int = acc as int;
        let ghost base0: int = base as int;
        let ghost n0: nat = n as nat;
        if n % 2 == 1 {
            match mul_div(acc, base, RAY) {
                Some(v) => {
                    acc = v;
                },
                None => {
                    proof {
                        assert(!pow_accrual_fits(acc0, base0, n0));
                    }
                    return Err(Error::ArithmeticOverflow);
                },
            }
        }
        n = n / 2;
        if n > 0 {
            match mul_div(base, base, RAY) {
                Some(v) => {
                    base = v;
                },
                None => {
                    proof {
                        assert(!pow_accrual_fits(acc0, base0, n0));
                    }
                    return Err(Error::ArithmeticOverflow);
                },
            }
        }
        proof {
            if n == 0 {
                let r: int = RAY as int;
                let res2: int = if n0 % 2 == 1 {
                    acc0 * base0 / r
                } else {
                    acc0
                };
                assert(acc == res2);
                assert(pow_accrual(acc0, base0, n0) == pow_accrual(res2, base0 * base0 / r, 0));
                assert(pow_accrual(res2, base0 * base0 / r, 0) == res2);
                assert(pow_accrual_fits(acc0, base0, n0) <==> res2 < p128());
            }
        }
    }
    Ok(acc)
}

/// The per-second multiplier of the system-rate projection: the rate
/// compounds by `how` while the observed market price is below the target
/// index, by its RAY-scale inverse while above, and collapses to zero at
/// exact parity.
pub open spec fn way_multiplier(mar: int, par: int, how: int) -> int {
    if mar < par {
        how
    } else if mar > par {
        (RAY as int) * (RAY as int) / how
    } else {
        0
    }
}

/// Project the system rate `way` forward by `elapsed` seconds under the
/// market pressure multiplier chosen by comparing `mar` against `par`.
pub fn project_way(way: u128, how: u128, mar: u128, par: u128, elapsed: u64) -> (r: Result<
    u128,
    Error,
>)
    ensures
        match r {
            Ok(v) => {
                &&& mar > par ==> how > 0 && way_multiplier(mar as int, par as int, how as int)
                    < p128()
                &&& accrual_fits(
                    way as int,
                    way_multiplier(mar as int, par as int, how as int),
                    elapsed as nat,
                )
                &&& v == syn_rack_index(
                    way as int,
                    way_multiplier(mar as int, par as int, how as int),
                    elapsed as nat,
                )
            },
            Err(Error::DivideByZero) => mar > par && how == 0,
            Err(Error::ArithmeticOverflow) => (mar > par && how > 0 && way_multiplier(
                mar as int,
                par as int,
                how as int,
            ) >= p128()) || !accrual_fits(
                way as int,
                way_multiplier(mar as int, par as int, how as int),
                elapsed as nat,
            ),
            Err(_) => false,
        },
{
    let mult: u128;
    if mar < par {
        mult = how;
    } else if mar > par {
        if how == 0 {
            return Err(Error::DivideByZero);
        }
        match mul_div(RAY, RAY, how) {
            Some(v) => {
                mult = v;
            },
            None => {
                return Err(Error::ArithmeticOverflow);
            },
        }
    } else {
        mult = 0;
    }
    syn_rack(way, mult, elapsed)
}

/// The iterative accrual is exact when the fee is an exact RAY multiple.
proof fn lemma_iter_accrual_exact(rack: int, k: int, n: nat)
    requires
        rack >= 0,
        k >= 0,
    ensures
        syn_rack_index(rack, k * (RAY as int), n) == rack * pow(k, n),
        rack * pow(k, n) >= 0,
    decreases n,
{
    let r: int = RAY as int;
    if n == 0 {
        lemma_pow0(k);
    } else {
        lemma_iter_accrual_exact(rack, k, (n - 1) as nat);
        let prev = rack * pow(k, (n - 1) as nat);
        assert(prev * (k * r) == (prev * k) * r) by (nonlinear_arith);
        assert(prev * k >= 0) by (nonlinear_arith)
            requires prev >= 0 && k >= 0;
        lemma_div_by_multiple(prev * k, r);
        lemma_pow_adds(k, (n - 1) as nat, 1);
        lemma_pow1(k);
        assert(rack * (pow(k, (n - 1) as nat) * k) == prev * k) by (nonlinear_arith)
            requires prev == rack * pow(k, (n - 1) as nat);
    }
}

/// The squaring accrual is exact when the base is an exact RAY multiple.
proof fn lemma_pow_accrual_exact(res: int, k: int, n: nat)
    requires
        res >= 0,
        k >= 0,
    ensures
        pow_accrual(res, k * (RAY as int), n) == res * pow(k, n),
        res * pow(k, n) >= 0,
    decreases n,
{
    let r: int = RAY as int;
    if n == 0 {
        lemma_pow0(k);
    } else {
        // the odd-bit multiplication is exact
        assert(res * (k * r) == (res * k) * r) by (nonlinear_arith);
        assert(res * k >= 0) by (nonlinear_arith)
            requires res >= 0 && k >= 0;
        lemma_div_by_multiple(res * k, r);
        let res2: int = if n % 2 == 1 {
            res * k
        } else {
            res
        };
        assert(res2 == if n % 2 == 1 {
            res * (k * r) / r
        } else {
            res
        });
        // the squaring is exact: (kR)*(kR)/R == (k*k)*R
        assert((k * r) * (k * r) == ((k * k) * r) * r) by (nonlinear_arith);
        assert((k * k) * r >= 0) by (nonlinear_arith)
            requires k >= 0 && r >= 0;
        lemma_div_by_multiple((k * k) * r, r);
        assert((k * r) * (k * r) / r == (k * k) * r);
        lemma_pow_accrual_exact(res2, k * k, n / 2);
        assert(pow_accrual(res, k * r, n) == res2 * pow(k * k, n / 2));
        // reassemble the exponent: n == n % 2 + 2 * (n / 2)
        lemma_pow_multiplies(k, 2, n / 2);
        lemma_pow_adds(k, 1, 1);
        lemma_pow1(k);
        assert(pow(k, 2) == k * k);
        assert(pow(k * k, n / 2) == pow(k, 2 * (n / 2)));
        lemma_pow_adds(k, (n % 2) as nat, (2 * (n / 2)) as nat);
        assert(pow(k, n) == pow(k, (n % 2) as nat) * pow(k, (2 * (n / 2)) as nat));
        if n % 2 == 1 {
            assert(pow(k, 1) == k);
            assert((res * k) * pow(k, (2 * (n / 2)) as nat) == res * (k * pow(
                k,
                (2 * (n / 2)) as nat,
            ))) by (nonlinear_arith);
        } else {
            lemma_pow0(k);
        }
    }
}

/// The iterative and the exponentiation-by-squaring accrual agree
/// bit-for-bit whenever the fee is an exact multiple of RAY, for every
/// starting index and every elapsed time. (With a fee strictly between RAY
/// multiples the two schedules floor at different points and can differ in
/// the last digits, so no more than this can hold of every input.)
pub proof fn lemma_pow_accrual_matches_iterative(rack: int, fee: int, n: nat)
    requires
        rack >= 0,
        fee >= 0,
        fee % (RAY as int) == 0,
    ensures
        pow_accrual(rack, fee, n) == syn_rack_index(rack, fee, n),
{
    let r: int = RAY as int;
    let k: int = fee / r;
    lemma_fundamental_div_mod(fee, r);
    lemma_div_pos_is_pos(fee, r);
    assert(fee == k * r) by (nonlinear_arith)
        requires fee == r * k + fee % r && fee % r == 0;
    lemma_iter_accrual_exact(rack, k, n);
    lemma_pow_accrual_exact(rack, k, n);
}

} // verus!
