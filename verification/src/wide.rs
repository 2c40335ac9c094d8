use vstd::prelude::*;
use vstd::arithmetic::div_mod::{
    lemma_basic_div, lemma_breakdown, lemma_div_denominator, lemma_div_is_ordered_by_denominator,
    lemma_div_pos_is_pos, lemma_fundamental_div_mod, lemma_fundamental_div_mod_converse,
    lemma_mod_division_less_than_divisor, lemma_multiply_divide_lt, lemma_small_mod,
};
use vstd::arithmetic::mul::{
    lemma_mul_inequality, lemma_mul_nonnegative, lemma_mul_strict_inequality,
    lemma_mul_upper_bound,
};
use vstd::arithmetic::power2::{lemma2_to64, lemma2_to64_rest, lemma_pow2_adds, lemma_pow2_pos, pow2};

verus! {

// Fixed-point scale combinations multiply two or three 128-bit quantities
// before narrowing, so every product here is formed in an intermediate wide
// enough to hold it in full: a pair or a triple of 128-bit limbs. Narrowing
// back to `u128` is always an explicit, checked step.

/// 2^64 as a spec-level integer.
#[verifier::inline]
pub open spec fn p64() -> int {
    0x1_0000_0000_0000_0000
}

/// 2^128 as a spec-level integer.
#[verifier::inline]
pub open spec fn p128() -> int {
    0x1_0000_0000_0000_0000_0000_0000_0000_0000int
}

/// 2^256 as a spec-level integer.
#[verifier::inline]
pub open spec fn p256() -> int {
    0x1_0000_0000_0000_0000_0000_0000_0000_0000_0000_0000_0000_0000_0000_0000_0000_0000int
}

/// 2^384 as a spec-level integer.
#[verifier::inline]
pub open spec fn p384() -> int {
    0x1_0000_0000_0000_0000_0000_0000_0000_0000_0000_0000_0000_0000_0000_0000_0000_0000_0000_0000_0000_0000_0000_0000_0000_0000int
}

/// 2^64 as an executable constant.
pub const P64: u128 = 0x1_0000_0000_0000_0000;

/// 2^127 as an executable constant, the top bit of a limb.
pub const P127: u128 = 0x8000_0000_0000_0000_0000_0000_0000_0000;

/// The integer held by a two-limb (256-bit) value.
pub open spec fn val2(hi: u128, lo: u128) -> int {
    hi * p128() + lo
}

/// The integer held by a three-limb (384-bit) value.
pub open spec fn val3(n2: u128, n1: u128, n0: u128) -> int {
    n2 * p256() + n1 * p128() + n0
}

/// Addition with an explicit carry limb.
pub fn add_carry(a: u128, b: u128) -> (r: (u128, u128))
    ensures
        r.0 + r.1 * p128() == a + b,
        r.1 <= 1,
{
    if a <= u128::MAX - b {
        (a + b, 0)
    } else {
        ((a - (u128::MAX - b)) - 1, 1)
    }
}

/// The ring identity behind the schoolbook product of two 128-bit values
/// split into 64-bit halves.
proof fn lemma_mul_limbs(
    a: int, b: int, ah: int, al: int, bh: int, bl: int,
    t0: int, c: int, r0: int,
    t1: int, q1: int, m1: int,
    t2: int, q2: int, r1: int,
    t3: int, p: int,
) by (nonlinear_arith)
    requires
        p == p64(),
        a == ah * p + al,
        b == bh * p + bl,
        t0 == al * bl,
        t0 == c * p + r0,
        t1 == al * bh + c,
        t1 == q1 * p + m1,
        t2 == ah * bl + m1,
        t2 == q2 * p + r1,
        t3 == ah * bh + q1 + q2,
    ensures
        t3 * (p * p) + (r1 * p + r0) == a * b,
{
}

/// Bounds for the intermediate sums of the schoolbook product.
proof fn lemma_mul_limb_bounds(x: int, y: int, p: int) by (nonlinear_arith)
    requires
        p == p64(),
        0 <= x < p,
        0 <= y < p,
    ensures
        x * y <= (p - 1) * (p - 1),
{
}

/// Full 256-bit product of two 128-bit values, high limb first.
pub fn mul_wide(a: u128, b: u128) -> (r: (u128, u128))
    ensures
        val2(r.0, r.1) == a * b,
{
    let ah: u128 = a / P64;
    let al: u128 = a % P64;
    let bh: u128 = b / P64;
    let bl: u128 = b % P64;
    proof {
        lemma_fundamental_div_mod(a as int, P64 as int);
        lemma_fundamental_div_mod(b as int, P64 as int);
        lemma_mul_limb_bounds(al as int, bl as int, p64());
        lemma_mul_limb_bounds(al as int, bh as int, p64());
        lemma_mul_limb_bounds(ah as int, bl as int, p64());
        lemma_mul_limb_bounds(ah as int, bh as int, p64());
    }
    let t0: u128 = al * bl;
    let c: u128 = t0 / P64;
    let r0: u128 = t0 % P64;
    let t1: u128 = al * bh + c;
    let q1: u128 = t1 / P64;
    let m1: u128 = t1 % P64;
    let t2: u128 = ah * bl + m1;
    let q2: u128 = t2 / P64;
    let r1: u128 = t2 % P64;
    let t3: u128 = ah * bh + q1 + q2;
    proof {
        lemma_fundamental_div_mod(t0 as int, P64 as int);
        lemma_fundamental_div_mod(t1 as int, P64 as int);
        lemma_fundamental_div_mod(t2 as int, P64 as int);
        lemma_mul_limbs(
            a as int, b as int, ah as int, al as int, bh as int, bl as int,
            t0 as int, c as int, r0 as int,
            t1 as int, q1 as int, m1 as int,
            t2 as int, q2 as int, r1 as int,
            t3 as int, p64(),
        );
    }
    (t3, r1 * P64 + r0)
}

/// The limb constants agree with `pow2`.
proof fn lemma_p_pow2()
    ensures
        p64() == pow2(64),
        p128() == pow2(128),
        p256() == pow2(256),
        p384() == pow2(384),
        pow2(383) == P127 * p256(),
        pow2(127) == P127,
        pow2(1) == 2,
        pow2(0) == 1,
{
    lemma2_to64();
    lemma2_to64_rest();
    lemma_pow2_adds(64, 64);
    assert(pow2(128) == p128()) by (nonlinear_arith)
        requires pow2(128) == pow2(64) * pow2(64) && pow2(64) == 0x1_0000_0000_0000_0000;
    lemma_pow2_adds(128, 128);
    assert(pow2(256) == p256()) by (nonlinear_arith)
        requires pow2(256) == pow2(128) * pow2(128) && pow2(128) == p128();
    lemma_pow2_adds(256, 128);
    assert(pow2(384) == p384()) by (nonlinear_arith)
        requires pow2(384) == pow2(256) * pow2(128) && pow2(256) == p256() && pow2(128) == p128();
    lemma_pow2_adds(63, 64);
    assert(pow2(127) == P127) by (nonlinear_arith)
        requires
            pow2(127) == pow2(63) * pow2(64)
                && pow2(63) == 0x8000_0000_0000_0000
                && pow2(64) == 0x1_0000_0000_0000_0000;
    lemma_pow2_adds(127, 256);
    assert(pow2(383) == P127 * p256()) by (nonlinear_arith)
        requires pow2(383) == pow2(127) * pow2(256) && pow2(127) == P127 && pow2(256) == p256();
}

/// The limb bounds agree with `pow2`.
pub proof fn lemma_wide_pow2()
    ensures
        p64() == pow2(64),
        p128() == pow2(128),
        p256() == pow2(256),
        p384() == pow2(384),
{
    lemma_p_pow2();
}

/// A three-limb value is below 2^384, and its top limb decides whether it
/// reaches 2^383.
proof fn lemma_val3_range(a2: u128, a1: u128, a0: u128)
    ensures
        0 <= val3(a2, a1, a0) < p384(),
        a2 >= P127 <==> val3(a2, a1, a0) >= P127 * p256(),
{
    lemma_mul_inequality(a2 as int, p128() - 1, p256());
    lemma_mul_inequality(a1 as int, p128() - 1, p128());
    lemma_mul_nonnegative(a2 as int, p256());
    lemma_mul_nonnegative(a1 as int, p128());
    if a2 >= P127 {
        lemma_mul_inequality(P127 as int, a2 as int, p256());
    } else {
        lemma_mul_inequality(a2 as int, P127 - 1, p256());
    }
}

/// Restoring long division of a three-limb (384-bit) dividend by a non-zero
/// 128-bit divisor: full three-limb quotient and the remainder.
pub fn div_rem_3limb(n2: u128, n1: u128, n0: u128, d: u128) -> (r: (u128, u128, u128, u128))
    requires
        d > 0,
    ensures
        val3(r.0, r.1, r.2) == val3(n2, n1, n0) / (d as int),
        r.3 == val3(n2, n1, n0) % (d as int),
{
    let ghost n_val: int = val3(n2, n1, n0);
    let mut x2 = n2;
    let mut x1 = n1;
    let mut x0 = n0;
    let mut q2: u128 = 0;
    let mut q1: u128 = 0;
    let mut q0: u128 = 0;
    let mut rem: u128 = 0;
    let mut k: usize = 0;
    proof {
        lemma_p_pow2();
        lemma_val3_range(n2, n1, n0);
        lemma_small_mod(n_val as nat, pow2(384));
        lemma_basic_div(n_val, pow2(384) as int);
        assert(val3(q2, q1, q0) == 0);
        assert(n_val / (pow2((384 - 0) as nat) as int) == 0);
        assert(val3(q2, q1, q0) * d + rem == 0);
    }
    while k < 384
        invariant
            0 < d,
            k <= 384,
            n_val == val3(n2, n1, n0),
            0 <= n_val < pow2(384),
            val3(x2, x1, x0) == (n_val % (pow2((384 - k) as nat) as int)) * pow2(k as nat),
            val3(q2, q1, q0) * d + rem == n_val / (pow2((384 - k) as nat) as int),
            rem < d,
        decreases 384 - k,
    {
        proof {
            lemma_p_pow2();
        }
        let ghost m: nat = (384 - k) as nat;
        let ghost a_mod: int = n_val % (pow2(m) as int);
        let ghost prefix: int = n_val / (pow2(m) as int);
        let ghost low: int = n_val % (pow2((m - 1) as nat) as int);
        let ghost bit: int = (n_val / (pow2((m - 1) as nat) as int)) % 2;
        proof {
            lemma_pow2_pos(m);
            lemma_pow2_pos((m - 1) as nat);
            lemma_pow2_pos(k as nat);
            lemma_pow2_adds((m - 1) as nat, 1);
            // a_mod splits into its top bit and the lower m-1 bits
            lemma_breakdown(n_val, pow2((m - 1) as nat) as int, 2);
            assert(a_mod == pow2((m - 1) as nat) * bit + low);
            lemma_div_pos_is_pos(n_val, pow2((m - 1) as nat) as int);
            lemma_mod_division_less_than_divisor(n_val / pow2((m - 1) as nat) as int, 2);
            lemma_mod_division_less_than_divisor(n_val, pow2((m - 1) as nat) as int);
            // the top bit of the shifted dividend window is that bit
            lemma_pow2_adds((m - 1) as nat, k as nat);
            assert(pow2((m - 1) as nat) * pow2(k as nat) == pow2(383));
            assert((pow2((m - 1) as nat) * bit + low) * pow2(k as nat)
                == pow2((m - 1) as nat) * pow2(k as nat) * bit + low * pow2(k as nat))
                by (nonlinear_arith);
            assert(low * pow2(k as nat) < pow2((m - 1) as nat) * pow2(k as nat)) by {
                lemma_mul_strict_inequality(low, pow2((m - 1) as nat) as int, pow2(k as nat) as int);
            }
            assert(low * pow2(k as nat) >= 0) by (nonlinear_arith)
                requires low >= 0;
            // val3(x) == pow2(383) * bit + low * pow2(k), with the tail below pow2(383)
            assert(val3(x2, x1, x0) == pow2(383) * bit + low * pow2(k as nat));
            lemma_val3_range(x2, x1, x0);
            // prefix halving: n / 2^(m-1) == 2 * (n / 2^m) + bit
            lemma_div_denominator(n_val, pow2((m - 1) as nat) as int, 2);
            lemma_fundamental_div_mod(n_val / pow2((m - 1) as nat) as int, 2);
        }
        let top: bool = x2 >= P127;
        proof {
            assert(top <==> bit == 1);
        }
        let c1: bool = x1 >= P127;
        let c0: bool = x0 >= P127;
        let nx2: u128 = (if top { x2 - P127 } else { x2 }) * 2 + (if c1 { 1 } else { 0 });
        let nx1: u128 = (if c1 { x1 - P127 } else { x1 }) * 2 + (if c0 { 1 } else { 0 });
        let nx0: u128 = (if c0 { x0 - P127 } else { x0 }) * 2;
        proof {
            let b: int = if top { 1 } else { 0 };
            let e1: int = if c1 { 1 } else { 0 };
            let e0: int = if c0 { 1 } else { 0 };
            assert(nx2 == 2 * x2 - b * p128() + e1);
            assert(nx1 == 2 * x1 - e1 * p128() + e0);
            assert(nx0 == 2 * x0 - e0 * p128());
            assert(nx2 * p256() == (2 * x2 - b * p128() + e1) * p256()
                && nx1 * p128() == (2 * x1 - e1 * p128() + e0) * p128()) by (nonlinear_arith)
                requires
                    nx2 == 2 * x2 - b * p128() + e1,
                    nx1 == 2 * x1 - e1 * p128() + e0;
            assert((2 * x2 - b * p128() + e1) * p256() + (2 * x1 - e1 * p128() + e0) * p128()
                + (2 * x0 - e0 * p128())
                == 2 * (x2 * p256() + x1 * p128() + x0) - b * (p128() * p256())) by (nonlinear_arith);
            assert(p128() * p256() == p384()) by (nonlinear_arith);
            assert(val3(nx2, nx1, nx0) == 2 * val3(x2, x1, x0) - b * p384());
            assert(b == bit);
            let pk: int = pow2(k as nat) as int;
            assert(2 * (pow2(383) * bit + low * pk) - bit * pow2(384) == low * (2 * pk))
                by (nonlinear_arith)
                requires 2 * (pow2(383) as int) == pow2(384) as int;
            lemma_pow2_adds(k as nat, 1);
            assert(pow2((k + 1) as nat) == 2 * pk);
            assert(val3(nx2, nx1, nx0) == low * pow2((k + 1) as nat));
        }
        // one restoring step on the remainder
        let bit_u: u128 = if top { 1 } else { 0 };
        let nrem: u128;
        let qbit: u128;
        if rem >= P127 {
            // 2 * rem + bit overflows the limb, so it certainly reaches d
            let t: u128 = (rem - P127) * 2 + bit_u;
            nrem = t + ((u128::MAX - d) + 1);
            qbit = 1;
        } else {
            let t: u128 = rem * 2 + bit_u;
            if t >= d {
                nrem = t - d;
                qbit = 1;
            } else {
                nrem = t;
                qbit = 0;
            }
        }
        proof {
            assert(nrem == 2 * rem + bit - qbit * d);
            assert(0 <= nrem < d);
            // the quotient so far fits in 383 bits, so shifting loses nothing
            assert(val3(q2, q1, q0) <= val3(q2, q1, q0) * d) by (nonlinear_arith)
                requires d >= 1 && val3(q2, q1, q0) >= 0;
            lemma_multiply_divide_lt(n_val, 2, pow2(383) as int);
            lemma_div_is_ordered_by_denominator(n_val, 2, pow2(m) as int);
            assert(val3(q2, q1, q0) < pow2(383));
            lemma_val3_range(q2, q1, q0);
            assert(q2 < P127);
        }
        let d1: bool = q1 >= P127;
        let d0: bool = q0 >= P127;
        let nq2: u128 = q2 * 2 + (if d1 { 1 } else { 0 });
        let nq1: u128 = (if d1 { q1 - P127 } else { q1 }) * 2 + (if d0 { 1 } else { 0 });
        let nq0: u128 = (if d0 { q0 - P127 } else { q0 }) * 2 + qbit;
        proof {
            assert(val3(nq2, nq1, nq0) == 2 * val3(q2, q1, q0) + qbit);
            // the invariant at k + 1
            let qv = val3(q2, q1, q0);
            assert((2 * qv + qbit) * d + (2 * rem + bit - qbit * d)
                == 2 * (qv * d + rem) + bit) by (nonlinear_arith);
            assert(val3(nq2, nq1, nq0) * d + nrem == 2 * prefix + bit);
            assert(2 * prefix + bit == n_val / (pow2((m - 1) as nat) as int));
        }
        x2 = nx2;
        x1 = nx1;
        x0 = nx0;
        q2 = nq2;
        q1 = nq1;
        q0 = nq0;
        rem = nrem;
        k = k + 1;
        proof {
            assert((384 - k) as nat == (m - 1) as nat);
            assert(pow2(((k - 1) + 1) as nat) == pow2(k as nat));
        }
    }
    proof {
        lemma_p_pow2();
        assert(val3(q2, q1, q0) * d + rem == n_val / 1);
        assert(n_val / 1 == n_val) by {
            lemma_fundamental_div_mod(n_val, 1);
            lemma_small_mod(0nat, 1nat);
            assert(n_val % 1 == 0) by {
                lemma_mod_division_less_than_divisor(n_val, 1);
            }
        }
        lemma_fundamental_div_mod_converse(n_val, d as int, val3(q2, q1, q0), rem as int);
    }
    (q2, q1, q0, rem)
}

/// Two-limb comparison.
pub fn le2(ah: u128, al: u128, bh: u128, bl: u128) -> (r: bool)
    ensures
        r <==> val2(ah, al) <= val2(bh, bl),
{
    proof {
        if ah < bh {
            lemma_mul_inequality(ah as int + 1, bh as int, p128());
        }
        if bh < ah {
            lemma_mul_inequality(bh as int + 1, ah as int, p128());
        }
    }
    if ah < bh {
        true
    } else if ah == bh {
        al <= bl
    } else {
        false
    }
}

/// Two-limb addition with an explicit carry limb.
pub fn add2_carry(ah: u128, al: u128, bh: u128, bl: u128) -> (r: (u128, u128, u128))
    ensures
        val3(r.0, r.1, r.2) == val2(ah, al) + val2(bh, bl),
        r.0 <= 1,
{
    let (l, c0) = add_carry(al, bl);
    let (t, c1) = add_carry(ah, bh);
    let (h, c2) = add_carry(t, c0);
    (c1 + c2, h, l)
}

/// Product of a two-limb value by a single limb, as three limbs.
pub fn mul_3limb(hi: u128, lo: u128, m: u128) -> (r: (u128, u128, u128))
    ensures
        val3(r.0, r.1, r.2) == val2(hi, lo) * m,
{
    let (l1, l0) = mul_wide(lo, m);
    let (h2, h1) = mul_wide(hi, m);
    proof {
        lemma_mul_upper_bound(hi as int, p128() - 1, m as int, p128() - 1);
        // the high limb of hi * m leaves room for the carry
        if h2 >= p128() - 1 {
            lemma_mul_inequality(p128() - 1, h2 as int, p128());
            assert(false);
        }
    }
    let (s1, c) = add_carry(l1, h1);
    let r2 = h2 + c;
    proof {
        assert((hi * p128() + lo) * m == (hi * m) * p128() + lo * m) by (nonlinear_arith);
        assert((h2 * p128() + h1) * p128() == h2 * (p128() * p128()) + h1 * p128())
            by (nonlinear_arith);
        assert(val3(r2, s1, l0) == val2(hi, lo) * m);
    }
    (r2, s1, l0)
}

/// `a * b / d` with the product held in full width; `None` when the
/// quotient itself does not fit a limb.
pub fn mul_div(a: u128, b: u128, d: u128) -> (r: Option<u128>)
    requires
        d > 0,
    ensures
        match r {
            Some(v) => v == a * b / (d as int),
            None => a * b / (d as int) >= p128(),
        },
{
    let (hi, lo) = mul_wide(a, b);
    let (q2, q1, q0, _rem) = div_rem_3limb(0, hi, lo, d);
    if q2 == 0 && q1 == 0 {
        Some(q0)
    } else {
        proof {
            if q2 >= 1 {
                lemma_mul_inequality(1, q2 as int, p256());
            }
            if q1 >= 1 {
                lemma_mul_inequality(1, q1 as int, p128());
            }
            lemma_mul_nonnegative(q2 as int, p256());
            lemma_mul_nonnegative(q1 as int, p128());
        }
        None
    }
}

/// Floored integer square root of a two-limb value.
pub fn isqrt2(n_hi: u128, n_lo: u128) -> (r: u128)
    ensures
        r * r <= val2(n_hi, n_lo),
        val2(n_hi, n_lo) < (r + 1) * (r + 1),
{
    let ghost n: int = val2(n_hi, n_lo);
    let mut s: u128 = 0;
    let ghost mut a: int = 0;
    let mut p: u128 = P127;
    let mut i: usize = 0;
    proof {
        lemma_p_pow2();
        lemma_mul_inequality(n_hi as int, p128() - 1, p128());
        lemma_mul_nonnegative(n_hi as int, p128());
        assert((0 + pow2(128)) * (0 + pow2(128)) == p256()) by (nonlinear_arith)
            requires pow2(128) == p128();
    }
    while i < 128
        invariant
            i <= 128,
            n == val2(n_hi, n_lo),
            0 <= n < p256(),
            i < 128 ==> p == pow2((127 - i) as nat),
            s == a * (pow2((128 - i) as nat) as int),
            0 <= a < pow2(i as nat),
            s * s <= n,
            n < (s + pow2((128 - i) as nat)) * (s + pow2((128 - i) as nat)),
        decreases 128 - i,
    {
        let ghost w: nat = (127 - i) as nat;  // weight of the bit being tried
        let ghost pw: int = pow2(w) as int;
        proof {
            lemma_p_pow2();
            lemma_pow2_pos(w);
            lemma_pow2_pos(i as nat);
            lemma_pow2_adds(w, 1);
            assert(pow2((128 - i) as nat) == 2 * pw);
            lemma_pow2_adds(i as nat, w);
            assert(pow2(i as nat) * pw == pow2(127));
            // the candidate s + 2^w stays within a limb
            assert(s + pw == (2 * a + 1) * pw) by (nonlinear_arith)
                requires s == a * (2 * pw);
            lemma_mul_inequality(2 * a + 1, 2 * pow2(i as nat) - 1, pw);
            assert((2 * pow2(i as nat) - 1) * pw == 2 * (pow2(i as nat) * pw) - pw)
                by (nonlinear_arith);
            assert(s + pw <= 2 * pow2(127) - pw);
        }
        let t: u128 = s + p;
        let (sq_hi, sq_lo) = mul_wide(t, t);
        let fits: bool = le2(sq_hi, sq_lo, n_hi, n_lo);
        proof {
            assert(fits <==> t * t <= n);
        }
        if fits {
            s = t;
            proof {
                a = 2 * a + 1;
                assert(s == a * pw) by (nonlinear_arith)
                    requires s == (a - 1) / 2 * (2 * pw) + pw && a % 2 == 1;
            }
        } else {
            proof {
                a = 2 * a;
                assert(s == a * pw) by (nonlinear_arith)
                    requires s == a / 2 * (2 * pw) && a % 2 == 0;
            }
        }
        proof {
            // bit budget for the next round
            lemma_pow2_adds(i as nat, 1);
            assert(a < pow2((i + 1) as nat));
            // the upper bound carries over to the refined window
            if fits {
                assert(n < (s + pw) * (s + pw));
            } else {
                assert(n < (s + pw) * (s + pw));
            }
        }
        i = i + 1;
        if i < 128 {
            p = p / 2;
            proof {
                lemma_pow2_adds((127 - i) as nat, 1);
                lemma_p_pow2();
                assert(pow2(((127 - i) + 1) as nat) == 2 * pow2((127 - i) as nat));
                assert(p == pow2((127 - i) as nat));
            }
        }
        proof {
            assert((128 - i) as nat == w);
            assert(s == a * (pow2((128 - i) as nat) as int));
            assert(n < (s + pow2((128 - i) as nat)) * (s + pow2((128 - i) as nat)));
        }
    }
    proof {
        lemma_p_pow2();
        assert(pow2((128 - 128) as nat) == 1);
        assert(n < (s + 1) * (s + 1));
    }
    s
}

} // verus!
