use vstd::prelude::*;
use vstd::arithmetic::mul::{lemma_mul_inequality, lemma_mul_nonnegative};
use vstd::arithmetic::power2::{lemma_pow2_adds, lemma_pow2_pos, pow2};

use crate::errors::Error;
use crate::wide::{p128, p256};

verus! {

// Chain reads return untyped 32-byte words. Each field is decoded by an
// explicit, named function documenting the exact byte layout and width
// it expects; nothing is inferred from a conversion trait.

/// The big-endian unsigned integer held by a byte sequence.
pub open spec fn be_uint(s: Seq<u8>) -> int
    decreases s.len(),
{
    if s.len() == 0 {
        0
    } else {
        be_uint(s.drop_last()) * 256 + s.last()
    }
}

/// The big-endian two's-complement integer held by a 32-byte word.
pub open spec fn be_int256(s: Seq<u8>) -> int {
    if s[0] >= 0x80 {
        be_uint(s) - p256()
    } else {
        be_uint(s)
    }
}

/// A big-endian integer lies below 2^(8 len), and is non-negative.
pub proof fn lemma_be_uint_bound(s: Seq<u8>)
    ensures
        0 <= be_uint(s) < pow2((8 * s.len()) as nat),
    decreases s.len(),
{
    if s.len() == 0 {
        vstd::arithmetic::power2::lemma2_to64();
    } else {
        lemma_be_uint_bound(s.drop_last());
        lemma_pow2_adds((8 * (s.len() - 1)) as nat, 8);
        vstd::arithmetic::power2::lemma2_to64();
        let h: int = be_uint(s.drop_last());
        let w: int = pow2((8 * (s.len() - 1)) as nat) as int;
        assert(h * 256 + s.last() < w * 256) by (nonlinear_arith)
            requires 0 <= h < w && s.last() < 256;
        lemma_mul_nonnegative(h, 256);
    }
}

/// Splitting a byte sequence splits its integer: the prefix is scaled by
/// the width of the suffix.
pub proof fn lemma_be_uint_split(s: Seq<u8>, k: int)
    requires
        0 <= k <= s.len(),
    ensures
        be_uint(s) == be_uint(s.subrange(0, k)) * (pow2((8 * (s.len() - k)) as nat) as int)
            + be_uint(s.subrange(k, s.len() as int)),
    decreases s.len() - k,
{
    vstd::arithmetic::power2::lemma2_to64();
    if k == s.len() {
        assert(s.subrange(0, k) =~= s);
        assert(s.subrange(k, s.len() as int) =~= Seq::<u8>::empty());
        assert(be_uint(s) == be_uint(s.subrange(0, k)) * (pow2((8 * (s.len() - k)) as nat) as int)
            + be_uint(s.subrange(k, s.len() as int))) by (nonlinear_arith)
            requires
                be_uint(s.subrange(0, k)) == be_uint(s),
                be_uint(s.subrange(k, s.len() as int)) == 0,
                pow2((8 * (s.len() - k)) as nat) == 1;
    } else {
        lemma_be_uint_split(s.drop_last(), k);
        assert(s.drop_last().subrange(0, k) =~= s.subrange(0, k));
        assert(s.drop_last().subrange(k, s.len() - 1) =~= s.subrange(k, s.len() as int).drop_last());
        assert(s.subrange(k, s.len() as int).last() == s.last());
        lemma_pow2_adds((8 * (s.len() - 1 - k)) as nat, 8);
        let a: int = be_uint(s.subrange(0, k));
        let b: int = be_uint(s.drop_last().subrange(k, s.len() - 1));
        let w: int = pow2((8 * (s.len() - 1 - k)) as nat) as int;
        assert((a * w + b) * 256 + s.last() == a * (w * 256) + (b * 256 + s.last()))
            by (nonlinear_arith);
        assert(be_uint(s.drop_last()) == a * w + b);
        assert(be_uint(s) == (a * w + b) * 256 + s.last());
        assert(pow2(8) == 256);
        assert((pow2((8 * (s.len() - k)) as nat) as int) == w * 256) by {
            assert((8 * (s.len() - k)) as nat == (8 * (s.len() - 1 - k)) as nat + 8);
        }
        assert(be_uint(s.subrange(k, s.len() as int)) == b * 256 + s.last());
        assert(be_uint(s) == a * (pow2((8 * (s.len() - k)) as nat) as int) + be_uint(
            s.subrange(k, s.len() as int))) by (nonlinear_arith)
            requires
                be_uint(s) == a * (w * 256) + be_uint(s.subrange(k, s.len() as int)),
                (pow2((8 * (s.len() - k)) as nat) as int) == w * 256;
    }
}

/// A run of zero bytes holds the integer zero.
pub proof fn lemma_be_uint_zero(s: Seq<u8>)
    requires
        forall|i: int| 0 <= i < s.len() ==> s[i] == 0u8,
    ensures
        be_uint(s) == 0,
    decreases s.len(),
{
    if s.len() > 0 {
        lemma_be_uint_zero(s.drop_last());
    }
}

/// Decode a 32-byte big-endian word into a limb. The word is rejected as
/// `ArithmeticOverflow` when its value needs more than 128 bits, and as
/// `DataUnavailable` when it is not 32 bytes at all.
pub fn decode_uint256(bytes: &Vec<u8>) -> (r: Result<u128, Error>)
    ensures
        match r {
            Ok(v) => bytes@.len() == 32 && be_uint(bytes@) < p128() && v == be_uint(bytes@),
            Err(Error::DataUnavailable) => bytes@.len() != 32,
            Err(Error::ArithmeticOverflow) => bytes@.len() == 32 && be_uint(bytes@) >= p128(),
            Err(_) => false,
        },
{
    if bytes.len() != 32 {
        return Err(Error::DataUnavailable);
    }
    proof {
        assert(bytes@.subrange(0, 32) =~= bytes@);
    }
    decode_word(bytes, 0)
}

/// Decode the 32-byte big-endian word starting at `from` into a limb,
/// rejecting a value that needs more than 128 bits.
pub fn decode_word(bytes: &Vec<u8>, from: usize) -> (r: Result<u128, Error>)
    requires
        from + 32 <= bytes@.len(),
    ensures
        ({
            let w = bytes@.subrange(from as int, from + 32);
            match r {
                Ok(v) => be_uint(w) < p128() && v == be_uint(w),
                Err(Error::ArithmeticOverflow) => be_uint(w) >= p128(),
                Err(_) => false,
            }
        }),
{
    let ghost w: Seq<u8> = bytes@.subrange(from as int, from + 32);
    let blen: usize = bytes.len();
    let mut i: usize = 0;
    while i < 16
        invariant
            i <= 16,
            from + 32 <= blen,
            blen == bytes@.len(),
            w == bytes@.subrange(from as int, from + 32),
            forall|j: int| 0 <= j < i ==> w[j] == 0u8,
        decreases 16 - i,
    {
        proof {
            assert(w[i as int] == bytes@[from + i]);
        }
        if bytes[from + i] != 0 {
            proof {
                lemma_be_uint_split(w, 16);
                lemma_be_uint_bound(w.subrange(0, 16));
                lemma_be_uint_bound(w.subrange(16, 32));
                lemma_high_byte_forces_high_word(w, i as int);
            }
            return Err(Error::ArithmeticOverflow);
        }
        i = i + 1;
    }
    proof {
        lemma_be_uint_split(w, 16);
        lemma_be_uint_zero(w.subrange(0, 16));
        lemma_be_uint_bound(w.subrange(16, 32));
        lemma_pow2_16_bytes();
        assert(w.subrange(16, 32) =~= bytes@.subrange(from + 16, from + 16 + 16));
    }
    Ok(decode_low_word(bytes, from + 16))
}

/// 2^(8*16) is the limb bound.
proof fn lemma_pow2_16_bytes()
    ensures
        pow2(128) == p128(),
        pow2(256) == p256(),
{
    crate::wide::lemma_wide_pow2();
}

/// A non-zero byte anywhere in the high half pushes the word beyond a
/// limb.
proof fn lemma_high_byte_forces_high_word(s: Seq<u8>, i: int)
    requires
        s.len() == 32,
        0 <= i < 16,
        s[i] != 0,
        be_uint(s) == be_uint(s.subrange(0, 16)) * (pow2(128) as int) + be_uint(
            s.subrange(16, 32),
        ),
        0 <= be_uint(s.subrange(0, 16)),
        0 <= be_uint(s.subrange(16, 32)),
    ensures
        be_uint(s) >= p128(),
{
    lemma_pow2_16_bytes();
    let hi = s.subrange(0, 16);
    if be_uint(hi) == 0 {
        lemma_be_uint_all_zero_converse(hi);
        assert(hi[i] == s[i]);
        assert(false);
    }
    lemma_mul_inequality(1, be_uint(hi), pow2(128) as int);
}

/// Conversely, a zero integer means every byte is zero.
proof fn lemma_be_uint_all_zero_converse(s: Seq<u8>)
    requires
        be_uint(s) == 0,
    ensures
        forall|i: int| 0 <= i < s.len() ==> s[i] == 0u8,
    decreases s.len(),
{
    if s.len() > 0 {
        lemma_be_uint_bound(s.drop_last());
        lemma_mul_nonnegative(be_uint(s.drop_last()), 256);
        assert(be_uint(s.drop_last()) * 256 == 0);
        assert(be_uint(s.drop_last()) == 0) by (nonlinear_arith)
            requires be_uint(s.drop_last()) * 256 == 0;
        lemma_be_uint_all_zero_converse(s.drop_last());
        assert(forall|i: int| 0 <= i < s.len() ==> s[i] == if i < s.len() - 1 {
            s.drop_last()[i]
        } else {
            s.last()
        });
    }
}

/// Read the 16-byte big-endian word starting at `from` into a limb.
fn decode_low_word(bytes: &Vec<u8>, from: usize) -> (v: u128)
    requires
        from + 16 <= bytes@.len(),
    ensures
        v == be_uint(bytes@.subrange(from as int, from + 16)),
{
    let ghost window: Seq<u8> = bytes@.subrange(from as int, from + 16);
    let blen: usize = bytes.len();
    let mut acc: u128 = 0;
    let mut i: usize = 0;
    proof {
        vstd::arithmetic::power2::lemma2_to64();
        assert(window.subrange(0, 0) =~= Seq::<u8>::empty());
    }
    while i < 16
        invariant
            i <= 16,
            from + 16 <= blen,
            blen == bytes@.len(),
            window == bytes@.subrange(from as int, from + 16),
            acc == be_uint(window.subrange(0, i as int)),
            acc < pow2((8 * i) as nat),
        decreases 16 - i,
    {
        proof {
            lemma_pow2_pos((8 * i) as nat);
            lemma_pow2_adds((8 * i) as nat, 8);
            vstd::arithmetic::power2::lemma2_to64();
            lemma_pow2_16_bytes();
            if 8 * i + 8 < 128 {
                vstd::arithmetic::power2::lemma_pow2_strictly_increases((8 * i + 8) as nat, 128);
            }
            let w: int = pow2((8 * i) as nat) as int;
            assert(acc * 256 + 256 <= w * 256) by (nonlinear_arith)
                requires 0 <= acc < w;
            assert(window.subrange(0, i + 1).drop_last() =~= window.subrange(0, i as int));
            assert(window.subrange(0, i + 1).last() == window[i as int]);
            assert(window[i as int] == bytes@[from + i]);
        }
        acc = acc * 256 + (bytes[from + i] as u128);
        i = i + 1;
    }
    proof {
        assert(window.subrange(0, 16) =~= window);
    }
    acc
}


/// A run of 0xFF bytes holds the all-ones integer.
proof fn lemma_be_uint_ones(s: Seq<u8>)
    requires
        forall|i: int| 0 <= i < s.len() ==> s[i] == 0xFFu8,
    ensures
        be_uint(s) == pow2((8 * s.len()) as nat) - 1,
    decreases s.len(),
{
    vstd::arithmetic::power2::lemma2_to64();
    if s.len() > 0 {
        lemma_be_uint_ones(s.drop_last());
        lemma_pow2_adds((8 * (s.len() - 1)) as nat, 8);
        let w: int = pow2((8 * (s.len() - 1)) as nat) as int;
        assert((w - 1) * 256 + 255 == w * 256 - 1) by (nonlinear_arith);
    }
}

/// A byte below 0xFF anywhere keeps the integer below all-ones.
proof fn lemma_be_uint_below_ones(s: Seq<u8>, i: int)
    requires
        0 <= i < s.len(),
        s[i] != 0xFFu8,
    ensures
        be_uint(s) < pow2((8 * s.len()) as nat) - 1,
    decreases s.len(),
{
    vstd::arithmetic::power2::lemma2_to64();
    lemma_pow2_adds((8 * (s.len() - 1)) as nat, 8);
    let w: int = pow2((8 * (s.len() - 1)) as nat) as int;
    lemma_be_uint_bound(s.drop_last());
    if i == s.len() - 1 {
        assert(be_uint(s.drop_last()) * 256 <= (w - 1) * 256) by (nonlinear_arith)
            requires be_uint(s.drop_last()) <= w - 1;
    } else {
        lemma_be_uint_below_ones(s.drop_last(), i);
        assert(be_uint(s.drop_last()) * 256 <= (w - 2) * 256) by (nonlinear_arith)
            requires be_uint(s.drop_last()) <= w - 2;
    }
}

/// Decode a 32-byte big-endian two's-complement word, rejecting a value
/// outside the signed 128-bit range.
pub fn decode_int256(bytes: &Vec<u8>) -> (r: Result<i128, Error>)
    ensures
        match r {
            Ok(v) => bytes@.len() == 32 && -(P127int()) <= be_int256(bytes@) < P127int() && v
                == be_int256(bytes@),
            Err(Error::DataUnavailable) => bytes@.len() != 32,
            Err(Error::ArithmeticOverflow) => bytes@.len() == 32 && (be_int256(bytes@) < -(
            P127int()) || be_int256(bytes@) >= P127int()),
            Err(_) => false,
        },
{
    if bytes.len() != 32 {
        return Err(Error::DataUnavailable);
    }
    let negative: bool = bytes[0] >= 0x80;
    let mut i: usize = 0;
    while i < 16
        invariant
            i <= 16,
            bytes@.len() == 32,
            negative <==> bytes@[0] >= 0x80,
            forall|j: int|
                0 <= j < i ==> bytes@[j] == if negative {
                    0xFFu8
                } else {
                    0u8
                },
        decreases 16 - i,
    {
        let expected: u8 = if negative {
            0xFF
        } else {
            0
        };
        if bytes[i] != expected {
            proof {
                let hi = bytes@.subrange(0, 16);
                lemma_be_uint_split(bytes@, 16);
                lemma_be_uint_bound(hi);
                lemma_be_uint_bound(bytes@.subrange(16, 32));
                lemma_pow2_16_bytes();
                if negative {
                    lemma_be_uint_below_ones(hi, i as int);
                    assert(be_uint(hi) * (pow2(128) as int) <= (p128() - 2) * p128())
                        by (nonlinear_arith)
                        requires be_uint(hi) <= p128() - 2 && pow2(128) == p128();
                } else {
                    lemma_high_byte_forces_high_word(bytes@, i as int);
                }
            }
            return Err(Error::ArithmeticOverflow);
        }
        i = i + 1;
    }
    let lo: u128 = decode_low_word(bytes, 16);
    proof {
        let hi = bytes@.subrange(0, 16);
        lemma_be_uint_split(bytes@, 16);
        lemma_be_uint_bound(hi);
        lemma_be_uint_bound(bytes@.subrange(16, 32));
        lemma_pow2_16_bytes();
        if negative {
            lemma_be_uint_ones(hi);
            assert((p128() - 1) * p128() == p256() - p128()) by (nonlinear_arith);
        } else {
            lemma_be_uint_zero(hi);
        }
    }
    proof {
        assert(lo == be_uint(bytes@.subrange(16, 32)));
        if negative {
            assert(be_uint(bytes@) == p256() - p128() + lo);
            assert(be_int256(bytes@) == lo - p128());
        } else {
            assert(be_uint(bytes@) == 0 * (pow2(128) as int) + lo);
            assert(be_int256(bytes@) == lo as int);
        }
    }
    if negative {
        if lo < crate::wide::P127 {
            return Err(Error::ArithmeticOverflow);
        }
        if lo == crate::wide::P127 {
            Ok(i128::MIN)
        } else {
            let magnitude: u128 = (u128::MAX - lo) + 1;
            Ok(-(magnitude as i128))
        }
    } else {
        if lo >= crate::wide::P127 {
            return Err(Error::ArithmeticOverflow);
        }
        Ok(lo as i128)
    }
}

/// 2^127 as a spec-level integer: the signed limb bound.
#[verifier::inline]
pub open spec fn P127int() -> int {
    0x8000_0000_0000_0000_0000_0000_0000_0000
}

/// Whether a byte string is the ABI encoding of a single dynamic array
/// of 32-byte words: a head word holding the offset 32, a length word,
/// and that many element words.
pub open spec fn uint_array_wellformed(s: Seq<u8>) -> bool {
    &&& s.len() >= 64
    &&& be_uint(s.subrange(0, 32)) == 32
    &&& 64 + 32 * be_uint(s.subrange(32, 64)) <= s.len()
}

/// The element count of an encoded word array.
pub open spec fn uint_array_count(s: Seq<u8>) -> int {
    be_uint(s.subrange(32, 64))
}

/// The i-th element word of an encoded word array.
pub open spec fn uint_array_elem(s: Seq<u8>, i: int) -> int {
    be_uint(s.subrange(64 + 32 * i, 96 + 32 * i))
}

/// Decode the ABI encoding of a `uint256[]`: offset word, length word,
/// then the elements, each of which must fit a limb.
pub fn decode_uint_array(bytes: &Vec<u8>) -> (r: Result<Vec<u128>, Error>)
    ensures
        match r {
            Ok(v) => {
                &&& uint_array_wellformed(bytes@)
                &&& v@.len() == uint_array_count(bytes@)
                &&& forall|i: int|
                    0 <= i < v@.len() ==> uint_array_elem(bytes@, i) < p128() && v@[i]
                        == uint_array_elem(bytes@, i)
            },
            Err(Error::DataUnavailable) => !uint_array_wellformed(bytes@),
            Err(Error::ArithmeticOverflow) => uint_array_wellformed(bytes@) && exists|i: int|
                0 <= i < uint_array_count(bytes@) && uint_array_elem(bytes@, i) >= p128(),
            Err(_) => false,
        },
{
    let blen: usize = bytes.len();
    if blen < 64 {
        return Err(Error::DataUnavailable);
    }
    let head: u128 = match decode_word(bytes, 0) {
        Ok(v) => v,
        Err(_) => {
            return Err(Error::DataUnavailable);
        },
    };
    if head != 32 {
        return Err(Error::DataUnavailable);
    }
    let count: u128 = match decode_word(bytes, 32) {
        Ok(v) => v,
        Err(_) => {
            proof {
                lemma_pow2_16_bytes();
            }
            return Err(Error::DataUnavailable);
        },
    };
    if count > ((blen - 64) / 32) as u128 {
        proof {
            if 64 + 32 * (count as int) <= blen {
                vstd::arithmetic::div_mod::lemma_div_is_ordered(
                    32 * (count as int),
                    blen - 64,
                    32,
                );
                vstd::arithmetic::div_mod::lemma_div_by_multiple(count as int, 32);
                assert(32 * (count as int) == (count as int) * 32) by (nonlinear_arith);
            }
        }
        return Err(Error::DataUnavailable);
    }
    let n: usize = count as usize;
    proof {
        vstd::arithmetic::div_mod::lemma_div_by_multiple((blen - 64) as int / 32, 32);
        vstd::arithmetic::div_mod::lemma_fundamental_div_mod((blen - 64) as int, 32);
        assert((count as int) * 32 <= ((blen - 64) as int / 32) * 32) by (nonlinear_arith)
            requires count as int <= (blen - 64) as int / 32;
        assert(64 + 32 * (count as int) <= blen) by (nonlinear_arith)
            requires
                (count as int) * 32 <= ((blen - 64) as int / 32) * 32,
                ((blen - 64) as int / 32) * 32 <= (blen - 64) as int;
        assert(uint_array_wellformed(bytes@));
    }
    let mut out: Vec<u128> = Vec::new();
    let mut i: usize = 0;
    while i < n
        invariant
            i <= n,
            n == uint_array_count(bytes@),
            64 + 32 * n <= blen,
            blen == bytes@.len(),
            uint_array_wellformed(bytes@),
            out@.len() == i,
            forall|j: int|
                0 <= j < i ==> uint_array_elem(bytes@, j) < p128() && out@[j] == uint_array_elem(
                    bytes@,
                    j,
                ),
        decreases n - i,
    {
        proof {
            assert(32 * (i as int) <= 32 * (n as int)) by (nonlinear_arith)
                requires i as int <= n as int;
        }
        let elem: u128 = match decode_word(bytes, 64 + 32 * i) {
            Ok(v) => v,
            Err(_) => {
                proof {
                    assert(uint_array_elem(bytes@, i as int) >= p128());
                }
                return Err(Error::ArithmeticOverflow);
            },
        };
        out.push(elem);
        i = i + 1;
    }
    Ok(out)
}

} // verus!
