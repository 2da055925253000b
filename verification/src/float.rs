//! IEEE-754 binary64 semantics on bit patterns: the few operations that validation
//! needs (classification, comparison, integrality, integer-to-float rounding).
use vstd::prelude::*;
use vstd::arithmetic::power2::{pow2, lemma2_to64, lemma2_to64_rest, lemma_pow2_adds, lemma_pow2_unfold, lemma_pow2_strictly_increases, lemma_pow2_pos};
use vstd::arithmetic::mul::lemma_mul_strict_inequality;
use vstd::arithmetic::div_mod::lemma_multiply_divide_lt;

verus! {

pub open spec fn two52() -> int {
    0x10_0000_0000_0000
}

pub open spec fn two63() -> int {
    0x8000_0000_0000_0000
}

/// Sign bit.
pub open spec fn f64_sign(b: u64) -> bool {
    b as int >= two63()
}

/// Biased exponent field.
pub open spec fn f64_exp(b: u64) -> int {
    (b as int % two63()) / two52()
}

/// Fraction field.
pub open spec fn f64_frac(b: u64) -> int {
    b as int % two52()
}

/// Magnitude bits (everything but the sign); orders non-negative floats.
pub open spec fn f64_mag(b: u64) -> int {
    b as int % two63()
}

pub open spec fn f64_is_nan(b: u64) -> bool {
    f64_exp(b) == 2047 && f64_frac(b) != 0
}

/// Neither infinite nor NaN (what `f64::is_finite` tests).
pub open spec fn f64_is_finite(b: u64) -> bool {
    f64_exp(b) != 2047
}

/// A key that orders non-NaN floats as the reals they denote (`-0` and `+0` share 0).
pub open spec fn f64_key(b: u64) -> int {
    if f64_sign(b) {
        -f64_mag(b)
    } else {
        f64_mag(b)
    }
}

/// `a < b` on floats: false whenever either is NaN.
pub open spec fn f64_lt(a: u64, b: u64) -> bool {
    !f64_is_nan(a) && !f64_is_nan(b) && f64_key(a) < f64_key(b)
}

/// `a == b` on floats: NaN equals nothing, `-0 == +0`.
pub open spec fn f64_eq(a: u64, b: u64) -> bool {
    !f64_is_nan(a) && !f64_is_nan(b) && f64_key(a) == f64_key(b)
}

/// Whether the low `k` bits of `m` are all zero.
pub open spec fn low_bits_zero(m: int, k: nat) -> bool
    decreases k,
{
    if k == 0 {
        true
    } else {
        m % 2 == 0 && low_bits_zero(m / 2, (k - 1) as nat)
    }
}

/// Whether the float has no fractional part (`x.fract() == 0.0`): a finite zero, or a
/// finite number of magnitude at least one whose fraction bits below the binary point
/// are all zero.
pub open spec fn f64_is_integral(b: u64) -> bool {
    f64_is_finite(b) && (f64_mag(b) == 0 || (f64_exp(b) >= 1023 && (f64_exp(b) >= 1075
        || low_bits_zero(f64_frac(b), (1075 - f64_exp(b)) as nat))))
}

pub fn is_finite(b: u64) -> (r: bool)
    ensures
        r == f64_is_finite(b),
{
    (b % 0x8000_0000_0000_0000) / 0x10_0000_0000_0000 != 2047
}

pub fn is_nan(b: u64) -> (r: bool)
    ensures
        r == f64_is_nan(b),
{
    (b % 0x8000_0000_0000_0000) / 0x10_0000_0000_0000 == 2047 && b % 0x10_0000_0000_0000 != 0
}

fn key(b: u64) -> (r: i128)
    ensures
        r == f64_key(b),
{
    let mag = (b % 0x8000_0000_0000_0000) as i128;
    if b >= 0x8000_0000_0000_0000 {
        -mag
    } else {
        mag
    }
}

/// `a < b` on floats.
pub fn lt(a: u64, b: u64) -> (r: bool)
    ensures
        r == f64_lt(a, b),
{
    !is_nan(a) && !is_nan(b) && key(a) < key(b)
}

/// `a == b` on floats.
pub fn eq(a: u64, b: u64) -> (r: bool)
    ensures
        r == f64_eq(a, b),
{
    !is_nan(a) && !is_nan(b) && key(a) == key(b)
}

/// Whether `x.fract() == 0.0`.
pub fn is_integral(b: u64) -> (r: bool)
    ensures
        r == f64_is_integral(b),
{
    if !is_finite(b) {
        return false;
    }
    let mag = b % 0x8000_0000_0000_0000;
    if mag == 0 {
        return true;
    }
    let e = mag / 0x10_0000_0000_0000;
    if e < 1023 {
        return false;
    }
    if e >= 1075 {
        return true;
    }
    let k = 1075 - e;
    let mut m = b % 0x10_0000_0000_0000;
    let mut j: u64 = 0;
    proof {
        assert(f64_frac(b) == m);
        assert(f64_exp(b) == e);
        assert(f64_mag(b) == mag);
        assert(f64_is_integral(b) == low_bits_zero(m as int, k as nat));
    }
    while j < k
        invariant
            j <= k,
            f64_is_integral(b) == low_bits_zero(m as int, (k - j) as nat),
        decreases k - j,
    {
        if m % 2 != 0 {
            assert(!low_bits_zero(m as int, (k - j) as nat));
            return false;
        }
        assert(low_bits_zero(m as int, (k - j) as nat) == low_bits_zero((m / 2) as int, (k - j - 1) as nat));
        m = m / 2;
        j += 1;
    }
    true
}

// ---------------------------------------------------------------------------
// Integer to float, rounding to nearest with ties to even
// ---------------------------------------------------------------------------

/// Number of binary digits of `m` (0 for 0).
pub open spec fn bitlen(m: nat) -> nat
    decreases m,
{
    if m == 0 {
        0
    } else {
        1 + bitlen(m / 2)
    }
}

/// The 53-bit significand a non-zero magnitude `m` rounds to, scaled by `2^(bitlen(m) - 53)`
/// when `m` needs more than 53 bits: the quotient rounded to nearest, ties to even.
/// It may reach `2^53`, which then carries into the exponent.
pub open spec fn rounded_significand(m: nat) -> nat {
    let k = bitlen(m);
    if k <= 53 {
        m * pow2((53 - k) as nat)
    } else {
        let s = (k - 53) as nat;
        let q = m / pow2(s);
        let r = m % pow2(s);
        let half = pow2(s) / 2;
        if r > half || (r == half && q % 2 == 1) {
            q + 1
        } else {
            q
        }
    }
}

/// Bit pattern of the float nearest to the natural number `m` (ties to even).
pub open spec fn mag_to_f64_bits(m: nat) -> int {
    if m == 0 {
        0
    } else {
        (1021 + bitlen(m)) * two52() + rounded_significand(m)
    }
}

/// Bit pattern of `n as f64` for an integer `n` with `|n| <= 2^128`.
pub open spec fn int_to_f64_bits(n: int) -> u64 {
    if n < 0 {
        (two63() + mag_to_f64_bits((-n) as nat)) as u64
    } else {
        mag_to_f64_bits(n as nat) as u64
    }
}

proof fn lemma_big_powers()
    ensures
        pow2(52) == 0x10_0000_0000_0000,
        pow2(53) == 0x20_0000_0000_0000,
        pow2(127) == 0x8000_0000_0000_0000_0000_0000_0000_0000,
        pow2(128) == 0x1_0000_0000_0000_0000_0000_0000_0000_0000,
{
    lemma2_to64();
    lemma2_to64_rest();
    lemma_pow2_adds(63, 64);
    lemma_pow2_adds(64, 64);
}

proof fn lemma_bitlen_bound(m: nat, j: nat)
    requires
        m < pow2(j),
    ensures
        bitlen(m) <= j,
    decreases j,
{
    if m > 0 {
        if j == 0 {
            lemma2_to64();
        } else {
            lemma_pow2_unfold(j);
            lemma_bitlen_bound(m / 2, (j - 1) as nat);
        }
    }
}

proof fn lemma_bitlen_range(m: nat)
    requires
        m > 0,
    ensures
        bitlen(m) >= 1,
        pow2((bitlen(m) - 1) as nat) <= m < pow2(bitlen(m)),
    decreases m,
{
    lemma2_to64();
    assert(bitlen(m) == 1 + bitlen(m / 2));
    if m / 2 > 0 {
        lemma_bitlen_range(m / 2);
        lemma_pow2_unfold(bitlen(m));
        lemma_pow2_unfold((bitlen(m) - 1) as nat);
    }
}

fn pow2_exec(k: u32) -> (r: u128)
    requires
        k <= 127,
    ensures
        r == pow2(k as nat),
{
    proof {
        lemma2_to64();
        lemma_big_powers();
    }
    let mut p: u128 = 1;
    let mut j: u32 = 0;
    while j < k
        invariant
            j <= k <= 127,
            p == pow2(j as nat),
            pow2(127) == 0x8000_0000_0000_0000_0000_0000_0000_0000,
        decreases k - j,
    {
        proof {
            lemma_pow2_unfold((j + 1) as nat);
            if j + 1 < 127 {
                lemma_pow2_strictly_increases((j + 1) as nat, 127);
            }
        }
        p = p * 2;
        j += 1;
    }
    p
}

fn bit_length(m: u128) -> (r: u32)
    ensures
        r == bitlen(m as nat),
        r <= 128,
{
    proof {
        lemma_big_powers();
        lemma_bitlen_bound(m as nat, 128);
    }
    let mut cur = m;
    let mut n: u32 = 0;
    while cur > 0
        invariant
            bitlen(m as nat) == n + bitlen(cur as nat),
            bitlen(m as nat) <= 128,
        decreases cur,
    {
        cur = cur / 2;
        n += 1;
    }
    n
}

/// Bit pattern of the float nearest to `m` (ties to even), as `m as f64` computes.
pub fn u128_to_f64_bits(m: u128) -> (r: u64)
    ensures
        r == mag_to_f64_bits(m as nat),
        r < two63(),
{
    if m == 0 {
        return 0;
    }
    let k = bit_length(m);
    proof {
        lemma_big_powers();
        lemma_bitlen_range(m as nat);
    }
    let sig: u128 = if k <= 53 {
        let p = pow2_exec(53 - k);
        proof {
            lemma_pow2_adds(k as nat, (53 - k) as nat);
            lemma_pow2_pos((53 - k) as nat);
            lemma_mul_strict_inequality(m as int, pow2(k as nat) as int, p as int);
        }
        m * p
    } else {
        let s = k - 53;
        let p = pow2_exec(s);
        proof {
            lemma_pow2_adds(53, s as nat);
            lemma_pow2_unfold(s as nat);
            lemma_pow2_pos((s - 1) as nat);
            lemma_multiply_divide_lt(m as int, p as int, pow2(53) as int);
        }
        let q = m / p;
        let r = m % p;
        let half = p / 2;
        if r > half || (r == half && q % 2 == 1) {
            q + 1
        } else {
            q
        }
    };
    assert(sig <= 0x20_0000_0000_0000);
    let wide: u128 = (1021 + k as u128) * 0x10_0000_0000_0000 + sig;
    wide as u64
}

/// Bit pattern of `n as f64`.
pub fn i128_to_f64_bits(n: i128) -> (r: u64)
    ensures
        r == int_to_f64_bits(n as int),
{
    if n < 0 {
        let m: u128 = if n == i128::MIN {
            0x8000_0000_0000_0000_0000_0000_0000_0000u128
        } else {
            (-n) as u128
        };
        let b = u128_to_f64_bits(m);
        0x8000_0000_0000_0000u64 + b
    } else {
        u128_to_f64_bits(n as u128)
    }
}

} // verus!
