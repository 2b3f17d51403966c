//! Fixed-point scalar arithmetic.
//!
//! A scalar is a signed 64-bit integer holding a real value scaled by
//! `FX_ONE` (16 fractional bits): the raw value `65536` stands for `1.0`.
//! Multiplication and division round toward zero, exactly like the
//! machine's signed integer division.

use vstd::prelude::*;

verus! {

/// Scale of the fixed-point representation: `FX_ONE` raw units are one.
pub const FX_ONE: i64 = 65536;

/// Truncating (round-toward-zero) integer division, the semantics of the
/// machine's signed division, for any nonzero divisor.
pub open spec fn tdiv(n: int, d: int) -> int
    recommends
        d != 0,
{
    if n >= 0 {
        n / d
    } else {
        -((-n) / d)
    }
}

/// The raw value of a fixed-point product: the wide integer product,
/// scaled back down with truncation.
pub open spec fn fxm(a: int, b: int) -> int {
    tdiv(a * b, 65536)
}

/// The raw value of a fixed-point quotient.
pub open spec fn fxd(a: int, b: int) -> int
    recommends
        b != 0,
{
    tdiv(a * 65536, b)
}

/// `r` is the floor of the square root of `n`.
pub open spec fn is_sqrt(n: int, r: int) -> bool {
    0 <= r && r * r <= n && n < (r + 1) * (r + 1)
}

/// The floor of the square root of a nonnegative integer.
pub open spec fn sqrt_floor(n: int) -> int {
    choose|r: int| is_sqrt(n, r)
}

/// The raw value of the fixed-point square root of `a`: square roots
/// scale by the square root of the scale, so the raw result is the
/// integer square root of `a * FX_ONE`.
pub open spec fn fxsqrt(a: int) -> int {
    sqrt_floor(a * 65536)
}

/// Bounds on products: magnitudes multiply.
pub proof fn lemma_mul_bounds(a: int, b: int, aa: int, bb: int)
    by (nonlinear_arith)
    requires
        -aa <= a <= aa,
        -bb <= b <= bb,
        0 <= aa,
        0 <= bb,
    ensures
        -(aa * bb) <= a * b <= aa * bb,
{
}

/// Truncating division by a positive divisor shrinks magnitudes.
pub proof fn lemma_tdiv_bound(n: int, p: int, d: int)
    by (nonlinear_arith)
    requires
        d > 0,
        0 <= p,
        -p <= n <= p,
    ensures
        -(p / d) <= tdiv(n, d) <= p / d,
        -p <= tdiv(n, d) <= p,
{
}

/// A fixed-point product of bounded factors is bounded.
pub proof fn lemma_fxm_bound(a: int, b: int, aa: int, bb: int)
    requires
        -aa <= a <= aa,
        -bb <= b <= bb,
        0 <= aa,
        0 <= bb,
    ensures
        -(aa * bb) <= fxm(a, b) <= aa * bb,
        -((aa * bb) / 65536) <= fxm(a, b) <= (aa * bb) / 65536,
{
    lemma_mul_bounds(a, b, aa, bb);
    lemma_tdiv_bound(a * b, aa * bb, 65536);
}

/// Fixed-point multiplication.
pub fn fx_mul(a: i64, b: i64) -> (r: i64)
    requires
        i64::MIN <= fxm(a as int, b as int) <= i64::MAX,
    ensures
        r as int == fxm(a as int, b as int),
{
    proof {
        lemma_mul_bounds(a as int, b as int, 0x8000_0000_0000_0000, 0x8000_0000_0000_0000);
    }
    let p: i128 = (a as i128) * (b as i128);
    (p / (FX_ONE as i128)) as i64
}

/// Fixed-point division.
pub fn fx_div(a: i64, b: i64) -> (r: i64)
    requires
        b != 0,
        i64::MIN <= fxd(a as int, b as int) <= i64::MAX,
    ensures
        r as int == fxd(a as int, b as int),
{
    let n: i128 = (a as i128) * (FX_ONE as i128);
    (n / (b as i128)) as i64
}

/// Fixed-point square root of a nonnegative scalar, rounded down.
pub fn fx_sqrt(a: i64) -> (r: i64)
    requires
        0 <= a,
    ensures
        r as int == fxsqrt(a as int),
        is_sqrt(a as int * 65536, r as int),
        0 <= r,
{
    let n: u128 = (a as u128) * 65536;
    let mut lo: u128 = 0;
    let mut hi: u128 = 0x100_0000_0000;
    proof {
        assert(n < 0x100_0000_0000 * 0x100_0000_0000) by (nonlinear_arith)
            requires n < 0x8000_0000_0000_0000u128 * 65536
        {
        }
    }
    while lo + 1 < hi
        invariant
            lo < hi,
            hi <= 0x100_0000_0000,
            lo * lo <= n,
            n < hi * hi,
            n == a as int * 65536,
        decreases hi - lo,
    {
        let mid = lo + (hi - lo) / 2;
        proof {
            assert(mid * mid <= 0x100_0000_0000u128 * 0x100_0000_0000u128) by (nonlinear_arith)
                requires mid <= 0x100_0000_0000u128
            {
            }
        }
        if mid * mid <= n {
            lo = mid;
        } else {
            hi = mid;
        }
    }
    proof {
        assert(is_sqrt(n as int, lo as int));
        lemma_sqrt_unique(n as int, lo as int);
    }
    lo as i64
}

/// The floor of a square root is unique.
pub proof fn lemma_sqrt_unique(n: int, r: int)
    requires
        is_sqrt(n, r),
    ensures
        sqrt_floor(n) == r,
{
    assert(exists|x: int| is_sqrt(n, x));
    let r2 = sqrt_floor(n);
    assert(is_sqrt(n, r2));
    assert(r == r2) by (nonlinear_arith)
        requires is_sqrt(n, r), is_sqrt(n, r2)
    {
    }
}

/// Truncating division undoes an exact scaling.
pub proof fn lemma_tdiv_exact(k: int)
    ensures
        tdiv(k * 65536, 65536) == k,
{
    if k >= 0 {
        vstd::arithmetic::div_mod::lemma_div_multiples_vanish(k, 65536);
    } else {
        vstd::arithmetic::div_mod::lemma_div_multiples_vanish(-k, 65536);
        assert(-(k * 65536) == (-k) * 65536) by (nonlinear_arith);
    }
}

/// Truncating division by the scale loses less than one scale unit.
pub proof fn lemma_tdiv_close(x: int)
    ensures
        -65536 < x - 65536 * tdiv(x, 65536) < 65536,
{
    if x >= 0 {
        vstd::arithmetic::div_mod::lemma_fundamental_div_mod(x, 65536);
    } else {
        vstd::arithmetic::div_mod::lemma_fundamental_div_mod(-x, 65536);
    }
}

/// The smaller of two scalars.
pub fn fx_min(a: i64, b: i64) -> (r: i64)
    ensures
        r == if a as int <= b as int { a } else { b },
{
    if a <= b {
        a
    } else {
        b
    }
}

} // verus!
