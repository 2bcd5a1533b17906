//! Fixed-point scalar arithmetic.
//!
//! A scalar is an `i64` holding its value times [`SCALE`], so one simulation
//! unit is `SCALE` raw steps and all the engine's rate constants (a damping
//! of 0.99, a restitution of 0.9) are exact.  Multiplication and division
//! round toward zero; [`tdiv`] is the mathematical statement of that
//! rounding, and every executable operation here is proved to compute its
//! `tdiv`/[`sqrt_floor`] model exactly.

use vstd::prelude::*;

verus! {

/// Raw steps per simulation unit.
pub const SCALE: i64 = 1000;

/// Absolute value of a mathematical integer.
pub open spec fn iabs(p: int) -> int {
    if p >= 0 {
        p
    } else {
        -p
    }
}

/// Division rounding toward zero, the rounding of all fixed-point
/// operations (`/` on `int` rounds toward negative infinity instead).
pub open spec fn tdiv(p: int, d: int) -> int
    recommends
        d != 0,
{
    if (p >= 0) == (d >= 0) {
        iabs(p) / iabs(d)
    } else {
        -(iabs(p) / iabs(d))
    }
}

/// Product of two fixed-point scalars: `a * b / SCALE`, truncated.
pub open spec fn fxmul(a: int, b: int) -> int {
    tdiv(a * b, SCALE as int)
}

/// Quotient of two fixed-point scalars: `a * SCALE / b`, truncated.
pub open spec fn fxdiv(a: int, b: int) -> int
    recommends
        b != 0,
{
    tdiv(a * (SCALE as int), b)
}

/// `r` is the floor of the square root of `n`.
pub open spec fn is_isqrt(n: int, r: int) -> bool {
    &&& 0 <= r
    &&& r * r <= n
    &&& n < (r + 1) * (r + 1)
}

/// Floor of the square root of a nonnegative integer.
pub open spec fn sqrt_floor(n: int) -> int {
    choose|r: int| is_isqrt(n, r)
}

/// Ceiling of the square root of a nonnegative integer: the floor root,
/// plus one when `n` is not a perfect square.
pub open spec fn sqrt_ceil(n: int) -> int {
    if sqrt_floor(n) * sqrt_floor(n) == n {
        sqrt_floor(n)
    } else {
        sqrt_floor(n) + 1
    }
}

/// The floor square root is unique.
pub proof fn lemma_isqrt_unique(n: int, r1: int, r2: int)
    requires
        is_isqrt(n, r1),
        is_isqrt(n, r2),
    ensures
        r1 == r2,
{
    assert(r1 == r2) by (nonlinear_arith)
        requires
            0 <= r1,
            r1 * r1 <= n,
            n < (r1 + 1) * (r1 + 1),
            0 <= r2,
            r2 * r2 <= n,
            n < (r2 + 1) * (r2 + 1),
    ;
}

/// Any witness of `is_isqrt` is the value of `sqrt_floor`.
pub proof fn lemma_sqrt_floor_is(n: int, r: int)
    requires
        is_isqrt(n, r),
    ensures
        sqrt_floor(n) == r,
{
    let picked = choose|q: int| is_isqrt(n, q);
    assert(is_isqrt(n, r));
    lemma_isqrt_unique(n, picked, r);
}

/// The magnitude of a truncated quotient, times the divisor, is at most the
/// magnitude of the dividend; so the quotient's magnitude never exceeds the
/// dividend's.
pub proof fn lemma_tdiv_bound(p: int, d: int)
    requires
        d >= 1,
    ensures
        iabs(tdiv(p, d)) * d <= iabs(p),
        iabs(tdiv(p, d)) <= iabs(p),
{
    let m = iabs(p);
    vstd::arithmetic::div_mod::lemma_fundamental_div_mod(m, d);
    vstd::arithmetic::div_mod::lemma_div_pos_is_pos(m, d);
    assert(m % d >= 0) by {
        vstd::arithmetic::div_mod::lemma_remainder_lower(m, d);
    }
    assert((m / d) * d <= m);
    assert(iabs(tdiv(p, d)) == m / d);
    lemma_mul_le(1, d, m / d);
    assert((m / d) * 1 == m / d);
    assert(m / d <= (m / d) * d);
}

/// Truncated division by a divisor of at least `SCALE * iabs(b)` leaves a
/// quotient of magnitude at most `iabs(a)` — the form in which callers of
/// `fxmul` bound their results.
pub proof fn lemma_fxmul_bound(a: int, b: int, m: int)
    requires
        iabs(a) <= m,
    ensures
        iabs(fxmul(a, b)) * (SCALE as int) <= m * iabs(b),
{
    lemma_tdiv_bound(a * b, SCALE as int);
    assert(iabs(a * b) == iabs(a) * iabs(b)) by (nonlinear_arith);
    assert(iabs(a) * iabs(b) <= m * iabs(b)) by (nonlinear_arith)
        requires
            iabs(a) <= m,
            iabs(b) >= 0,
    ;
}

/// Multiplication by a nonnegative factor is monotone.
pub proof fn lemma_mul_le(a: int, b: int, c: int)
    requires
        a <= b,
        0 <= c,
    ensures
        a * c <= b * c,
        c * a <= c * b,
{
    assert(a * c <= b * c && c * a <= c * b) by (nonlinear_arith)
        requires
            a <= b,
            0 <= c,
    ;
}

/// Magnitudes and signs of a product follow from its factors'.
pub proof fn lemma_mul_signs(a: int, b: int)
    ensures
        iabs(a * b) == iabs(a) * iabs(b),
        a >= 0 && b >= 0 ==> a * b >= 0,
        a <= 0 && b <= 0 ==> a * b >= 0,
        a >= 0 && b <= 0 ==> a * b <= 0,
        a <= 0 && b >= 0 ==> a * b <= 0,
{
    if a >= 0 {
        if b >= 0 {
            assert(a * b >= 0) by (nonlinear_arith)
                requires
                    a >= 0,
                    b >= 0,
            ;
        } else {
            assert(a * b <= 0 && a * b == -(a * (-b)) && a * (-b) >= 0) by (nonlinear_arith)
                requires
                    a >= 0,
                    b < 0,
            ;
        }
    } else {
        if b >= 0 {
            assert(a * b <= 0 && a * b == -((-a) * b) && (-a) * b >= 0) by (nonlinear_arith)
                requires
                    a < 0,
                    b >= 0,
            ;
        } else {
            assert(a * b >= 0 && a * b == (-a) * (-b)) by (nonlinear_arith)
                requires
                    a < 0,
                    b < 0,
            ;
        }
    }
}

/// Executable floor square root, by bisection.
pub fn isqrt(n: u128) -> (r: u64)
    requires
        n < 0x4000_0000_0000_0000_0000_0000_0000_0000u128,
    ensures
        is_isqrt(n as int, r as int),
        r as int == sqrt_floor(n as int),
{
    let mut lo: u64 = 0;
    let mut hi: u64 = 0x8000_0000_0000_0000;
    proof {
        assert((hi as int) * (hi as int) > n as int);
    }
    while lo + 1 < hi
        invariant
            0 <= lo < hi <= 0x8000_0000_0000_0000u64,
            (lo as int) * (lo as int) <= n as int,
            (n as int) < (hi as int) * (hi as int),
        decreases hi - lo,
    {
        let mid: u64 = lo + (hi - lo) / 2;
        proof {
            assert((mid as int) * (mid as int) < 0x1_0000_0000_0000_0000_0000_0000_0000_0000)
                by (nonlinear_arith)
                requires
                    mid <= 0x8000_0000_0000_0000u64,
            ;
        }
        let sq: u128 = (mid as u128) * (mid as u128);
        if sq <= n {
            lo = mid;
        } else {
            hi = mid;
        }
    }
    proof {
        assert(hi == lo + 1);
        lemma_sqrt_floor_is(n as int, lo as int);
    }
    lo
}

/// Magnitude of an `i64` that is not `i64::MIN`, as a `u64`.
pub fn abs_i64(a: i64) -> (r: u64)
    requires
        a != i64::MIN,
    ensures
        r as int == iabs(a as int),
{
    if a < 0 {
        (-a) as u64
    } else {
        a as u64
    }
}

/// Fixed-point product `a * b / SCALE`, rounded toward zero.
pub fn mul_fx(a: i64, b: i64) -> (r: i64)
    requires
        a != i64::MIN,
        b != i64::MIN,
        iabs(fxmul(a as int, b as int)) <= i64::MAX as int,
    ensures
        r as int == fxmul(a as int, b as int),
{
    let ma = abs_i64(a);
    let mb = abs_i64(b);
    proof {
        assert((ma as int) * (mb as int) < 0x1_0000_0000_0000_0000_0000_0000_0000_0000)
            by (nonlinear_arith)
            requires
                ma < 0x8000_0000_0000_0000u64,
                mb < 0x8000_0000_0000_0000u64,
        ;
    }
    let prod: u128 = (ma as u128) * (mb as u128);
    let q: u128 = prod / 1000;
    proof {
        lemma_mul_signs(a as int, b as int);
        assert(q as int == iabs((a as int) * (b as int)) / (SCALE as int));
        assert(iabs(fxmul(a as int, b as int)) == q as int);
    }
    if (a < 0) != (b < 0) {
        -(q as i64)
    } else {
        q as i64
    }
}

/// Fixed-point quotient `a * SCALE / b`, rounded toward zero.
pub fn div_fx(a: i64, b: i64) -> (r: i64)
    requires
        a != i64::MIN,
        b != i64::MIN,
        b != 0,
        iabs(fxdiv(a as int, b as int)) <= i64::MAX as int,
    ensures
        r as int == fxdiv(a as int, b as int),
{
    let ma = abs_i64(a);
    let mb = abs_i64(b);
    let prod: u128 = (ma as u128) * 1000;
    let q: u128 = prod / (mb as u128);
    proof {
        lemma_mul_signs(a as int, SCALE as int);
        assert(q as int == iabs((a as int) * (SCALE as int)) / iabs(b as int));
        assert(iabs(fxdiv(a as int, b as int)) == q as int);
    }
    if (a < 0) != (b < 0) {
        -(q as i64)
    } else {
        q as i64
    }
}

} // verus!
