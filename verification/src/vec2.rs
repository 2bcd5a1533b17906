//! 2D vectors over fixed-point scalars.
//!
//! `Vec2` is the executable type; its mathematical view is [`V2`], a pair of
//! unbounded integers, and every operation is proved equal to a spec
//! function over `V2`.  A vector of length `SCALE` is a unit vector.

use crate::fx::{
    div_fx, fxdiv, fxmul, iabs, is_isqrt, isqrt, lemma_fxmul_bound, lemma_mul_signs,
    lemma_sqrt_floor_is, lemma_tdiv_bound, mul_fx, sqrt_floor, tdiv, SCALE,
};
use vstd::prelude::*;

verus! {

/// Largest magnitude an operand component may have; keeps every
/// intermediate product inside 128 bits and every sum inside `i64`.
pub const FXMAX: i64 = 0x3fff_ffff_ffff_ffff;

/// Largest magnitude a `length2` operand component may have.
pub const L2MAX: i64 = 0x8_0000_0000;

#[derive(Clone, Copy, PartialEq, Eq, Structural, Debug)]
pub struct Vec2 {
    pub x: i64,
    pub y: i64,
}

/// Mathematical view of a vector: unbounded integer components, still in
/// fixed-point scale.
#[verifier::ext_equal]
pub ghost struct V2 {
    pub x: int,
    pub y: int,
}

impl View for Vec2 {
    type V = V2;

    open spec fn view(&self) -> V2 {
        V2 { x: self.x as int, y: self.y as int }
    }
}

/// Both components have magnitude at most `m`.
pub open spec fn v2_in(v: V2, m: int) -> bool {
    iabs(v.x) <= m && iabs(v.y) <= m
}

pub open spec fn spec_add(a: V2, b: V2) -> V2 {
    V2 { x: a.x + b.x, y: a.y + b.y }
}

pub open spec fn spec_sub(a: V2, b: V2) -> V2 {
    V2 { x: a.x - b.x, y: a.y - b.y }
}

pub open spec fn spec_scale(a: V2, k: int) -> V2 {
    V2 { x: fxmul(a.x, k), y: fxmul(a.y, k) }
}

pub open spec fn spec_divs(a: V2, k: int) -> V2
    recommends
        k != 0,
{
    V2 { x: fxdiv(a.x, k), y: fxdiv(a.y, k) }
}

pub open spec fn spec_neg(a: V2) -> V2 {
    V2 { x: -a.x, y: -a.y }
}

/// Squared length in raw steps: because components carry a factor of
/// `SCALE`, this is the fixed-point length squared times `SCALE`, and its
/// floor square root is exactly the fixed-point length.
pub open spec fn len2_raw(v: V2) -> int {
    v.x * v.x + v.y * v.y
}

/// Fixed-point length: floor square root of the raw squared length.
pub open spec fn vlen(v: V2) -> int {
    sqrt_floor(len2_raw(v))
}

/// Fixed-point squared length, as `length2` returns it.
pub open spec fn spec_len2(v: V2) -> int {
    tdiv(len2_raw(v), SCALE as int)
}

pub open spec fn spec_dot(a: V2, b: V2) -> int {
    tdiv(a.x * b.x + a.y * b.y, SCALE as int)
}

/// Unit vector in the direction of `v`; meaningful only for `vlen(v) != 0`.
pub open spec fn spec_normalize(v: V2) -> V2
    recommends
        vlen(v) != 0,
{
    spec_divs(v, vlen(v))
}

/// `normalizeOr`: the unit vector of `v`, or `b` when `v` has length zero.
pub open spec fn spec_normalize_or(v: V2, b: V2) -> V2 {
    if vlen(v) == 0 {
        b
    } else {
        spec_normalize(v)
    }
}

pub open spec fn spec_zero() -> V2 {
    V2 { x: 0, y: 0 }
}

/// A floor square root exists for every nonnegative integer.
pub proof fn lemma_sqrt_exists(n: int)
    requires
        n >= 0,
    ensures
        is_isqrt(n, sqrt_floor(n)),
    decreases n,
{
    if n == 0 {
        assert(is_isqrt(0, 0));
        lemma_sqrt_floor_is(0, 0);
    } else {
        lemma_sqrt_exists(n - 1);
        let r = sqrt_floor(n - 1);
        assert(is_isqrt(n - 1, r));
        if n < (r + 1) * (r + 1) {
            assert(is_isqrt(n, r));
            lemma_sqrt_floor_is(n, r);
        } else {
            assert(n == (r + 1) * (r + 1));
            assert((r + 1 + 1) * (r + 1 + 1) > n) by (nonlinear_arith)
                requires
                    n == (r + 1) * (r + 1),
                    r >= 0,
            ;
            assert(is_isqrt(n, r + 1));
            lemma_sqrt_floor_is(n, r + 1);
        }
    }
}

/// Basic facts about a vector's fixed-point length: it is a floor square
/// root, it dominates each component's magnitude, and it is zero exactly on
/// the zero vector.
pub proof fn lemma_vlen(v: V2)
    ensures
        is_isqrt(len2_raw(v), vlen(v)),
        vlen(v) >= iabs(v.x),
        vlen(v) >= iabs(v.y),
        vlen(v) <= iabs(v.x) + iabs(v.y),
        vlen(v) == 0 <==> v == spec_zero(),
{
    lemma_mul_signs(v.x, v.x);
    lemma_mul_signs(v.y, v.y);
    assert(len2_raw(v) >= 0);
    lemma_sqrt_exists(len2_raw(v));
    let l = vlen(v);
    let n = len2_raw(v);
    assert(l >= iabs(v.x)) by (nonlinear_arith)
        requires
            0 <= l,
            l * l <= n,
            n < (l + 1) * (l + 1),
            n >= iabs(v.x) * iabs(v.x),
            iabs(v.x) >= 0,
    ;
    assert(l >= iabs(v.y)) by (nonlinear_arith)
        requires
            0 <= l,
            l * l <= n,
            n < (l + 1) * (l + 1),
            n >= iabs(v.y) * iabs(v.y),
            iabs(v.y) >= 0,
    ;
    let s = iabs(v.x) + iabs(v.y);
    assert(l <= s) by (nonlinear_arith)
        requires
            0 <= l,
            l * l <= n,
            n == v.x * v.x + v.y * v.y,
            s == iabs(v.x) + iabs(v.y),
            iabs(v.x) >= 0,
            iabs(v.y) >= 0,
            iabs(v.x) * iabs(v.x) == v.x * v.x,
            iabs(v.y) * iabs(v.y) == v.y * v.y,
    ;
    if v.x == 0 && v.y == 0 {
        assert(n == 0);
        assert(l == 0) by (nonlinear_arith)
            requires
                0 <= l,
                l * l <= 0,
        ;
        assert(v == spec_zero());
    }
}

#[allow(non_snake_case)]
pub fn Vec2(x: i64, y: i64) -> (r: Vec2)
    ensures
        r@ == (V2 { x: x as int, y: y as int }),
{
    Vec2 { x, y }
}

impl Vec2 {
    /// The zero vector.
    pub fn zero() -> (r: Vec2)
        ensures
            r@ == spec_zero(),
    {
        Vec2 { x: 0, y: 0 }
    }

    pub fn add(self, rhs: Vec2) -> (r: Vec2)
        requires
            v2_in(self@, FXMAX as int),
            v2_in(rhs@, FXMAX as int),
        ensures
            r@ == spec_add(self@, rhs@),
    {
        Vec2 { x: self.x + rhs.x, y: self.y + rhs.y }
    }

    pub fn sub(self, rhs: Vec2) -> (r: Vec2)
        requires
            v2_in(self@, FXMAX as int),
            v2_in(rhs@, FXMAX as int),
        ensures
            r@ == spec_sub(self@, rhs@),
    {
        Vec2 { x: self.x - rhs.x, y: self.y - rhs.y }
    }

    /// Scale by a fixed-point scalar.
    pub fn mul(self, k: i64) -> (r: Vec2)
        requires
            v2_in(self@, FXMAX as int),
            iabs(k as int) <= FXMAX as int,
            iabs(fxmul(self@.x, k as int)) <= i64::MAX as int,
            iabs(fxmul(self@.y, k as int)) <= i64::MAX as int,
        ensures
            r@ == spec_scale(self@, k as int),
            iabs(r@.x) * (SCALE as int) <= iabs(self@.x) * iabs(k as int),
            iabs(r@.y) * (SCALE as int) <= iabs(self@.y) * iabs(k as int),
    {
        proof {
            lemma_fxmul_bound(self@.x, k as int, iabs(self@.x));
            lemma_fxmul_bound(self@.y, k as int, iabs(self@.y));
        }
        Vec2 { x: mul_fx(self.x, k), y: mul_fx(self.y, k) }
    }

    /// Divide by a fixed-point scalar.
    pub fn div(self, k: i64) -> (r: Vec2)
        requires
            v2_in(self@, FXMAX as int),
            k != 0,
            iabs(k as int) <= FXMAX as int,
            iabs(fxdiv(self@.x, k as int)) <= i64::MAX as int,
            iabs(fxdiv(self@.y, k as int)) <= i64::MAX as int,
        ensures
            r@ == spec_divs(self@, k as int),
    {
        Vec2 { x: div_fx(self.x, k), y: div_fx(self.y, k) }
    }

    pub fn neg(self) -> (r: Vec2)
        requires
            v2_in(self@, FXMAX as int),
        ensures
            r@ == spec_neg(self@),
    {
        Vec2 { x: -self.x, y: -self.y }
    }

    /// Fixed-point length.
    pub fn length(self) -> (r: i64)
        requires
            v2_in(self@, FXMAX as int),
        ensures
            r as int == vlen(self@),
            r >= 0,
            is_isqrt(len2_raw(self@), r as int),
    {
        let ma = crate::fx::abs_i64(self.x);
        let mb = crate::fx::abs_i64(self.y);
        proof {
            assert((ma as int) * (ma as int) + (mb as int) * (mb as int)
                < 0x4000_0000_0000_0000_0000_0000_0000_0000) by (nonlinear_arith)
                requires
                    0 <= ma as int <= FXMAX as int,
                    0 <= mb as int <= FXMAX as int,
            ;
            lemma_mul_signs(self@.x, self@.x);
            lemma_mul_signs(self@.y, self@.y);
        }
        let n: u128 = (ma as u128) * (ma as u128) + (mb as u128) * (mb as u128);
        let r = isqrt(n);
        proof {
            assert(n as int == len2_raw(self@));
            assert(r as int <= 0x8000_0000_0000_0000) by (nonlinear_arith)
                requires
                    is_isqrt(n as int, r as int),
                    (n as int) < 0x4000_0000_0000_0000_0000_0000_0000_0000,
            ;
            assert(r < 0x8000_0000_0000_0000u64) by (nonlinear_arith)
                requires
                    is_isqrt(n as int, r as int),
                    (n as int) < 0x4000_0000_0000_0000_0000_0000_0000_0000,
            ;
        }
        r as i64
    }

    /// Fixed-point squared length.
    pub fn length2(self) -> (r: i64)
        requires
            v2_in(self@, L2MAX as int),
        ensures
            r as int == spec_len2(self@),
            r >= 0,
    {
        let ma = crate::fx::abs_i64(self.x);
        let mb = crate::fx::abs_i64(self.y);
        proof {
            assert((ma as int) * (ma as int) + (mb as int) * (mb as int)
                <= 0x100_0000_0000_0000_0000) by (nonlinear_arith)
                requires
                    0 <= ma as int <= L2MAX as int,
                    0 <= mb as int <= L2MAX as int,
            ;
            lemma_mul_signs(self@.x, self@.x);
            lemma_mul_signs(self@.y, self@.y);
        }
        let n: u128 = (ma as u128) * (ma as u128) + (mb as u128) * (mb as u128);
        let q: u128 = n / 1000;
        proof {
            assert(n as int == len2_raw(self@));
            assert(q as int == tdiv(len2_raw(self@), SCALE as int));
        }
        q as i64
    }

    /// Unit vector in this direction; the zero vector is excluded by the
    /// caller, who must use `normalizeOr` when zero is possible.
    pub fn normalize(self) -> (r: Vec2)
        requires
            v2_in(self@, FXMAX as int),
            self@ != spec_zero(),
        ensures
            r@ == spec_normalize(self@),
            v2_in(r@, SCALE as int),
    {
        proof {
            lemma_vlen(self@);
        }
        let len = self.length();
        proof {
            lemma_div_by_len_bounds(self@.x, len as int);
            lemma_div_by_len_bounds(self@.y, len as int);
        }
        Vec2 { x: div_fx(self.x, len), y: div_fx(self.y, len) }
    }

    /// `normalizeOr`: the unit vector of this vector, or `b` when the
    /// length is zero.
    #[allow(non_snake_case)]
    pub fn normalizeOr(self, b: Vec2) -> (r: Vec2)
        requires
            v2_in(self@, FXMAX as int),
        ensures
            r@ == spec_normalize_or(self@, b@),
            self@ != spec_zero() ==> v2_in(r@, SCALE as int),
    {
        proof {
            lemma_vlen(self@);
        }
        let len = self.length();
        if len == 0 {
            b
        } else {
            proof {
                lemma_div_by_len_bounds(self@.x, len as int);
                lemma_div_by_len_bounds(self@.y, len as int);
            }
            Vec2 { x: div_fx(self.x, len), y: div_fx(self.y, len) }
        }
    }

    /// `normalizeOr` with the zero vector as the fallback.
    #[allow(non_snake_case)]
    pub fn normalizeOrZero(self) -> (r: Vec2)
        requires
            v2_in(self@, FXMAX as int),
        ensures
            r@ == spec_normalize_or(self@, spec_zero()),
            v2_in(r@, SCALE as int),
    {
        self.normalizeOr(Vec2 { x: 0, y: 0 })
    }

    /// Fixed-point dot product.
    pub fn dot(self, b: Vec2) -> (r: i64)
        requires
            v2_in(self@, FXMAX as int),
            v2_in(b@, FXMAX as int),
            iabs(spec_dot(self@, b@)) <= i64::MAX as int,
        ensures
            r as int == spec_dot(self@, b@),
            iabs(r as int) * (SCALE as int) <= iabs(self@.x) * iabs(b@.x) + iabs(self@.y) * iabs(
                b@.y,
            ),
    {
        proof {
            assert(iabs((self@.x) * (b@.x)) < 0x4000_0000_0000_0000_0000_0000_0000_0000
                && iabs((self@.y) * (b@.y)) < 0x4000_0000_0000_0000_0000_0000_0000_0000)
                by (nonlinear_arith)
                requires
                    v2_in(self@, FXMAX as int),
                    v2_in(b@, FXMAX as int),
            ;
        }
        let p: i128 = (self.x as i128) * (b.x as i128) + (self.y as i128) * (b.y as i128);
        proof {
            let s = (self@.x) * (b@.x) + (self@.y) * (b@.y);
            assert(p as int == s);
            lemma_tdiv_bound(s, SCALE as int);
            lemma_mul_signs(self@.x, b@.x);
            lemma_mul_signs(self@.y, b@.y);
        }
        if p >= 0 {
            let q: u128 = (p as u128) / 1000;
            q as i64
        } else {
            let q: u128 = ((-p) as u128) / 1000;
            -(q as i64)
        }
    }

    /// The right-hand perpendicular.
    #[allow(non_snake_case)]
    pub fn normalRight(self) -> (r: Vec2)
        requires
            v2_in(self@, FXMAX as int),
        ensures
            r@ == (V2 { x: -self@.y, y: self@.x }),
    {
        Vec2 { x: -self.y, y: self.x }
    }

    /// The left-hand perpendicular.
    #[allow(non_snake_case)]
    pub fn normalLeft(self) -> (r: Vec2)
        requires
            v2_in(self@, FXMAX as int),
        ensures
            r@ == (V2 { x: self@.y, y: -self@.x }),
    {
        Vec2 { x: self.y, y: -self.x }
    }
}

/// LAW — the zero vector normalizes to its fallback: `normalizeOr` on the
/// zero vector returns the fallback unchanged, for every fallback,
/// including the zero vector itself.
pub proof fn lemma_normalize_or_on_zero(b: V2)
    ensures
        spec_normalize_or(spec_zero(), b) == b,
{
    lemma_vlen(spec_zero());
}

/// A nonnegative dividend sits between its rounded-down multiple of the
/// divisor and one divisor more.
proof fn proof_div_bracket(x: int, d: int)
    requires
        0 <= x,
        1 <= d,
    ensures
        x / d >= 0,
        x / d * d <= x,
        x < x / d * d + d,
{
    vstd::arithmetic::div_mod::lemma_div_pos_is_pos(x, d);
    vstd::arithmetic::div_mod::lemma_remainder(x, d);
}

/// LAW — normalization yields a unit vector: for any vector of length at
/// least one unit (`SCALE` raw steps), the normalized vector's length is
/// within two raw steps (0.002 units) below one unit and never above it —
/// the tolerance that truncating fixed-point division forces.  Vectors
/// shorter than one unit are excluded: for them the truncated length is
/// too coarse for any such bound (a vector with both components equal to
/// one raw step normalizes to length well above one unit).
#[verifier::rlimit(50)]
pub proof fn lemma_normalize_unit_length(v: V2)
    requires
        vlen(v) >= SCALE as int,
    ensures
        (SCALE as int) - 2 <= vlen(spec_normalize(v)) <= SCALE as int,
{
    let s = SCALE as int;
    let l = vlen(v);
    let a = iabs(v.x);
    let b = iabs(v.y);
    let n = len2_raw(v);
    lemma_vlen(v);
    lemma_mul_signs(v.x, s);
    lemma_mul_signs(v.y, s);
    lemma_mul_signs(v.x, v.x);
    lemma_mul_signs(v.y, v.y);
    lemma_mul_signs(iabs(v.x), s);
    lemma_mul_signs(iabs(v.y), s);
    let nx = fxdiv(v.x, l);
    let ny = fxdiv(v.y, l);
    let u = iabs(nx);
    let w = iabs(ny);
    proof_div_bracket(a * s, l);
    proof_div_bracket(b * s, l);
    assert(u == (a * s) / l);
    assert(w == (b * s) / l);
    assert(u * l == (a * s) / l * l && (u + 1) * l == u * l + l) by (nonlinear_arith)
        requires
            u == (a * s) / l,
    ;
    assert(w * l == (b * s) / l * l && (w + 1) * l == w * l + l) by (nonlinear_arith)
        requires
            w == (b * s) / l,
    ;
    assert(u * l <= a * s && a * s < (u + 1) * l);
    assert(w * l <= b * s && b * s < (w + 1) * l);
    let m = len2_raw(spec_normalize(v));
    assert(m == u * u + w * w) by {
        lemma_mul_signs(nx, nx);
        lemma_mul_signs(ny, ny);
    }
    // Upper bound: m <= s^2 + 2s, so the length is at most s.
    assert((u * l) * (u * l) <= (a * s) * (a * s)) by (nonlinear_arith)
        requires
            0 <= u * l,
            u * l <= a * s,
    ;
    assert((w * l) * (w * l) <= (b * s) * (b * s)) by (nonlinear_arith)
        requires
            0 <= w * l,
            w * l <= b * s,
    ;
    assert((u * u + w * w) * (l * l) == (u * l) * (u * l) + (w * l) * (w * l))
        by (nonlinear_arith);
    assert(s * s * n == (a * s) * (a * s) + (b * s) * (b * s)) by (nonlinear_arith)
        requires
            n == iabs(v.x) * iabs(v.x) + iabs(v.y) * iabs(v.y),
            a == iabs(v.x),
            b == iabs(v.y),
    ;
    assert(n <= l * l + 2 * l) by (nonlinear_arith)
        requires
            n < (l + 1) * (l + 1),
    ;
    assert(s * s * n <= s * s * (l * l) + 2 * (s * s) * l) by (nonlinear_arith)
        requires
            n <= l * l + 2 * l,
            s == 1000,
    ;
    assert((u * u + w * w) * (l * l) <= s * s * (l * l) + 2 * (s * s) * l);
    assert(u * u + w * w <= s * s + 2 * s) by (nonlinear_arith)
        requires
            (u * u + w * w) * (l * l) <= s * s * (l * l) + 2 * (s * s) * l,
            l >= s,
            s == 1000,
            u >= 0,
            w >= 0,
    ;
    // Lower bound: m >= s^2 - 3s - 3 >= (s - 2)^2.
    assert((u * l) * (u * l) >= (a * s) * (a * s) - 2 * (a * s) * l) by (nonlinear_arith)
        requires
            u * l >= a * s - l,
            u * l >= 0,
            a * s >= 0,
            l >= 1,
    ;
    assert((w * l) * (w * l) >= (b * s) * (b * s) - 2 * (b * s) * l) by (nonlinear_arith)
        requires
            w * l >= b * s - l,
            w * l >= 0,
            b * s >= 0,
            l >= 1,
    ;
    assert((a + b) * (a + b) <= 2 * n) by (nonlinear_arith)
        requires
            n == iabs(v.x) * iabs(v.x) + iabs(v.y) * iabs(v.y),
            a == iabs(v.x),
            b == iabs(v.y),
    ;
    assert(2 * (a + b) <= 3 * (l + 1)) by (nonlinear_arith)
        requires
            (a + b) * (a + b) <= 2 * n,
            n < (l + 1) * (l + 1),
            a >= 0,
            b >= 0,
            l >= 0,
    ;
    assert(s * s * n >= s * s * (l * l)) by (nonlinear_arith)
        requires
            n >= l * l,
            s == 1000,
    ;
    assert(2 * (a * s) * l + 2 * (b * s) * l <= 3 * s * l * (l + 1)) by (nonlinear_arith)
        requires
            2 * (a + b) <= 3 * (l + 1),
            s == 1000,
            l >= 1,
    ;
    assert((u * u + w * w) * (l * l) >= s * s * (l * l) - 3 * s * l * (l + 1));
    assert(u * u + w * w >= s * s - 3 * s - 3) by (nonlinear_arith)
        requires
            (u * u + w * w) * (l * l) >= s * s * (l * l) - 3 * s * l * (l + 1),
            l >= s,
            s == 1000,
    ;
    // Conclude on the floor square root of m.
    lemma_vlen(spec_normalize(v));
    let r = vlen(spec_normalize(v));
    assert(r <= s) by (nonlinear_arith)
        requires
            r * r <= m,
            m <= s * s + 2 * s,
            r >= 0,
            s == 1000,
    ;
    assert(r >= s - 2) by (nonlinear_arith)
        requires
            m < (r + 1) * (r + 1),
            m >= s * s - 3 * s - 3,
            r >= 0,
            s == 1000,
    ;
}

/// The safe normalization is unit-bounded: each component of
/// `normalizeOrZero`'s result has magnitude at most `SCALE`.
pub proof fn lemma_normalize_or_zero_bound(v: V2)
    ensures
        v2_in(spec_normalize_or(v, spec_zero()), SCALE as int),
{
    lemma_vlen(v);
    if v == spec_zero() {
    } else {
        let l = vlen(v);
        lemma_div_by_len_bounds(v.x, l);
        lemma_div_by_len_bounds(v.y, l);
    }
}

/// Dividing a component by the vector's length keeps the quotient's
/// magnitude at most `SCALE` and inside `i64`.
proof fn lemma_div_by_len_bounds(c: int, l: int)
    requires
        l >= 1,
        l >= iabs(c),
    ensures
        iabs(fxdiv(c, l)) <= SCALE as int,
        iabs(fxdiv(c, l)) <= i64::MAX as int,
{
    lemma_tdiv_bound(c * (SCALE as int), l);
    lemma_mul_signs(c, SCALE as int);
    let t = iabs(tdiv(c * (SCALE as int), l));
    assert(t * l <= iabs(c) * (SCALE as int));
    assert(t <= SCALE as int) by (nonlinear_arith)
        requires
            l >= 1,
            iabs(c) <= l,
            t >= 0,
            t * l <= iabs(c) * (SCALE as int),
    ;
}

} // verus!
