use air_hockey::fx::{div_fx, isqrt, mul_fx, SCALE};
use air_hockey::vec2::Vec2;

#[test]
fn scale_constants() {
    assert_eq!(SCALE, 1000);
    // 0.99 damping and 0.9 restitution are exact at this scale.
    assert_eq!(mul_fx(30_000, 990), 29_700);
    assert_eq!(mul_fx(1000, 900), 900);
}

#[test]
fn mul_fx_truncates_toward_zero() {
    assert_eq!(mul_fx(1, 1), 0);
    assert_eq!(mul_fx(-1, 1), 0);
    assert_eq!(mul_fx(1999, 1), 1);
    assert_eq!(mul_fx(-1999, 1), -1);
    assert_eq!(mul_fx(-1500, 1000), -1500);
}

#[test]
fn div_fx_truncates_toward_zero() {
    assert_eq!(div_fx(1000, 3000), 333);
    assert_eq!(div_fx(-1000, 3000), -333);
    assert_eq!(div_fx(1000, -3000), -333);
    assert_eq!(div_fx(-1000, -3000), 333);
}

#[test]
fn isqrt_exact_and_floor() {
    assert_eq!(isqrt(0), 0);
    assert_eq!(isqrt(1), 1);
    assert_eq!(isqrt(2_500_000_000), 50_000);
    assert_eq!(isqrt(2), 1);
    assert_eq!(isqrt(999_698), 999);
    assert_eq!(isqrt(1_000_000), 1000);
}

#[test]
fn vector_arithmetic() {
    let a = Vec2 { x: 3000, y: -2000 };
    let b = Vec2 { x: 1000, y: 5000 };
    assert_eq!(a.add(b), Vec2 { x: 4000, y: 3000 });
    assert_eq!(a.sub(b), Vec2 { x: 2000, y: -7000 });
    assert_eq!(a.mul(2000), Vec2 { x: 6000, y: -4000 });
    assert_eq!(a.div(2000), Vec2 { x: 1500, y: -1000 });
    assert_eq!(a.neg(), Vec2 { x: -3000, y: 2000 });
    assert_eq!(a.dot(b), -7000);
    assert_eq!(a.normalRight(), Vec2 { x: 2000, y: 3000 });
    assert_eq!(a.normalLeft(), Vec2 { x: -2000, y: -3000 });
}

#[test]
fn length_of_pythagorean_triple() {
    let v = Vec2 { x: 3000, y: 4000 };
    assert_eq!(v.length(), 5000);
    assert_eq!(v.length2(), 25_000);
}

// Normalizing any vector of length at least one unit gives a vector whose
// length is within two raw steps below one unit (0.002) and never above.
#[test]
fn normalize_unit_length() {
    let v = Vec2 { x: 3000, y: 4000 };
    let n = v.normalize();
    assert_eq!(n, Vec2 { x: 600, y: 800 });
    assert_eq!(n.length(), 1000);

    let w = Vec2 { x: 1000, y: 1000 };
    let m = w.normalize();
    assert_eq!(m, Vec2 { x: 707, y: 707 });
    let len = m.length();
    assert!(len <= 1000 && len >= 998, "length {len}");

    let far = Vec2 { x: -123_456, y: 654_321 };
    let len = far.normalize().length();
    assert!(len <= 1000 && len >= 998, "length {len}");
}

// The zero vector normalizes to the fallback, for any fallback, including
// the zero vector itself.
#[test]
fn normalize_or_zero_vector_returns_fallback() {
    let zero = Vec2::zero();
    let fallback = Vec2 { x: 17, y: -4 };
    assert_eq!(zero.normalizeOr(fallback), fallback);
    assert_eq!(zero.normalizeOr(zero), zero);
    assert_eq!(zero.normalizeOrZero(), zero);
    // A nonzero vector ignores the fallback.
    let v = Vec2 { x: 0, y: -9000 };
    assert_eq!(v.normalizeOr(fallback), Vec2 { x: 0, y: -1000 });
}

#[test]
fn free_constructor_and_zero() {
    let v = Vec2(12, -7);
    assert_eq!(v, Vec2 { x: 12, y: -7 });
    assert_eq!(Vec2::zero(), Vec2 { x: 0, y: 0 });
}
