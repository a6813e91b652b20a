//! Checks of the fixed-point trigonometry and the integer square root.

use scara::math::isqrt;
use scara::trig::{acos_fp, atan2_fp, cos_fp, sin_fp, HALF_PI_U, PI_U, QUARTER_PI_U, TWO_PI_U};

#[test]
fn sin_cos_special_points() {
    assert_eq!(sin_fp(0), 0);
    assert_eq!(cos_fp(0), 1_000_000);
    assert_eq!(sin_fp(1_570_796), 1_000_000);
    assert_eq!(sin_fp(-1_570_796), -1_000_000);
    assert_eq!(cos_fp(PI_U), -1_000_000);
    // cosine is even; near the quarter turn it is almost zero
    assert_eq!(cos_fp(-1_570_796), cos_fp(1_570_796));
    assert!(cos_fp(1_570_796).abs() <= 50);
}

#[test]
fn sin_matches_reference_value() {
    // sin(0.5 rad) = 0.479426 to six decimals
    assert!((sin_fp(500_000) - 479_426).abs() <= 50);
    // sin(2.5 rad) = 0.598472, second quadrant
    assert!((sin_fp(2_500_000) - 598_472).abs() <= 50);
    // sin(4.0 rad) = -0.756802, third quadrant
    assert!((sin_fp(4_000_000) + 756_802).abs() <= 50);
}

#[test]
fn sin_is_periodic_and_odd() {
    assert_eq!(sin_fp(500_000 + TWO_PI_U), sin_fp(500_000));
    assert_eq!(sin_fp(-500_000), -sin_fp(500_000));
}

#[test]
fn atan2_quadrants() {
    assert_eq!(atan2_fp(0, 0), 0);
    assert_eq!(atan2_fp(1, 1), QUARTER_PI_U);
    assert_eq!(atan2_fp(-1, 1), -QUARTER_PI_U);
    assert_eq!(atan2_fp(5, 0), HALF_PI_U);
    assert_eq!(atan2_fp(0, -5), PI_U);
    assert_eq!(atan2_fp(-3, -3), -2_356_195);
}

#[test]
fn acos_endpoints_and_midpoint() {
    assert_eq!(acos_fp(1_000_000), 0);
    assert_eq!(acos_fp(-1_000_000), PI_U);
    assert_eq!(acos_fp(0), HALF_PI_U);
    // acos(0.5) = Pi / 3
    assert!((acos_fp(500_000) - 1_047_198).abs() <= 50);
}

#[test]
fn isqrt_exact() {
    assert_eq!(isqrt(0), 0);
    assert_eq!(isqrt(3), 1);
    assert_eq!(isqrt(4), 2);
    assert_eq!(isqrt(999_999), 999);
    assert_eq!(isqrt(1_000_000_000_000), 1_000_000);
    assert_eq!(isqrt(u64::MAX), 4_294_967_295);
}
