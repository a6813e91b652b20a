//! Fixed-point trigonometry. Angles are in micro-radians; the ratio
//! functions return values scaled by `ANG_ONE` (one million), so `1.0`
//! is `1_000_000`. Each function computes a truncated polynomial
//! approximation; its contract pins the result to the spec-level mirror
//! of the same computation, so every call is deterministic, and gives
//! the range the clamping enforces.

use vstd::prelude::*;
use crate::math::{lemma_mul_le, lemma_div_le, lemma_sq_le, isqrt, spec_isqrt};

verus! {

/// The trig scale: this value stands for the ratio 1.0.
pub const ANG_ONE: i64 = 1_000_000;

/// Pi in micro-radians.
pub const PI_U: i64 = 3_141_593;

/// Pi / 2 in micro-radians.
pub const HALF_PI_U: i64 = 1_570_796;

/// Pi / 4 in micro-radians.
pub const QUARTER_PI_U: i64 = 785_398;

/// 2 * Pi in micro-radians (rounded once, so not exactly `2 * PI_U`).
pub const TWO_PI_U: i64 = 6_283_185;

/// tan(Pi / 8) scaled by `ANG_ONE`.
pub const TAN_PI_8: i64 = 414_214;

/// Truncated Taylor sine on the first quadrant, scaled by `ANG_ONE`.
/// The subtraction saturates at zero and the result is clamped to
/// `ANG_ONE`, so the value always lies in `[0, ANG_ONE]`.
pub open spec fn spec_sin_quarter(x: int) -> int {
    let x2 = (x * x) / 1_000_000;
    let p3 = (x * x2) / 1_000_000;
    let p5 = (p3 * x2) / 1_000_000;
    let p7 = (p5 * x2) / 1_000_000;
    let p9 = (p7 * x2) / 1_000_000;
    let pos = x + p5 / 120 + p9 / 362880;
    let neg = p3 / 6 + p7 / 5040;
    let v = if pos >= neg { pos - neg } else { 0 };
    if v > 1_000_000 { 1_000_000 } else { v }
}

/// Truncated Taylor cosine on the first quadrant, scaled by `ANG_ONE`,
/// clamped to `[0, ANG_ONE]`.
pub open spec fn spec_cos_quarter(x: int) -> int {
    let x2 = (x * x) / 1_000_000;
    let p4 = (x2 * x2) / 1_000_000;
    let p6 = (p4 * x2) / 1_000_000;
    let p8 = (p6 * x2) / 1_000_000;
    let pos = 1_000_000 + p4 / 24 + p8 / 40320;
    let neg = x2 / 2 + p6 / 720;
    let v = if pos >= neg { pos - neg } else { 0 };
    if v > 1_000_000 { 1_000_000 } else { v }
}

fn sin_quarter(x: u64) -> (r: u64)
    requires
        x <= 1_570_796,
    ensures
        r == spec_sin_quarter(x as int),
        r <= 1_000_000,
{
    proof {
        lemma_mul_le(x as int, x as int, 1_570_796, 1_570_796);
    }
    let x2: u64 = (x * x) / 1_000_000;
    proof {
        lemma_div_le((x as int) * (x as int), 2_500_000_000_000int, 1_000_000);
        lemma_mul_le(x as int, x2 as int, 1_570_796, 2_500_000);
    }
    let p3: u64 = (x * x2) / 1_000_000;
    proof {
        lemma_div_le((x as int) * (x2 as int), 4_000_000_000_000int, 1_000_000);
        lemma_mul_le(p3 as int, x2 as int, 4_000_000, 2_500_000);
    }
    let p5: u64 = (p3 * x2) / 1_000_000;
    proof {
        lemma_div_le((p3 as int) * (x2 as int), 10_000_000_000_000int, 1_000_000);
        lemma_mul_le(p5 as int, x2 as int, 10_000_000, 2_500_000);
    }
    let p7: u64 = (p5 * x2) / 1_000_000;
    proof {
        lemma_div_le((p5 as int) * (x2 as int), 25_000_000_000_000int, 1_000_000);
        lemma_mul_le(p7 as int, x2 as int, 25_000_000, 2_500_000);
    }
    let p9: u64 = (p7 * x2) / 1_000_000;
    proof {
        lemma_div_le((p7 as int) * (x2 as int), 62_500_000_000_000int, 1_000_000);
    }
    let pos: u64 = x + p5 / 120 + p9 / 362880;
    let neg: u64 = p3 / 6 + p7 / 5040;
    let v: u64 = if pos >= neg { pos - neg } else { 0 };
    if v > 1_000_000 { 1_000_000 } else { v }
}

fn cos_quarter(x: u64) -> (r: u64)
    requires
        x <= 1_570_796,
    ensures
        r == spec_cos_quarter(x as int),
        r <= 1_000_000,
{
    proof {
        lemma_mul_le(x as int, x as int, 1_570_796, 1_570_796);
    }
    let x2: u64 = (x * x) / 1_000_000;
    proof {
        lemma_div_le((x as int) * (x as int), 2_500_000_000_000int, 1_000_000);
        lemma_mul_le(x2 as int, x2 as int, 2_500_000, 2_500_000);
    }
    let p4: u64 = (x2 * x2) / 1_000_000;
    proof {
        lemma_div_le((x2 as int) * (x2 as int), 6_250_000_000_000int, 1_000_000);
        lemma_mul_le(p4 as int, x2 as int, 6_250_000, 2_500_000);
    }
    let p6: u64 = (p4 * x2) / 1_000_000;
    proof {
        lemma_div_le((p4 as int) * (x2 as int), 15_625_000_000_000int, 1_000_000);
        lemma_mul_le(p6 as int, x2 as int, 15_625_000, 2_500_000);
    }
    let p8: u64 = (p6 * x2) / 1_000_000;
    proof {
        lemma_div_le((p6 as int) * (x2 as int), 39_062_500_000_000int, 1_000_000);
    }
    let pos: u64 = 1_000_000 + p4 / 24 + p8 / 40320;
    let neg: u64 = x2 / 2 + p6 / 720;
    let v: u64 = if pos >= neg { pos - neg } else { 0 };
    if v > 1_000_000 { 1_000_000 } else { v }
}

/// Sine of an angle reduced to `[0, TWO_PI_U)`, via the quadrant
/// symmetries, scaled by `ANG_ONE`.
pub open spec fn spec_sin_reduced(a: int) -> int {
    if a <= 1_570_796 {
        spec_sin_quarter(a)
    } else if a <= 3_141_593 {
        spec_sin_quarter(3_141_593 - a)
    } else if a <= 4_712_389 {
        -spec_sin_quarter(a - 3_141_593)
    } else {
        -spec_sin_quarter(6_283_185 - a)
    }
}

/// Cosine of an angle reduced to `[0, TWO_PI_U)`, scaled by `ANG_ONE`.
pub open spec fn spec_cos_reduced(a: int) -> int {
    if a <= 1_570_796 {
        spec_cos_quarter(a)
    } else if a <= 3_141_593 {
        -spec_cos_quarter(3_141_593 - a)
    } else if a <= 4_712_389 {
        -spec_cos_quarter(a - 3_141_593)
    } else {
        spec_cos_quarter(6_283_185 - a)
    }
}

/// The absolute value of `t`.
pub open spec fn spec_abs(t: int) -> int {
    if t >= 0 { t } else { -t }
}

/// Sine of a micro-radian angle, scaled by `ANG_ONE`: the angle is
/// reduced modulo `TWO_PI_U` on its magnitude, and the sign follows
/// the oddness of the sine.
pub open spec fn spec_sin(t: int) -> int {
    let a = spec_abs(t) % 6_283_185;
    if t >= 0 { spec_sin_reduced(a) } else { -spec_sin_reduced(a) }
}

/// Cosine of a micro-radian angle, scaled by `ANG_ONE`; the cosine is
/// even, so the sign of the angle drops out.
pub open spec fn spec_cos(t: int) -> int {
    let a = spec_abs(t) % 6_283_185;
    spec_cos_reduced(a)
}

/// The magnitude of `t` as a `u64`, safe for every `i64`.
fn abs_u64(t: i64) -> (r: u64)
    ensures
        r == spec_abs(t as int),
{
    if t >= 0 { t as u64 } else { (-(t as i128)) as u64 }
}

fn sin_reduced(a: u64) -> (r: i64)
    requires
        a < 6_283_185,
    ensures
        r == spec_sin_reduced(a as int),
        -1_000_000 <= r <= 1_000_000,
{
    if a <= 1_570_796 {
        sin_quarter(a) as i64
    } else if a <= 3_141_593 {
        sin_quarter(3_141_593 - a) as i64
    } else if a <= 4_712_389 {
        -(sin_quarter(a - 3_141_593) as i64)
    } else {
        -(sin_quarter(6_283_185 - a) as i64)
    }
}

fn cos_reduced(a: u64) -> (r: i64)
    requires
        a < 6_283_185,
    ensures
        r == spec_cos_reduced(a as int),
        -1_000_000 <= r <= 1_000_000,
{
    if a <= 1_570_796 {
        cos_quarter(a) as i64
    } else if a <= 3_141_593 {
        -(cos_quarter(3_141_593 - a) as i64)
    } else if a <= 4_712_389 {
        -(cos_quarter(a - 3_141_593) as i64)
    } else {
        cos_quarter(6_283_185 - a) as i64
    }
}

/// Fixed-point sine.
pub fn sin_fp(t: i64) -> (r: i64)
    ensures
        r == spec_sin(t as int),
        -1_000_000 <= r <= 1_000_000,
{
    let m: u64 = abs_u64(t);
    let a: u64 = m % 6_283_185;
    let s: i64 = sin_reduced(a);
    if t >= 0 { s } else { -s }
}

/// Fixed-point cosine.
pub fn cos_fp(t: i64) -> (r: i64)
    ensures
        r == spec_cos(t as int),
        -1_000_000 <= r <= 1_000_000,
{
    let m: u64 = abs_u64(t);
    let a: u64 = m % 6_283_185;
    cos_reduced(a)
}

/// Truncated Taylor arctangent on `[0, tan(Pi/8)]` (input scaled by
/// `ANG_ONE`), in micro-radians, clamped to `[0, TAN_PI_8]`.
pub open spec fn spec_atan_core(w: int) -> int {
    let w2 = (w * w) / 1_000_000;
    let q3 = (w * w2) / 1_000_000;
    let q5 = (q3 * w2) / 1_000_000;
    let q7 = (q5 * w2) / 1_000_000;
    let q9 = (q7 * w2) / 1_000_000;
    let pos = w + q5 / 5 + q9 / 9;
    let neg = q3 / 3 + q7 / 7;
    let v = if pos >= neg { pos - neg } else { 0 };
    if v > 414_214 { 414_214 } else { v }
}

fn atan_core(w: u64) -> (r: u64)
    requires
        w <= 414_214,
    ensures
        r == spec_atan_core(w as int),
        r <= 414_214,
{
    proof {
        lemma_mul_le(w as int, w as int, 414_214, 414_214);
    }
    let w2: u64 = (w * w) / 1_000_000;
    proof {
        lemma_div_le((w as int) * (w as int), 180_000_000_000int, 1_000_000);
        lemma_mul_le(w as int, w2 as int, 414_214, 180_000);
    }
    let q3: u64 = (w * w2) / 1_000_000;
    proof {
        lemma_div_le((w as int) * (w2 as int), 75_000_000_000int, 1_000_000);
        lemma_mul_le(q3 as int, w2 as int, 75_000, 180_000);
    }
    let q5: u64 = (q3 * w2) / 1_000_000;
    proof {
        lemma_div_le((q3 as int) * (w2 as int), 13_500_000_000int, 1_000_000);
        lemma_mul_le(q5 as int, w2 as int, 13_500, 180_000);
    }
    let q7: u64 = (q5 * w2) / 1_000_000;
    proof {
        lemma_div_le((q5 as int) * (w2 as int), 2_430_000_000int, 1_000_000);
        lemma_mul_le(q7 as int, w2 as int, 2_430, 180_000);
    }
    let q9: u64 = (q7 * w2) / 1_000_000;
    proof {
        lemma_div_le((q7 as int) * (w2 as int), 437_400_000int, 1_000_000);
    }
    let pos: u64 = w + q5 / 5 + q9 / 9;
    let neg: u64 = q3 / 3 + q7 / 7;
    let v: u64 = if pos >= neg { pos - neg } else { 0 };
    if v > 414_214 { 414_214 } else { v }
}

/// Arctangent of a ratio in `[0, 1]` (scaled by `ANG_ONE`), in
/// micro-radians. Ratios above `tan(Pi/8)` go through the half-angle
/// identity `atan(z) = Pi/4 - atan((1 - z) / (1 + z))`.
pub open spec fn spec_atan01(z: int) -> int {
    if z <= 414_214 {
        spec_atan_core(z)
    } else {
        785_398 - spec_atan_core(((1_000_000 - z) * 1_000_000) / (1_000_000 + z))
    }
}

fn atan01(z: u64) -> (r: u64)
    requires
        z <= 1_000_000,
    ensures
        r == spec_atan01(z as int),
        r <= 785_398,
{
    if z <= 414_214 {
        atan_core(z)
    } else {
        proof {
            lemma_mul_le((1_000_000 - z) as int, 1_000_000int, 585_786, 1_000_000);
            crate::math::lemma_div_both(
                ((1_000_000 - z) as int) * 1_000_000int,
                585_786_000_000int,
                (1_000_000 + z) as int,
                1_414_215int,
            );
        }
        let w: u64 = ((1_000_000 - z) * 1_000_000) / (1_000_000 + z);
        785_398 - atan_core(w)
    }
}

/// Four-quadrant arctangent in micro-radians: the angle of the vector
/// `(x, y)`, in `[-PI_U, PI_U]`. Both magnitudes are reduced to a
/// first-quadrant ratio, and the signs of `x` and `y` place the
/// result; the origin maps to zero.
pub open spec fn spec_atan2(y: int, x: int) -> int {
    let ax = spec_abs(x);
    let ay = spec_abs(y);
    let q = if ay <= ax {
        if ax == 0 { 0int } else { spec_atan01((ay * 1_000_000) / ax) }
    } else {
        1_570_796 - spec_atan01((ax * 1_000_000) / ay)
    };
    if x >= 0 && y >= 0 {
        q
    } else if x < 0 && y >= 0 {
        3_141_593 - q
    } else if x < 0 {
        -(3_141_593 - q)
    } else {
        -q
    }
}

/// Fixed-point four-quadrant arctangent.
pub fn atan2_fp(y: i64, x: i64) -> (r: i64)
    requires
        -5_000_000_000 <= y <= 5_000_000_000,
        -5_000_000_000 <= x <= 5_000_000_000,
    ensures
        r == spec_atan2(y as int, x as int),
        -3_141_593 <= r <= 3_141_593,
        y >= 0 ==> r >= 0,
        y < 0 ==> r <= 0,
{
    let ax: u64 = abs_u64(x);
    let ay: u64 = abs_u64(y);
    let q: u64 = if ay <= ax {
        if ax == 0 {
            0
        } else {
            proof {
                lemma_mul_le(ay as int, 1_000_000int, 5_000_000_000, 1_000_000);
                crate::math::lemma_scale_le(ay as int, 1_000_000int, ax as int);
            }
            atan01(((ay as u128 * 1_000_000) / (ax as u128)) as u64)
        }
    } else {
        proof {
            lemma_mul_le(ax as int, 1_000_000int, 5_000_000_000, 1_000_000);
            crate::math::lemma_scale_le(ax as int, 1_000_000int, ay as int);
        }
        1_570_796 - atan01(((ax as u128 * 1_000_000) / (ay as u128)) as u64)
    };
    if x >= 0 && y >= 0 {
        q as i64
    } else if x < 0 && y >= 0 {
        3_141_593 - (q as i64)
    } else if x < 0 {
        -(3_141_593 - (q as i64))
    } else {
        -(q as i64)
    }
}

/// Arccosine of a ratio in `[-1, 1]` (scaled by `ANG_ONE`), in
/// micro-radians, in `[0, PI_U]`: the angle whose cosine the ratio is,
/// through `acos(z) = atan2(sqrt(1 - z^2), z)`.
pub open spec fn spec_acos(z: int) -> int {
    spec_atan2(spec_isqrt(1_000_000_000_000 - z * z), z)
}

/// Fixed-point arccosine.
pub fn acos_fp(z: i64) -> (r: i64)
    requires
        -1_000_000 <= z <= 1_000_000,
    ensures
        r == spec_acos(z as int),
        0 <= r <= 3_141_593,
{
    let az: u64 = abs_u64(z);
    proof {
        lemma_mul_le(az as int, az as int, 1_000_000, 1_000_000);
        assert(az as int * az as int == (z as int) * (z as int)) by (nonlinear_arith)
            requires
                az as int == spec_abs(z as int),
        ;
    }
    let s: u64 = isqrt(1_000_000_000_000 - az * az);
    proof {
        lemma_sq_le(s as int, 1_000_000int);
    }
    atan2_fp(s as i64, z)
}

} // verus!
