//! Integer helpers shared by the kinematics code: bounded products,
//! an integer square root, and truncating scaled division.

use vstd::prelude::*;
use vstd::arithmetic::div_mod::{lemma_div_is_ordered, lemma_div_multiples_vanish};
use vstd::arithmetic::mul::lemma_mul_inequality;

verus! {

/// `a * b` stays below the product of the two bounds.
pub proof fn lemma_mul_le(a: int, b: int, bound_a: int, bound_b: int)
    requires
        0 <= a <= bound_a,
        0 <= b <= bound_b,
    ensures
        a * b <= bound_a * bound_b,
{
    lemma_mul_inequality(a, bound_a, b);
    lemma_mul_inequality(b, bound_b, bound_a);
    assert(bound_a * b == b * bound_a) by (nonlinear_arith);
}

/// Scaling a value by `num / den` cannot exceed `num` while the value
/// stays below the denominator.
pub proof fn lemma_scale_le(a: int, num: int, den: int)
    requires
        0 <= a <= den,
        0 <= num,
        1 <= den,
    ensures
        (a * num) / den <= num,
{
    lemma_mul_inequality(a, den, num);
    lemma_div_is_ordered(a * num, den * num, den);
    lemma_div_multiples_vanish(num, den);
}

/// Dividing a bounded value keeps the quotient below the divided bound.
pub proof fn lemma_div_le(a: int, bound: int, den: int)
    requires
        0 <= a <= bound,
        1 <= den,
    ensures
        0 <= a / den <= bound / den,
{
    lemma_div_is_ordered(a, bound, den);
    assert(a / den >= 0) by (nonlinear_arith)
        requires
            0 <= a,
            1 <= den,
    ;
}

/// A quotient grows with its numerator and shrinks with its divisor.
pub proof fn lemma_div_both(a: int, bound: int, den: int, den_min: int)
    requires
        0 <= a <= bound,
        1 <= den_min <= den,
    ensures
        0 <= a / den <= bound / den_min,
{
    vstd::arithmetic::div_mod::lemma_div_is_ordered_by_denominator(a, den_min, den);
    lemma_div_is_ordered(a, bound, den_min);
    assert(a / den >= 0) by (nonlinear_arith)
        requires
            0 <= a,
            1 <= den,
    ;
}

/// Squares respect order: a square below another square means the roots
/// are ordered the same way.
pub proof fn lemma_sq_le(a: int, b: int)
    requires
        0 <= a,
        0 <= b,
        a * a <= b * b,
    ensures
        a <= b,
{
    assert(a <= b) by (nonlinear_arith)
        requires
            0 <= a,
            0 <= b,
            a * a <= b * b,
    ;
}

/// The integer square root: the unique `r >= 0` with
/// `r * r <= n < (r + 1) * (r + 1)`.
pub open spec fn spec_isqrt(n: int) -> int {
    choose|r: int| 0 <= r && #[trigger] (r * r) <= n && n < (r + 1) * (r + 1)
}

/// Two values both satisfying the square-root characterisation are equal.
pub proof fn lemma_isqrt_unique(n: int, r1: int, r2: int)
    requires
        0 <= r1,
        r1 * r1 <= n,
        n < (r1 + 1) * (r1 + 1),
        0 <= r2,
        r2 * r2 <= n,
        n < (r2 + 1) * (r2 + 1),
    ensures
        r1 == r2,
{
    assert(r1 == r2) by (nonlinear_arith)
        requires
            0 <= r1,
            r1 * r1 <= n,
            n < (r1 + 1) * (r1 + 1),
            0 <= r2,
            r2 * r2 <= n,
            n < (r2 + 1) * (r2 + 1),
    ;
}

/// `spec_isqrt(n)` equals any witness of the characterisation.
pub proof fn lemma_isqrt_is(n: int, w: int)
    requires
        0 <= w,
        w * w <= n,
        n < (w + 1) * (w + 1),
    ensures
        spec_isqrt(n) == w,
{
    assert(exists|r: int| 0 <= r && #[trigger] (r * r) <= n && n < (r + 1) * (r + 1)) by {
        assert(w * w <= n && n < (w + 1) * (w + 1));
    }
    lemma_isqrt_unique(n, w, spec_isqrt(n));
}

/// For every nonnegative `n`, `spec_isqrt(n)` satisfies the
/// square-root characterisation.
pub proof fn lemma_isqrt_props(n: int)
    requires
        0 <= n,
    ensures
        0 <= spec_isqrt(n),
        spec_isqrt(n) * spec_isqrt(n) <= n,
        n < (spec_isqrt(n) + 1) * (spec_isqrt(n) + 1),
    decreases n,
{
    if n == 0 {
        lemma_isqrt_is(n, 0);
    } else {
        lemma_isqrt_props(n - 1);
        let p: int = spec_isqrt(n - 1);
        if (p + 1) * (p + 1) <= n {
            assert(n <= (p + 1) * (p + 1));
            assert((p + 1) * (p + 1) < ((p + 1) + 1) * ((p + 1) + 1)) by (nonlinear_arith)
                requires
                    p >= 0,
            ;
            lemma_isqrt_is(n, p + 1);
        } else {
            lemma_isqrt_is(n, p);
        }
    }
}

/// Binary-search integer square root.
pub fn isqrt(n: u64) -> (r: u64)
    ensures
        r * r <= n < (r + 1) * (r + 1),
        r == spec_isqrt(n as int),
        r <= 0x1_0000_0000u64,
{
    let mut lo: u64 = 0;
    let mut hi: u64 = 0x1_0000_0000;
    while lo + 1 < hi
        invariant
            lo < hi <= 0x1_0000_0000u64,
            lo * lo <= n,
            n < hi * hi,
        decreases hi - lo,
    {
        let mid: u64 = lo + (hi - lo) / 2;
        proof {
            lemma_mul_le(mid as int, mid as int, 0x1_0000_0000, 0x1_0000_0000);
        }
        let sq: u128 = (mid as u128) * (mid as u128);
        if sq <= n as u128 {
            lo = mid;
        } else {
            hi = mid;
        }
    }
    proof {
        assert(hi == lo + 1);
        assert(0 <= lo && lo * lo <= n && n < (lo + 1) * (lo + 1));
        lemma_isqrt_is(n as int, lo as int);
    }
    lo
}

/// Truncating scaled division with the sign taken from `v`:
/// `sign(v) * (|v| * num / den)`, the value a truncating machine division
/// of `v * num` by `den` produces.
pub open spec fn spec_muldiv(v: int, num: int, den: int) -> int {
    if v >= 0 {
        (v * num) / den
    } else {
        -(((-v) * num) / den)
    }
}

/// `spec_muldiv` on `i64` magnitudes, computed without overflow.
pub fn scale_div(v: i64, num: i64, den: i64) -> (r: i64)
    requires
        1 <= den,
        0 <= num <= 4_000_000_000,
        spec_muldiv(v as int, num as int, den as int) <= 4_000_000_000,
        spec_muldiv(v as int, num as int, den as int) >= -4_000_000_000,
    ensures
        r == spec_muldiv(v as int, num as int, den as int),
{
    let av: u128 = if v >= 0 {
        v as u128
    } else {
        (-(v as i128)) as u128
    };
    proof {
        lemma_mul_le(av as int, num as int, 0x8000_0000_0000_0000, 4_000_000_000);
    }
    let q: u128 = (av * (num as u128)) / (den as u128);
    if v >= 0 {
        proof {
            assert(av as int == v as int);
            assert(q as int == (v as int * num as int) / (den as int));
        }
        q as i64
    } else {
        proof {
            assert(av as int == -(v as int));
            assert(q as int == ((-(v as int)) * num as int) / (den as int));
            assert(q as int >= 0) by (nonlinear_arith)
                requires
                    q as int == ((-(v as int)) * num as int) / (den as int),
                    v < 0,
                    num >= 0,
                    den >= 1,
            ;
        }
        -(q as i64)
    }
}

/// `spec_muldiv` for wide intermediates, with `v` an `i128`.
pub fn muldiv_wide(v: i128, num: i64, den: u64) -> (r: i128)
    requires
        1 <= den,
        0 <= num <= 4_000_000_000,
        -100_000_000_000_000_000_000 <= v <= 100_000_000_000_000_000_000,
    ensures
        r == spec_muldiv(v as int, num as int, den as int),
{
    let av: u128 = if v >= 0 {
        v as u128
    } else {
        (-v) as u128
    };
    proof {
        lemma_mul_le(av as int, num as int, 100_000_000_000_000_000_000, 4_000_000_000);
    }
    let q: u128 = (av * (num as u128)) / (den as u128);
    proof {
        lemma_div_le((av * (num as u128)) as int, (av * (num as u128)) as int, den as int);
        assert(av as int * num as int <= 400_000_000_000_000_000_000_000_000_000int);
    }
    if v >= 0 {
        proof {
            assert(av as int == v as int);
            assert(q as int == (v as int * num as int) / (den as int));
        }
        q as i128
    } else {
        proof {
            assert(av as int == -(v as int));
            assert(q as int == ((-(v as int)) * num as int) / (den as int));
        }
        -(q as i128)
    }
}

} // verus!
