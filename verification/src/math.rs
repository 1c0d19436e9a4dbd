//! Numeric primitives: clamping, fixed-point interpolation, the
//! deterministic pseudo-random hash, luminance weighting and integer
//! square roots.
//!
//! Fractional quantities are carried as integers against a fixed
//! denominator: intensities in thousandths, luminance as a numerator
//! against 10000.

use vstd::prelude::*;

verus! {

/// `v` bounded to `[min, max]`.
pub open spec fn spec_clamp(v: int, min: int, max: int) -> int {
    if v < min {
        min
    } else if v > max {
        max
    } else {
        v
    }
}

/// Returns `value` bounded to `[min, max]`.
pub fn clamp(value: i64, min: i64, max: i64) -> (r: i64)
    requires
        min <= max,
    ensures
        r == spec_clamp(value as int, min as int, max as int),
{
    if value < min {
        min
    } else if value > max {
        max
    } else {
        value
    }
}

/// The channel value `num / den` bounded to the 8-bit range: zero when the
/// numerator is negative, 255 when the quotient would reach 255, and the
/// floor of the quotient otherwise.
pub open spec fn clamp_div(num: int, den: int) -> int
    recommends
        den > 0,
{
    if num <= 0 {
        0
    } else if num >= 255 * den {
        255
    } else {
        num / den
    }
}

/// Floor division respects a strict upper bound on the numerator.
pub proof fn lemma_div_below(num: int, den: int, q: int)
    by (nonlinear_arith)
    requires
        den > 0,
        0 <= num < q * den,
    ensures
        num / den < q,
{
}

/// Range of [`clamp_div`]: always a legal channel value.
pub proof fn lemma_clamp_div_range(num: int, den: int)
    requires
        den > 0,
    ensures
        0 <= clamp_div(num, den) <= 255,
{
    if 0 < num < 255 * den {
        assert(num / den >= 0) by (nonlinear_arith)
            requires den > 0 && num > 0;
        lemma_div_below(num, den, 255);
    }
}

/// Evaluates [`clamp_div`] on a wide numerator and positive denominator.
pub fn clamp_div_i128(num: i128, den: u128) -> (r: u8)
    requires
        0 < den <= i128::MAX as u128,
    ensures
        r == clamp_div(num as int, den as int),
{
    proof {
        lemma_clamp_div_range(num as int, den as int);
    }
    if num <= 0 {
        0
    } else {
        let q: u128 = (num as u128) / den;
        assert(q == num as int / den as int);
        if q >= 255 {
            assert(num >= 255 * den) by (nonlinear_arith)
                requires den > 0 && num > 0 && (num as int / den as int) >= 255;
            255
        } else {
            assert(num < 255 * den) by (nonlinear_arith)
                requires den > 0 && num > 0 && (num as int / den as int) < 255;
            q as u8
        }
    }
}

/// Linear interpolation from `a` toward `b` by `t` thousandths, with the
/// fractional part dropped (floor of the exact value).
pub open spec fn spec_lerp(a: int, b: int, t: int) -> int {
    if b >= a {
        a + (b - a) * t / 1000
    } else {
        a - (a - b) * t / 1000
    }
}

/// Interpolates from `a` toward `b` by `t` thousandths.
pub fn lerp(a: i64, b: i64, t: u32) -> (r: i64)
    requires
        -0x1_0000_0000 <= a <= 0x1_0000_0000,
        -0x1_0000_0000 <= b <= 0x1_0000_0000,
        t <= 1000,
    ensures
        r == spec_lerp(a as int, b as int, t as int),
{
    if b >= a {
        let d: u64 = (b - a) as u64;
        proof {
            assert(d * t <= 0x2_0000_0000 * 1000) by (nonlinear_arith)
                requires d <= 0x2_0000_0000 && t <= 1000;
            lemma_div_le((d * t) as int, 1000, 0x2_0000_0000);
        }
        a + ((d * t as u64) / 1000) as i64
    } else {
        let d: u64 = (a - b) as u64;
        proof {
            assert(d * t <= 0x2_0000_0000 * 1000) by (nonlinear_arith)
                requires d <= 0x2_0000_0000 && t <= 1000;
            lemma_div_le((d * t) as int, 1000, 0x2_0000_0000);
        }
        a - ((d * t as u64) / 1000) as i64
    }
}

/// Smoothstep between the two edges, in thousandths: 0 at or below
/// `edge0`, 1000 at or above `edge1`, and `t*t*(3 - 2*t)` for the
/// normalized position `t` between them.
pub open spec fn spec_smoothstep(edge0: int, edge1: int, x: int) -> int
    recommends
        edge0 < edge1,
{
    let t = if x <= edge0 {
        0
    } else if x >= edge1 {
        1000
    } else {
        (x - edge0) * 1000 / (edge1 - edge0)
    };
    t * t * (3000 - 2 * t) / 1000000
}

/// Floor division respects an upper bound on the numerator.
pub proof fn lemma_div_le(num: int, den: int, q: int)
    by (nonlinear_arith)
    requires
        den > 0,
        0 <= num <= q * den,
    ensures
        0 <= num / den <= q,
{
}

/// Smoothstep between `edge0` and `edge1`, in thousandths.
pub fn smoothstep(edge0: i64, edge1: i64, x: i64) -> (s: u32)
    requires
        edge0 < edge1,
        -0x1_0000_0000 <= edge0,
        edge1 <= 0x1_0000_0000,
        -0x1_0000_0000 <= x <= 0x1_0000_0000,
    ensures
        s == spec_smoothstep(edge0 as int, edge1 as int, x as int),
        s <= 1000,
{
    let t: u64 = if x <= edge0 {
        0
    } else if x >= edge1 {
        1000
    } else {
        let num: u64 = (x - edge0) as u64 * 1000;
        let den: u64 = (edge1 - edge0) as u64;
        proof {
            lemma_div_le(num as int, den as int, 1000);
            assert(num <= 1000 * den) by (nonlinear_arith)
                requires num == (x - edge0) * 1000 && den == edge1 - edge0 && x <= edge1;
        }
        num / den
    };
    proof {
        assert(t * t <= 1000000) by (nonlinear_arith)
            requires 0 <= t <= 1000;
        assert(t * t * (3000 - 2 * t) <= 1000000000) by (nonlinear_arith)
            requires 0 <= t <= 1000 && t * t <= 1000000;
        lemma_div_le((t * t * (3000 - 2 * t)) as int, 1000000, 1000);
    }
    let s: u64 = t * t * (3000 - 2 * t) / 1000000;
    s as u32
}

/// The linear-congruential hash behind the noise filter: one multiply-add
/// step, keeping bits 16..31 of the 32-bit product.
pub open spec fn spec_pseudo_random(seed: int) -> int {
    ((seed * 1103515245 + 12345) % 0x1_0000_0000) / 0x1_0000 % 0x8000
}

/// Hashes `seed` to a deterministic value in `0..=0x7fff`. Seeded by the
/// flat byte index of a pixel, this makes the noise filter reproducible
/// for a given image size and intensity.
pub fn pseudo_random(seed: u32) -> (r: u16)
    ensures
        r == spec_pseudo_random(seed as int),
        r <= 0x7fff,
{
    let x: u64 = seed as u64 * 1103515245 + 12345;
    ((x % 0x1_0000_0000) / 0x1_0000 % 0x8000) as u16
}

/// Luminance numerator of an RGB triple against 10000: the standard
/// perceptual weights 0.2126, 0.7152, 0.0722 scaled by 10000.
pub open spec fn lum_num(r: int, g: int, b: int) -> int {
    2126 * r + 7152 * g + 722 * b
}

/// Perceptual luminance of a pixel, scaled by 10000; at most
/// `255 * 10000`, with equality on white.
pub fn luminance(r: u8, g: u8, b: u8) -> (l: u32)
    ensures
        l == lum_num(r as int, g as int, b as int),
        l <= 2550000,
{
    2126 * r as u32 + 7152 * g as u32 + 722 * b as u32
}

/// Integer square root of a nonnegative integer: the greatest `r` with
/// `r * r <= n`.
pub open spec fn spec_isqrt(n: int) -> int
    decreases n,
{
    if n < 1 {
        0
    } else {
        let r = spec_isqrt(n - 1);
        if (r + 1) * (r + 1) <= n {
            r + 1
        } else {
            r
        }
    }
}

/// [`spec_isqrt`] is the floor of the real square root.
pub proof fn lemma_isqrt(n: int)
    requires
        n >= 0,
    ensures
        spec_isqrt(n) >= 0,
        spec_isqrt(n) * spec_isqrt(n) <= n,
        (spec_isqrt(n) + 1) * (spec_isqrt(n) + 1) > n,
    decreases n,
{
    if n >= 1 {
        lemma_isqrt(n - 1);
        let r = spec_isqrt(n - 1);
        assert(r * r <= n - 1 < n);
        if (r + 1) * (r + 1) <= n {
            assert((r + 1) * (r + 1) >= n);
            assert((r + 2) * (r + 2) > (r + 1) * (r + 1)) by (nonlinear_arith)
                requires r >= 0;
        }
    }
}

/// Any integer between consecutive squares is pinned to one root.
proof fn lemma_isqrt_unique(n: int, a: int, b: int)
    by (nonlinear_arith)
    requires
        n >= 0,
        a >= 0 && a * a <= n && (a + 1) * (a + 1) > n,
        b >= 0 && b * b <= n && (b + 1) * (b + 1) > n,
    ensures
        a == b,
{
}

/// Integer square root: the greatest `r` with `r * r <= n`.
pub fn isqrt(n: u128) -> (r: u64)
    ensures
        r == spec_isqrt(n as int),
        (r as int) * (r as int) <= n as int,
        (r as int + 1) * (r as int + 1) > n as int,
{
    let mut lo: u64 = 0;
    let mut hi: u64 = u64::MAX;
    proof {
        assert((hi as int + 1) * (hi as int + 1) > n as int) by (nonlinear_arith)
            requires hi == u64::MAX && n <= u128::MAX;
    }
    while lo < hi
        invariant
            lo <= hi,
            (lo as int) * (lo as int) <= n as int,
            (hi as int + 1) * (hi as int + 1) > n as int,
        decreases hi - lo,
    {
        let mid: u64 = hi - (hi - lo) / 2;
        proof {
            assert((mid as int) * (mid as int)
                < 0x1_0000_0000_0000_0000_0000_0000_0000_0000) by (nonlinear_arith)
                requires mid <= 0xffff_ffff_ffff_ffffu64;
        }
        if (mid as u128) * (mid as u128) <= n {
            lo = mid;
        } else {
            hi = mid - 1;
        }
    }
    proof {
        lemma_isqrt(n as int);
        lemma_isqrt_unique(n as int, lo as int, spec_isqrt(n as int));
    }
    lo
}

} // verus!
