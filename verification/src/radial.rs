//! Radial filters: vignette and chromatic aberration. Their effect at a
//! pixel depends on its distance from the image center, as a fraction of
//! the center-to-corner distance.
//!
//! Distances are carried as squared values in half-pixel units
//! (`(2x - w)^2 + (2y - h)^2` against `w^2 + h^2`), so the ratio to the
//! corner distance is exact; square roots are taken once, as integer
//! square roots of the scaled squares.

use vstd::prelude::*;
use crate::image::{buf_ok, get_ch, px};
use crate::math::{isqrt, lemma_div_le, spec_isqrt};

verus! {

/// Squared distance of pixel `(x, y)` from the image center, in
/// quarter-pixel units.
pub open spec fn dist_sq(w: int, h: int, x: int, y: int) -> int {
    (2 * x - w) * (2 * x - w) + (2 * y - h) * (2 * y - h)
}

/// Squared center-to-corner distance, in the same quarter-pixel units.
pub open spec fn max_dist_sq(w: int, h: int) -> int {
    w * w + h * h
}

/// The vignette attenuation at `(x, y)`, in 2000ths: the distance
/// fraction times `1.5 * i`, bounded at the whole, subtracted from the
/// whole.
pub open spec fn vignette_keep(w: int, h: int, k: int, x: int, y: int) -> int {
    let t = dist_sq(w, h, x, y) * 9 * k * k / max_dist_sq(w, h);
    let s = spec_isqrt(t);
    if s >= 2000 {
        0
    } else {
        2000 - s
    }
}

/// Vignette at one pixel: every color channel is scaled by the keep
/// fraction (fractional part dropped); alpha is untouched.
pub open spec fn spec_vignette_rgb(data: Seq<u8>, w: int, h: int, k: int, x: int, y: int) -> (
    int,
    int,
    int,
) {
    let keep = vignette_keep(w, h, k, x, y);
    (
        (px(data, w, x, y, 0) as int) * keep / 2000,
        (px(data, w, x, y, 1) as int) * keep / 2000,
        (px(data, w, x, y, 2) as int) * keep / 2000,
    )
}

/// The squared-distance pair at `(x, y)`, exactly as the specs above
/// define them.
fn dist_sq_exec(w: u32, h: u32, x: u32, y: u32) -> (d: (u128, u128))
    requires
        x < w,
        y < h,
    ensures
        d.0 == dist_sq(w as int, h as int, x as int, y as int),
        d.1 == max_dist_sq(w as int, h as int),
        d.0 <= d.1,
        0 < d.1 < 0x2_0000_0000_0000_0000,
{
    let ddx: i128 = 2 * (x as i128) - w as i128;
    let ddy: i128 = 2 * (y as i128) - h as i128;
    proof {
        assert(0 <= ddx * ddx && ddx * ddx <= (w as int) * (w as int)) by (nonlinear_arith)
            requires -(w as int) <= ddx && ddx <= w as int;
        assert(0 <= ddy * ddy && ddy * ddy <= (h as int) * (h as int)) by (nonlinear_arith)
            requires -(h as int) <= ddy && ddy <= h as int;
        assert((w as int) * (w as int) < 0x1_0000_0000_0000_0000) by (nonlinear_arith)
            requires w < 0x1_0000_0000;
        assert((h as int) * (h as int) < 0x1_0000_0000_0000_0000) by (nonlinear_arith)
            requires h < 0x1_0000_0000;
        assert((w as int) * (w as int) >= 1) by (nonlinear_arith)
            requires w >= 1;
    }
    let d2: u128 = (ddx * ddx) as u128 + (ddy * ddy) as u128;
    let m2: u128 = (w as u128) * (w as u128) + (h as u128) * (h as u128);
    (d2, m2)
}

/// Vignette of the pixel at `(x, y)`.
pub fn vignette_px(data: &[u8], w: u32, h: u32, k: u32, x: u32, y: u32) -> (out: (u8, u8, u8))
    requires
        buf_ok(data@, w as int, h as int),
        x < w,
        y < h,
        k <= 1000,
    ensures
        (out.0 as int, out.1 as int, out.2 as int) == spec_vignette_rgb(
            data@, w as int, h as int, k as int, x as int, y as int),
{
    let (d2, m2) = dist_sq_exec(w, h, x, y);
    proof {
        assert(d2 * 9 * (k as int) <= m2 * 9000 && d2 * 9 * (k as int) * (k as int) <= m2
            * 9000000) by (nonlinear_arith)
            requires 0 <= d2 <= m2 && 0 <= k <= 1000;
    }
    let t: u128 = d2 * 9 * (k as u128) * (k as u128) / m2;
    let s = isqrt(t);
    let keep: u64 = if s >= 2000 {
        0
    } else {
        2000 - s
    };
    let r0 = get_ch(data, w, h, x, y, 0) as u64;
    let g0 = get_ch(data, w, h, x, y, 1) as u64;
    let b0 = get_ch(data, w, h, x, y, 2) as u64;
    proof {
        assert(r0 * keep <= 255 * 2000 && g0 * keep <= 255 * 2000 && b0 * keep <= 255
            * 2000) by (nonlinear_arith)
            requires r0 <= 255 && g0 <= 255 && b0 <= 255 && 0 <= keep <= 2000;
        lemma_div_le((r0 * keep) as int, 2000, 255);
        lemma_div_le((g0 * keep) as int, 2000, 255);
        lemma_div_le((b0 * keep) as int, 2000, 255);
    }
    ((r0 * keep / 2000) as u8, (g0 * keep / 2000) as u8, (b0 * keep / 2000) as u8)
}

/// The chromatic shift at `(x, y)`: the distance fraction times the
/// offset `k/100`, rounded to the nearest pixel (half up).
pub open spec fn chroma_shift(w: int, h: int, k: int, x: int, y: int) -> int {
    let off = k / 100;
    let t = 4 * dist_sq(w, h, x, y) * off * off / max_dist_sq(w, h);
    (spec_isqrt(t) + 1) / 2
}

/// Chromatic aberration at one pixel: red is sampled `shift` pixels to
/// the right, blue `shift` pixels to the left (both clamped to the row),
/// green and alpha from the pixel itself.
pub open spec fn spec_chroma_rgb(data: Seq<u8>, w: int, h: int, k: int, x: int, y: int) -> (
    int,
    int,
    int,
) {
    let ro = chroma_shift(w, h, k, x, y);
    let rx = if x + ro <= w - 1 { x + ro } else { w - 1 };
    let bx = if x - ro >= 0 { x - ro } else { 0 };
    (px(data, w, rx, y, 0) as int, px(data, w, x, y, 1) as int, px(data, w, bx, y, 2) as int)
}

/// Chromatic aberration of the pixel at `(x, y)`.
pub fn chroma_px(data: &[u8], w: u32, h: u32, k: u32, x: u32, y: u32) -> (out: (u8, u8, u8))
    requires
        buf_ok(data@, w as int, h as int),
        x < w,
        y < h,
        k <= 1000,
    ensures
        (out.0 as int, out.1 as int, out.2 as int) == spec_chroma_rgb(
            data@, w as int, h as int, k as int, x as int, y as int),
{
    let (d2, m2) = dist_sq_exec(w, h, x, y);
    let off = (k / 100) as u128;
    proof {
        assert(4 * d2 * off <= m2 * 40 && 4 * d2 * off * off <= m2 * 400) by (nonlinear_arith)
            requires 0 <= d2 <= m2 && 0 <= off <= 10;
    }
    let t: u128 = 4 * d2 * off * off / m2;
    let s = isqrt(t);
    proof {
        lemma_div_le(t as int, m2 as int, 400);
        assert(t <= 400) by (nonlinear_arith)
            requires
                t as int == 4 * (d2 as int) * (off as int) * (off as int) / (m2 as int),
                4 * (d2 as int) * (off as int) * (off as int) <= (m2 as int) * 400,
                m2 > 0;
        assert(s <= 20) by (nonlinear_arith)
            requires s >= 0 && (s as int) * (s as int) <= t as int && t <= 400;
    }
    let ro: u64 = (s + 1) / 2;
    let rx: u32 = if x as u64 + ro <= w as u64 - 1 {
        x + ro as u32
    } else {
        w - 1
    };
    let bx: u32 = if x as u64 >= ro {
        x - ro as u32
    } else {
        0
    };
    (get_ch(data, w, h, rx, y, 0), get_ch(data, w, h, x, y, 1), get_ch(data, w, h, bx, y, 2))
}

} // verus!
