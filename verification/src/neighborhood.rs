//! Neighborhood filters: box blur, sharpen, emboss, Sobel edge detection
//! and block-average pixelate. Each output pixel depends on a fixed
//! window of source pixels around it.
//!
//! Boundary policy: no wraparound and no mirroring. The blur and
//! pixelate windows shrink at the image edges (out-of-bounds samples are
//! excluded and the divisor shrinks); sharpen, emboss and edge detection
//! leave border pixels untouched.

use vstd::prelude::*;
use crate::image::{buf_ok, get_ch, px};
use crate::math::{clamp_div, clamp_div_i128, lemma_div_le, spec_isqrt, isqrt};

verus! {

/// Sum of channel `c` over row `y`, columns `[x0, x1)`.
pub open spec fn row_sum(data: Seq<u8>, w: int, y: int, x0: int, x1: int, c: int) -> int
    decreases x1 - x0,
{
    if x1 <= x0 {
        0
    } else {
        row_sum(data, w, y, x0, x1 - 1, c) + px(data, w, x1 - 1, y, c)
    }
}

/// Sum of channel `c` over the rectangle `[x0, x1) x [y0, y1)`.
pub open spec fn rect_sum(data: Seq<u8>, w: int, x0: int, x1: int, y0: int, y1: int, c: int) -> int
    decreases y1 - y0,
{
    if y1 <= y0 {
        0
    } else {
        rect_sum(data, w, x0, x1, y0, y1 - 1, c) + row_sum(data, w, y1 - 1, x0, x1, c)
    }
}

/// A row sum of `n` channel bytes lies in `[0, 255 * n]`.
pub proof fn lemma_row_sum_bounds(data: Seq<u8>, w: int, y: int, x0: int, x1: int, c: int)
    requires
        x0 <= x1,
    ensures
        0 <= row_sum(data, w, y, x0, x1, c) <= 255 * (x1 - x0),
    decreases x1 - x0,
{
    if x1 > x0 {
        lemma_row_sum_bounds(data, w, y, x0, x1 - 1, c);
    }
}

/// A rectangle sum of `m * n` channel bytes lies in `[0, 255 * m * n]`.
pub proof fn lemma_rect_sum_bounds(
    data: Seq<u8>,
    w: int,
    x0: int,
    x1: int,
    y0: int,
    y1: int,
    c: int,
)
    requires
        x0 <= x1,
        y0 <= y1,
    ensures
        0 <= rect_sum(data, w, x0, x1, y0, y1, c) <= 255 * (x1 - x0) * (y1 - y0),
    decreases y1 - y0,
{
    if y1 > y0 {
        lemma_rect_sum_bounds(data, w, x0, x1, y0, y1 - 1, c);
        lemma_row_sum_bounds(data, w, y1 - 1, x0, x1, c);
        assert(255 * (x1 - x0) * (y1 - y0 - 1) + 255 * (x1 - x0) == 255 * (x1 - x0) * (y1
            - y0)) by (nonlinear_arith);
    }
}

/// Sums channel `c` over the rectangle `[x0, x1) x [y0, y1)`.
fn rect_sum_exec(data: &[u8], w: u32, h: u32, x0: u32, x1: u32, y0: u32, y1: u32, c: u32) -> (s:
    u64)
    requires
        buf_ok(data@, w as int, h as int),
        x0 <= x1 <= w,
        y0 <= y1 <= h,
        x1 - x0 <= 0xffff,
        y1 - y0 <= 0xffff,
        c < 4,
    ensures
        s == rect_sum(data@, w as int, x0 as int, x1 as int, y0 as int, y1 as int, c as int),
{
    let ghost dv = data@;
    let mut s: u64 = 0;
    let mut yy = y0;
    while yy < y1
        invariant
            buf_ok(dv, w as int, h as int),
            data@ == dv,
            x0 <= x1 <= w,
            y0 <= yy <= y1 <= h,
            x1 - x0 <= 0xffff,
            y1 - y0 <= 0xffff,
            c < 4,
            s == rect_sum(dv, w as int, x0 as int, x1 as int, y0 as int, yy as int, c as int),
            s <= 255 * 0xffff * 0xffff,
        decreases y1 - yy,
    {
        let mut xx = x0;
        let mut row: u64 = 0;
        while xx < x1
            invariant
                buf_ok(dv, w as int, h as int),
                data@ == dv,
                x0 <= xx <= x1 <= w,
                y0 <= yy < y1 <= h,
                x1 - x0 <= 0xffff,
                c < 4,
                row == row_sum(dv, w as int, yy as int, x0 as int, xx as int, c as int),
                row <= 255 * 0xffff,
            decreases x1 - xx,
        {
            proof {
                lemma_row_sum_bounds(dv, w as int, yy as int, x0 as int, xx as int, c as int);
            }
            row = row + get_ch(data, w, h, xx, yy, c) as u64;
            xx += 1;
        }
        proof {
            lemma_rect_sum_bounds(
                dv, w as int, x0 as int, x1 as int, y0 as int, yy as int, c as int);
            lemma_row_sum_bounds(dv, w as int, yy as int, x0 as int, x1 as int, c as int);
            assert(rect_sum(dv, w as int, x0 as int, x1 as int, y0 as int, yy as int, c as int)
                <= 255 * 0xffff * 0xfffe) by (nonlinear_arith)
                requires
                    rect_sum(dv, w as int, x0 as int, x1 as int, y0 as int, yy as int, c as int)
                        <= 255 * (x1 - x0) * (yy - y0),
                    x1 - x0 <= 0xffff,
                    0 <= yy - y0 <= 0xfffe,
                    x1 >= x0;
        }
        s = s + row;
        yy += 1;
    }
    s
}

/// The blur radius for an intensity in thousandths: `k/100 + 1`,
/// between 1 and 11.
pub open spec fn blur_radius(k: int) -> int {
    k / 100 + 1
}

/// Box blur at one pixel: each color channel is the average (fractional
/// part dropped) over the square window of the blur radius, intersected
/// with the image bounds.
pub open spec fn spec_blur_rgb(data: Seq<u8>, w: int, h: int, k: int, x: int, y: int) -> (
    int,
    int,
    int,
) {
    let r = blur_radius(k);
    let x0 = if x - r >= 0 { x - r } else { 0 };
    let x1 = if x + r + 1 <= w { x + r + 1 } else { w };
    let y0 = if y - r >= 0 { y - r } else { 0 };
    let y1 = if y + r + 1 <= h { y + r + 1 } else { h };
    let cnt = (x1 - x0) * (y1 - y0);
    (
        rect_sum(data, w, x0, x1, y0, y1, 0) / cnt,
        rect_sum(data, w, x0, x1, y0, y1, 1) / cnt,
        rect_sum(data, w, x0, x1, y0, y1, 2) / cnt,
    )
}

/// Box blur of the pixel at `(x, y)`.
pub fn blur_px(data: &[u8], w: u32, h: u32, k: u32, x: u32, y: u32) -> (out: (u8, u8, u8))
    requires
        buf_ok(data@, w as int, h as int),
        x < w,
        y < h,
        k <= 1000,
    ensures
        (out.0 as int, out.1 as int, out.2 as int) == spec_blur_rgb(
            data@, w as int, h as int, k as int, x as int, y as int),
{
    let r = k / 100 + 1;
    let x0 = if x >= r { x - r } else { 0 };
    let x1 = if x as u64 + r as u64 + 1 <= w as u64 { x + r + 1 } else { w };
    let y0 = if y >= r { y - r } else { 0 };
    let y1 = if y as u64 + r as u64 + 1 <= h as u64 { y + r + 1 } else { h };
    let sr = rect_sum_exec(data, w, h, x0, x1, y0, y1, 0);
    let sg = rect_sum_exec(data, w, h, x0, x1, y0, y1, 1);
    let sb = rect_sum_exec(data, w, h, x0, x1, y0, y1, 2);
    let dx: u64 = (x1 - x0) as u64;
    let dy: u64 = (y1 - y0) as u64;
    proof {
        assert(1 <= dx * dy <= 529) by (nonlinear_arith)
            requires 1 <= dx <= 23 && 1 <= dy <= 23;
    }
    let cnt: u64 = dx * dy;
    proof {
        lemma_rect_sum_bounds(data@, w as int, x0 as int, x1 as int, y0 as int, y1 as int, 0);
        lemma_rect_sum_bounds(data@, w as int, x0 as int, x1 as int, y0 as int, y1 as int, 1);
        lemma_rect_sum_bounds(data@, w as int, x0 as int, x1 as int, y0 as int, y1 as int, 2);
        assert(255 * (x1 - x0) * (y1 - y0) == 255 * cnt) by (nonlinear_arith)
            requires cnt == (x1 - x0) * (y1 - y0);
        lemma_div_le(sr as int, cnt as int, 255);
        lemma_div_le(sg as int, cnt as int, 255);
        lemma_div_le(sb as int, cnt as int, 255);
    }
    ((sr / cnt) as u8, (sg / cnt) as u8, (sb / cnt) as u8)
}

/// Whether `(x, y)` lies on the one-pixel border that the sharpen,
/// emboss and edge-detect filters leave untouched.
pub open spec fn on_border(w: int, h: int, x: int, y: int) -> bool {
    x == 0 || y == 0 || x == w - 1 || y == h - 1
}

/// Sharpen at one pixel: border pixels are unchanged; for interior
/// pixels each color channel becomes
/// `center*(1 + 4f) - (top+bottom+left+right)*f` with `f = 2i`, clamped.
pub open spec fn spec_sharpen_rgb(data: Seq<u8>, w: int, h: int, k: int, x: int, y: int) -> (
    int,
    int,
    int,
) {
    if on_border(w, h, x, y) {
        (px(data, w, x, y, 0) as int, px(data, w, x, y, 1) as int, px(data, w, x, y, 2) as int)
    } else {
        let t0 = sharpen_ch(data, w, x, y, 0, k);
        let t1 = sharpen_ch(data, w, x, y, 1, k);
        let t2 = sharpen_ch(data, w, x, y, 2, k);
        (t0, t1, t2)
    }
}

/// One interior channel of the sharpen filter.
pub open spec fn sharpen_ch(data: Seq<u8>, w: int, x: int, y: int, c: int, k: int) -> int {
    let center = px(data, w, x, y, c) as int;
    let neigh = px(data, w, x, y - 1, c) as int + px(data, w, x, y + 1, c) as int + px(
        data, w, x - 1, y, c) as int + px(data, w, x + 1, y, c) as int;
    clamp_div(center * 500 + (4 * center - neigh) * k, 500)
}

/// Sharpen of the pixel at `(x, y)`.
pub fn sharpen_px(data: &[u8], w: u32, h: u32, k: u32, x: u32, y: u32) -> (out: (u8, u8, u8))
    requires
        buf_ok(data@, w as int, h as int),
        x < w,
        y < h,
        k <= 1000,
    ensures
        (out.0 as int, out.1 as int, out.2 as int) == spec_sharpen_rgb(
            data@, w as int, h as int, k as int, x as int, y as int),
{
    if x == 0 || y == 0 || x == w - 1 || y == h - 1 {
        (get_ch(data, w, h, x, y, 0), get_ch(data, w, h, x, y, 1), get_ch(data, w, h, x, y, 2))
    } else {
        (
            sharpen_ch_exec(data, w, h, k, x, y, 0),
            sharpen_ch_exec(data, w, h, k, x, y, 1),
            sharpen_ch_exec(data, w, h, k, x, y, 2),
        )
    }
}

/// One interior channel of the sharpen filter.
fn sharpen_ch_exec(data: &[u8], w: u32, h: u32, k: u32, x: u32, y: u32, c: u32) -> (v: u8)
    requires
        buf_ok(data@, w as int, h as int),
        0 < x < w - 1,
        0 < y < h - 1,
        c < 3,
        k <= 1000,
    ensures
        v == sharpen_ch(data@, w as int, x as int, y as int, c as int, k as int),
{
    let center = get_ch(data, w, h, x, y, c) as i64;
    let neigh = get_ch(data, w, h, x, y - 1, c) as i64 + get_ch(data, w, h, x, y + 1, c) as i64
        + get_ch(data, w, h, x - 1, y, c) as i64 + get_ch(data, w, h, x + 1, y, c) as i64;
    let diff = 4 * center - neigh;
    proof {
        assert(diff * k <= 1020 * 1000 && diff * k >= -1020 * 1000) by (nonlinear_arith)
            requires -1020 <= diff <= 1020 && 0 <= k <= 1000;
    }
    clamp_div_i128((center * 500 + diff * k as i64) as i128, 500)
}

/// Emboss at one pixel: border pixels are unchanged; for interior pixels
/// the diagonal gradient `(bottom_right - top_left) * i + 128` is blended
/// with the original channel by the intensity and clamped.
pub open spec fn spec_emboss_rgb(data: Seq<u8>, w: int, h: int, k: int, x: int, y: int) -> (
    int,
    int,
    int,
) {
    if on_border(w, h, x, y) {
        (px(data, w, x, y, 0) as int, px(data, w, x, y, 1) as int, px(data, w, x, y, 2) as int)
    } else {
        (
            emboss_ch(data, w, x, y, 0, k),
            emboss_ch(data, w, x, y, 1, k),
            emboss_ch(data, w, x, y, 2, k),
        )
    }
}

/// One interior channel of the emboss filter.
pub open spec fn emboss_ch(data: Seq<u8>, w: int, x: int, y: int, c: int, k: int) -> int {
    let orig = px(data, w, x, y, c) as int;
    let tl = px(data, w, x - 1, y - 1, c) as int;
    let br = px(data, w, x + 1, y + 1, c) as int;
    let e = (br - tl) * k + 128000;
    clamp_div(orig * 1000000 + (e - orig * 1000) * k, 1000000)
}

/// Emboss of the pixel at `(x, y)`.
pub fn emboss_px(data: &[u8], w: u32, h: u32, k: u32, x: u32, y: u32) -> (out: (u8, u8, u8))
    requires
        buf_ok(data@, w as int, h as int),
        x < w,
        y < h,
        k <= 1000,
    ensures
        (out.0 as int, out.1 as int, out.2 as int) == spec_emboss_rgb(
            data@, w as int, h as int, k as int, x as int, y as int),
{
    if x == 0 || y == 0 || x == w - 1 || y == h - 1 {
        (get_ch(data, w, h, x, y, 0), get_ch(data, w, h, x, y, 1), get_ch(data, w, h, x, y, 2))
    } else {
        (
            emboss_ch_exec(data, w, h, k, x, y, 0),
            emboss_ch_exec(data, w, h, k, x, y, 1),
            emboss_ch_exec(data, w, h, k, x, y, 2),
        )
    }
}

/// One interior channel of the emboss filter.
fn emboss_ch_exec(data: &[u8], w: u32, h: u32, k: u32, x: u32, y: u32, c: u32) -> (v: u8)
    requires
        buf_ok(data@, w as int, h as int),
        0 < x < w - 1,
        0 < y < h - 1,
        c < 3,
        k <= 1000,
    ensures
        v == emboss_ch(data@, w as int, x as int, y as int, c as int, k as int),
{
    let orig = get_ch(data, w, h, x, y, c) as i64;
    let tl = get_ch(data, w, h, x - 1, y - 1, c) as i64;
    let br = get_ch(data, w, h, x + 1, y + 1, c) as i64;
    let ki = k as i64;
    proof {
        assert((br - tl) * ki <= 255000 && (br - tl) * ki >= -255000) by (nonlinear_arith)
            requires -255 <= br - tl <= 255 && 0 <= ki <= 1000;
    }
    let e = (br - tl) * ki + 128000;
    let d = e - orig * 1000;
    proof {
        assert(d * ki <= 383000 * 1000 && d * ki >= -382000 * 1000) by (nonlinear_arith)
            requires -382000 <= d <= 383000 && 0 <= ki <= 1000;
    }
    clamp_div_i128((orig * 1000000 + d * ki) as i128, 1000000)
}

/// Three times the mean luminance `(r + g + b) / 3` of the pixel at
/// `(x, y)`: the Sobel taps are computed against this integer sum so the
/// division by three happens once, on the gradient magnitude.
pub open spec fn lum3(data: Seq<u8>, w: int, x: int, y: int) -> int {
    px(data, w, x, y, 0) as int + px(data, w, x, y, 1) as int + px(data, w, x, y, 2) as int
}

/// Three times the horizontal Sobel response at `(x, y)`.
pub open spec fn sobel_gx3(data: Seq<u8>, w: int, x: int, y: int) -> int {
    -lum3(data, w, x - 1, y - 1) - 2 * lum3(data, w, x - 1, y) - lum3(data, w, x - 1, y + 1) + lum3(
        data, w, x + 1, y - 1) + 2 * lum3(data, w, x + 1, y) + lum3(data, w, x + 1, y + 1)
}

/// Three times the vertical Sobel response at `(x, y)`.
pub open spec fn sobel_gy3(data: Seq<u8>, w: int, x: int, y: int) -> int {
    -lum3(data, w, x - 1, y - 1) - 2 * lum3(data, w, x, y - 1) - lum3(data, w, x + 1, y - 1) + lum3(
        data, w, x - 1, y + 1) + 2 * lum3(data, w, x, y + 1) + lum3(data, w, x + 1, y + 1)
}

/// One interior channel of the edge-detect filter: the Sobel gradient
/// magnitude over mean luminance, blended with the original channel by
/// the intensity and clamped. The magnitude is carried as three times
/// its value (`e3`), so the blend divides by `3 * 1000` once.
pub open spec fn edge_ch(data: Seq<u8>, w: int, x: int, y: int, c: int, k: int) -> int {
    let gx3 = sobel_gx3(data, w, x, y);
    let gy3 = sobel_gy3(data, w, x, y);
    let e3 = spec_isqrt(gx3 * gx3 + gy3 * gy3);
    let orig = px(data, w, x, y, c) as int;
    clamp_div(orig * 3000 + (e3 - 3 * orig) * k, 3000)
}

/// Edge detection at one pixel: border pixels are unchanged.
pub open spec fn spec_edge_rgb(data: Seq<u8>, w: int, h: int, k: int, x: int, y: int) -> (
    int,
    int,
    int,
) {
    if on_border(w, h, x, y) {
        (px(data, w, x, y, 0) as int, px(data, w, x, y, 1) as int, px(data, w, x, y, 2) as int)
    } else {
        (edge_ch(data, w, x, y, 0, k), edge_ch(data, w, x, y, 1, k), edge_ch(data, w, x, y, 2, k))
    }
}

/// Three times the mean luminance of the pixel at `(x, y)`.
fn lum3_exec(data: &[u8], w: u32, h: u32, x: u32, y: u32) -> (l: u32)
    requires
        buf_ok(data@, w as int, h as int),
        x < w,
        y < h,
    ensures
        l == lum3(data@, w as int, x as int, y as int),
        l <= 765,
{
    get_ch(data, w, h, x, y, 0) as u32 + get_ch(data, w, h, x, y, 1) as u32 + get_ch(
        data, w, h, x, y, 2) as u32
}

/// Edge detection of the pixel at `(x, y)`.
pub fn edge_px(data: &[u8], w: u32, h: u32, k: u32, x: u32, y: u32) -> (out: (u8, u8, u8))
    requires
        buf_ok(data@, w as int, h as int),
        x < w,
        y < h,
        k <= 1000,
    ensures
        (out.0 as int, out.1 as int, out.2 as int) == spec_edge_rgb(
            data@, w as int, h as int, k as int, x as int, y as int),
{
    if x == 0 || y == 0 || x == w - 1 || y == h - 1 {
        (get_ch(data, w, h, x, y, 0), get_ch(data, w, h, x, y, 1), get_ch(data, w, h, x, y, 2))
    } else {
        let tl = lum3_exec(data, w, h, x - 1, y - 1) as i64;
        let tc = lum3_exec(data, w, h, x, y - 1) as i64;
        let tr = lum3_exec(data, w, h, x + 1, y - 1) as i64;
        let ml = lum3_exec(data, w, h, x - 1, y) as i64;
        let mr = lum3_exec(data, w, h, x + 1, y) as i64;
        let bl = lum3_exec(data, w, h, x - 1, y + 1) as i64;
        let bc = lum3_exec(data, w, h, x, y + 1) as i64;
        let br = lum3_exec(data, w, h, x + 1, y + 1) as i64;
        let gx3 = -tl - 2 * ml - bl + tr + 2 * mr + br;
        let gy3 = -tl - 2 * tc - tr + bl + 2 * bc + br;
        proof {
            assert(0 <= gx3 * gx3 <= 3060 * 3060) by (nonlinear_arith)
                requires -3060 <= gx3 <= 3060;
            assert(0 <= gy3 * gy3 <= 3060 * 3060) by (nonlinear_arith)
                requires -3060 <= gy3 <= 3060;
        }
        let s: u128 = (gx3 * gx3 + gy3 * gy3) as u128;
        let e3u = isqrt(s);
        proof {
            assert(e3u <= 4328) by (nonlinear_arith)
                requires
                    e3u >= 0,
                    (e3u as int) * (e3u as int) <= s as int,
                    s <= 2 * 3060 * 3060;
        }
        let e3 = e3u as i64;
        let v0 = edge_blend(data, w, h, k, x, y, 0, e3);
        let v1 = edge_blend(data, w, h, k, x, y, 1, e3);
        let v2 = edge_blend(data, w, h, k, x, y, 2, e3);
        (v0, v1, v2)
    }
}

/// Blends one channel toward an already-computed gradient magnitude.
fn edge_blend(data: &[u8], w: u32, h: u32, k: u32, x: u32, y: u32, c: u32, e3: i64) -> (v: u8)
    requires
        buf_ok(data@, w as int, h as int),
        0 < x < w - 1,
        0 < y < h - 1,
        c < 3,
        k <= 1000,
        0 <= e3 <= 4328,
        e3 == spec_isqrt(
            sobel_gx3(data@, w as int, x as int, y as int) * sobel_gx3(
                data@, w as int, x as int, y as int) + sobel_gy3(
                data@, w as int, x as int, y as int) * sobel_gy3(
                data@, w as int, x as int, y as int),
        ),
    ensures
        v == edge_ch(data@, w as int, x as int, y as int, c as int, k as int),
{
    let orig = get_ch(data, w, h, x, y, c) as i64;
    let d = e3 - 3 * orig;
    proof {
        assert(d * k <= 4328 * 1000 && d * k >= -765 * 1000) by (nonlinear_arith)
            requires -765 <= d <= 4328 && 0 <= k <= 1000;
    }
    clamp_div_i128((orig * 3000 + d * k as i64) as i128, 3000)
}

/// The pixelate block size for an intensity in thousandths: `k/50 + 1`,
/// between 1 and 21.
pub open spec fn block_size(k: int) -> int {
    k / 50 + 1
}

/// Pixelate at one pixel: the image is partitioned into blocks of the
/// block size (clipped at the right and bottom edges), and every pixel
/// of a block takes the block's truncated average color.
pub open spec fn spec_pixelate_rgb(data: Seq<u8>, w: int, h: int, k: int, x: int, y: int) -> (
    int,
    int,
    int,
) {
    let bs = block_size(k);
    let x0 = (x / bs) * bs;
    let y0 = (y / bs) * bs;
    let x1 = if x0 + bs <= w { x0 + bs } else { w };
    let y1 = if y0 + bs <= h { y0 + bs } else { h };
    let cnt = (x1 - x0) * (y1 - y0);
    (
        rect_sum(data, w, x0, x1, y0, y1, 0) / cnt,
        rect_sum(data, w, x0, x1, y0, y1, 1) / cnt,
        rect_sum(data, w, x0, x1, y0, y1, 2) / cnt,
    )
}

/// Pixelate of the pixel at `(x, y)`.
pub fn pixelate_px(data: &[u8], w: u32, h: u32, k: u32, x: u32, y: u32) -> (out: (u8, u8, u8))
    requires
        buf_ok(data@, w as int, h as int),
        x < w,
        y < h,
        k <= 1000,
    ensures
        (out.0 as int, out.1 as int, out.2 as int) == spec_pixelate_rgb(
            data@, w as int, h as int, k as int, x as int, y as int),
{
    let bs = k / 50 + 1;
    proof {
        assert((x as int / bs as int) * (bs as int) <= x as int && 0 <= (x as int / bs as int) * (
        bs as int)) by (nonlinear_arith)
            requires bs > 0 && x >= 0;
        assert((y as int / bs as int) * (bs as int) <= y as int && 0 <= (y as int / bs as int) * (
        bs as int)) by (nonlinear_arith)
            requires bs > 0 && y >= 0;
    }
    let x0 = (x / bs) * bs;
    let y0 = (y / bs) * bs;
    let x1 = if x0 as u64 + bs as u64 <= w as u64 { x0 + bs } else { w };
    let y1 = if y0 as u64 + bs as u64 <= h as u64 { y0 + bs } else { h };
    proof {
        assert(x < x1 && y < y1) by (nonlinear_arith)
            requires
                bs > 0 && 0 <= x < w && 0 <= y < h && x0 == (x as int / bs as int) * bs && y0 == (
                y as int / bs as int) * bs && x1 == (if x0 + bs <= w { x0 + bs as int } else { w as int })
                    && y1 == (if y0 + bs <= h { y0 + bs as int } else { h as int });
    }
    let sr = rect_sum_exec(data, w, h, x0, x1, y0, y1, 0);
    let sg = rect_sum_exec(data, w, h, x0, x1, y0, y1, 1);
    let sb = rect_sum_exec(data, w, h, x0, x1, y0, y1, 2);
    let dx: u64 = (x1 - x0) as u64;
    let dy: u64 = (y1 - y0) as u64;
    proof {
        assert(1 <= dx * dy <= 441) by (nonlinear_arith)
            requires 1 <= dx <= 21 && 1 <= dy <= 21;
    }
    let cnt: u64 = dx * dy;
    proof {
        lemma_rect_sum_bounds(data@, w as int, x0 as int, x1 as int, y0 as int, y1 as int, 0);
        lemma_rect_sum_bounds(data@, w as int, x0 as int, x1 as int, y0 as int, y1 as int, 1);
        lemma_rect_sum_bounds(data@, w as int, x0 as int, x1 as int, y0 as int, y1 as int, 2);
        assert(255 * (x1 - x0) * (y1 - y0) == 255 * cnt) by (nonlinear_arith)
            requires cnt == (x1 - x0) * (y1 - y0);
        lemma_div_le(sr as int, cnt as int, 255);
        lemma_div_le(sg as int, cnt as int, 255);
        lemma_div_le(sb as int, cnt as int, 255);
    }
    ((sr / cnt) as u8, (sg / cnt) as u8, (sb / cnt) as u8)
}

} // verus!
