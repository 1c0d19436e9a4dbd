//! Geometric transforms: crop, bilinear resize, rotate and flip. Unlike
//! the filters, these may change the output dimensions.

use vstd::prelude::*;
use vstd::slice::slice_index_get;
use crate::image::{buf_ok, get_ch, pidx, px};
use crate::math::{lemma_div_le, spec_clamp};

verus! {

/// Magnitude of a value.
pub open spec fn abs_i(v: int) -> int {
    if v < 0 {
        -v
    } else {
        v
    }
}

/// The source pixel mirrored into `(x, y)` by a flip: the column is
/// reversed for a horizontal flip, the row for a vertical one.
pub open spec fn flip_src(w: int, h: int, horizontal: bool, x: int, y: int) -> (int, int) {
    if horizontal {
        (w - 1 - x, y)
    } else {
        (x, h - 1 - y)
    }
}

/// How a flat byte index splits into a pixel and a channel.
proof fn lemma_byte_split(p: int, c: int)
    by (nonlinear_arith)
    requires
        0 <= p,
        0 <= c < 4,
    ensures
        (4 * p + c) / 4 == p,
        (4 * p + c) % 4 == c,
{
}

/// How a flat pixel index splits into its row and column.
proof fn lemma_pixel_split(w: int, x: int, y: int)
    by (nonlinear_arith)
    requires
        0 <= x < w,
        0 <= y,
    ensures
        (y * w + x) % w == x,
        (y * w + x) / w == y,
        y * w + x >= 0,
{
}

/// Mirrors the image horizontally or vertically: a pure index remap,
/// with every output pixel copied whole from its mirrored source pixel.
pub fn flip(data: &[u8], w: u32, h: u32, horizontal: bool) -> (out: Vec<u8>)
    requires
        buf_ok(data@, w as int, h as int),
    ensures
        out@.len() == data@.len(),
        forall|x: int, y: int, c: int|
            0 <= x < w && 0 <= y < h && 0 <= c < 4 ==> out@[pidx(w as int, x, y, c)] == px(
                data@,
                w as int,
                flip_src(w as int, h as int, horizontal, x, y).0,
                flip_src(w as int, h as int, horizontal, x, y).1,
                c,
            ),
{
    let ghost dv = data@;
    let mut out: Vec<u8> = Vec::new();
    let mut y: u32 = 0;
    while y < h
        invariant
            buf_ok(dv, w as int, h as int),
            data@ == dv,
            y <= h,
            out@.len() == 4 * ((y as int) * (w as int)),
            forall|j: int|
                0 <= j < out@.len() ==> out@[j] == px(
                    dv,
                    w as int,
                    flip_src(w as int, h as int, horizontal, (j / 4) % (w as int), (j / 4) / (
                    w as int)).0,
                    flip_src(w as int, h as int, horizontal, (j / 4) % (w as int), (j / 4) / (
                    w as int)).1,
                    j % 4,
                ),
        decreases h - y,
    {
        let mut x: u32 = 0;
        while x < w
            invariant
                buf_ok(dv, w as int, h as int),
                data@ == dv,
                y < h,
                x <= w,
                out@.len() == 4 * ((y as int) * (w as int) + (x as int)),
                forall|j: int|
                    0 <= j < out@.len() ==> out@[j] == px(
                        dv,
                        w as int,
                        flip_src(w as int, h as int, horizontal, (j / 4) % (w as int), (j / 4) / (
                        w as int)).0,
                        flip_src(w as int, h as int, horizontal, (j / 4) % (w as int), (j / 4) / (
                        w as int)).1,
                        j % 4,
                    ),
            decreases w - x,
        {
            let sx: u32 = if horizontal {
                w - 1 - x
            } else {
                x
            };
            let sy: u32 = if horizontal {
                y
            } else {
                h - 1 - y
            };
            out.push(get_ch(data, w, h, sx, sy, 0));
            out.push(get_ch(data, w, h, sx, sy, 1));
            out.push(get_ch(data, w, h, sx, sy, 2));
            out.push(get_ch(data, w, h, sx, sy, 3));
            proof {
                lemma_pixel_split(w as int, x as int, y as int);
                lemma_byte_split((y as int) * (w as int) + (x as int), 0);
                lemma_byte_split((y as int) * (w as int) + (x as int), 1);
                lemma_byte_split((y as int) * (w as int) + (x as int), 2);
                lemma_byte_split((y as int) * (w as int) + (x as int), 3);
            }
            x += 1;
        }
        proof {
            assert(4 * ((y as int) * (w as int) + (w as int)) == 4 * (((y as int) + 1) * (
            w as int))) by (nonlinear_arith);
        }
        y += 1;
    }
    proof {
        assert(4 * ((h as int) * (w as int)) == (w as int) * (h as int) * 4) by (nonlinear_arith);
        assert forall|x: int, y: int, c: int|
            0 <= x < w && 0 <= y < h && 0 <= c < 4 implies out@[pidx(w as int, x, y, c)] == px(
            dv,
            w as int,
            flip_src(w as int, h as int, horizontal, x, y).0,
            flip_src(w as int, h as int, horizontal, x, y).1,
            c,
        ) by {
            crate::image::lemma_pidx_in_bounds(dv, w as int, h as int, x, y, c);
            lemma_pixel_split(w as int, x, y);
            lemma_byte_split(y * (w as int) + x, c);
        }
    }
    out
}

/// Whether the `4 * cw` bytes of source row `r`, starting at column `x`,
/// lie inside a buffer of `len` bytes.
pub open spec fn crop_row_fits(len: int, w: int, x: int, cw: int, r: int) -> bool {
    4 * (r * w + x + cw) <= len
}

/// The bytes of source row `r`, columns `[x, x + cw)`.
pub open spec fn crop_row(data: Seq<u8>, w: int, x: int, cw: int, r: int) -> Seq<u8> {
    Seq::new((4 * cw) as nat, |i: int| data[4 * (r * w + x) + i])
}

/// The crop output: rows `y..y + ch` in order, each copied whole when
/// its byte range fits in the source and skipped otherwise (the
/// documented lossy behavior for ranges that leave the buffer).
pub open spec fn spec_crop(data: Seq<u8>, w: int, x: int, y: int, cw: int, ch: int) -> Seq<u8>
    decreases ch,
{
    if ch <= 0 {
        Seq::empty()
    } else {
        spec_crop(data, w, x, y, cw, ch - 1) + (if crop_row_fits(
            data.len() as int, w, x, cw, y + ch - 1) {
            crop_row(data, w, x, cw, y + ch - 1)
        } else {
            Seq::empty()
        })
    }
}

/// Extracts the sub-rectangle at `(x, y)` of size `cw * ch`, row by row;
/// rows whose byte range exceeds the source buffer are silently skipped.
pub fn crop(data: &[u8], w: u32, x: u32, y: u32, cw: u32, ch: u32) -> (out: Vec<u8>)
    requires
        y + ch <= u32::MAX,
        4 * (cw as int) * (ch as int) <= usize::MAX,
    ensures
        out@ == spec_crop(data@, w as int, x as int, y as int, cw as int, ch as int),
{
    let ghost dv = data@;
    let n = data.len();
    let mut out: Vec<u8> = Vec::new();
    let mut rr: u32 = 0;
    while rr < ch
        invariant
            data@ == dv,
            n == dv.len(),
            rr <= ch,
            y + ch <= u32::MAX,
            out@ == spec_crop(dv, w as int, x as int, y as int, cw as int, rr as int),
        decreases ch - rr,
    {
        let r: u128 = y as u128 + rr as u128;
        proof {
            assert(0 <= (r as int) * (w as int) && (r as int) * (w as int)
                <= 0xffff_ffff_ffff_ffff) by (nonlinear_arith)
                requires 0 <= r < 0x1_0000_0000 && 0 <= w < 0x1_0000_0000;
        }
        let start: u128 = (r * w as u128 + x as u128) * 4;
        let end: u128 = start + 4 * cw as u128;
        proof {
            assert(start == 4 * ((r as int) * (w as int) + x as int) && end == 4 * ((r as int) * (
            w as int) + x as int + cw as int)) by (nonlinear_arith)
                requires
                    start == ((r as int) * (w as int) + x as int) * 4,
                    end == start + 4 * (cw as int);
        }
        if end <= n as u128 {
            let row_base: usize = ((r as usize) * (w as usize) + x as usize) * 4;
            let mut t: usize = 0;
            while t < 4 * (cw as usize)
                invariant
                    data@ == dv,
                    n == dv.len(),
                    t <= 4 * (cw as int),
                    row_base == 4 * ((r as int) * (w as int) + x as int),
                    row_base + 4 * (cw as int) <= n,
                    out@ == spec_crop(dv, w as int, x as int, y as int, cw as int, rr as int)
                        + Seq::new(t as nat, |i: int| dv[row_base + i]),
                decreases 4 * (cw as int) - t,
            {
                out.push(*slice_index_get(data, row_base + t));
                proof {
                    assert(spec_crop(dv, w as int, x as int, y as int, cw as int, rr as int)
                        + Seq::new((t + 1) as nat, |i: int| dv[row_base + i]) =~= spec_crop(
                        dv, w as int, x as int, y as int, cw as int, rr as int) + Seq::new(
                        t as nat, |i: int| dv[row_base + i]).push(dv[row_base + t as int]));
                }
                t += 1;
            }
            proof {
                assert(out@ =~= spec_crop(
                    dv, w as int, x as int, y as int, cw as int, rr as int + 1)) by {
                    assert(crop_row_fits(dv.len() as int, w as int, x as int, cw as int, r as int));
                    assert(Seq::new((4 * cw) as nat, |i: int| dv[row_base + i]) =~= crop_row(
                        dv, w as int, x as int, cw as int, r as int));
                }
            }
        } else {
            proof {
                assert(!crop_row_fits(dv.len() as int, w as int, x as int, cw as int, r as int));
                assert(out@ =~= spec_crop(
                    dv, w as int, x as int, y as int, cw as int, rr as int + 1));
            }
        }
        rr += 1;
    }
    out
}

/// One channel of the bilinear resize: the four source pixels around the
/// exact source coordinate, blended by the fractional offsets (exact
/// rational arithmetic), rounded half up.
pub open spec fn resize_ch(
    data: Seq<u8>,
    sw: int,
    sh: int,
    dw: int,
    dh: int,
    x: int,
    y: int,
    c: int,
) -> int {
    let x0 = x * sw / dw;
    let y0 = y * sh / dh;
    let fx = (x * sw) % dw;
    let fy = (y * sh) % dh;
    let x1 = if x0 + 1 <= sw - 1 { x0 + 1 } else { sw - 1 };
    let y1 = if y0 + 1 <= sh - 1 { y0 + 1 } else { sh - 1 };
    let p00 = px(data, sw, x0, y0, c) as int;
    let p10 = px(data, sw, x1, y0, c) as int;
    let p01 = px(data, sw, x0, y1, c) as int;
    let p11 = px(data, sw, x1, y1, c) as int;
    let num = p00 * (dw - fx) * (dh - fy) + p10 * fx * (dh - fy) + p01 * (dw - fx) * fy + p11 * fx
        * fy;
    let den = dw * dh;
    (2 * num + den) / (2 * den)
}

/// Bounds needed to evaluate one resize channel: the source indices are
/// legal and the weights are a partition of `dw * dh`.
proof fn lemma_resize_coords(sw: int, sh: int, dw: int, dh: int, x: int, y: int)
    by (nonlinear_arith)
    requires
        sw >= 1,
        sh >= 1,
        0 <= x < dw,
        0 <= y < dh,
    ensures
        0 <= x * sw / dw < sw,
        0 <= y * sh / dh < sh,
        0 <= (x * sw) % dw < dw,
        0 <= (y * sh) % dh < dh,
{
}

/// The blended numerator stays within `255` times the weight total.
proof fn lemma_resize_num_range(
    p00: int,
    p10: int,
    p01: int,
    p11: int,
    fx: int,
    fy: int,
    dw: int,
    dh: int,
)
    by (nonlinear_arith)
    requires
        0 <= p00 <= 255,
        0 <= p10 <= 255,
        0 <= p01 <= 255,
        0 <= p11 <= 255,
        0 <= fx < dw,
        0 <= fy < dh,
    ensures
        0 <= p00 * (dw - fx) * (dh - fy) + p10 * fx * (dh - fy) + p01 * (dw - fx) * fy + p11 * fx
            * fy <= 255 * dw * dh,
        dw * dh >= 1,
{
}

/// One channel of the bilinear resize.
fn resize_ch_exec(data: &[u8], sw: u32, sh: u32, dw: u32, dh: u32, x: u32, y: u32, c: u32) -> (v:
    u8)
    requires
        buf_ok(data@, sw as int, sh as int),
        sw >= 1,
        sh >= 1,
        x < dw,
        y < dh,
        c < 4,
    ensures
        v == resize_ch(data@, sw as int, sh as int, dw as int, dh as int, x as int, y as int,
            c as int),
{
    proof {
        assert(0 <= (x as int) * (sw as int) && (x as int) * (sw as int) <= 0xffff_ffff_ffff_ffff
            && 0 <= (y as int) * (sh as int) && (y as int) * (sh as int)
            <= 0xffff_ffff_ffff_ffff) by (nonlinear_arith)
            requires
                0 <= x < 0x1_0000_0000,
                0 <= sw < 0x1_0000_0000,
                0 <= y < 0x1_0000_0000,
                0 <= sh < 0x1_0000_0000;
    }
    let xn: u64 = x as u64 * sw as u64;
    let yn: u64 = y as u64 * sh as u64;
    proof {
        lemma_resize_coords(sw as int, sh as int, dw as int, dh as int, x as int, y as int);
    }
    let x0: u32 = (xn / dw as u64) as u32;
    let y0: u32 = (yn / dh as u64) as u32;
    let fx: u64 = xn % dw as u64;
    let fy: u64 = yn % dh as u64;
    let x1: u32 = if x0 + 1 <= sw - 1 {
        x0 + 1
    } else {
        sw - 1
    };
    let y1: u32 = if y0 + 1 <= sh - 1 {
        y0 + 1
    } else {
        sh - 1
    };
    let p00 = get_ch(data, sw, sh, x0, y0, c) as u128;
    let p10 = get_ch(data, sw, sh, x1, y0, c) as u128;
    let p01 = get_ch(data, sw, sh, x0, y1, c) as u128;
    let p11 = get_ch(data, sw, sh, x1, y1, c) as u128;
    let wx1 = fx as u128;
    let wx0 = dw as u128 - wx1;
    let wy1 = fy as u128;
    let wy0 = dh as u128 - wy1;
    proof {
        assert(0 < (dw as int) * (dh as int) && (dw as int) * (dh as int)
            < 0x4_0000_0000_0000_0000) by (nonlinear_arith)
            requires 0 < dw < 0x1_0000_0000 && 0 < dh < 0x1_0000_0000;
    }
    let den: u128 = dw as u128 * dh as u128;
    proof {
        assert(p00 * wx0 <= 255 * den && p10 * wx1 <= 255 * den && p01 * wx0 <= 255 * den && p11
            * wx1 <= 255 * den && p00 * wx0 * wy0 + p10 * wx1 * wy0 + p01 * wx0 * wy1 + p11 * wx1
            * wy1 <= 255 * den && 0 <= p00 * wx0 * wy0 && p00 * wx0 * wy0 <= 255 * den && 0 <= p10
            * wx1 * wy0 && p10 * wx1 * wy0 <= 255 * den && 0 <= p01 * wx0 * wy1 && p01 * wx0 * wy1
            <= 255 * den && 0 <= p11 * wx1 * wy1 && p11 * wx1 * wy1 <= 255 * den) by (
        nonlinear_arith)
            requires
                0 <= p00 <= 255,
                0 <= p10 <= 255,
                0 <= p01 <= 255,
                0 <= p11 <= 255,
                wx0 == dw - wx1,
                wy0 == dh - wy1,
                0 <= wx1 < dw,
                0 <= wy1 < dh,
                den == (dw as int) * (dh as int),
                0 < dw,
                0 < dh;
    }
    let num: u128 = p00 * wx0 * wy0 + p10 * wx1 * wy0 + p01 * wx0 * wy1 + p11 * wx1 * wy1;
    proof {
        assert(2 * num + den < 256 * (2 * den)) by (nonlinear_arith)
            requires num <= 255 * den && den >= 1;
        crate::math::lemma_div_below((2 * num + den) as int, (2 * den) as int, 256);
    }
    let v: u128 = (2 * num + den) / (2 * den);
    v as u8
}

/// Bilinear resize to `dw * dh`: every output channel (alpha included)
/// is [`resize_ch`] of the source.
pub fn resize(data: &[u8], sw: u32, sh: u32, dw: u32, dh: u32) -> (out: Vec<u8>)
    requires
        buf_ok(data@, sw as int, sh as int),
        sw >= 1,
        sh >= 1,
        4 * (dw as int) * (dh as int) <= usize::MAX,
    ensures
        out@.len() == 4 * (dw as int) * (dh as int),
        forall|x: int, y: int, c: int|
            0 <= x < dw && 0 <= y < dh && 0 <= c < 4 ==> out@[pidx(dw as int, x, y, c)]
                == resize_ch(data@, sw as int, sh as int, dw as int, dh as int, x, y, c),
{
    let ghost dv = data@;
    let mut out: Vec<u8> = Vec::new();
    let mut y: u32 = 0;
    while y < dh
        invariant
            buf_ok(dv, sw as int, sh as int),
            data@ == dv,
            sw >= 1,
            sh >= 1,
            4 * (dw as int) * (dh as int) <= usize::MAX,
            y <= dh,
            out@.len() == 4 * ((y as int) * (dw as int)),
            forall|j: int|
                0 <= j < out@.len() ==> out@[j] == resize_ch(
                    dv, sw as int, sh as int, dw as int, dh as int,
                    (j / 4) % (dw as int), (j / 4) / (dw as int), j % 4),
        decreases dh - y,
    {
        let mut x: u32 = 0;
        while x < dw
            invariant
                buf_ok(dv, sw as int, sh as int),
                data@ == dv,
                sw >= 1,
                sh >= 1,
                4 * (dw as int) * (dh as int) <= usize::MAX,
                y < dh,
                x <= dw,
                out@.len() == 4 * ((y as int) * (dw as int) + (x as int)),
                forall|j: int|
                    0 <= j < out@.len() ==> out@[j] == resize_ch(
                        dv, sw as int, sh as int, dw as int, dh as int,
                        (j / 4) % (dw as int), (j / 4) / (dw as int), j % 4),
            decreases dw - x,
        {
            proof {
                assert((y as int) * (dw as int) + (x as int) < (dw as int) * (dh as int) && 0 <= (
                y as int) * (dw as int)) by (nonlinear_arith)
                    requires 0 <= x < dw && 0 <= y < dh;
            }
            out.push(resize_ch_exec(data, sw, sh, dw, dh, x, y, 0));
            out.push(resize_ch_exec(data, sw, sh, dw, dh, x, y, 1));
            out.push(resize_ch_exec(data, sw, sh, dw, dh, x, y, 2));
            out.push(resize_ch_exec(data, sw, sh, dw, dh, x, y, 3));
            proof {
                lemma_pixel_split(dw as int, x as int, y as int);
                lemma_byte_split((y as int) * (dw as int) + (x as int), 0);
                lemma_byte_split((y as int) * (dw as int) + (x as int), 1);
                lemma_byte_split((y as int) * (dw as int) + (x as int), 2);
                lemma_byte_split((y as int) * (dw as int) + (x as int), 3);
            }
            x += 1;
        }
        proof {
            assert(4 * ((y as int) * (dw as int) + (dw as int)) == 4 * (((y as int) + 1) * (
            dw as int))) by (nonlinear_arith);
        }
        y += 1;
    }
    proof {
        assert(4 * ((dh as int) * (dw as int)) == 4 * (dw as int) * (dh as int)) by (
        nonlinear_arith);
        assert forall|x: int, y: int, c: int|
            0 <= x < dw && 0 <= y < dh && 0 <= c < 4 implies out@[pidx(dw as int, x, y, c)]
            == resize_ch(dv, sw as int, sh as int, dw as int, dh as int, x, y, c) by {
            lemma_pixel_split(dw as int, x, y);
            lemma_byte_split(y * (dw as int) + x, c);
            assert(0 <= pidx(dw as int, x, y, c) < out@.len()) by (nonlinear_arith)
                requires
                    0 <= x < dw && 0 <= y < dh && 0 <= c < 4,
                    out@.len() == 4 * (dw as int) * (dh as int);
        }
    }
    out
}

/// The truncated Taylor series for the sine of `a` degrees, in
/// `0x4000_0000`ths (the fixed-point whole): five terms over the fixed-point radian value.
pub open spec fn sin_taylor(a: int) -> int {
    let x = a * 3373259426 / 180;
    let x2 = x * x / 0x4000_0000;
    let p3 = x * x2 / 0x4000_0000;
    let p5 = p3 * x2 / 0x4000_0000;
    let p7 = p5 * x2 / 0x4000_0000;
    let p9 = p7 * x2 / 0x4000_0000;
    x - p3 / 6 + p5 / 120 - p7 / 5040 + p9 / 362880
}

/// Sine of `a` degrees for `a` in the first quadrant, in `0x4000_0000`ths (the fixed-point whole):
/// exact at 0 and 90, the bounded Taylor value between.
pub open spec fn spec_sin_q(a: int) -> int {
    if a <= 0 {
        0
    } else if a >= 90 {
        0x4000_0000
    } else {
        spec_clamp(sin_taylor(a), 0, 0x4000_0000)
    }
}

/// Sine of `d` degrees (any integer), in `0x4000_0000`ths (the fixed-point whole): quadrant
/// reduction onto [`spec_sin_q`].
pub open spec fn spec_sin_deg(d: int) -> int {
    let dm = d % 360;
    let q = dm / 90;
    let a = dm % 90;
    if q == 0 {
        spec_sin_q(a)
    } else if q == 1 {
        spec_sin_q(90 - a)
    } else if q == 2 {
        -spec_sin_q(a)
    } else {
        -spec_sin_q(90 - a)
    }
}

/// Cosine of `d` degrees, in `0x4000_0000`ths (the fixed-point whole).
pub open spec fn spec_cos_deg(d: int) -> int {
    spec_sin_deg(d + 90)
}

/// Sine of `a` degrees for `a` in the first quadrant.
fn sin_q(a: u64) -> (r: i64)
    requires
        a <= 90,
    ensures
        r == spec_sin_q(a as int),
        0 <= r <= 0x4000_0000,
{
    if a == 0 {
        0
    } else if a >= 90 {
        0x4000_0000
    } else {
        proof {
            assert(a * 3373259426 <= 1_700_000_000 * 180) by (nonlinear_arith)
                requires 0 <= a <= 89;
            lemma_div_le((a * 3373259426) as int, 180, 1_700_000_000);
        }
        let x: u128 = (a as u128) * 3373259426 / 180;
        proof {
            assert(x * x <= 2_750_000_000 * 0x4000_0000) by (nonlinear_arith)
                requires 0 <= x <= 1_700_000_000;
            lemma_div_le((x * x) as int, 0x4000_0000, 2_750_000_000);
        }
        let x2: u128 = x * x / 0x4000_0000;
        proof {
            assert(x * x2 <= 4_400_000_000 * 0x4000_0000) by (nonlinear_arith)
                requires 0 <= x <= 1_700_000_000 && 0 <= x2 <= 2_750_000_000;
            lemma_div_le((x * x2) as int, 0x4000_0000, 4_400_000_000);
        }
        let p3: u128 = x * x2 / 0x4000_0000;
        proof {
            assert(p3 * x2 <= 11_500_000_000 * 0x4000_0000) by (nonlinear_arith)
                requires 0 <= p3 <= 4_400_000_000 && 0 <= x2 <= 2_750_000_000;
            lemma_div_le((p3 * x2) as int, 0x4000_0000, 11_500_000_000);
        }
        let p5: u128 = p3 * x2 / 0x4000_0000;
        proof {
            assert(p5 * x2 <= 30_000_000_000 * 0x4000_0000) by (nonlinear_arith)
                requires 0 <= p5 <= 11_500_000_000 && 0 <= x2 <= 2_750_000_000;
            lemma_div_le((p5 * x2) as int, 0x4000_0000, 30_000_000_000);
        }
        let p7: u128 = p5 * x2 / 0x4000_0000;
        proof {
            assert(p7 * x2 <= 77_000_000_000 * 0x4000_0000) by (nonlinear_arith)
                requires 0 <= p7 <= 30_000_000_000 && 0 <= x2 <= 2_750_000_000;
            lemma_div_le((p7 * x2) as int, 0x4000_0000, 77_000_000_000);
        }
        let p9: u128 = p7 * x2 / 0x4000_0000;
        let t: i128 = x as i128 - (p3 / 6) as i128 + (p5 / 120) as i128 - (p7 / 5040) as i128 + (
        p9 / 362880) as i128;
        if t < 0 {
            0
        } else if t > 0x4000_0000 {
            0x4000_0000
        } else {
            t as i64
        }
    }
}

/// How a negative angle reduces to the canonical `[0, 360)` residue.
proof fn lemma_neg_mod(d: int, m: int)
    by (nonlinear_arith)
    requires
        d < 0,
        m == (-d) % 360,
    ensures
        d % 360 == if m == 0 { 0 } else { 360 - m },
{
}

/// Sine of `d` degrees, in `0x4000_0000`ths (the fixed-point whole).
fn sin_deg(d: i64) -> (r: i64)
    requires
        -0x2_0000_0000 <= d <= 0x2_0000_0000,
    ensures
        r == spec_sin_deg(d as int),
        -0x4000_0000 <= r <= 0x4000_0000,
{
    let dm: u64 = if d >= 0 {
        (d % 360) as u64
    } else {
        let m = ((-d) % 360) as u64;
        proof {
            lemma_neg_mod(d as int, m as int);
        }
        if m == 0 {
            0
        } else {
            360 - m
        }
    };
    let q = dm / 90;
    let a = dm % 90;
    if q == 0 {
        sin_q(a)
    } else if q == 1 {
        sin_q(90 - a)
    } else if q == 2 {
        -sin_q(a)
    } else {
        -sin_q(90 - a)
    }
}

/// Cosine of `d` degrees, in `0x4000_0000`ths (the fixed-point whole).
fn cos_deg(d: i64) -> (r: i64)
    requires
        -0x1_0000_0000 <= d <= 0x1_0000_0000,
    ensures
        r == spec_cos_deg(d as int),
        -0x4000_0000 <= r <= 0x4000_0000,
{
    sin_deg(d + 90)
}

/// The canvas of a rotated image: the bounding box of the rotated
/// corners, `ceil(w*|cos| + h*|sin|)` by `ceil(w*|sin| + h*|cos|)`.
pub open spec fn rot_dims(w: int, h: int, d: int) -> (int, int) {
    let s = abs_i(spec_sin_deg(d));
    let c = abs_i(spec_cos_deg(d));
    (
        (w * c + h * s + 0x3fff_ffff) / 0x4000_0000,
        (w * s + h * c + 0x3fff_ffff) / 0x4000_0000,
    )
}

/// Rounds the ratio `n / den` to the nearest integer, half away from
/// zero.
pub open spec fn round_div(n: int, den: int) -> int
    recommends
        den > 0,
{
    if n >= 0 {
        (2 * n + den) / (2 * den)
    } else {
        -((2 * (-n) + den) / (2 * den))
    }
}

/// The source coordinate that lands on destination texel `(x, y)` of a
/// rotation by `d` degrees: the texel's offset from the new center,
/// rotated back by `-d` and re-centered on the source. May fall outside
/// the source; such texels stay fully transparent.
pub open spec fn rot_src(w: int, h: int, d: int, x: int, y: int) -> (int, int) {
    let dims = rot_dims(w, h, d);
    let sin = spec_sin_deg(d);
    let cos = spec_cos_deg(d);
    let dxh = 2 * x - dims.0;
    let dyh = 2 * y - dims.1;
    (
        round_div(w * 0x4000_0000 + dxh * cos + dyh * sin, 0x8000_0000),
        round_div(h * 0x4000_0000 + dyh * cos - dxh * sin, 0x8000_0000),
    )
}

/// Byte `c` of the rotated image at destination texel `(x, y)`: copied
/// from the inverse-mapped source pixel, or zero (fully transparent)
/// when that pixel falls outside the source.
pub open spec fn spec_rotate_byte(
    data: Seq<u8>,
    w: int,
    h: int,
    d: int,
    x: int,
    y: int,
    c: int,
) -> u8 {
    let src = rot_src(w, h, d, x, y);
    if 0 <= src.0 < w && 0 <= src.1 < h {
        px(data, w, src.0, src.1, c)
    } else {
        0
    }
}

/// A rotated image together with its own canvas size, since rotation by
/// an angle off the axes changes the bounds.
pub struct RotateResult {
    /// The rotated RGBA buffer, of length `width * height * 4`.
    pub data: Vec<u8>,
    /// Width of the rotated canvas.
    pub width: u32,
    /// Height of the rotated canvas.
    pub height: u32,
}

impl RotateResult {
    /// The rotated RGBA buffer.
    pub fn data(&self) -> (r: Vec<u8>)
        ensures
            r@ == self.data@,
    {
        let mut out: Vec<u8> = Vec::new();
        let mut i: usize = 0;
        let n = self.data.len();
        while i < n
            invariant
                n == self.data@.len(),
                i <= n,
                out@ == self.data@.subrange(0, i as int),
            decreases n - i,
        {
            out.push(self.data[i]);
            proof {
                assert(out@ =~= self.data@.subrange(0, i + 1));
            }
            i += 1;
        }
        proof {
            assert(out@ =~= self.data@);
        }
        out
    }

    /// Width of the rotated canvas.
    pub fn width(&self) -> (r: u32)
        ensures
            r == self.width,
    {
        self.width
    }

    /// Height of the rotated canvas.
    pub fn height(&self) -> (r: u32)
        ensures
            r == self.height,
    {
        self.height
    }
}

/// Computes the inverse-mapped source coordinate for one destination
/// texel.
fn rot_src_exec(w: u32, h: u32, nw: u32, nh: u32, sin: i64, cos: i64, d: Ghost<int>, x: u32, y: u32)
    -> (src: (i64, i64))
    requires
        -0x4000_0000 <= sin <= 0x4000_0000,
        -0x4000_0000 <= cos <= 0x4000_0000,
        sin == spec_sin_deg(d@),
        cos == spec_cos_deg(d@),
        (nw as int, nh as int) == rot_dims(w as int, h as int, d@),
        x < nw,
        y < nh,
    ensures
        (src.0 as int, src.1 as int) == rot_src(w as int, h as int, d@, x as int, y as int),
{
    let dxh: i128 = 2 * (x as i128) - nw as i128;
    let dyh: i128 = 2 * (y as i128) - nh as i128;
    proof {
        assert(-0x2_0000_0000 * 0x4000_0000 <= dxh * cos && dxh * cos <= 0x2_0000_0000
            * 0x4000_0000) by (nonlinear_arith)
            requires -0x2_0000_0000 <= dxh <= 0x2_0000_0000 && -0x4000_0000 <= cos <= 0x4000_0000;
        assert(-0x2_0000_0000 * 0x4000_0000 <= dyh * sin && dyh * sin <= 0x2_0000_0000
            * 0x4000_0000) by (nonlinear_arith)
            requires -0x2_0000_0000 <= dyh <= 0x2_0000_0000 && -0x4000_0000 <= sin <= 0x4000_0000;
        assert(-0x2_0000_0000 * 0x4000_0000 <= dxh * sin && dxh * sin <= 0x2_0000_0000
            * 0x4000_0000) by (nonlinear_arith)
            requires -0x2_0000_0000 <= dxh <= 0x2_0000_0000 && -0x4000_0000 <= sin <= 0x4000_0000;
        assert(-0x2_0000_0000 * 0x4000_0000 <= dyh * cos && dyh * cos <= 0x2_0000_0000
            * 0x4000_0000) by (nonlinear_arith)
            requires -0x2_0000_0000 <= dyh <= 0x2_0000_0000 && -0x4000_0000 <= cos <= 0x4000_0000;
    }
    let nx: i128 = (w as i128) * 0x4000_0000 + dxh * (cos as i128) + dyh * (sin as i128);
    let ny: i128 = (h as i128) * 0x4000_0000 + dyh * (cos as i128) - dxh * (sin as i128);
    (round_div_exec(nx), round_div_exec(ny))
}

/// Rounds `n / 0x8000_0000` to the nearest integer, half away from
/// zero.
fn round_div_exec(n: i128) -> (r: i64)
    requires
        -0x40_0000_0000_0000_0000 <= n <= 0x40_0000_0000_0000_0000,
    ensures
        r == round_div(n as int, 0x8000_0000),
{
    if n >= 0 {
        let q: u128 = (2 * (n as u128) + 0x8000_0000) / 0x1_0000_0000;
        q as i64
    } else {
        let q: u128 = (2 * ((-n) as u128) + 0x8000_0000) / 0x1_0000_0000;
        -(q as i64)
    }
}

/// Rotates the image by `degrees` about its center. The canvas grows to
/// the rotated bounding box; every destination texel takes its
/// inverse-mapped source pixel (nearest neighbor), and texels whose
/// source falls outside the image stay fully transparent zero.
pub fn rotate(data: &[u8], w: u32, h: u32, degrees: i64) -> (out: RotateResult)
    requires
        buf_ok(data@, w as int, h as int),
        -0x8000_0000 <= degrees <= 0x8000_0000,
        w + h < 0x1_0000_0000,
        4 * (w as int + h as int) * (w as int + h as int) <= usize::MAX,
    ensures
        (out.width as int, out.height as int) == rot_dims(w as int, h as int, degrees as int),
        out.data@.len() == 4 * (out.width as int) * (out.height as int),
        forall|x: int, y: int, c: int|
            0 <= x < out.width && 0 <= y < out.height && 0 <= c < 4 ==> out.data@[pidx(
                out.width as int, x, y, c)] == spec_rotate_byte(
                data@, w as int, h as int, degrees as int, x, y, c),
{
    let ghost dv = data@;
    let sin = sin_deg(degrees);
    let cos = cos_deg(degrees);
    let sa: u64 = if sin < 0 {
        (-sin) as u64
    } else {
        sin as u64
    };
    let ca: u64 = if cos < 0 {
        (-cos) as u64
    } else {
        cos as u64
    };
    proof {
        assert(w * ca <= 0xffff_ffff * 0x4000_0000 && h * sa <= 0xffff_ffff * 0x4000_0000 && w
            * sa <= 0xffff_ffff * 0x4000_0000 && h * ca <= 0xffff_ffff * 0x4000_0000 && 0 <= w * ca
            && 0 <= h * sa && 0 <= w * sa && 0 <= h * ca) by (nonlinear_arith)
            requires
                w < 0x1_0000_0000,
                h < 0x1_0000_0000,
                0 <= sa <= 0x4000_0000,
                0 <= ca <= 0x4000_0000;
        assert(w * ca + h * sa + 0x3fff_ffff < (w + h + 1) * 0x4000_0000 && w * sa + h * ca
            + 0x3fff_ffff < (w + h + 1) * 0x4000_0000) by (nonlinear_arith)
            requires
                0 <= w && 0 <= h && 0 <= sa <= 0x4000_0000 && 0 <= ca <= 0x4000_0000;
        crate::math::lemma_div_below((w as int) * (ca as int) + (h as int) * (sa as int)
            + 0x3fff_ffff, 0x4000_0000, (w as int) + (h as int) + 1);
        crate::math::lemma_div_below((w as int) * (sa as int) + (h as int) * (ca as int)
            + 0x3fff_ffff, 0x4000_0000, (w as int) + (h as int) + 1);
    }
    let nw: u32 = ((w as u64 * ca + h as u64 * sa + 0x3fff_ffff) / 0x4000_0000) as u32;
    let nh: u32 = ((w as u64 * sa + h as u64 * ca + 0x3fff_ffff) / 0x4000_0000) as u32;
    let mut out: Vec<u8> = Vec::new();
    let mut y: u32 = 0;
    proof {
        assert(4 * ((nw as int) * (nh as int)) <= 4 * ((w as int + h as int) * (w as int
            + h as int))) by (nonlinear_arith)
            requires 0 <= nw <= w + h && 0 <= nh <= w + h;
    }
    while y < nh
        invariant
            buf_ok(dv, w as int, h as int),
            data@ == dv,
            -0x4000_0000 <= sin <= 0x4000_0000,
            -0x4000_0000 <= cos <= 0x4000_0000,
            sin == spec_sin_deg(degrees as int),
            cos == spec_cos_deg(degrees as int),
            (nw as int, nh as int) == rot_dims(w as int, h as int, degrees as int),
            y <= nh,
            out@.len() == 4 * ((y as int) * (nw as int)),
            forall|j: int|
                0 <= j < out@.len() ==> out@[j] == spec_rotate_byte(
                    dv, w as int, h as int, degrees as int,
                    (j / 4) % (nw as int), (j / 4) / (nw as int), j % 4),
        decreases nh - y,
    {
        let mut x: u32 = 0;
        while x < nw
            invariant
                buf_ok(dv, w as int, h as int),
                data@ == dv,
                -0x4000_0000 <= sin <= 0x4000_0000,
                -0x4000_0000 <= cos <= 0x4000_0000,
                sin == spec_sin_deg(degrees as int),
                cos == spec_cos_deg(degrees as int),
                (nw as int, nh as int) == rot_dims(w as int, h as int, degrees as int),
                y < nh,
                x <= nw,
                out@.len() == 4 * ((y as int) * (nw as int) + (x as int)),
                forall|j: int|
                    0 <= j < out@.len() ==> out@[j] == spec_rotate_byte(
                        dv, w as int, h as int, degrees as int,
                        (j / 4) % (nw as int), (j / 4) / (nw as int), j % 4),
            decreases nw - x,
        {
            let (sx, sy) = rot_src_exec(w, h, nw, nh, sin, cos, Ghost(degrees as int), x, y);
            if 0 <= sx && sx < w as i64 && 0 <= sy && sy < h as i64 {
                out.push(get_ch(data, w, h, sx as u32, sy as u32, 0));
                out.push(get_ch(data, w, h, sx as u32, sy as u32, 1));
                out.push(get_ch(data, w, h, sx as u32, sy as u32, 2));
                out.push(get_ch(data, w, h, sx as u32, sy as u32, 3));
            } else {
                out.push(0);
                out.push(0);
                out.push(0);
                out.push(0);
            }
            proof {
                lemma_pixel_split(nw as int, x as int, y as int);
                lemma_byte_split((y as int) * (nw as int) + (x as int), 0);
                lemma_byte_split((y as int) * (nw as int) + (x as int), 1);
                lemma_byte_split((y as int) * (nw as int) + (x as int), 2);
                lemma_byte_split((y as int) * (nw as int) + (x as int), 3);
            }
            x += 1;
        }
        proof {
            assert(4 * ((y as int) * (nw as int) + (nw as int)) == 4 * (((y as int) + 1) * (
            nw as int))) by (nonlinear_arith);
        }
        y += 1;
    }
    proof {
        assert(4 * ((nh as int) * (nw as int)) == 4 * (nw as int) * (nh as int)) by (
        nonlinear_arith);
        assert forall|x: int, y: int, c: int|
            0 <= x < nw && 0 <= y < nh && 0 <= c < 4 implies out@[pidx(nw as int, x, y, c)]
            == spec_rotate_byte(dv, w as int, h as int, degrees as int, x, y, c) by {
            lemma_pixel_split(nw as int, x, y);
            lemma_byte_split(y * (nw as int) + x, c);
            assert(0 <= pidx(nw as int, x, y, c) < out@.len()) by (nonlinear_arith)
                requires
                    0 <= x < nw && 0 <= y < nh && 0 <= c < 4,
                    out@.len() == 4 * (nw as int) * (nh as int);
        }
    }
    RotateResult { data: out, width: nw, height: nh }
}

} // verus!
