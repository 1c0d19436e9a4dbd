//! The per-texel kernel shared by both execution backends.
//!
//! Every filter of the catalog is defined by one spec function,
//! [`spec_texel`], giving each output byte as a pure function of the
//! source image, the dimensions, the intensity and the texel coordinate
//! alone — no output texel depends on any other. [`filter_texel`]
//! computes one texel of that function, so a data-parallel dispatch may
//! run it over the pixels in any order or grouping; [`run_filter`] is
//! the sequential backend, one row-major pass. Both are proved equal to
//! [`spec_texel`] at every coordinate, which makes the two backends
//! byte-for-byte equivalent.

use vstd::prelude::*;
use crate::image::{buf_ok, get_ch, pidx, px};
use crate::kinds::FilterType;
use crate::neighborhood::{
    spec_blur_rgb, spec_edge_rgb, spec_emboss_rgb, spec_pixelate_rgb, spec_sharpen_rgb, blur_px,
    edge_px, emboss_px, pixelate_px, sharpen_px,
};
use crate::pointwise::{pointwise_px, spec_pointwise_rgb};
use crate::radial::{spec_chroma_rgb, spec_vignette_rgb, chroma_px, vignette_px};

verus! {

/// Component `c` of a channel triple.
pub open spec fn tri_ch(t: (int, int, int), c: int) -> int {
    if c == 0 {
        t.0
    } else if c == 1 {
        t.1
    } else {
        t.2
    }
}

/// The three color channels of the filtered pixel at `(x, y)`.
pub open spec fn spec_filter_rgb(
    kind: FilterType,
    data: Seq<u8>,
    w: int,
    h: int,
    k: int,
    x: int,
    y: int,
) -> (int, int, int) {
    match kind {
        FilterType::Blur => spec_blur_rgb(data, w, h, k, x, y),
        FilterType::Sharpen => spec_sharpen_rgb(data, w, h, k, x, y),
        FilterType::Emboss => spec_emboss_rgb(data, w, h, k, x, y),
        FilterType::EdgeDetect => spec_edge_rgb(data, w, h, k, x, y),
        FilterType::Pixelate => spec_pixelate_rgb(data, w, h, k, x, y),
        FilterType::Vignette => spec_vignette_rgb(data, w, h, k, x, y),
        FilterType::ChromaticAberration => spec_chroma_rgb(data, w, h, k, x, y),
        _ => spec_pointwise_rgb(
            kind,
            px(data, w, x, y, 0) as int,
            px(data, w, x, y, 1) as int,
            px(data, w, x, y, 2) as int,
            k,
            4 * (y * w + x),
        ),
    }
}

/// Byte `c` of the output texel at `(x, y)`: the filtered color
/// channels, with alpha always copied from the source.
pub open spec fn spec_texel(
    kind: FilterType,
    data: Seq<u8>,
    w: int,
    h: int,
    k: int,
    x: int,
    y: int,
    c: int,
) -> u8 {
    if c == 3 {
        px(data, w, x, y, 3)
    } else {
        tri_ch(spec_filter_rgb(kind, data, w, h, k, x, y), c) as u8
    }
}

/// Computes the three color channels of one output texel, reading only
/// the source image and the parameters: the per-texel kernel of the
/// data-parallel backend.
pub fn filter_texel(data: &[u8], w: u32, h: u32, kind: FilterType, k: u32, x: u32, y: u32) -> (out:
    (u8, u8, u8))
    requires
        buf_ok(data@, w as int, h as int),
        x < w,
        y < h,
        k <= 1000,
    ensures
        (out.0 as int, out.1 as int, out.2 as int) == spec_filter_rgb(
            kind, data@, w as int, h as int, k as int, x as int, y as int),
{
    match kind {
        FilterType::Blur => blur_px(data, w, h, k, x, y),
        FilterType::Sharpen => sharpen_px(data, w, h, k, x, y),
        FilterType::Emboss => emboss_px(data, w, h, k, x, y),
        FilterType::EdgeDetect => edge_px(data, w, h, k, x, y),
        FilterType::Pixelate => pixelate_px(data, w, h, k, x, y),
        FilterType::Vignette => vignette_px(data, w, h, k, x, y),
        FilterType::ChromaticAberration => chroma_px(data, w, h, k, x, y),
        _ => {
            let r = get_ch(data, w, h, x, y, 0);
            let g = get_ch(data, w, h, x, y, 1);
            let b = get_ch(data, w, h, x, y, 2);
            proof {
                assert((y as int) * (w as int) + (x as int) < (w as int) * (h as int)
                    && 0 <= (y as int) * (w as int)) by (nonlinear_arith)
                    requires 0 <= x < w && 0 <= y < h;
            }
            let n = data.len();
            let idx: usize = (y as usize * w as usize + x as usize) * 4;
            pointwise_px(kind, r, g, b, k, idx)
        },
    }
}

/// How a flat byte index splits into a pixel and a channel.
proof fn lemma_byte_split(p: int, c: int)
    by (nonlinear_arith)
    requires
        0 <= p,
        0 <= c < 4,
    ensures
        (4 * p + c) / 4 == p,
        (4 * p + c) % 4 == c,
{
}

/// How a flat pixel index splits into its row and column.
proof fn lemma_pixel_split(w: int, x: int, y: int)
    by (nonlinear_arith)
    requires
        0 <= x < w,
        0 <= y,
    ensures
        (y * w + x) % w == x,
        (y * w + x) / w == y,
        y * w + x >= 0,
{
}

/// The sequential backend: applies `kind` at intensity `k` (thousandths)
/// to the whole image in one row-major pass. Every output byte equals
/// [`spec_texel`] at its coordinate — exactly what the per-texel kernel
/// [`filter_texel`] computes — so the output never depends on the order
/// in which pixels are visited.
pub fn run_filter(data: &[u8], w: u32, h: u32, kind: FilterType, k: u32) -> (out: Vec<u8>)
    requires
        buf_ok(data@, w as int, h as int),
        k <= 1000,
    ensures
        out@.len() == data@.len(),
        forall|x: int, y: int, c: int|
            0 <= x < w && 0 <= y < h && 0 <= c < 4 ==> out@[pidx(w as int, x, y, c)]
                == spec_texel(kind, data@, w as int, h as int, k as int, x, y, c),
{
    let ghost dv = data@;
    let mut out: Vec<u8> = Vec::new();
    let mut y: u32 = 0;
    while y < h
        invariant
            buf_ok(dv, w as int, h as int),
            data@ == dv,
            k <= 1000,
            y <= h,
            out@.len() == 4 * ((y as int) * (w as int)),
            forall|j: int|
                0 <= j < out@.len() ==> out@[j] == spec_texel(
                    kind, dv, w as int, h as int, k as int,
                    (j / 4) % (w as int), (j / 4) / (w as int), j % 4),
        decreases h - y,
    {
        let mut x: u32 = 0;
        while x < w
            invariant
                buf_ok(dv, w as int, h as int),
                data@ == dv,
                k <= 1000,
                y < h,
                x <= w,
                out@.len() == 4 * ((y as int) * (w as int) + (x as int)),
                forall|j: int|
                    0 <= j < out@.len() ==> out@[j] == spec_texel(
                        kind, dv, w as int, h as int, k as int,
                        (j / 4) % (w as int), (j / 4) / (w as int), j % 4),
            decreases w - x,
        {
            let (nr, ng, nb) = filter_texel(data, w, h, kind, k, x, y);
            let na = get_ch(data, w, h, x, y, 3);
            proof {
                crate::image::lemma_pidx_in_bounds(
                    dv, w as int, h as int, x as int, y as int, 3);
            }
            out.push(nr);
            out.push(ng);
            out.push(nb);
            out.push(na);
            proof {
                lemma_pixel_split(w as int, x as int, y as int);
                lemma_byte_split((y as int) * (w as int) + (x as int), 0);
                lemma_byte_split((y as int) * (w as int) + (x as int), 1);
                lemma_byte_split((y as int) * (w as int) + (x as int), 2);
                lemma_byte_split((y as int) * (w as int) + (x as int), 3);
            }
            x += 1;
        }
        proof {
            assert(4 * ((y as int) * (w as int) + (w as int)) == 4 * (((y as int) + 1) * (
            w as int))) by (nonlinear_arith);
        }
        y += 1;
    }
    proof {
        assert(4 * ((h as int) * (w as int)) == (w as int) * (h as int) * 4) by (nonlinear_arith);
        assert forall|x: int, y: int, c: int|
            0 <= x < w && 0 <= y < h && 0 <= c < 4 implies out@[pidx(w as int, x, y, c)]
            == spec_texel(kind, dv, w as int, h as int, k as int, x, y, c) by {
            crate::image::lemma_pidx_in_bounds(dv, w as int, h as int, x, y, c);
            lemma_pixel_split(w as int, x, y);
            lemma_byte_split(y * (w as int) + x, c);
        }
    }
    out
}

} // verus!
