//! The engine's cross-cutting laws, each proved from the contracts of
//! the modules it spans: zero intensity is the identity for the
//! blend-defined filters, resizing to the same size and rotating by
//! zero degrees are the identity, a flip is self-inverse, and the two
//! execution backends agree byte for byte.

use vstd::prelude::*;
use crate::geometry::{flip_src, resize_ch, rot_dims, rot_src, round_div, spec_rotate_byte};
use crate::image::{buf_ok, pidx, px};
use crate::kernel::spec_texel;
use crate::kinds::FilterType;
use crate::math::clamp_div;
use crate::neighborhood::{edge_ch, emboss_ch, on_border};

verus! {

/// A channel blended toward any target by a zero intensity is itself.
proof fn lemma_clamp_div_exact(c: int, den: int)
    by (nonlinear_arith)
    requires
        0 <= c <= 255,
        den > 0,
    ensures
        clamp_div(c * den, den) == c,
{
}

/// The filters defined by `lerp(original, target, intensity)`: those
/// for which zero intensity must reproduce the input exactly.
pub open spec fn is_blend_filter(kind: FilterType) -> bool {
    match kind {
        FilterType::Grayscale => true,
        FilterType::Sepia => true,
        FilterType::Invert => true,
        FilterType::Emboss => true,
        FilterType::EdgeDetect => true,
        FilterType::Vintage => true,
        _ => false,
    }
}

/// How a flat byte index of a `w`-wide image decomposes into a pixel
/// coordinate and channel.
proof fn lemma_byte_decompose(w: int, h: int, j: int)
    by (nonlinear_arith)
    requires
        w > 0,
        h > 0,
        0 <= j < w * h * 4,
    ensures
        0 <= (j / 4) % w < w,
        0 <= (j / 4) / w < h,
        0 <= j % 4 < 4,
        pidx(w, (j / 4) % w, (j / 4) / w, j % 4) == j,
{
}

/// At zero intensity, every byte a blend filter produces is the source
/// byte.
pub proof fn lemma_zero_intensity_texel(
    kind: FilterType,
    data: Seq<u8>,
    w: int,
    h: int,
    x: int,
    y: int,
    c: int,
)
    requires
        is_blend_filter(kind),
        buf_ok(data, w, h),
        0 <= x < w,
        0 <= y < h,
        0 <= c < 4,
    ensures
        spec_texel(kind, data, w, h, 0, x, y, c) == px(data, w, x, y, c),
{
    if c < 3 {
        match kind {
            FilterType::Grayscale => {
                lemma_clamp_div_exact(px(data, w, x, y, 0) as int, 10000000);
                lemma_clamp_div_exact(px(data, w, x, y, 1) as int, 10000000);
                lemma_clamp_div_exact(px(data, w, x, y, 2) as int, 10000000);
            },
            FilterType::Sepia => {
                lemma_clamp_div_exact(px(data, w, x, y, 0) as int, 1000000);
                lemma_clamp_div_exact(px(data, w, x, y, 1) as int, 1000000);
                lemma_clamp_div_exact(px(data, w, x, y, 2) as int, 1000000);
            },
            FilterType::Invert => {
                lemma_clamp_div_exact(px(data, w, x, y, 0) as int, 1000);
                lemma_clamp_div_exact(px(data, w, x, y, 1) as int, 1000);
                lemma_clamp_div_exact(px(data, w, x, y, 2) as int, 1000);
            },
            FilterType::Vintage => {
                lemma_clamp_div_exact(px(data, w, x, y, 0) as int, 10000000);
                lemma_clamp_div_exact(px(data, w, x, y, 1) as int, 10000000);
                lemma_clamp_div_exact(px(data, w, x, y, 2) as int, 10000000);
            },
            FilterType::Emboss => {
                if !on_border(w, h, x, y) {
                    lemma_clamp_div_exact(px(data, w, x, y, c) as int, 1000000);
                    assert(emboss_ch(data, w, x, y, c, 0) == px(data, w, x, y, c));
                }
            },
            FilterType::EdgeDetect => {
                if !on_border(w, h, x, y) {
                    lemma_clamp_div_exact(px(data, w, x, y, c) as int, 3000);
                    assert(edge_ch(data, w, x, y, c, 0) == px(data, w, x, y, c));
                }
            },
            _ => {},
        }
    }
}

/// At zero intensity a blend filter reproduces the whole input buffer
/// exactly: any output with the engine's per-texel contract is the
/// source, byte for byte.
pub proof fn lemma_zero_intensity_identity(
    kind: FilterType,
    data: Seq<u8>,
    w: int,
    h: int,
    out: Seq<u8>,
)
    requires
        is_blend_filter(kind),
        buf_ok(data, w, h),
        w > 0,
        h > 0,
        out.len() == data.len(),
        forall|x: int, y: int, c: int|
            0 <= x < w && 0 <= y < h && 0 <= c < 4 ==> out[pidx(w, x, y, c)] == spec_texel(
                kind, data, w, h, 0, x, y, c),
    ensures
        out == data,
{
    assert forall|j: int| 0 <= j < data.len() implies out[j] == data[j] by {
        lemma_byte_decompose(w, h, j);
        lemma_zero_intensity_texel(kind, data, w, h, (j / 4) % w, (j / 4) / w, j % 4);
    }
    assert(out =~= data);
}

/// Resampling a pixel onto its own grid is exact: with equal source
/// and destination sizes, the fractional offsets vanish and the
/// rounded blend is the source channel itself.
pub proof fn lemma_resize_identity_texel(data: Seq<u8>, w: int, h: int, x: int, y: int, c: int)
    requires
        buf_ok(data, w, h),
        0 <= x < w,
        0 <= y < h,
        0 <= c < 4,
    ensures
        resize_ch(data, w, h, w, h, x, y, c) == px(data, w, x, y, c),
{
    assert(x * w / w == x && (x * w) % w == 0) by (nonlinear_arith)
        requires 0 <= x && w > 0;
    assert(y * h / h == y && (y * h) % h == 0) by (nonlinear_arith)
        requires 0 <= y && h > 0;
    let p = px(data, w, x, y, c) as int;
    assert((2 * (p * w * h) + w * h) / (2 * (w * h)) == p) by (nonlinear_arith)
        requires 0 <= p && w > 0 && h > 0;
    assert((2 * (p * (w - 0) * (h - 0) + px(data, w, if x + 1 <= w - 1 { x + 1 } else { w - 1 },
        y, c) * 0 * (h - 0) + p * (w - 0) * 0 + px(data, w, if x + 1 <= w - 1 { x + 1 } else {
        w - 1 }, y, c) * 0 * 0) + w * h) / (2 * (w * h)) == p) by (nonlinear_arith)
        requires 0 <= p && w > 0 && h > 0;
}

/// Resizing an image to its own dimensions returns it unchanged: any
/// output with the resize contract for equal sizes is the source, byte
/// for byte.
pub proof fn lemma_resize_identity(data: Seq<u8>, w: int, h: int, out: Seq<u8>)
    requires
        buf_ok(data, w, h),
        w > 0,
        h > 0,
        out.len() == 4 * w * h,
        forall|x: int, y: int, c: int|
            0 <= x < w && 0 <= y < h && 0 <= c < 4 ==> out[pidx(w, x, y, c)] == resize_ch(
                data, w, h, w, h, x, y, c),
    ensures
        out == data,
{
    assert(out.len() == data.len()) by (nonlinear_arith)
        requires out.len() == 4 * w * h && data.len() == w * h * 4;
    assert forall|j: int| 0 <= j < data.len() implies out[j] == data[j] by {
        lemma_byte_decompose(w, h, j);
        lemma_resize_identity_texel(data, w, h, (j / 4) % w, (j / 4) / w, j % 4);
    }
    assert(out =~= data);
}

/// A rotation by zero degrees keeps the canvas and maps every texel to
/// itself.
pub proof fn lemma_rotate_zero_texel(data: Seq<u8>, w: int, h: int, x: int, y: int, c: int)
    requires
        buf_ok(data, w, h),
        0 <= x < w,
        0 <= y < h,
        0 <= c < 4,
    ensures
        rot_dims(w, h, 0) == (w, h),
        spec_rotate_byte(data, w, h, 0, x, y, c) == px(data, w, x, y, c),
{
    assert(crate::geometry::spec_sin_deg(0) == 0);
    assert(crate::geometry::spec_cos_deg(0) == 0x4000_0000);
    assert((w * 0x4000_0000 + h * 0 + 0x3fff_ffff) / 0x4000_0000 == w) by (nonlinear_arith)
        requires w >= 0;
    assert((w * 0 + h * 0x4000_0000 + 0x3fff_ffff) / 0x4000_0000 == h) by (nonlinear_arith)
        requires h >= 0;
    let dxh = 2 * x - w;
    let dyh = 2 * y - h;
    assert(w * 0x4000_0000 + dxh * 0x4000_0000 + dyh * 0 == 2 * x * 0x4000_0000) by (
    nonlinear_arith)
        requires dxh == 2 * x - w;
    assert(h * 0x4000_0000 + dyh * 0x4000_0000 - dxh * 0 == 2 * y * 0x4000_0000) by (
    nonlinear_arith)
        requires dyh == 2 * y - h;
    assert(round_div(2 * x * 0x4000_0000, 0x8000_0000) == x) by (nonlinear_arith)
        requires x >= 0;
    assert(round_div(2 * y * 0x4000_0000, 0x8000_0000) == y) by (nonlinear_arith)
        requires y >= 0;
    assert(rot_src(w, h, 0, x, y) == (x, y));
}

/// Rotating by zero degrees returns the image unchanged, on the same
/// canvas: any output with the rotate contract at zero degrees is the
/// source, byte for byte.
pub proof fn lemma_rotate_zero_identity(data: Seq<u8>, w: int, h: int, out: Seq<u8>)
    requires
        buf_ok(data, w, h),
        w > 0,
        h > 0,
        out.len() == 4 * w * h,
        forall|x: int, y: int, c: int|
            0 <= x < w && 0 <= y < h && 0 <= c < 4 ==> out[pidx(w, x, y, c)] == spec_rotate_byte(
                data, w, h, 0, x, y, c),
    ensures
        out == data,
{
    assert(out.len() == data.len()) by (nonlinear_arith)
        requires out.len() == 4 * w * h && data.len() == w * h * 4;
    assert forall|j: int| 0 <= j < data.len() implies out[j] == data[j] by {
        lemma_byte_decompose(w, h, j);
        lemma_rotate_zero_texel(data, w, h, (j / 4) % w, (j / 4) / w, j % 4);
    }
    assert(out =~= data);
}

/// Two flips along the same axis cancel: if `mid` is a flip of `data`
/// and `out` a flip of `mid`, then `out` is `data`, byte for byte.
pub proof fn lemma_flip_involution(
    data: Seq<u8>,
    w: int,
    h: int,
    horizontal: bool,
    mid: Seq<u8>,
    out: Seq<u8>,
)
    requires
        buf_ok(data, w, h),
        w > 0,
        h > 0,
        mid.len() == data.len(),
        out.len() == mid.len(),
        forall|x: int, y: int, c: int|
            0 <= x < w && 0 <= y < h && 0 <= c < 4 ==> mid[pidx(w, x, y, c)] == px(
                data, w, flip_src(w, h, horizontal, x, y).0, flip_src(w, h, horizontal, x, y).1, c),
        forall|x: int, y: int, c: int|
            0 <= x < w && 0 <= y < h && 0 <= c < 4 ==> out[pidx(w, x, y, c)] == px(
                mid, w, flip_src(w, h, horizontal, x, y).0, flip_src(w, h, horizontal, x, y).1, c),
    ensures
        out == data,
{
    assert forall|j: int| 0 <= j < data.len() implies out[j] == data[j] by {
        lemma_byte_decompose(w, h, j);
        let x = (j / 4) % w;
        let y = (j / 4) / w;
        let c = j % 4;
        let sx = flip_src(w, h, horizontal, x, y).0;
        let sy = flip_src(w, h, horizontal, x, y).1;
        assert(mid[pidx(w, sx, sy, c)] == px(data, w, x, y, c)) by {
            assert(flip_src(w, h, horizontal, sx, sy) == (x, y));
        }
        crate::image::lemma_pidx_in_bounds(data, w, h, x, y, c);
    }
    assert(out =~= data);
}

/// The two backends are equivalent: any two buffers that both carry
/// the per-texel contract for the same source, filter and intensity —
/// the sequential pass and a per-texel dispatch in any order — are
/// equal, byte for byte.
pub proof fn lemma_backends_agree(
    kind: FilterType,
    data: Seq<u8>,
    w: int,
    h: int,
    k: int,
    seq_out: Seq<u8>,
    par_out: Seq<u8>,
)
    requires
        buf_ok(data, w, h),
        w > 0,
        h > 0,
        seq_out.len() == data.len(),
        par_out.len() == data.len(),
        forall|x: int, y: int, c: int|
            0 <= x < w && 0 <= y < h && 0 <= c < 4 ==> seq_out[pidx(w, x, y, c)] == spec_texel(
                kind, data, w, h, k, x, y, c),
        forall|x: int, y: int, c: int|
            0 <= x < w && 0 <= y < h && 0 <= c < 4 ==> par_out[pidx(w, x, y, c)] == spec_texel(
                kind, data, w, h, k, x, y, c),
    ensures
        seq_out == par_out,
{
    assert forall|j: int| 0 <= j < data.len() implies seq_out[j] == par_out[j] by {
        lemma_byte_decompose(w, h, j);
        let x = (j / 4) % w;
        let y = (j / 4) / w;
        let c = j % 4;
        assert(seq_out[pidx(w, x, y, c)] == spec_texel(kind, data, w, h, k, x, y, c));
        assert(par_out[pidx(w, x, y, c)] == spec_texel(kind, data, w, h, k, x, y, c));
    }
    assert(seq_out =~= par_out);
}

} // verus!
