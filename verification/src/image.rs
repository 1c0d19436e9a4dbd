//! The image buffer model: a row-major RGBA byte sequence of length
//! `width * height * 4`, four channels per pixel in the order red, green,
//! blue, alpha.

use vstd::prelude::*;
use vstd::slice::slice_index_get;

verus! {

/// A buffer of `w * h` RGBA pixels has exactly `w * h * 4` bytes.
pub open spec fn buf_ok(data: Seq<u8>, w: int, h: int) -> bool {
    data.len() == w * h * 4
}

/// Flat byte index of channel `c` of the pixel at column `x`, row `y`.
pub open spec fn pidx(w: int, x: int, y: int, c: int) -> int {
    4 * (y * w + x) + c
}

/// Channel `c` of the pixel at `(x, y)` of a `w`-wide buffer.
pub open spec fn px(data: Seq<u8>, w: int, x: int, y: int, c: int) -> u8 {
    data[pidx(w, x, y, c)]
}

/// Byte indices inside the pixel grid stay inside the buffer.
pub proof fn lemma_pidx_in_bounds(data: Seq<u8>, w: int, h: int, x: int, y: int, c: int)
    by (nonlinear_arith)
    requires
        buf_ok(data, w, h),
        0 <= x < w,
        0 <= y < h,
        0 <= c < 4,
    ensures
        0 <= pidx(w, x, y, c) < data.len(),
        pidx(w, x, y, c) == 4 * (y * w + x) + c,
{
}

/// Reads channel `c` of the pixel at `(x, y)`.
pub fn get_ch(data: &[u8], w: u32, h: u32, x: u32, y: u32, c: u32) -> (v: u8)
    requires
        buf_ok(data@, w as int, h as int),
        x < w,
        y < h,
        c < 4,
    ensures
        v == px(data@, w as int, x as int, y as int, c as int),
{
    let n = data.len();
    proof {
        lemma_pidx_in_bounds(data@, w as int, h as int, x as int, y as int, c as int);
        assert((y as int) * (w as int) >= 0) by (nonlinear_arith)
            requires 0 <= y && 0 <= w;
        assert((y as int) * (w as int) + (x as int) < (w as int) * (h as int)) by (nonlinear_arith)
            requires
                0 <= x < w,
                0 <= y < h;
    }
    let i: usize = (y as usize * w as usize + x as usize) * 4 + c as usize;
    *slice_index_get(data, i)
}

} // verus!
