//! Hue rotation through HSL space, in exact integer arithmetic.
//!
//! The standard RGB-to-HSL conversion produces, for a chromatic pixel,
//! lightness `(max+min)/2`, a saturation whose two cases both collapse
//! the HSL-to-RGB helper values to `q = max/255` and `p = min/255`, and
//! a hue carried here as a fraction with denominator `d = max - min`.
//! Substituting those into the standard HSL-to-RGB formulas, every
//! channel of the converted pixel is a piecewise-linear function of the
//! wrapped hue alone — [`hue_channel`] — with the chroma denominator
//! cancelling, so the whole round trip is computed without rounding
//! anywhere but the final half-up narrowing to a byte.

use vstd::prelude::*;
use vstd::slice::slice_index_get;
use crate::math::lemma_div_below;

verus! {

/// The larger of three channel values.
pub open spec fn max3(r: int, g: int, b: int) -> int {
    if r >= g && r >= b {
        r
    } else if g >= b {
        g
    } else {
        b
    }
}

/// The smaller of three channel values.
pub open spec fn min3(r: int, g: int, b: int) -> int {
    if r <= g && r <= b {
        r
    } else if g <= b {
        g
    } else {
        b
    }
}

/// The hue of a chromatic pixel, in degrees scaled by the chroma
/// `d = max - min`: the standard sector formula, landing in
/// `[0, 360 * d)`. Ties between channels follow the red, green, blue
/// order of the sector tests.
pub open spec fn hue_num(r: int, g: int, b: int) -> int {
    let mx = max3(r, g, b);
    let d = mx - min3(r, g, b);
    if mx == r {
        60 * (g - b) + (if g < b { 360 * d } else { 0 })
    } else if mx == g {
        60 * (b - r) + 120 * d
    } else {
        60 * (r - g) + 240 * d
    }
}

/// One channel of the HSL-to-RGB conversion, for hue position `t` in
/// `[0, 1080 * d)` (the hue in degrees, scaled by `3 * d` so that the
/// one-third channel offsets are integral): the piecewise-linear tent
/// between `min` and `max`, rounded half up at the final byte.
pub open spec fn hue_channel(mn: int, mx: int, d: int, t: int) -> int {
    if t < 180 * d {
        mn + (2 * t + 180) / 360
    } else if t < 540 * d {
        mx
    } else if t < 720 * d {
        mn + (2 * (720 * d - t) + 180) / 360
    } else {
        mn
    }
}

/// A pixel after a hue rotation by `shift` degrees: achromatic pixels
/// are unchanged; otherwise the hue is shifted, wrapped into
/// `[0, 360)`, and converted back with the pixel's own lightness and
/// saturation.
pub open spec fn spec_hue_rgb(r: int, g: int, b: int, shift: int) -> (int, int, int) {
    let mx = max3(r, g, b);
    let mn = min3(r, g, b);
    let d = mx - mn;
    if d == 0 {
        (r, g, b)
    } else {
        let s0 = shift % 360;
        let hs = (hue_num(r, g, b) + s0 * d) % (360 * d);
        let t = 3 * hs;
        (
            hue_channel(mn, mx, d, (t + 360 * d) % (1080 * d)),
            hue_channel(mn, mx, d, t),
            hue_channel(mn, mx, d, (t + 720 * d) % (1080 * d)),
        )
    }
}

/// The shifted, wrapped hue stays in its range.
proof fn lemma_hue_range(hn: int, s0: int, d: int)
    by (nonlinear_arith)
    requires
        d > 0,
        0 <= s0 < 360,
    ensures
        0 <= (hn + s0 * d) % (360 * d) < 360 * d,
{
}

/// One channel of the HSL-to-RGB conversion.
fn hue_channel_exec(mn: u32, mx: u32, d: u32, t: u64) -> (v: u8)
    requires
        0 < d <= 255,
        mx <= 255,
        mn + d == mx,
        t < 1080 * (d as u64),
    ensures
        v == hue_channel(mn as int, mx as int, d as int, t as int),
{
    if t < 180 * (d as u64) {
        proof {
            lemma_div_below(2 * (t as int) + 180, 360, d as int + 1);
        }
        (mn + ((2 * t + 180) / 360) as u32) as u8
    } else if t < 540 * (d as u64) {
        mx as u8
    } else if t < 720 * (d as u64) {
        proof {
            lemma_div_below(2 * (720 * (d as int) - t) + 180, 360, d as int + 1);
        }
        (mn + ((2 * (720 * (d as u64) - t) + 180) / 360) as u32) as u8
    } else {
        mn as u8
    }
}

/// Rotates the hue of one pixel by `shift` degrees.
pub fn hue_px(r: u8, g: u8, b: u8, shift: i32) -> (out: (u8, u8, u8))
    ensures
        (out.0 as int, out.1 as int, out.2 as int) == spec_hue_rgb(
            r as int, g as int, b as int, shift as int),
{
    let ri = r as u32;
    let gi = g as u32;
    let bi = b as u32;
    let mx: u32 = if ri >= gi && ri >= bi {
        ri
    } else if gi >= bi {
        gi
    } else {
        bi
    };
    let mn: u32 = if ri <= gi && ri <= bi {
        ri
    } else if gi <= bi {
        gi
    } else {
        bi
    };
    let d: u32 = mx - mn;
    if d == 0 {
        (r, g, b)
    } else {
        let hn: i64 = if mx == ri {
            60 * (gi as i64 - bi as i64) + (if gi < bi {
                360 * d as i64
            } else {
                0
            })
        } else if mx == gi {
            60 * (bi as i64 - ri as i64) + 120 * d as i64
        } else {
            60 * (ri as i64 - gi as i64) + 240 * d as i64
        };
        let s0: i64 = if shift >= 0 {
            (shift as i64) % 360
        } else {
            let m = ((-(shift as i64)) % 360);
            proof {
                lemma_neg_mod_360(shift as int, m as int);
            }
            if m == 0 {
                0
            } else {
                360 - m
            }
        };
        proof {
            lemma_hue_num_range(r as int, g as int, b as int);
            lemma_hue_range(hn as int, s0 as int, d as int);
            assert(0 <= s0 * (d as int) && s0 * (d as int) <= 91800) by (nonlinear_arith)
                requires 0 <= s0 < 360 && 0 < d <= 255;
        }
        let hs: u64 = ((hn + s0 * d as i64) as u64) % (360 * d as u64);
        let t: u64 = 3 * hs;
        let v_r = hue_channel_exec(mn, mx, d, (t + 360 * d as u64) % (1080 * d as u64));
        let v_g = hue_channel_exec(mn, mx, d, t);
        let v_b = hue_channel_exec(mn, mx, d, (t + 720 * d as u64) % (1080 * d as u64));
        (v_r, v_g, v_b)
    }
}

/// How a negative shift reduces to the canonical `[0, 360)` residue.
proof fn lemma_neg_mod_360(s: int, m: int)
    by (nonlinear_arith)
    requires
        s < 0,
        m == (-s) % 360,
    ensures
        s % 360 == if m == 0 { 0 } else { 360 - m },
{
}

/// The sector formula lands in `[0, 360 * d)`.
proof fn lemma_hue_num_range(r: int, g: int, b: int)
    requires
        0 <= r <= 255,
        0 <= g <= 255,
        0 <= b <= 255,
        max3(r, g, b) > min3(r, g, b),
    ensures
        0 <= hue_num(r, g, b) < 360 * (max3(r, g, b) - min3(r, g, b)),
{
}

/// Byte `j` of the image after a hue rotation: alpha bytes are copied,
/// color bytes go through [`spec_hue_rgb`] on their pixel.
pub open spec fn spec_hue_byte(data: Seq<u8>, shift: int, j: int) -> u8 {
    let p = j / 4;
    let c = j % 4;
    if c == 3 {
        data[j]
    } else {
        let t = spec_hue_rgb(
            data[4 * p] as int,
            data[4 * p + 1] as int,
            data[4 * p + 2] as int,
            shift,
        );
        let v = if c == 0 {
            t.0
        } else if c == 1 {
            t.1
        } else {
            t.2
        };
        v as u8
    }
}

/// Reduces a residue in `[0, 2m)` by one subtraction.
proof fn lemma_mod_window(v: int, m: int)
    by (nonlinear_arith)
    requires
        m > 0,
        0 <= v < 2 * m,
    ensures
        v % m == if v < m { v } else { v - m },
{
}

/// The tent rise is exact on multiples of the scale: climbing `e`
/// steps from the minimum lands on `min + e`.
proof fn lemma_tent_step(e: int)
    by (nonlinear_arith)
    requires
        0 <= e,
    ensures
        (2 * (180 * e) + 180) / 360 == e,
{
}

/// The RGB-to-HSL-to-RGB round trip is the identity: a hue rotation by
/// zero degrees (or any multiple of 360) reproduces every pixel
/// exactly, chromatic or not.
pub proof fn lemma_hue_round_trip(r: int, g: int, b: int, shift: int)
    requires
        0 <= r <= 255,
        0 <= g <= 255,
        0 <= b <= 255,
        shift % 360 == 0,
    ensures
        spec_hue_rgb(r, g, b, shift) == (r, g, b),
{
    let mx = max3(r, g, b);
    let mn = min3(r, g, b);
    let d = mx - mn;
    if d != 0 {
        lemma_hue_num_range(r, g, b);
        let hn = hue_num(r, g, b);
        assert((hn + 0 * d) % (360 * d) == hn) by (nonlinear_arith)
            requires 0 <= hn < 360 * d;
        let t = 3 * hn;
        let tr = (t + 360 * d) % (1080 * d);
        let tg = t;
        let tb = (t + 720 * d) % (1080 * d);
        if mx == r {
            if g >= b {
                // sector 0: hue 180*(g-b) out of 1080*d thirds
                let e = g - b;
                lemma_mod_window(180 * e + 360 * d, 1080 * d);
                lemma_mod_window(180 * e + 720 * d, 1080 * d);
                lemma_tent_step(e);
                lemma_tent_step(d);
                assert(spec_hue_rgb(r, g, b, shift).1 == g);
            } else {
                // sector 5: hue 1080*d - 180*(b-g)
                let e = b - g;
                assert(t == 1080 * d - 180 * e);
                lemma_mod_window(t + 360 * d - 1080 * d, 1080 * d);
                lemma_mod_window(t + 720 * d - 1080 * d, 1080 * d);
                assert(tr == 360 * d - 180 * e && tb == 720 * d - 180 * e) by (nonlinear_arith)
                    requires
                        t == 1080 * d - 180 * e,
                        0 < e <= d,
                        d > 0,
                        tr == (t + 360 * d) % (1080 * d),
                        tb == (t + 720 * d) % (1080 * d);
                lemma_tent_step(e);
            }
        } else if mx == g {
            // sectors 1 and 2: hue 360*d + 180*(b-r)
            let e = b - r;
            assert(t == 360 * d + 180 * e);
            assert(tr == 720 * d + 180 * e) by (nonlinear_arith)
                requires
                    t == 360 * d + 180 * e,
                    -d <= e <= d,
                    d > 0,
                    tr == (t + 360 * d) % (1080 * d);
            assert(tb == (180 * e + 1080 * d) % (1080 * d));
            if e >= 0 {
                assert(tb == 180 * e) by (nonlinear_arith)
                    requires
                        tb == (180 * e + 1080 * d) % (1080 * d),
                        0 <= e <= d,
                        d > 0;
            } else {
                assert(tb == 180 * e + 1080 * d) by (nonlinear_arith)
                    requires
                        tb == (180 * e + 1080 * d) % (1080 * d),
                        -d <= e < 0,
                        d > 0;
            }
            lemma_tent_step(if e >= 0 { e } else { -e });
            lemma_tent_step(d);
        } else {
            // sectors 3 and 4: hue 720*d + 180*(r-g); the blue maximum
            // is strict, so the offset never reaches a full step
            let e = r - g;
            assert(t == 720 * d + 180 * e);
            assert(r < b);
            assert(tr == (180 * e + 1080 * d) % (1080 * d)) by (nonlinear_arith)
                requires
                    t == 720 * d + 180 * e,
                    tr == (t + 360 * d) % (1080 * d);
            if e >= 0 {
                assert(e < d);
                assert(tr == 180 * e) by (nonlinear_arith)
                    requires
                        tr == (180 * e + 1080 * d) % (1080 * d),
                        0 <= e < d,
                        d > 0;
            } else {
                assert(tr == 180 * e + 1080 * d) by (nonlinear_arith)
                    requires
                        tr == (180 * e + 1080 * d) % (1080 * d),
                        -d <= e < 0,
                        d > 0;
            }
            assert(tb == 360 * d + 180 * e) by (nonlinear_arith)
                requires
                    t == 720 * d + 180 * e,
                    -d <= e < d,
                    d > 0,
                    tb == (t + 720 * d) % (1080 * d);
            lemma_tent_step(if e >= 0 { e } else { -e });
            lemma_tent_step(d);
        }
    }
}

proof fn lemma_byte_split(p: int, c: int)
    by (nonlinear_arith)
    requires
        0 <= p,
        0 <= c < 4,
    ensures
        (4 * p + c) / 4 == p,
        (4 * p + c) % 4 == c,
{
}

/// A whole-turn hue rotation leaves a whole buffer unchanged: any
/// output with the hue contract for a shift that is a multiple of 360
/// degrees is the source, byte for byte.
pub proof fn lemma_hue_round_trip_buffer(data: Seq<u8>, shift: int, out: Seq<u8>)
    requires
        shift % 360 == 0,
        data.len() % 4 == 0,
        out.len() == data.len(),
        forall|j: int| 0 <= j < data.len() ==> out[j] == spec_hue_byte(data, shift, j),
    ensures
        out == data,
{
    assert forall|j: int| 0 <= j < data.len() implies out[j] == data[j] by {
        vstd::arithmetic::div_mod::lemma_fundamental_div_mod(j, 4);
        let p = j / 4;
        let c = j % 4;
        assert(0 <= c < 4 && 0 <= p && j == 4 * p + c) by (nonlinear_arith)
            requires j >= 0 && p == j / 4 && c == j % 4;
        if c != 3 {
            lemma_hue_round_trip(
                data[4 * p] as int, data[4 * p + 1] as int, data[4 * p + 2] as int, shift);
        }
    }
    assert(out =~= data);
}

/// Rotates the hue of every pixel by `shift` degrees (alpha untouched).
/// Unlike the catalog filters, the parameter is a literal degree count,
/// not a normalized intensity.
pub fn adjust_hue(data: &[u8], shift: i32) -> (out: Vec<u8>)
    requires
        data@.len() % 4 == 0,
    ensures
        out@.len() == data@.len(),
        forall|j: int|
            0 <= j < data@.len() ==> out@[j] == spec_hue_byte(data@, shift as int, j),
{
    let n = data.len();
    let n_px = n / 4;
    let mut out: Vec<u8> = Vec::new();
    let mut p: usize = 0;
    while p < n_px
        invariant
            n == data@.len(),
            n % 4 == 0,
            n_px == n / 4,
            p <= n_px,
            out@.len() == 4 * p,
            forall|j: int|
                0 <= j < 4 * p ==> out@[j] == spec_hue_byte(data@, shift as int, j),
        decreases n_px - p,
    {
        let i = 4 * p;
        proof {
            assert(4 * (p + 1) <= 4 * (n / 4) <= n) by (nonlinear_arith)
                requires p < n / 4 && n % 4 == 0;
        }
        let r = *slice_index_get(data, i);
        let g = *slice_index_get(data, i + 1);
        let b = *slice_index_get(data, i + 2);
        let a = *slice_index_get(data, i + 3);
        let (nr, ng, nb) = hue_px(r, g, b, shift);
        out.push(nr);
        out.push(ng);
        out.push(nb);
        out.push(a);
        proof {
            lemma_byte_split(p as int, 0);
            lemma_byte_split(p as int, 1);
            lemma_byte_split(p as int, 2);
            lemma_byte_split(p as int, 3);
        }
        p += 1;
    }
    proof {
        assert(4 * (n / 4) == n) by (nonlinear_arith)
            requires n % 4 == 0 && n >= 0;
    }
    out
}

} // verus!
