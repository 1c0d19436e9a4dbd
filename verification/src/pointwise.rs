//! Pixel-wise filters: every output pixel depends only on that pixel's
//! own channels (plus, for noise, the pixel's flat byte index). Alpha is
//! never modified by any filter in this set.
//!
//! Each filter computes a target color by a fixed linear formula, blends
//! source toward target by the intensity where the catalog says so, and
//! narrows back to a channel byte by [`clamp_div`]: exact rational
//! arithmetic with the fractional part dropped and the result bounded to
//! `[0, 255]`.

use vstd::prelude::*;
use crate::kinds::FilterType;
use crate::math::{clamp_div, clamp_div_i128, lum_num, luminance, pseudo_random, spec_pseudo_random};

verus! {

/// Grayscale: blend each channel toward the pixel's luminance.
pub open spec fn spec_gray_rgb(r: int, g: int, b: int, k: int) -> (int, int, int) {
    let l = lum_num(r, g, b);
    (
        clamp_div(r * 10000000 + (l - r * 10000) * k, 10000000),
        clamp_div(g * 10000000 + (l - g * 10000) * k, 10000000),
        clamp_div(b * 10000000 + (l - b * 10000) * k, 10000000),
    )
}

/// The numerators of the standard sepia matrix rows, against 1000.
pub open spec fn sepia_nums(r: int, g: int, b: int) -> (int, int, int) {
    (393 * r + 769 * g + 189 * b, 349 * r + 686 * g + 168 * b, 272 * r + 534 * g + 131 * b)
}

/// Sepia: blend each channel toward its sepia matrix row.
pub open spec fn spec_sepia_rgb(r: int, g: int, b: int, k: int) -> (int, int, int) {
    let s = sepia_nums(r, g, b);
    (
        clamp_div(r * 1000000 + (s.0 - r * 1000) * k, 1000000),
        clamp_div(g * 1000000 + (s.1 - g * 1000) * k, 1000000),
        clamp_div(b * 1000000 + (s.2 - b * 1000) * k, 1000000),
    )
}

/// Invert: blend each channel toward its complement `255 - c`.
pub open spec fn spec_invert_rgb(r: int, g: int, b: int, k: int) -> (int, int, int) {
    (
        clamp_div(r * 1000 + (255 - 2 * r) * k, 1000),
        clamp_div(g * 1000 + (255 - 2 * g) * k, 1000),
        clamp_div(b * 1000 + (255 - 2 * b) * k, 1000),
    )
}

/// Brightness: add `(k - 500) * 51 / 100` (that is `(i - 0.5) * 2 * 255`)
/// to every channel.
pub open spec fn spec_brightness_rgb(r: int, g: int, b: int, k: int) -> (int, int, int) {
    (
        clamp_div(r * 100 + (k - 500) * 51, 100),
        clamp_div(g * 100 + (k - 500) * 51, 100),
        clamp_div(b * 100 + (k - 500) * 51, 100),
    )
}

/// Contrast: scale each channel's distance from 128 by `2 * i`.
pub open spec fn spec_contrast_rgb(r: int, g: int, b: int, k: int) -> (int, int, int) {
    (
        clamp_div((r - 128) * 2 * k + 128000, 1000),
        clamp_div((g - 128) * 2 * k + 128000, 1000),
        clamp_div((b - 128) * 2 * k + 128000, 1000),
    )
}

/// Saturation: move each channel away from the pixel's luminance by
/// `2 * i`.
pub open spec fn spec_saturation_rgb(r: int, g: int, b: int, k: int) -> (int, int, int) {
    let l = lum_num(r, g, b);
    (
        clamp_div(l * 1000 + (r * 10000 - l) * 2 * k, 10000000),
        clamp_div(l * 1000 + (g * 10000 - l) * 2 * k, 10000000),
        clamp_div(l * 1000 + (b * 10000 - l) * 2 * k, 10000000),
    )
}

/// Warm: shift red up and blue down by `25 * i`; green is untouched.
pub open spec fn spec_warm_rgb(r: int, g: int, b: int, k: int) -> (int, int, int) {
    (clamp_div(r * 1000 + 25 * k, 1000), g, clamp_div(b * 1000 - 25 * k, 1000))
}

/// Cool: shift red down and blue up by `25 * i`; green is untouched.
pub open spec fn spec_cool_rgb(r: int, g: int, b: int, k: int) -> (int, int, int) {
    (clamp_div(r * 1000 - 25 * k, 1000), g, clamp_div(b * 1000 + 25 * k, 1000))
}

/// Posterize one channel: with `levels = k/100 + 2` the step is
/// `255/(levels-1) = 25500/(k+100)`; the channel is divided by the step,
/// rounded to the nearest level (half up), and scaled back.
pub open spec fn spec_posterize_ch(c: int, k: int) -> int {
    let m = (c * (k + 100) * 2 + 25500) / 51000;
    clamp_div(m * 25500, k + 100)
}

/// Posterize: quantize every channel to the level grid.
pub open spec fn spec_posterize_rgb(r: int, g: int, b: int, k: int) -> (int, int, int) {
    (spec_posterize_ch(r, k), spec_posterize_ch(g, k), spec_posterize_ch(b, k))
}

/// Noise: one deterministic offset per pixel, seeded by the pixel's flat
/// byte index and scaled by `50 * i`, added to all three channels.
pub open spec fn spec_noise_rgb(r: int, g: int, b: int, k: int, idx: int) -> (int, int, int) {
    let rv = spec_pseudo_random(idx % 0x1_0000_0000);
    let d = (2 * rv - 32767) * 50 * k;
    (
        clamp_div(r * 65534000 + d, 65534000),
        clamp_div(g * 65534000 + d, 65534000),
        clamp_div(b * 65534000 + d, 65534000),
    )
}

/// Vintage: the sepia matrix, then a 0.9 contrast pull toward 128, then a
/// blend from the original by the intensity.
pub open spec fn spec_vintage_rgb(r: int, g: int, b: int, k: int) -> (int, int, int) {
    let s = sepia_nums(r, g, b);
    (
        clamp_div(r * 10000000 + (9 * s.0 + 128000 - r * 10000) * k, 10000000),
        clamp_div(g * 10000000 + (9 * s.1 + 128000 - g * 10000) * k, 10000000),
        clamp_div(b * 10000000 + (9 * s.2 + 128000 - b * 10000) * k, 10000000),
    )
}

/// One pixel through a pixel-wise filter; other kinds leave the pixel
/// unchanged here.
pub open spec fn spec_pointwise_rgb(
    kind: FilterType,
    r: int,
    g: int,
    b: int,
    k: int,
    idx: int,
) -> (int, int, int) {
    match kind {
        FilterType::Grayscale => spec_gray_rgb(r, g, b, k),
        FilterType::Sepia => spec_sepia_rgb(r, g, b, k),
        FilterType::Invert => spec_invert_rgb(r, g, b, k),
        FilterType::Brightness => spec_brightness_rgb(r, g, b, k),
        FilterType::Contrast => spec_contrast_rgb(r, g, b, k),
        FilterType::Saturation => spec_saturation_rgb(r, g, b, k),
        FilterType::Vintage => spec_vintage_rgb(r, g, b, k),
        FilterType::Warm => spec_warm_rgb(r, g, b, k),
        FilterType::Cool => spec_cool_rgb(r, g, b, k),
        FilterType::Posterize => spec_posterize_rgb(r, g, b, k),
        FilterType::Noise => spec_noise_rgb(r, g, b, k, idx),
        _ => (r, g, b),
    }
}

/// Scales a bounded value by an intensity-sized factor, factored out so
/// that callers stay within linear arithmetic.
fn mul_i64(a: i64, b: i64) -> (r: i64)
    requires
        -0x7fff_ffff <= a <= 0x7fff_ffff,
        0 <= b <= 1100,
    ensures
        r == a * b,
        -0x7fff_ffff * 1100 <= r <= 0x7fff_ffff * 1100,
{
    proof {
        assert(-0x7fff_ffff * 1100 <= a * b <= 0x7fff_ffff * 1100) by (nonlinear_arith)
            requires -0x7fff_ffff <= a <= 0x7fff_ffff && 0 <= b <= 1100;
    }
    a * b
}

/// One pixel through the grayscale filter.
pub fn grayscale_px(r: u8, g: u8, b: u8, k: u32) -> (out: (u8, u8, u8))
    requires
        k <= 1000,
    ensures
        (out.0 as int, out.1 as int, out.2 as int) == spec_gray_rgb(
            r as int, g as int, b as int, k as int),
{
    let ri = r as i64;
    let gi = g as i64;
    let bi = b as i64;
    let ki = k as i64;
    let l = luminance(r, g, b) as i64;
    (
        clamp_div_i128((ri * 10000000 + mul_i64(l - ri * 10000, ki)) as i128, 10000000),
        clamp_div_i128((gi * 10000000 + mul_i64(l - gi * 10000, ki)) as i128, 10000000),
        clamp_div_i128((bi * 10000000 + mul_i64(l - bi * 10000, ki)) as i128, 10000000),
    )
}

/// One pixel through the sepia filter.
pub fn sepia_px(r: u8, g: u8, b: u8, k: u32) -> (out: (u8, u8, u8))
    requires
        k <= 1000,
    ensures
        (out.0 as int, out.1 as int, out.2 as int) == spec_sepia_rgb(
            r as int, g as int, b as int, k as int),
{
    let ri = r as i64;
    let gi = g as i64;
    let bi = b as i64;
    let ki = k as i64;
    let s0 = 393 * ri + 769 * gi + 189 * bi;
    let s1 = 349 * ri + 686 * gi + 168 * bi;
    let s2 = 272 * ri + 534 * gi + 131 * bi;
    (
        clamp_div_i128((ri * 1000000 + mul_i64(s0 - ri * 1000, ki)) as i128, 1000000),
        clamp_div_i128((gi * 1000000 + mul_i64(s1 - gi * 1000, ki)) as i128, 1000000),
        clamp_div_i128((bi * 1000000 + mul_i64(s2 - bi * 1000, ki)) as i128, 1000000),
    )
}

/// One pixel through the invert filter.
pub fn invert_px(r: u8, g: u8, b: u8, k: u32) -> (out: (u8, u8, u8))
    requires
        k <= 1000,
    ensures
        (out.0 as int, out.1 as int, out.2 as int) == spec_invert_rgb(
            r as int, g as int, b as int, k as int),
{
    let ri = r as i64;
    let gi = g as i64;
    let bi = b as i64;
    let ki = k as i64;
    (
        clamp_div_i128((ri * 1000 + mul_i64(255 - 2 * ri, ki)) as i128, 1000),
        clamp_div_i128((gi * 1000 + mul_i64(255 - 2 * gi, ki)) as i128, 1000),
        clamp_div_i128((bi * 1000 + mul_i64(255 - 2 * bi, ki)) as i128, 1000),
    )
}

/// One pixel through the brightness filter.
pub fn brightness_px(r: u8, g: u8, b: u8, k: u32) -> (out: (u8, u8, u8))
    requires
        k <= 1000,
    ensures
        (out.0 as int, out.1 as int, out.2 as int) == spec_brightness_rgb(
            r as int, g as int, b as int, k as int),
{
    let ki = k as i64;
    let adj = (ki - 500) * 51;
    (
        clamp_div_i128((r as i64 * 100 + adj) as i128, 100),
        clamp_div_i128((g as i64 * 100 + adj) as i128, 100),
        clamp_div_i128((b as i64 * 100 + adj) as i128, 100),
    )
}

/// One pixel through the contrast filter.
pub fn contrast_px(r: u8, g: u8, b: u8, k: u32) -> (out: (u8, u8, u8))
    requires
        k <= 1000,
    ensures
        (out.0 as int, out.1 as int, out.2 as int) == spec_contrast_rgb(
            r as int, g as int, b as int, k as int),
{
    let ki = k as i64;
    (
        clamp_div_i128((mul_i64((r as i64 - 128) * 2, ki) + 128000) as i128, 1000),
        clamp_div_i128((mul_i64((g as i64 - 128) * 2, ki) + 128000) as i128, 1000),
        clamp_div_i128((mul_i64((b as i64 - 128) * 2, ki) + 128000) as i128, 1000),
    )
}

/// One pixel through the saturation filter.
pub fn saturation_px(r: u8, g: u8, b: u8, k: u32) -> (out: (u8, u8, u8))
    requires
        k <= 1000,
    ensures
        (out.0 as int, out.1 as int, out.2 as int) == spec_saturation_rgb(
            r as int, g as int, b as int, k as int),
{
    let ri = r as i64;
    let gi = g as i64;
    let bi = b as i64;
    let ki = k as i64;
    let l = luminance(r, g, b) as i64;
    (
        clamp_div_i128((l * 1000 + mul_i64((ri * 10000 - l) * 2, ki)) as i128, 10000000),
        clamp_div_i128((l * 1000 + mul_i64((gi * 10000 - l) * 2, ki)) as i128, 10000000),
        clamp_div_i128((l * 1000 + mul_i64((bi * 10000 - l) * 2, ki)) as i128, 10000000),
    )
}

/// One pixel through the vintage preset.
pub fn vintage_px(r: u8, g: u8, b: u8, k: u32) -> (out: (u8, u8, u8))
    requires
        k <= 1000,
    ensures
        (out.0 as int, out.1 as int, out.2 as int) == spec_vintage_rgb(
            r as int, g as int, b as int, k as int),
{
    let ri = r as i64;
    let gi = g as i64;
    let bi = b as i64;
    let ki = k as i64;
    let s0 = 393 * ri + 769 * gi + 189 * bi;
    let s1 = 349 * ri + 686 * gi + 168 * bi;
    let s2 = 272 * ri + 534 * gi + 131 * bi;
    (
        clamp_div_i128((ri * 10000000 + mul_i64(9 * s0 + 128000 - ri * 10000, ki)) as i128, 10000000),
        clamp_div_i128((gi * 10000000 + mul_i64(9 * s1 + 128000 - gi * 10000, ki)) as i128, 10000000),
        clamp_div_i128((bi * 10000000 + mul_i64(9 * s2 + 128000 - bi * 10000, ki)) as i128, 10000000),
    )
}

/// One pixel through the warm filter.
pub fn warm_px(r: u8, g: u8, b: u8, k: u32) -> (out: (u8, u8, u8))
    requires
        k <= 1000,
    ensures
        (out.0 as int, out.1 as int, out.2 as int) == spec_warm_rgb(
            r as int, g as int, b as int, k as int),
{
    let ki = k as i64;
    (
        clamp_div_i128((r as i64 * 1000 + 25 * ki) as i128, 1000),
        g,
        clamp_div_i128((b as i64 * 1000 - 25 * ki) as i128, 1000),
    )
}

/// One pixel through the cool filter.
pub fn cool_px(r: u8, g: u8, b: u8, k: u32) -> (out: (u8, u8, u8))
    requires
        k <= 1000,
    ensures
        (out.0 as int, out.1 as int, out.2 as int) == spec_cool_rgb(
            r as int, g as int, b as int, k as int),
{
    let ki = k as i64;
    (
        clamp_div_i128((r as i64 * 1000 - 25 * ki) as i128, 1000),
        g,
        clamp_div_i128((b as i64 * 1000 + 25 * ki) as i128, 1000),
    )
}

/// One pixel through the posterize filter.
pub fn posterize_px(r: u8, g: u8, b: u8, k: u32) -> (out: (u8, u8, u8))
    requires
        k <= 1000,
    ensures
        (out.0 as int, out.1 as int, out.2 as int) == spec_posterize_rgb(
            r as int, g as int, b as int, k as int),
{
    let ki = k as i64;
    let mr = (mul_i64(r as i64, ki + 100) * 2 + 25500) / 51000;
    let mg = (mul_i64(g as i64, ki + 100) * 2 + 25500) / 51000;
    let mb = (mul_i64(b as i64, ki + 100) * 2 + 25500) / 51000;
    (
        clamp_div_i128((mr * 25500) as i128, (ki + 100) as u128),
        clamp_div_i128((mg * 25500) as i128, (ki + 100) as u128),
        clamp_div_i128((mb * 25500) as i128, (ki + 100) as u128),
    )
}

/// One pixel through the noise filter; `idx` is the pixel's flat byte
/// index, the seed of its deterministic offset.
#[verifier::rlimit(50)]
pub fn noise_px(r: u8, g: u8, b: u8, k: u32, idx: usize) -> (out: (u8, u8, u8))
    requires
        k <= 1000,
    ensures
        (out.0 as int, out.1 as int, out.2 as int) == spec_noise_rgb(
            r as int, g as int, b as int, k as int, idx as int),
{
    let ki = k as i64;
    let seed: u32 = ((idx as u64) % 0x1_0000_0000) as u32;
    let rv = pseudo_random(seed) as i64;
    let d = mul_i64((2 * rv - 32767) * 50, ki);
    (
        clamp_div_i128((r as i64 * 65534000 + d) as i128, 65534000),
        clamp_div_i128((g as i64 * 65534000 + d) as i128, 65534000),
        clamp_div_i128((b as i64 * 65534000 + d) as i128, 65534000),
    )
}

/// Applies a pixel-wise filter to one pixel. `idx` is the pixel's flat
/// byte index, which seeds the noise filter; kinds outside this set pass
/// the pixel through.
pub fn pointwise_px(kind: FilterType, r: u8, g: u8, b: u8, k: u32, idx: usize) -> (out: (
    u8,
    u8,
    u8,
))
    requires
        k <= 1000,
    ensures
        (out.0 as int, out.1 as int, out.2 as int) == spec_pointwise_rgb(
            kind, r as int, g as int, b as int, k as int, idx as int),
{
    match kind {
        FilterType::Grayscale => grayscale_px(r, g, b, k),
        FilterType::Sepia => sepia_px(r, g, b, k),
        FilterType::Invert => invert_px(r, g, b, k),
        FilterType::Brightness => brightness_px(r, g, b, k),
        FilterType::Contrast => contrast_px(r, g, b, k),
        FilterType::Saturation => saturation_px(r, g, b, k),
        FilterType::Vintage => vintage_px(r, g, b, k),
        FilterType::Warm => warm_px(r, g, b, k),
        FilterType::Cool => cool_px(r, g, b, k),
        FilterType::Posterize => posterize_px(r, g, b, k),
        FilterType::Noise => noise_px(r, g, b, k, idx),
        _ => (r, g, b),
    }
}

} // verus!
