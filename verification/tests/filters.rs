use imagefx::kernel::run_filter;
use imagefx::pointwise::{
    brightness_px, contrast_px, cool_px, grayscale_px, noise_px, posterize_px, saturation_px,
    warm_px,
};
use imagefx::FilterType;

fn image_2x2() -> Vec<u8> {
    vec![
        255, 0, 0, 255, // red
        0, 255, 0, 255, // green
        0, 0, 255, 255, // blue
        255, 255, 255, 255, // white
    ]
}

#[test]
fn grayscale_concrete_scenario() {
    // 2x2 image, grayscale at full intensity: pure red has luminance
    // 0.2126*255 = 54.2 -> 54; white stays white.
    let out = run_filter(&image_2x2(), 2, 2, FilterType::Grayscale, 1000);
    assert_eq!(&out[0..4], &[54, 54, 54, 255]);
    assert_eq!(&out[12..16], &[255, 255, 255, 255]);
}

#[test]
fn zero_intensity_is_identity_for_blend_filters() {
    let img = image_2x2();
    for kind in [
        FilterType::Grayscale,
        FilterType::Sepia,
        FilterType::Invert,
        FilterType::Emboss,
        FilterType::EdgeDetect,
        FilterType::Vintage,
    ] {
        let out = run_filter(&img, 2, 2, kind, 0);
        assert_eq!(out, img, "{:?} at zero intensity must be the identity", kind);
    }
}

#[test]
fn invert_full_intensity() {
    let out = run_filter(&image_2x2(), 2, 2, FilterType::Invert, 1000);
    assert_eq!(&out[0..4], &[0, 255, 255, 255]);
    assert_eq!(&out[12..16], &[0, 0, 0, 255]);
}

#[test]
fn brightness_extremes_and_center() {
    assert_eq!(brightness_px(100, 150, 200, 1000), (255, 255, 255));
    assert_eq!(brightness_px(100, 150, 200, 0), (0, 0, 0));
    assert_eq!(brightness_px(100, 150, 200, 500), (100, 150, 200));
}

#[test]
fn contrast_center_is_identity() {
    assert_eq!(contrast_px(17, 130, 255, 500), (17, 130, 255));
    // zero contrast pulls everything to 128
    assert_eq!(contrast_px(17, 130, 255, 0), (128, 128, 128));
}

#[test]
fn saturation_center_is_identity() {
    assert_eq!(saturation_px(17, 130, 255, 500), (17, 130, 255));
    // zero saturation is the grayscale luminance
    let (r, g, b) = saturation_px(255, 0, 0, 0);
    assert_eq!((r, g, b), (54, 54, 54));
}

#[test]
fn warm_and_cool_shift_red_and_blue() {
    assert_eq!(warm_px(100, 100, 100, 1000), (125, 100, 75));
    assert_eq!(cool_px(100, 100, 100, 1000), (75, 100, 125));
    // saturating at the byte bounds
    assert_eq!(warm_px(250, 0, 10, 1000), (255, 0, 0));
    assert_eq!(cool_px(10, 0, 250, 1000), (0, 0, 255));
}

#[test]
fn posterize_two_levels() {
    // intensity 0 gives 2 levels: below 127.5 -> 0, above -> 255
    assert_eq!(posterize_px(127, 128, 255, 0), (0, 255, 255));
    assert_eq!(posterize_px(0, 60, 200, 0), (0, 0, 255));
}

#[test]
fn noise_is_deterministic_and_matches_seed() {
    // pixel at byte index 0 draws pseudo_random(0) == 0, so the offset
    // at full intensity is (0/32767 - 0.5) * 50 = -25
    assert_eq!(noise_px(200, 100, 30, 1000, 0), (175, 75, 5));
    assert_eq!(noise_px(200, 100, 30, 1000, 0), noise_px(200, 100, 30, 1000, 0));
    // zero intensity leaves the pixel alone
    assert_eq!(noise_px(200, 100, 30, 0, 4), (200, 100, 30));
}

#[test]
fn grayscale_px_matches_run_filter() {
    let img = image_2x2();
    let out = run_filter(&img, 2, 2, FilterType::Grayscale, 700);
    let (r, g, b) = grayscale_px(255, 0, 0, 700);
    assert_eq!(&out[0..3], &[r, g, b]);
}

#[test]
fn empty_image_stays_empty() {
    let img: Vec<u8> = Vec::new();
    let out = run_filter(&img, 0, 0, FilterType::Sepia, 1000);
    assert!(out.is_empty());
}
