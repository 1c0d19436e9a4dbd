use imagefx::kernel::run_filter;
use imagefx::radial::{chroma_px, vignette_px};
use imagefx::FilterType;

fn white(w: u32, h: u32) -> Vec<u8> {
    let mut v = Vec::new();
    for _ in 0..w * h {
        v.extend_from_slice(&[255, 255, 255, 255]);
    }
    v
}

#[test]
fn vignette_darkens_toward_corners() {
    // Concrete scenario: 4x4 uniform white at full intensity. The
    // center keeps the most brightness and the corners are attenuated
    // below it, monotonically with distance.
    let out = run_filter(&white(4, 4), 4, 4, FilterType::Vignette, 1000);
    let at = |x: u32, y: u32| out[((y * 4 + x) * 4) as usize];
    // the exact center pixel keeps full brightness
    assert_eq!(at(2, 2), 255);
    // inner ring at half the corner distance keeps a quarter
    assert_eq!(at(1, 1), 63);
    // the top-left corner sits at the full corner distance and is
    // extinguished; the bottom-right pixel center is only halfway out,
    // like (1,1), since the center lies on the (2,2) pixel
    assert_eq!(at(0, 0), 0);
    assert_eq!(at(3, 3), 63);
    assert!(at(2, 2) > at(1, 1) && at(1, 1) > at(0, 0));
    // alpha untouched everywhere
    assert_eq!(out[3], 255);
}

#[test]
fn vignette_zero_intensity_is_identity() {
    let img = white(4, 4);
    let out = run_filter(&img, 4, 4, FilterType::Vignette, 0);
    assert_eq!(out, img);
}

#[test]
fn vignette_px_matches_whole_image() {
    let img = white(4, 4);
    let out = run_filter(&img, 4, 4, FilterType::Vignette, 700);
    let (r, g, b) = vignette_px(&img, 4, 4, 700, 0, 0);
    assert_eq!(&out[0..3], &[r, g, b]);
}

#[test]
fn chroma_uniform_image_unchanged() {
    // shifting channels inside a uniform image samples the same color
    let img = white(4, 4);
    let out = run_filter(&img, 4, 4, FilterType::ChromaticAberration, 1000);
    assert_eq!(out, img);
}

#[test]
fn chroma_shifts_red_and_blue_apart() {
    // 4x1 row with a red step: at full intensity the offset is 10,
    // clamped to the row, so the corner samples the row end.
    let mut img = vec![0u8; 16];
    for x in 0..4 {
        img[x * 4] = (x as u8) * 10; // red ramp 0,10,20,30
        img[x * 4 + 2] = 200 - (x as u8) * 10; // blue ramp 200..170
        img[x * 4 + 3] = 255;
    }
    let (r, g, b) = chroma_px(&img, 4, 1, 1000, 0, 0);
    // red from min(0+shift, 3), blue from max(0-shift, 0)
    assert_eq!(g, 0);
    assert_eq!(b, 200);
    assert_eq!(r, 30);
}
