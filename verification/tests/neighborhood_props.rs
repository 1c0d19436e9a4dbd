use imagefx::kernel::run_filter;
use imagefx::neighborhood::{blur_px, edge_px, emboss_px, pixelate_px, sharpen_px};
use imagefx::FilterType;

fn uniform(w: u32, h: u32, r: u8, g: u8, b: u8) -> Vec<u8> {
    let mut v = Vec::new();
    for _ in 0..w * h {
        v.extend_from_slice(&[r, g, b, 255]);
    }
    v
}

#[test]
fn blur_uniform_is_identity() {
    let img = uniform(5, 4, 90, 120, 200);
    let out = run_filter(&img, 5, 4, FilterType::Blur, 1000);
    assert_eq!(out, img);
}

#[test]
fn blur_averages_window() {
    // 3x1 image: blur radius at intensity 0 is 1, so the middle pixel
    // averages all three columns, the ends only two.
    let img = vec![
        30, 0, 0, 255, //
        60, 0, 0, 255, //
        90, 0, 0, 255,
    ];
    let out = run_filter(&img, 3, 1, FilterType::Blur, 0);
    assert_eq!(out[0], 45); // (30+60)/2
    assert_eq!(out[4], 60); // (30+60+90)/3
    assert_eq!(out[8], 75); // (60+90)/2
    assert_eq!(out[3], 255); // alpha untouched
}

#[test]
fn sharpen_uniform_is_identity() {
    let img = uniform(4, 4, 77, 80, 90);
    let out = run_filter(&img, 4, 4, FilterType::Sharpen, 800);
    assert_eq!(out, img);
}

#[test]
fn sharpen_spike_clamps() {
    // 3x3 black with a bright center: factor 1 gives 100*5 - 0 = 500,
    // clamped to 255. Border pixels stay untouched.
    let mut img = uniform(3, 3, 0, 0, 0);
    img[4 * 4] = 100;
    let out = run_filter(&img, 3, 3, FilterType::Sharpen, 500);
    assert_eq!(out[4 * 4], 255);
    assert_eq!(out[0], 0);
    let (r, g, b) = sharpen_px(&img, 3, 3, 500, 1, 1);
    assert_eq!((r, g, b), (255, 0, 0));
}

#[test]
fn emboss_flat_interior_is_mid_gray_blend() {
    // flat image: bottom-right minus top-left is 0, so the emboss value
    // is 128 and full intensity lands interior pixels on 128 exactly.
    let img = uniform(3, 3, 10, 200, 90);
    let out = run_filter(&img, 3, 3, FilterType::Emboss, 1000);
    assert_eq!(&out[4 * 4..4 * 4 + 4], &[128, 128, 128, 255]);
    // border pixels are unmodified
    assert_eq!(&out[0..4], &[10, 200, 90, 255]);
    let px = emboss_px(&img, 3, 3, 1000, 1, 1);
    assert_eq!(px, (128, 128, 128));
}

#[test]
fn edge_detect_flat_interior_goes_dark() {
    // flat image: zero gradient, so full intensity sends interior
    // pixels to zero while the border stays.
    let img = uniform(3, 3, 200, 150, 100);
    let out = run_filter(&img, 3, 3, FilterType::EdgeDetect, 1000);
    assert_eq!(&out[4 * 4..4 * 4 + 3], &[0, 0, 0]);
    assert_eq!(&out[0..3], &[200, 150, 100]);
    let px = edge_px(&img, 3, 3, 1000, 1, 1);
    assert_eq!(px, (0, 0, 0));
}

#[test]
fn pixelate_blocks_of_two() {
    // Concrete scenario: 4x4 image, intensity 50 forces block size 2;
    // each 2x2 block becomes its truncated average.
    let mut img = Vec::new();
    for p in 0..16u32 {
        let v = (p * 10) as u8;
        img.extend_from_slice(&[v, v / 2, 255 - v, 255]);
    }
    let out = run_filter(&img, 4, 4, FilterType::Pixelate, 50);
    // top-left block holds pixels 0,1,4,5 -> red avg (0+10+40+50)/4 = 25
    let tl_r = 25u8;
    for (x, y) in [(0u32, 0u32), (1, 0), (0, 1), (1, 1)] {
        let i = ((y * 4 + x) * 4) as usize;
        assert_eq!(out[i], tl_r);
        assert_eq!(out[i + 1] as u32, (0 + 5 + 20 + 25) / 4);
        assert_eq!(out[i + 2] as u32, (255 + 245 + 215 + 205) / 4);
        assert_eq!(out[i + 3], 255);
    }
    // bottom-right block holds pixels 10,11,14,15 -> (100+110+140+150)/4 = 125
    for (x, y) in [(2u32, 2u32), (3, 2), (2, 3), (3, 3)] {
        let i = ((y * 4 + x) * 4) as usize;
        assert_eq!(out[i], 125);
    }
    assert_eq!(pixelate_px(&img, 4, 4, 50, 0, 0).0, 25);
}

#[test]
fn one_pixel_image_neighborhood_filters() {
    // a 1x1 image is all border for the stencil filters and its own
    // window for blur and pixelate
    let img = vec![40, 80, 120, 7];
    for kind in [
        FilterType::Blur,
        FilterType::Sharpen,
        FilterType::Emboss,
        FilterType::EdgeDetect,
        FilterType::Pixelate,
    ] {
        let out = run_filter(&img, 1, 1, kind, 1000);
        assert_eq!(out, img, "{:?} on a single pixel", kind);
    }
    assert_eq!(blur_px(&img, 1, 1, 1000, 0, 0), (40, 80, 120));
}
