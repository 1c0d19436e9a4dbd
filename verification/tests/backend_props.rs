use imagefx::kernel::{filter_texel, run_filter};
use imagefx::image::get_ch;
use imagefx::FilterType;

fn test_image(w: u32, h: u32) -> Vec<u8> {
    let mut v = Vec::new();
    for p in 0..w * h {
        let x = p % w;
        let y = p / w;
        v.push((x * 37 + y * 11) as u8);
        v.push((x * 3 + y * 59) as u8);
        v.push((255 - (x * 13 + y * 7) % 256) as u8);
        v.push(if p % 5 == 0 { 200 } else { 255 });
    }
    v
}

const ALL_KINDS: [FilterType; 18] = [
    FilterType::Grayscale,
    FilterType::Sepia,
    FilterType::Invert,
    FilterType::Brightness,
    FilterType::Contrast,
    FilterType::Saturation,
    FilterType::Blur,
    FilterType::Sharpen,
    FilterType::Vignette,
    FilterType::Vintage,
    FilterType::Warm,
    FilterType::Cool,
    FilterType::Posterize,
    FilterType::Emboss,
    FilterType::EdgeDetect,
    FilterType::Noise,
    FilterType::Pixelate,
    FilterType::ChromaticAberration,
];

/// The sequential pass and the per-texel kernel must agree byte for
/// byte, for every filter over an intensity grid — whatever order the
/// texels are visited in. The kernel here is dispatched in reversed,
/// column-major order to make the independence visible.
#[test]
fn sequential_and_per_texel_backends_agree() {
    let (w, h) = (9u32, 7u32);
    let img = test_image(w, h);
    for kind in ALL_KINDS {
        for k in [0u32, 100, 300, 500, 900, 1000] {
            let seq_out = run_filter(&img, w, h, kind, k);
            let mut par_out = vec![0u8; img.len()];
            for x in (0..w).rev() {
                for y in (0..h).rev() {
                    let (r, g, b) = filter_texel(&img, w, h, kind, k, x, y);
                    let a = get_ch(&img, w, h, x, y, 3);
                    let i = ((y * w + x) * 4) as usize;
                    par_out[i] = r;
                    par_out[i + 1] = g;
                    par_out[i + 2] = b;
                    par_out[i + 3] = a;
                }
            }
            assert_eq!(seq_out, par_out, "{:?} at intensity {}", kind, k);
        }
    }
}
