use imagefx::histogram::get_histogram;

fn image() -> Vec<u8> {
    vec![
        255, 0, 0, 255, //
        0, 255, 0, 255, //
        0, 0, 255, 255, //
        255, 255, 255, 255, //
        10, 20, 30, 0, //
        10, 20, 30, 9,
    ]
}

#[test]
fn histogram_counts_concrete() {
    let h = get_histogram(&image());
    let red = h.red();
    let green = h.green();
    let blue = h.blue();
    assert_eq!(red.len(), 256);
    assert_eq!(red[255], 2);
    assert_eq!(red[0], 2);
    assert_eq!(red[10], 2);
    assert_eq!(green[255], 2);
    assert_eq!(green[0], 2);
    assert_eq!(green[20], 2);
    assert_eq!(blue[255], 2);
    assert_eq!(blue[0], 2);
    assert_eq!(blue[30], 2);
}

#[test]
fn histogram_channel_sums_equal_pixel_count() {
    let img = image();
    let n = (img.len() / 4) as u32;
    let h = get_histogram(&img);
    let total = |v: &Vec<u32>| v.iter().map(|&c| c as u64).sum::<u64>();
    assert_eq!(total(&h.red()), n as u64);
    assert_eq!(total(&h.green()), n as u64);
    assert_eq!(total(&h.blue()), n as u64);
    assert_eq!(total(&h.luminance()), n as u64);
}

#[test]
fn histogram_luminance_buckets() {
    let h = get_histogram(&image());
    let lum = h.luminance();
    // pure red: 0.2126*255 = 54.2 rounds to 54
    assert_eq!(lum[54], 1);
    // pure green: 0.7152*255 = 182.4 rounds to 182
    assert_eq!(lum[182], 1);
    // pure blue: 0.0722*255 = 18.4 rounds to 18
    assert_eq!(lum[18], 1);
    // white: exactly 255
    assert_eq!(lum[255], 1);
    // (10,20,30) twice: 0.2126*10+0.7152*20+0.0722*30 = 18.6 rounds to 19
    assert_eq!(lum[19], 2);
}

#[test]
fn histogram_invariant_under_pixel_shuffle() {
    let img = image();
    // reverse the pixel order: same multiset of pixels
    let mut shuffled = Vec::new();
    for p in (0..img.len() / 4).rev() {
        shuffled.extend_from_slice(&img[p * 4..p * 4 + 4]);
    }
    let a = get_histogram(&img);
    let b = get_histogram(&shuffled);
    assert_eq!(a.red(), b.red());
    assert_eq!(a.green(), b.green());
    assert_eq!(a.blue(), b.blue());
    assert_eq!(a.luminance(), b.luminance());
}
