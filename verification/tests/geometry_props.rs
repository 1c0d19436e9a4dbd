use imagefx::geometry::{crop, flip, resize, rotate};

fn ramp(w: u32, h: u32) -> Vec<u8> {
    let mut v = Vec::new();
    for p in 0..w * h {
        let x = (p * 7 % 256) as u8;
        v.extend_from_slice(&[x, x.wrapping_add(40), x.wrapping_add(90), 255]);
    }
    v
}

#[test]
fn resize_to_same_size_is_identity() {
    let img = ramp(5, 3);
    let out = resize(&img, 5, 3, 5, 3);
    assert_eq!(out, img);
}

#[test]
fn resize_upscale_uniform_stays_uniform() {
    let img = vec![10, 20, 30, 40];
    let out = resize(&img, 1, 1, 3, 2);
    assert_eq!(out.len(), 24);
    for p in 0..6 {
        assert_eq!(&out[p * 4..p * 4 + 4], &[10, 20, 30, 40]);
    }
}

#[test]
fn resize_bilinear_midpoints() {
    // 2x1 -> 4x1: destination column 1 sits halfway between the two
    // source pixels and rounds half up.
    let img = vec![0, 0, 0, 255, 100, 200, 0, 255];
    let out = resize(&img, 2, 1, 4, 1);
    let red: Vec<u8> = (0..4).map(|x| out[x * 4]).collect();
    assert_eq!(red, vec![0, 50, 100, 100]);
    let green: Vec<u8> = (0..4).map(|x| out[x * 4 + 1]).collect();
    assert_eq!(green, vec![0, 100, 200, 200]);
}

#[test]
fn rotate_zero_is_identity() {
    let img = ramp(4, 3);
    let out = rotate(&img, 4, 3, 0);
    assert_eq!(out.width(), 4);
    assert_eq!(out.height(), 3);
    assert_eq!(out.data(), img);
}

#[test]
fn rotate_quarter_turn_dims() {
    let img = ramp(2, 2);
    let out = rotate(&img, 2, 2, 90);
    assert_eq!(out.width(), 2);
    assert_eq!(out.height(), 2);
    // nearest-neighbor quarter turn of a 2x2: the inverse map sends
    // (1,0) to source (0,1) and (1,1) to source (1,1); the other two
    // texels fall on the boundary outside and stay transparent.
    let d = out.data();
    assert_eq!(&d[0..4], &[0, 0, 0, 0]);
    assert_eq!(&d[4..8], &img[8..12]);
    assert_eq!(&d[8..12], &[0, 0, 0, 0]);
    assert_eq!(&d[12..16], &img[12..16]);
}

#[test]
fn flip_horizontal_reverses_rows() {
    let img = ramp(3, 2);
    let out = flip(&img, 3, 2, true);
    for y in 0..2usize {
        for x in 0..3usize {
            let src = (y * 3 + (2 - x)) * 4;
            let dst = (y * 3 + x) * 4;
            assert_eq!(&out[dst..dst + 4], &img[src..src + 4]);
        }
    }
}

#[test]
fn flip_twice_restores_image() {
    let img = ramp(5, 4);
    let once = flip(&img, 5, 4, true);
    let twice = flip(&once, 5, 4, true);
    assert_eq!(twice, img);
    let once_v = flip(&img, 5, 4, false);
    let twice_v = flip(&once_v, 5, 4, false);
    assert_eq!(twice_v, img);
}

#[test]
fn crop_inside_bounds() {
    let img = ramp(4, 4);
    let out = crop(&img, 4, 1, 1, 2, 2);
    assert_eq!(out.len(), 16);
    for row in 0..2usize {
        for col in 0..2usize {
            let src = ((row + 1) * 4 + col + 1) * 4;
            let dst = (row * 2 + col) * 4;
            assert_eq!(&out[dst..dst + 4], &img[src..src + 4]);
        }
    }
}

#[test]
fn crop_rows_past_the_buffer_are_skipped() {
    let img = ramp(4, 4);
    // rows 3 and 4 requested, but row 4 leaves the buffer: one row out
    let out = crop(&img, 4, 0, 3, 4, 2);
    assert_eq!(out.len(), 16);
    assert_eq!(&out[0..16], &img[48..64]);
    // fully out of range: nothing copied
    let empty = crop(&img, 4, 0, 7, 4, 2);
    assert!(empty.is_empty());
}
