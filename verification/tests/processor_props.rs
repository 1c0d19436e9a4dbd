use imagefx::hsl::{adjust_hue, hue_px};
use imagefx::{ImageProcessor, ProcessorError};

fn image() -> Vec<u8> {
    vec![255, 0, 0, 255, 0, 255, 0, 255, 0, 0, 255, 255, 128, 128, 128, 255]
}

#[test]
fn apply_filter_by_name() {
    let mut p = ImageProcessor::new().unwrap();
    let out = p.apply_filter(&image(), 2, 2, "grayscale", 1000).unwrap();
    assert_eq!(&out[0..4], &[54, 54, 54, 255]);
}

#[test]
fn unknown_filter_name_passes_image_through() {
    let mut p = ImageProcessor::new().unwrap();
    let img = image();
    let out = p.apply_filter(&img, 2, 2, "does_not_exist", 500).unwrap();
    assert_eq!(out, img);
}

#[test]
fn uninitialized_processor_reports_error() {
    let mut p = ImageProcessor { initialized: false };
    let r = p.apply_filter(&image(), 2, 2, "invert", 1000);
    assert_eq!(r, Err(ProcessorError::NotInitialized));
    assert_eq!(ProcessorError::NotInitialized.message(), "processor not initialized");
}

#[test]
fn processor_transforms_delegate() {
    let p = ImageProcessor::new().unwrap();
    let img = image();
    let flipped = p.flip(&img, 2, 2, true).unwrap();
    assert_eq!(&flipped[0..4], &img[4..8]);
    let resized = p.resize(&img, 2, 2, 2, 2).unwrap();
    assert_eq!(resized, img);
    let rot = p.rotate(&img, 2, 2, 0).unwrap();
    assert_eq!(rot.data(), img);
    let cropped = p.crop(&img, 2, 2, 0, 0, 1, 1).unwrap();
    assert_eq!(&cropped, &img[0..4]);
    let hist = p.get_histogram(&img).unwrap();
    assert_eq!(hist.red()[255], 1);
    let hue = p.adjust_hue(&img, 2, 2, 0).unwrap();
    assert_eq!(hue, img);
}

#[test]
fn hue_shift_cycles_primaries() {
    assert_eq!(hue_px(255, 0, 0, 120), (0, 255, 0));
    assert_eq!(hue_px(255, 0, 0, 240), (0, 0, 255));
    assert_eq!(hue_px(255, 0, 0, 360), (255, 0, 0));
    assert_eq!(hue_px(255, 0, 0, -120), (0, 0, 255));
    assert_eq!(hue_px(0, 255, 0, 120), (0, 0, 255));
}

#[test]
fn hue_shift_leaves_gray_alone() {
    assert_eq!(hue_px(128, 128, 128, 77), (128, 128, 128));
    assert_eq!(hue_px(0, 0, 0, 300), (0, 0, 0));
    assert_eq!(hue_px(255, 255, 255, 180), (255, 255, 255));
}

#[test]
fn hue_zero_shift_is_identity_on_buffer() {
    let img = image();
    assert_eq!(adjust_hue(&img, 0), img);
}

#[test]
fn hue_shift_full_turn_is_identity() {
    let img = image();
    assert_eq!(adjust_hue(&img, 360), img);
    assert_eq!(adjust_hue(&img, -360), img);
}
