//! The engine facade: dispatches a filter by its canonical name and
//! exposes the geometric transforms and the histogram behind one
//! processor handle.

use vstd::prelude::*;
use vstd::slice::slice_to_vec;
use crate::geometry::{self, spec_crop, resize_ch, rot_dims, spec_rotate_byte, RotateResult};
use crate::histogram::{self, is_channel_hist, is_lum_hist, HistogramData};
use crate::hsl::{self, spec_hue_byte};
use crate::image::{buf_ok, pidx};
use crate::kernel::{run_filter, spec_texel};
use crate::kinds::{spec_from_name, FilterType};

verus! {

/// The error a processor call can report.
#[derive(Clone, Copy, Debug, PartialEq, Eq, Structural)]
pub enum ProcessorError {
    /// The processor was used before it was set up.
    NotInitialized,
}

impl ProcessorError {
    /// A short description of the error.
    pub fn message(&self) -> (r: &'static str)
        ensures
            r@ == "processor not initialized"@,
    {
        match self {
            ProcessorError::NotInitialized => "processor not initialized",
        }
    }
}

/// The sequential image-filter engine. Every operation takes a
/// read-only source buffer and returns a newly owned output buffer; no
/// call mutates shared state.
pub struct ImageProcessor {
    /// Whether the processor has been set up.
    pub initialized: bool,
}

impl ImageProcessor {
    /// Builds a ready processor.
    pub fn new() -> (r: Result<ImageProcessor, ProcessorError>)
        ensures
            r is Ok && r->Ok_0.initialized,
    {
        Ok(ImageProcessor { initialized: true })
    }

    /// Applies the filter named `filter_type` at `intensity`
    /// (thousandths) to the image. A name outside the catalog leaves
    /// the image unchanged — the dispatch fallthrough of the filter
    /// surface; parsing names is the caller's concern through
    /// [`FilterType::from_string`]. Errs only on an uninitialized
    /// processor.
    pub fn apply_filter(
        &mut self,
        image_data: &[u8],
        width: u32,
        height: u32,
        filter_type: &str,
        intensity: u32,
    ) -> (r: Result<Vec<u8>, ProcessorError>)
        requires
            buf_ok(image_data@, width as int, height as int),
            intensity <= 1000,
        ensures
            *final(self) == *old(self),
            old(self).initialized <==> r is Ok,
            r is Ok ==> match spec_from_name(filter_type@) {
                Some(k) => {
                    &&& r->Ok_0@.len() == image_data@.len()
                    &&& forall|x: int, y: int, c: int|
                        0 <= x < width && 0 <= y < height && 0 <= c < 4
                            ==> r->Ok_0@[pidx(width as int, x, y, c)] == spec_texel(
                            k, image_data@, width as int, height as int, intensity as int,
                            x, y, c)
                },
                None => r->Ok_0@ == image_data@,
            },
    {
        if !self.initialized {
            return Err(ProcessorError::NotInitialized);
        }
        match FilterType::from_string(filter_type) {
            Some(kind) => Ok(run_filter(image_data, width, height, kind, intensity)),
            None => Ok(slice_to_vec(image_data)),
        }
    }

    /// Extracts the `crop_width * crop_height` rectangle at `(x, y)`;
    /// rows whose byte range leaves the source buffer are silently
    /// skipped.
    pub fn crop(
        &self,
        image_data: &[u8],
        width: u32,
        _height: u32,
        x: u32,
        y: u32,
        crop_width: u32,
        crop_height: u32,
    ) -> (r: Result<Vec<u8>, ProcessorError>)
        requires
            y + crop_height <= u32::MAX,
            4 * (crop_width as int) * (crop_height as int) <= usize::MAX,
        ensures
            r is Ok,
            r->Ok_0@ == spec_crop(
                image_data@, width as int, x as int, y as int, crop_width as int,
                crop_height as int),
    {
        Ok(geometry::crop(image_data, width, x, y, crop_width, crop_height))
    }

    /// Bilinear resize to `dst_width * dst_height`.
    pub fn resize(
        &self,
        image_data: &[u8],
        src_width: u32,
        src_height: u32,
        dst_width: u32,
        dst_height: u32,
    ) -> (r: Result<Vec<u8>, ProcessorError>)
        requires
            buf_ok(image_data@, src_width as int, src_height as int),
            src_width >= 1,
            src_height >= 1,
            4 * (dst_width as int) * (dst_height as int) <= usize::MAX,
        ensures
            r is Ok,
            r->Ok_0@.len() == 4 * (dst_width as int) * (dst_height as int),
            forall|x: int, y: int, c: int|
                0 <= x < dst_width && 0 <= y < dst_height && 0 <= c < 4
                    ==> r->Ok_0@[pidx(dst_width as int, x, y, c)] == resize_ch(
                    image_data@, src_width as int, src_height as int, dst_width as int,
                    dst_height as int, x, y, c),
    {
        Ok(geometry::resize(image_data, src_width, src_height, dst_width, dst_height))
    }

    /// Rotates the image by `degrees` about its center, growing the
    /// canvas to the rotated bounding box.
    pub fn rotate(&self, image_data: &[u8], width: u32, height: u32, degrees: i64) -> (r: Result<
        RotateResult,
        ProcessorError,
    >)
        requires
            buf_ok(image_data@, width as int, height as int),
            -0x8000_0000 <= degrees <= 0x8000_0000,
            width + height < 0x1_0000_0000,
            4 * (width as int + height as int) * (width as int + height as int) <= usize::MAX,
        ensures
            r is Ok,
            (r->Ok_0.width as int, r->Ok_0.height as int) == rot_dims(
                width as int, height as int, degrees as int),
            r->Ok_0.data@.len() == 4 * (r->Ok_0.width as int) * (r->Ok_0.height as int),
            forall|x: int, y: int, c: int|
                0 <= x < r->Ok_0.width && 0 <= y < r->Ok_0.height && 0 <= c < 4
                    ==> r->Ok_0.data@[pidx(r->Ok_0.width as int, x, y, c)] == spec_rotate_byte(
                    image_data@, width as int, height as int, degrees as int, x, y, c),
    {
        Ok(geometry::rotate(image_data, width, height, degrees))
    }

    /// Mirrors the image horizontally (when `horizontal`) or
    /// vertically.
    pub fn flip(&self, image_data: &[u8], width: u32, height: u32, horizontal: bool) -> (r: Result<
        Vec<u8>,
        ProcessorError,
    >)
        requires
            buf_ok(image_data@, width as int, height as int),
        ensures
            r is Ok,
            r->Ok_0@.len() == image_data@.len(),
            forall|x: int, y: int, c: int|
                0 <= x < width && 0 <= y < height && 0 <= c < 4
                    ==> r->Ok_0@[pidx(width as int, x, y, c)] == crate::image::px(
                    image_data@,
                    width as int,
                    geometry::flip_src(width as int, height as int, horizontal, x, y).0,
                    geometry::flip_src(width as int, height as int, horizontal, x, y).1,
                    c,
                ),
    {
        Ok(geometry::flip(image_data, width, height, horizontal))
    }

    /// Rotates the hue of every pixel by `hue_shift` degrees.
    pub fn adjust_hue(
        &self,
        image_data: &[u8],
        _width: u32,
        _height: u32,
        hue_shift: i32,
    ) -> (r: Result<Vec<u8>, ProcessorError>)
        requires
            image_data@.len() % 4 == 0,
        ensures
            r is Ok,
            r->Ok_0@.len() == image_data@.len(),
            forall|j: int|
                0 <= j < image_data@.len() ==> r->Ok_0@[j] == spec_hue_byte(
                    image_data@, hue_shift as int, j),
    {
        Ok(hsl::adjust_hue(image_data, hue_shift))
    }

    /// Computes the per-channel and luminance frequency tables.
    pub fn get_histogram(&self, image_data: &[u8]) -> (r: Result<HistogramData, ProcessorError>)
        requires
            image_data@.len() % 4 == 0,
            image_data@.len() / 4 <= u32::MAX,
        ensures
            r is Ok,
            is_channel_hist(r->Ok_0.red@, image_data@, 0, image_data@.len() as int / 4),
            is_channel_hist(r->Ok_0.green@, image_data@, 1, image_data@.len() as int / 4),
            is_channel_hist(r->Ok_0.blue@, image_data@, 2, image_data@.len() as int / 4),
            is_lum_hist(r->Ok_0.luminance@, image_data@, image_data@.len() as int / 4),
    {
        Ok(histogram::get_histogram(image_data))
    }
}

impl Default for ImageProcessor {
    /// A ready processor.
    fn default() -> (r: Self)
        ensures
            r.initialized,
    {
        match Self::new() {
            Ok(p) => p,
            Err(_) => ImageProcessor { initialized: true },
        }
    }
}

} // verus!
