//! An image-filter processing engine over raw RGBA byte buffers.
//!
//! The engine applies one of a fixed catalog of filters (color remapping,
//! neighborhood effects, radial effects) or a geometric transform (resize,
//! rotate, flip, crop) to an image, and derives per-channel histograms.
//! All pixel arithmetic is exact fixed-point integer arithmetic, so every
//! output byte is a deterministic function of the input buffer, the image
//! dimensions and the filter parameters; the contracts below pin that
//! function down byte for byte.
//!
//! Intensities are given in thousandths (`0..=1000` stands for `0.0..=1.0`).

pub mod catalog;
pub mod geometry;
pub mod histogram;
pub mod hsl;
pub mod image;
pub mod kernel;
pub mod kinds;
pub mod laws;
pub mod math;
pub mod neighborhood;
pub mod pointwise;
pub mod processor;
pub mod radial;

pub use catalog::{
    get_all_filter_types, get_filter_categories, get_filter_metadata, get_filters_by_category,
    FilterMetadata,
};
pub use geometry::RotateResult;
pub use histogram::HistogramData;
pub use kinds::FilterType;
pub use processor::{ImageProcessor, ProcessorError};
