//! Grayscale conversion and separable Gaussian blur of RGBA8 pixel buffers.
//!
//! The pipeline turns an interleaved RGBA buffer into one luminance byte per
//! pixel, blurs that luminance with a 1-D kernel applied horizontally and then
//! vertically (clamping samples to the image edge), and expands the result back
//! into opaque gray RGBA.
pub mod convolution;
pub mod luminance;
pub mod pipeline;

pub use convolution::{
    calc_convolution_matrix_horizontal,
    calc_convolution_matrix_vertical,
    filter_image_data,
    kernel_total,
};
pub use luminance::gray_data;
pub use pipeline::{expand_gray, process_pixels, ProcessError};
