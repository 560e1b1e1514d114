//! The integer side of rendering images of the Mandelbrot set: reading a
//! resolution, checking render parameters, the pixel formats, the order in
//! which a pixel's supersamples are visited, completing a band of pixels by
//! mirroring it across the real axis, and assembling the bands into an image
//! stored row by row.

pub mod band;
pub mod color_type;
pub mod image_layout;
pub mod parameters;
pub mod resolution;
pub mod sampler;
pub mod u32_and_usize;

pub use band::finish_band;
pub use color_type::{SupportedColorType, UnsupportedColorTypeError};
pub use image_layout::{assemble_image, reorient};
pub use parameters::{ParameterError, RenderParameters};
pub use resolution::{ParseNumberError, ParseResolutionError, Resolution};
pub use sampler::{sample_offset_numerator, sample_order};
pub use u32_and_usize::U32AndUsize;
