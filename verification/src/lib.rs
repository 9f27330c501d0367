//! Premultiplied-alpha conversion and separable integer convolution for
//! raster images held as flat byte buffers.

pub mod alpha;
pub mod convolution;
pub mod cpu_extensions;
pub mod errors;
pub mod image_view;
pub mod mul_div;
pub mod pixels;
pub mod resizer;

pub use cpu_extensions::CpuExtensions;
pub use errors::ImageError;
pub use image_view::{ImageData, ImageView, ImageViewMut};
pub use mul_div::MulDiv;
pub use pixels::PixelType;
pub use resizer::Resizer;
