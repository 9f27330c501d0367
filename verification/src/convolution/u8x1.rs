//! Convolution of images with one 8-bit channel.

pub mod avx2;
pub mod native;

use crate::convolution::optimisations::NormalizerGuard;
use crate::convolution::pass::{
    convolved_to, horiz_convolved, horiz_fits, row_channels, vert_fits,
};
use crate::convolution::vertical_u8::vert_convolution_u8;
use crate::cpu_extensions::CpuExtensions;
use crate::image_view::{TypedImageView, TypedImageViewMut};
use crate::pixels::PixelType;
use vstd::prelude::*;

verus! {

/// Runs the pass along the rows with the kernel of `cpu_extensions`. Every
/// kernel gives the same bytes.
pub fn horiz_convolution(
    src_image: TypedImageView<'_>,
    dst_image: TypedImageViewMut<'_>,
    offset: u32,
    normalizer: &NormalizerGuard,
    cpu_extensions: CpuExtensions,
)
    requires
        horiz_fits(src_image, dst_image, offset, normalizer),
        src_image.pixel_type == PixelType::U8,
    ensures
        final(dst_image.buffer)@.len() == old(dst_image.buffer)@.len(),
        horiz_convolved(
            src_image.buffer@,
            src_image.width,
            src_image.pixel_type,
            final(dst_image.buffer)@,
            dst_image.width,
            dst_image.height,
            offset,
            normalizer,
        ),
{
    match cpu_extensions {
        CpuExtensions::Avx2 => avx2::horiz_convolution(src_image, dst_image, offset, normalizer),
        _ => native::horiz_convolution(src_image, dst_image, offset, normalizer),
    }
}

/// Runs the pass down the columns with the kernel of `cpu_extensions`.
pub fn vert_convolution(
    src_image: TypedImageView<'_>,
    dst_image: TypedImageViewMut<'_>,
    normalizer: &NormalizerGuard,
    cpu_extensions: CpuExtensions,
)
    requires
        vert_fits(src_image, dst_image, normalizer),
        src_image.pixel_type == PixelType::U8,
    ensures
        final(dst_image.buffer)@.len() == old(dst_image.buffer)@.len(),
        convolved_to(
            src_image.buffer@,
            final(dst_image.buffer)@,
            normalizer,
            row_channels(src_image.width, src_image.pixel_type),
        ),
{
    vert_convolution_u8(src_image, dst_image, normalizer, cpu_extensions);
}

} // verus!
