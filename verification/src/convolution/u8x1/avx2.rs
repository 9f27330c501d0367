//! Kernel for one 8-bit channel that takes the weights of a window two at
//! a time, as a multiply-add of adjacent 16-bit lanes does.

use crate::convolution::optimisations::NormalizerGuard;
use crate::convolution::pass::{convolve_rows, horiz_convolved, horiz_fits};
use crate::image_view::{TypedImageView, TypedImageViewMut};
use crate::pixels::PixelType;
use vstd::prelude::*;

verus! {

/// Runs the pass along the rows. Each step of a window multiplies two
/// pixels by their weights and adds both products to a 32-bit
/// accumulator.
pub fn horiz_convolution(
    src_image: TypedImageView<'_>,
    dst_image: TypedImageViewMut<'_>,
    offset: u32,
    normalizer: &NormalizerGuard,
)
    requires
        horiz_fits(src_image, dst_image, offset, normalizer),
        src_image.pixel_type == PixelType::U8,
    ensures
        final(dst_image.buffer)@.len() == old(dst_image.buffer)@.len(),
        horiz_convolved(
            src_image.buffer@,
            src_image.width,
            src_image.pixel_type,
            final(dst_image.buffer)@,
            dst_image.width,
            dst_image.height,
            offset,
            normalizer,
        ),
{
    convolve_rows(src_image, dst_image, offset, normalizer, true);
}

} // verus!
