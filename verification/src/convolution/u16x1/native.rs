//! Scalar kernel for one 16-bit channel.

use crate::convolution::optimisations::NormalizerGuard;
use crate::convolution::pass::{convolve_rows, horiz_convolved, horiz_fits};
use crate::image_view::{TypedImageView, TypedImageViewMut};
use crate::pixels::PixelType;
use vstd::prelude::*;

verus! {

/// Runs the pass along the rows: pixel `i` of destination row `y` gets
/// the weighted sum of window `i` of source row `y + offset`, accumulated
/// in 64 bits from half a unit, shifted and clipped to 65535.
pub fn horiz_convolution(
    src_image: TypedImageView<'_>,
    dst_image: TypedImageViewMut<'_>,
    offset: u32,
    normalizer: &NormalizerGuard,
)
    requires
        horiz_fits(src_image, dst_image, offset, normalizer),
        src_image.pixel_type == PixelType::U16,
    ensures
        final(dst_image.buffer)@.len() == old(dst_image.buffer)@.len(),
        horiz_convolved(
            src_image.buffer@,
            src_image.width,
            src_image.pixel_type,
            final(dst_image.buffer)@,
            dst_image.width,
            dst_image.height,
            offset,
            normalizer,
        ),
{
    convolve_rows(src_image, dst_image, offset, normalizer, false);
}

} // verus!
