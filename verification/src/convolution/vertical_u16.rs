//! The pass down the columns for 16-bit channels.

use crate::convolution::optimisations::NormalizerGuard;
use crate::convolution::pass::{convolve_columns, convolved_to, row_channels, vert_fits};
use crate::image_view::{TypedImageView, TypedImageViewMut};
use vstd::prelude::*;

verus! {

/// Runs the pass down the columns of an image of 16-bit channels, however
/// many a pixel has.
pub fn vert_convolution_u16(
    src_image: TypedImageView<'_>,
    dst_image: TypedImageViewMut<'_>,
    normalizer: &NormalizerGuard,
)
    requires
        vert_fits(src_image, dst_image, normalizer),
        src_image.pixel_type.spec_channel_bits() == 16,
    ensures
        final(dst_image.buffer)@.len() == old(dst_image.buffer)@.len(),
        convolved_to(
            src_image.buffer@,
            final(dst_image.buffer)@,
            normalizer,
            row_channels(src_image.width, src_image.pixel_type),
        ),
{
    convolve_columns(src_image, dst_image, normalizer, false);
}

} // verus!
