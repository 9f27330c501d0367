//! The pass down the columns for 8-bit channels.

use crate::convolution::optimisations::NormalizerGuard;
use crate::convolution::pass::{convolve_columns, convolved_to, row_channels, vert_fits};
use crate::cpu_extensions::{CpuExtensions, KernelTier};
use crate::image_view::{TypedImageView, TypedImageViewMut};
use vstd::prelude::*;

verus! {

/// Runs the pass down the columns of an image of 8-bit channels, however
/// many a pixel has. The widest tier takes the weights two at a time; the
/// bytes are the same on every tier.
pub fn vert_convolution_u8(
    src_image: TypedImageView<'_>,
    dst_image: TypedImageViewMut<'_>,
    normalizer: &NormalizerGuard,
    cpu_extensions: CpuExtensions,
)
    requires
        vert_fits(src_image, dst_image, normalizer),
        src_image.pixel_type.spec_channel_bits() == 8,
    ensures
        final(dst_image.buffer)@.len() == old(dst_image.buffer)@.len(),
        convolved_to(
            src_image.buffer@,
            final(dst_image.buffer)@,
            normalizer,
            row_channels(src_image.width, src_image.pixel_type),
        ),
{
    let pairs: bool = match cpu_extensions.kernel() {
        KernelTier::Wide256 => true,
        _ => false,
    };
    convolve_columns(src_image, dst_image, normalizer, pairs);
}

} // verus!
