//! Resizing an image: a pass along the rows, then a pass down the columns.

use crate::convolution::optimisations::NormalizerGuard;
use crate::convolution::pass::{
    convolved_to, depth_matches, horiz_convolved, lemma_channels_in_image,
    lemma_horiz_result_unique, lemma_pass_result_unique, row_channels,
};
use crate::convolution::{horiz_convolution, vert_convolution};
use crate::cpu_extensions::CpuExtensions;
use crate::errors::ImageError;
use crate::image_view::{buffer_fits, ImageView, ImageViewMut, TypedImageView, TypedImageViewMut};
use crate::pixels::PixelType;
use vstd::prelude::*;

verus! {

/// Whether the weights given for an axis serve a resize from `src_dim` to
/// `dst_dim` positions: there are weights, with one window for each
/// destination position, and all windows lie inside the source.
pub open spec fn axis_fits(weights: Option<&NormalizerGuard>, src_dim: u32, dst_dim: u32) -> bool {
    match weights {
        Some(normalizer) => normalizer.bounds@.len() == dst_dim && normalizer.fits_source(
            src_dim as int,
        ),
        None => false,
    }
}

/// Whether the weights given for an axis are made for the depth of a
/// pixel format.
pub open spec fn axis_depth_matches(weights: Option<&NormalizerGuard>, pixel_type: PixelType) -> bool {
    match weights {
        Some(normalizer) => depth_matches(normalizer, pixel_type),
        None => false,
    }
}

/// Bytes of the image between the two passes: as wide as the destination
/// and as high as the source.
pub open spec fn intermediate_len(src: ImageView<'_>, dst: ImageViewMut<'_>) -> int {
    dst.width * src.height * src.pixel_type.spec_size()
}

/// Why a resize is refused, if it is. An axis along which the size does
/// not change needs no weights, and none are looked at.
pub open spec fn resize_error(
    src: ImageView<'_>,
    dst: ImageViewMut<'_>,
    horiz: Option<&NormalizerGuard>,
    vert: Option<&NormalizerGuard>,
) -> Option<ImageError> {
    let along = src.width != dst.width;
    let down = src.height != dst.height;
    if src.pixel_type != dst.pixel_type {
        Some(ImageError::FormatMismatch)
    } else if (along && !axis_fits(horiz, src.width, dst.width)) || (down && !axis_fits(
        vert,
        src.height,
        dst.height,
    )) {
        Some(ImageError::IncompatibleShapes)
    } else if (along && !axis_depth_matches(horiz, src.pixel_type)) || (down
        && !axis_depth_matches(vert, src.pixel_type)) {
        Some(ImageError::UnsupportedFormat)
    } else if along && down && intermediate_len(src, dst) > usize::MAX {
        Some(ImageError::InvalidBuffer)
    } else {
        None
    }
}

/// Whether `result` is `src` resized to `dst_width` by `dst_height`: the
/// pass along the rows, where the width changes, followed by the pass down
/// the columns, where the height changes. Where neither changes the result
/// is the source.
pub open spec fn resized(
    src: ImageView<'_>,
    dst_width: u32,
    dst_height: u32,
    horiz: Option<&NormalizerGuard>,
    vert: Option<&NormalizerGuard>,
    result: Seq<u8>,
) -> bool {
    let along = src.width != dst_width;
    let down = src.height != dst_height;
    if along && down {
        exists|between: Seq<u8>|
            {
                &&& buffer_fits(dst_width, src.height, src.pixel_type, between.len())
                &&& #[trigger] horiz_convolved(
                    src.buffer@,
                    src.width,
                    src.pixel_type,
                    between,
                    dst_width,
                    src.height,
                    0,
                    horiz->Some_0,
                )
                &&& convolved_to(
                    between,
                    result,
                    vert->Some_0,
                    row_channels(dst_width, src.pixel_type),
                )
            }
    } else if along {
        horiz_convolved(
            src.buffer@,
            src.width,
            src.pixel_type,
            result,
            dst_width,
            dst_height,
            0,
            horiz->Some_0,
        )
    } else if down {
        convolved_to(
            src.buffer@,
            result,
            vert->Some_0,
            row_channels(dst_width, src.pixel_type),
        )
    } else {
        result == src.buffer@
    }
}

/// Resizing to the dimensions that an image already has gives the image
/// back, whatever weights are given.
pub proof fn lemma_resize_same_size(
    src: ImageView<'_>,
    horiz: Option<&NormalizerGuard>,
    vert: Option<&NormalizerGuard>,
    result: Seq<u8>,
)
    ensures
        resized(src, src.width, src.height, horiz, vert, result) <==> result == src.buffer@,
{
}

/// A resize has one result: two buffers of the size of the destination
/// that both hold `src` resized are the same buffer.
pub proof fn lemma_resized_unique(
    src: ImageView<'_>,
    dst_width: u32,
    dst_height: u32,
    horiz: Option<&NormalizerGuard>,
    vert: Option<&NormalizerGuard>,
    a: Seq<u8>,
    b: Seq<u8>,
)
    requires
        src.wf(),
        buffer_fits(dst_width, dst_height, src.pixel_type, a.len()),
        b.len() == a.len(),
        src.width != dst_width ==> axis_fits(horiz, src.width, dst_width) && axis_depth_matches(
            horiz,
            src.pixel_type,
        ),
        src.height != dst_height ==> axis_fits(vert, src.height, dst_height)
            && axis_depth_matches(vert, src.pixel_type),
        resized(src, dst_width, dst_height, horiz, vert, a),
        resized(src, dst_width, dst_height, horiz, vert, b),
    ensures
        a == b,
{
    let along = src.width != dst_width;
    let down = src.height != dst_height;
    let pixel_type = src.pixel_type;
    lemma_channels_in_image(dst_width, dst_height, pixel_type);
    if along && down {
        let between_a = choose|between: Seq<u8>|
            {
                &&& buffer_fits(dst_width, src.height, pixel_type, between.len())
                &&& #[trigger] horiz_convolved(
                    src.buffer@,
                    src.width,
                    pixel_type,
                    between,
                    dst_width,
                    src.height,
                    0,
                    horiz->Some_0,
                )
                &&& convolved_to(
                    between,
                    a,
                    vert->Some_0,
                    row_channels(dst_width, pixel_type),
                )
            };
        let between_b = choose|between: Seq<u8>|
            {
                &&& buffer_fits(dst_width, src.height, pixel_type, between.len())
                &&& #[trigger] horiz_convolved(
                    src.buffer@,
                    src.width,
                    pixel_type,
                    between,
                    dst_width,
                    src.height,
                    0,
                    horiz->Some_0,
                )
                &&& convolved_to(
                    between,
                    b,
                    vert->Some_0,
                    row_channels(dst_width, pixel_type),
                )
            };
        lemma_horiz_result_unique(
            src.buffer@,
            src.width,
            pixel_type,
            between_a,
            between_b,
            dst_width,
            src.height,
            0,
            horiz->Some_0,
        );
        lemma_pass_result_unique(
            between_a,
            a,
            b,
            vert->Some_0,
            row_channels(dst_width, pixel_type),
        );
    } else if along {
        lemma_horiz_result_unique(
            src.buffer@,
            src.width,
            pixel_type,
            a,
            b,
            dst_width,
            dst_height,
            0,
            horiz->Some_0,
        );
    } else if down {
        lemma_pass_result_unique(
            src.buffer@,
            a,
            b,
            vert->Some_0,
            row_channels(dst_width, pixel_type),
        );
    }
}

/// Copies `src` into `dst`.
fn copy_bytes(src: &[u8], dst: &mut [u8])
    requires
        src@.len() == old(dst)@.len(),
    ensures
        final(dst)@ == src@,
{
    let len: usize = src.len();
    let mut j: usize = 0;
    while j < len
        invariant
            j <= len,
            src@.len() == len,
            dst@.len() == len,
            forall|m: int| 0 <= m < j ==> dst@[m] == src@[m],
        decreases len - j,
    {
        dst[j] = src[j];
        j += 1;
    }
    assert(dst@ =~= src@);
}

/// Resizes images with weights prepared for each axis.
pub struct Resizer {
    cpu_extensions: CpuExtensions,
}

impl Resizer {
    /// The tier the resizer has been asked to use.
    pub closed spec fn spec_cpu_extensions(&self) -> CpuExtensions {
        self.cpu_extensions
    }

    /// A resizer that uses the scalar kernels.
    pub fn new() -> (r: Self)
        ensures
            r.spec_cpu_extensions() == CpuExtensions::Scalar,
    {
        Resizer { cpu_extensions: CpuExtensions::Scalar }
    }

    /// The tier the resizer has been asked to use.
    #[verifier::when_used_as_spec(spec_cpu_extensions)]
    pub fn cpu_extensions(&self) -> (r: CpuExtensions)
        ensures
            r == self.spec_cpu_extensions(),
    {
        self.cpu_extensions
    }

    /// Asks the resizer to use the kernels of `extensions`. Nothing is
    /// checked: a tier without a kernel falls through to a lower one.
    pub fn set_cpu_extensions(&mut self, extensions: CpuExtensions)
        ensures
            final(self).spec_cpu_extensions() == extensions,
    {
        self.cpu_extensions = extensions;
    }

    /// Resizes `src_image` into `dst_image`. `horiz` holds the weights for
    /// the pass along the rows and `vert` those for the pass down the
    /// columns; a pass whose axis keeps its size is skipped. A refused
    /// request leaves `dst_image` as it is.
    pub fn resize(
        &self,
        src_image: &ImageView<'_>,
        dst_image: ImageViewMut<'_>,
        horiz: Option<&NormalizerGuard>,
        vert: Option<&NormalizerGuard>,
    ) -> (r: Result<(), ImageError>)
        requires
            src_image.wf(),
            dst_image.wf(),
            horiz matches Some(normalizer) ==> normalizer.wf(),
            vert matches Some(normalizer) ==> normalizer.wf(),
        ensures
            final(dst_image.buffer)@.len() == old(dst_image.buffer)@.len(),
            match r {
                Ok(()) => {
                    &&& resize_error(*src_image, dst_image, horiz, vert) is None
                    &&& resized(
                        *src_image,
                        dst_image.width,
                        dst_image.height,
                        horiz,
                        vert,
                        final(dst_image.buffer)@,
                    )
                },
                Err(e) => {
                    &&& resize_error(*src_image, dst_image, horiz, vert) == Some(e)
                    &&& final(dst_image.buffer)@ == old(dst_image.buffer)@
                },
            },
    {
        let pixel_type = src_image.pixel_type;
        if pixel_type != dst_image.pixel_type {
            return Err(ImageError::FormatMismatch);
        }
        let along: bool = src_image.width != dst_image.width;
        let down: bool = src_image.height != dst_image.height;
        if along && !check_axis(horiz, src_image.width, dst_image.width) {
            return Err(ImageError::IncompatibleShapes);
        }
        if down && !check_axis(vert, src_image.height, dst_image.height) {
            return Err(ImageError::IncompatibleShapes);
        }
        if along && !check_depth(horiz, pixel_type) {
            return Err(ImageError::UnsupportedFormat);
        }
        if down && !check_depth(vert, pixel_type) {
            return Err(ImageError::UnsupportedFormat);
        }
        let src = src_image.as_typed(pixel_type)?;
        if along && down {
            let size: usize = pixel_type.size();
            assert(0 <= dst_image.width * src_image.height <= 0xffff_ffff * 0xffff_ffff)
                by (nonlinear_arith);
            let pixels: u128 = dst_image.width as u128 * src_image.height as u128;
            assert(pixels * size <= 0xffff_ffff * 0xffff_ffff * 8) by (nonlinear_arith)
                requires
                    pixels <= 0xffff_ffff * 0xffff_ffff,
                    size <= 8,
            ;
            let bytes: u128 = pixels * size as u128;
            if bytes > usize::MAX as u128 {
                return Err(ImageError::InvalidBuffer);
            }
            let mut between: Vec<u8> = vec![0u8; bytes as usize];
            let between_view = TypedImageViewMut {
                width: dst_image.width,
                height: src_image.height,
                pixel_type,
                buffer: between.as_mut_slice(),
            };
            horiz_convolution(src, between_view, 0, horiz.unwrap(), self.cpu_extensions);
            let between_src = TypedImageView {
                width: dst_image.width,
                height: src_image.height,
                pixel_type,
                buffer: between.as_slice(),
            };
            let dst = dst_image.as_typed(pixel_type)?;
            vert_convolution(between_src, dst, vert.unwrap(), self.cpu_extensions);
        } else if along {
            let dst = dst_image.as_typed(pixel_type)?;
            horiz_convolution(src, dst, 0, horiz.unwrap(), self.cpu_extensions);
        } else if down {
            let dst = dst_image.as_typed(pixel_type)?;
            vert_convolution(src, dst, vert.unwrap(), self.cpu_extensions);
        } else {
            let ImageViewMut { width: _, height: _, pixel_type: _, buffer } = dst_image;
            copy_bytes(src_image.buffer, buffer);
        }
        Ok(())
    }
}

/// Checks that the weights given for an axis serve a resize from
/// `src_dim` to `dst_dim` positions.
fn check_axis(weights: Option<&NormalizerGuard>, src_dim: u32, dst_dim: u32) -> (ok: bool)
    ensures
        ok == axis_fits(weights, src_dim, dst_dim),
{
    match weights {
        Some(normalizer) => normalizer.bounds.len() as u64 == dst_dim as u64
            && normalizer.check_source(src_dim),
        None => false,
    }
}

/// Checks that the weights given for an axis are made for the depth of a
/// pixel format.
fn check_depth(weights: Option<&NormalizerGuard>, pixel_type: PixelType) -> (ok: bool)
    ensures
        ok == axis_depth_matches(weights, pixel_type),
{
    match weights {
        Some(normalizer) => {
            let max: u16 = if pixel_type.channel_bits() == 8 {
                255
            } else {
                65535
            };
            normalizer.channel_max == max
        },
        None => false,
    }
}

impl Default for Resizer {
    fn default() -> (r: Self)
        ensures
            r.spec_cpu_extensions() == CpuExtensions::Scalar,
    {
        Resizer::new()
    }
}

} // verus!
