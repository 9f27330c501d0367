//! The alpha engine: premultiplies images and takes them back.

use crate::alpha::common::{recip_alpha16_array, recip_alpha_array, PRECISION, PRECISION16};
use crate::alpha::u16x4::native as rgba16;
use crate::alpha::u16x4::{divided16, is_recip_alpha16_table, multiplied16};
use crate::alpha::u8x4;
use crate::alpha::u8x4::{close_to_scalar, divided, is_recip_alpha_table, multiplied, vector_bytes};
use crate::cpu_extensions::CpuExtensions;
use crate::errors::ImageError;
use crate::image_view::{row_stride, ImageView, ImageViewMut};
use crate::pixels::PixelType;
use vstd::prelude::*;

verus! {

/// Why an operation on a pair of images is refused, if it is. The checks
/// come in this order: the dimensions must agree, both formats must have
/// an alpha channel, and the two formats must be the same.
pub open spec fn two_images_error(src: ImageView<'_>, dst: ImageViewMut<'_>) -> Option<
    ImageError,
> {
    if src.width != dst.width || src.height != dst.height {
        Some(ImageError::IncompatibleShapes)
    } else if !src.pixel_type.spec_has_alpha() || !dst.pixel_type.spec_has_alpha() {
        Some(ImageError::UnsupportedFormat)
    } else if src.pixel_type != dst.pixel_type {
        Some(ImageError::FormatMismatch)
    } else {
        None
    }
}

/// Why an operation on one image is refused, if it is: the format must
/// have an alpha channel.
pub open spec fn one_image_error(image: ImageViewMut<'_>) -> Option<ImageError> {
    if !image.pixel_type.spec_has_alpha() {
        Some(ImageError::UnsupportedFormat)
    } else {
        None
    }
}

/// The premultiplied form of an image of format `pixel_type`, which has an
/// alpha channel.
pub open spec fn multiplied_image(bytes: Seq<u8>, pixel_type: PixelType) -> Seq<u8> {
    if pixel_type == PixelType::U8x4 {
        multiplied(bytes)
    } else {
        multiplied16(bytes)
    }
}

/// An image of format `pixel_type` and the given width taken back from
/// premultiplied form by the kernel that serves `cpu_extensions`. Images
/// of 16-bit channels have a scalar kernel only.
pub open spec fn divided_image(
    bytes: Seq<u8>,
    pixel_type: PixelType,
    width: u32,
    cpu_extensions: CpuExtensions,
) -> Seq<u8> {
    if pixel_type == PixelType::U8x4 {
        divided(
            bytes,
            row_stride(width, pixel_type),
            vector_bytes(cpu_extensions.spec_kernel()),
        )
    } else {
        divided16(bytes)
    }
}

/// Premultiplies images by their alpha channel and undoes it.
pub struct MulDiv {
    cpu_extensions: CpuExtensions,
    recip_alpha: [u32; 256],
    recip_alpha16: Box<[u64; 65536]>,
}

impl MulDiv {
    #[verifier::type_invariant]
    spec fn tables_hold(&self) -> bool {
        &&& is_recip_alpha_table(self.recip_alpha@)
        &&& is_recip_alpha16_table(self.recip_alpha16@)
    }

    /// The tier the engine has been asked to use.
    pub closed spec fn spec_cpu_extensions(&self) -> CpuExtensions {
        self.cpu_extensions
    }

    /// An engine that uses the scalar kernels.
    pub fn new() -> (r: Self)
        ensures
            r.spec_cpu_extensions() == CpuExtensions::Scalar,
    {
        MulDiv {
            cpu_extensions: CpuExtensions::Scalar,
            recip_alpha: recip_alpha_array(PRECISION),
            recip_alpha16: Box::new(recip_alpha16_array(PRECISION16)),
        }
    }

    /// The tier the engine has been asked to use.
    #[verifier::when_used_as_spec(spec_cpu_extensions)]
    pub fn cpu_extensions(&self) -> (r: CpuExtensions)
        ensures
            r == self.spec_cpu_extensions(),
    {
        self.cpu_extensions
    }

    /// Asks the engine to use the kernels of `extensions`. Nothing is
    /// checked: a tier without a kernel falls through to a lower one.
    pub fn set_cpu_extensions(&mut self, extensions: CpuExtensions)
        ensures
            final(self).spec_cpu_extensions() == extensions,
    {
        proof {
            use_type_invariant(&*self);
        }
        self.cpu_extensions = extensions;
    }

    /// Premultiplies `src_image` into `dst_image`. A refused request
    /// leaves `dst_image` as it is.
    pub fn multiply_alpha(&self, src_image: &ImageView<'_>, dst_image: ImageViewMut<'_>) -> (r:
        Result<(), ImageError>)
        requires
            src_image.wf(),
            dst_image.wf(),
        ensures
            match r {
                Ok(()) => {
                    &&& two_images_error(*src_image, dst_image) is None
                    &&& final(dst_image.buffer)@ == multiplied_image(
                        src_image.buffer@,
                        src_image.pixel_type,
                    )
                },
                Err(e) => {
                    &&& two_images_error(*src_image, dst_image) == Some(e)
                    &&& final(dst_image.buffer)@ == old(dst_image.buffer)@
                },
            },
    {
        if src_image.width != dst_image.width || src_image.height != dst_image.height {
            return Err(ImageError::IncompatibleShapes);
        }
        if !src_image.pixel_type.has_alpha() || !dst_image.pixel_type.has_alpha() {
            return Err(ImageError::UnsupportedFormat);
        }
        if src_image.pixel_type != dst_image.pixel_type {
            return Err(ImageError::FormatMismatch);
        }
        match src_image.pixel_type {
            PixelType::U8x4 => {
                let src = src_image.as_typed(PixelType::U8x4)?;
                let dst = dst_image.as_typed(PixelType::U8x4)?;
                u8x4::multiply_alpha(src, dst, self.cpu_extensions);
                Ok(())
            },
            PixelType::U16x4 => {
                let src = src_image.as_typed(PixelType::U16x4)?;
                let dst = dst_image.as_typed(PixelType::U16x4)?;
                rgba16::multiply_alpha(src, dst);
                Ok(())
            },
            _ => Err(ImageError::UnsupportedFormat),
        }
    }

    /// Premultiplies `image` in place. A refused request leaves `image` as
    /// it is.
    pub fn multiply_alpha_inplace(&self, image: ImageViewMut<'_>) -> (r: Result<(), ImageError>)
        requires
            image.wf(),
        ensures
            match r {
                Ok(()) => {
                    &&& one_image_error(image) is None
                    &&& final(image.buffer)@ == multiplied_image(
                        old(image.buffer)@,
                        image.pixel_type,
                    )
                },
                Err(e) => {
                    &&& one_image_error(image) == Some(e)
                    &&& final(image.buffer)@ == old(image.buffer)@
                },
            },
    {
        match image.pixel_type {
            PixelType::U8x4 => {
                let typed = image.as_typed(PixelType::U8x4)?;
                u8x4::multiply_alpha_inplace(typed, self.cpu_extensions);
                Ok(())
            },
            PixelType::U16x4 => {
                let typed = image.as_typed(PixelType::U16x4)?;
                rgba16::multiply_alpha_inplace(typed);
                Ok(())
            },
            _ => Err(ImageError::UnsupportedFormat),
        }
    }

    /// Takes `src_image` back from premultiplied form into `dst_image`. A
    /// refused request leaves `dst_image` as it is.
    pub fn divide_alpha(&self, src_image: &ImageView<'_>, dst_image: ImageViewMut<'_>) -> (r:
        Result<(), ImageError>)
        requires
            src_image.wf(),
            dst_image.wf(),
        ensures
            match r {
                Ok(()) => {
                    &&& two_images_error(*src_image, dst_image) is None
                    &&& final(dst_image.buffer)@ == divided_image(
                        src_image.buffer@,
                        src_image.pixel_type,
                        src_image.width,
                        self.spec_cpu_extensions(),
                    )
                    &&& src_image.pixel_type == PixelType::U8x4 ==> close_to_scalar(
                        src_image.buffer@,
                        final(dst_image.buffer)@,
                    )
                },
                Err(e) => {
                    &&& two_images_error(*src_image, dst_image) == Some(e)
                    &&& final(dst_image.buffer)@ == old(dst_image.buffer)@
                },
            },
    {
        proof {
            use_type_invariant(self);
        }
        if src_image.width != dst_image.width || src_image.height != dst_image.height {
            return Err(ImageError::IncompatibleShapes);
        }
        if !src_image.pixel_type.has_alpha() || !dst_image.pixel_type.has_alpha() {
            return Err(ImageError::UnsupportedFormat);
        }
        if src_image.pixel_type != dst_image.pixel_type {
            return Err(ImageError::FormatMismatch);
        }
        match src_image.pixel_type {
            PixelType::U8x4 => {
                let src = src_image.as_typed(PixelType::U8x4)?;
                let dst = dst_image.as_typed(PixelType::U8x4)?;
                u8x4::divide_alpha(src, dst, &self.recip_alpha, self.cpu_extensions);
                Ok(())
            },
            PixelType::U16x4 => {
                let src = src_image.as_typed(PixelType::U16x4)?;
                let dst = dst_image.as_typed(PixelType::U16x4)?;
                rgba16::divide_alpha(src, dst, &*self.recip_alpha16);
                Ok(())
            },
            _ => Err(ImageError::UnsupportedFormat),
        }
    }

    /// Takes `image` back from premultiplied form in place. A refused
    /// request leaves `image` as it is.
    pub fn divide_alpha_inplace(&self, image: ImageViewMut<'_>) -> (r: Result<(), ImageError>)
        requires
            image.wf(),
        ensures
            match r {
                Ok(()) => {
                    &&& one_image_error(image) is None
                    &&& final(image.buffer)@ == divided_image(
                        old(image.buffer)@,
                        image.pixel_type,
                        image.width,
                        self.spec_cpu_extensions(),
                    )
                    &&& image.pixel_type == PixelType::U8x4 ==> close_to_scalar(
                        old(image.buffer)@,
                        final(image.buffer)@,
                    )
                },
                Err(e) => {
                    &&& one_image_error(image) == Some(e)
                    &&& final(image.buffer)@ == old(image.buffer)@
                },
            },
    {
        proof {
            use_type_invariant(self);
        }
        match image.pixel_type {
            PixelType::U8x4 => {
                let typed = image.as_typed(PixelType::U8x4)?;
                u8x4::divide_alpha_inplace(typed, &self.recip_alpha, self.cpu_extensions);
                Ok(())
            },
            PixelType::U16x4 => {
                let typed = image.as_typed(PixelType::U16x4)?;
                rgba16::divide_alpha_inplace(typed, &*self.recip_alpha16);
                Ok(())
            },
            _ => Err(ImageError::UnsupportedFormat),
        }
    }
}

impl Default for MulDiv {
    fn default() -> (r: Self)
        ensures
            r.spec_cpu_extensions() == CpuExtensions::Scalar,
    {
        MulDiv::new()
    }
}

} // verus!
