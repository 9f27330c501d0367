//! Scalar kernels: one pixel per step.

use crate::alpha::common::{div_and_clip, mul_div_255};
use crate::alpha::rows::{process_one_image, process_two_images, RowKernel};
use crate::alpha::u8x4::{
    divided,
    divided_byte,
    divided_row,
    is_recip_alpha_table,
    lemma_divided_by_rows,
    lemma_multiplied_by_rows,
    lemma_rgba8_stride,
    multiplied,
    multiplied_byte,
    same_shape_rgba8,
};
use crate::image_view::lemma_rows_fill_buffer;
use crate::image_view::{TypedImageView, TypedImageViewMut};
use crate::pixels::PixelType;
use vstd::prelude::*;

verus! {

/// Premultiplies one row.
pub fn multiply_alpha_row(src_row: &[u8], dst_row: &mut [u8])
    requires
        src_row@.len() % 4 == 0,
        src_row@.len() == old(dst_row)@.len(),
    ensures
        final(dst_row)@ == multiplied(src_row@),
{
    let pixels: usize = src_row.len() / 4;
    let mut i: usize = 0;
    while i < pixels
        invariant
            i <= pixels,
            pixels * 4 == src_row@.len() <= usize::MAX,
            dst_row@.len() == src_row@.len(),
            forall|j: int| 0 <= j < 4 * i ==> dst_row@[j] == #[trigger] multiplied_byte(src_row@, j),
        decreases pixels - i,
    {
        let at: usize = 4 * i;
        let alpha: u8 = src_row[at + 3];
        dst_row[at] = mul_div_255(src_row[at], alpha);
        dst_row[at + 1] = mul_div_255(src_row[at + 1], alpha);
        dst_row[at + 2] = mul_div_255(src_row[at + 2], alpha);
        dst_row[at + 3] = alpha;
        i += 1;
    }
    assert(dst_row@ =~= multiplied(src_row@));
}

/// Takes one row back from premultiplied form.
pub fn divide_alpha_row(src_row: &[u8], dst_row: &mut [u8], recip_alpha: &[u32; 256])
    requires
        src_row@.len() % 4 == 0,
        src_row@.len() == old(dst_row)@.len(),
        is_recip_alpha_table(recip_alpha@),
    ensures
        final(dst_row)@ == divided_row(src_row@, 0),
{
    let pixels: usize = src_row.len() / 4;
    let mut i: usize = 0;
    while i < pixels
        invariant
            i <= pixels,
            pixels * 4 == src_row@.len() <= usize::MAX,
            dst_row@.len() == src_row@.len(),
            is_recip_alpha_table(recip_alpha@),
            forall|j: int| 0 <= j < 4 * i ==> dst_row@[j] == #[trigger] divided_byte(src_row@, j, false),
        decreases pixels - i,
    {
        let at: usize = 4 * i;
        let alpha: u8 = src_row[at + 3];
        let recip: u32 = recip_alpha[alpha as usize];
        if alpha == 0 {
            dst_row[at] = 0;
            dst_row[at + 1] = 0;
            dst_row[at + 2] = 0;
        } else {
            dst_row[at] = div_and_clip(src_row[at], recip);
            dst_row[at + 1] = div_and_clip(src_row[at + 1], recip);
            dst_row[at + 2] = div_and_clip(src_row[at + 2], recip);
        }
        dst_row[at + 3] = alpha;
        i += 1;
    }
    assert(dst_row@ =~= divided_row(src_row@, 0));
}

/// The scalar premultiplying kernel.
pub struct MultiplyAlpha;

impl RowKernel for MultiplyAlpha {
    open spec fn wf(&self) -> bool {
        true
    }

    open spec fn accepts(&self, len: int) -> bool {
        len % 4 == 0
    }

    open spec fn row_result(&self, src_row: Seq<u8>) -> Seq<u8> {
        multiplied(src_row)
    }

    proof fn lemma_row_result_len(&self, src_row: Seq<u8>) {
    }

    fn apply(&self, src_row: &[u8], dst_row: &mut [u8]) {
        multiply_alpha_row(src_row, dst_row);
    }
}

/// The scalar kernel that undoes premultiplication.
pub struct DivideAlpha<'a> {
    pub recip_alpha: &'a [u32; 256],
}

impl<'a> RowKernel for DivideAlpha<'a> {
    open spec fn wf(&self) -> bool {
        is_recip_alpha_table(self.recip_alpha@)
    }

    open spec fn accepts(&self, len: int) -> bool {
        len % 4 == 0
    }

    open spec fn row_result(&self, src_row: Seq<u8>) -> Seq<u8> {
        divided_row(src_row, 0)
    }

    proof fn lemma_row_result_len(&self, src_row: Seq<u8>) {
    }

    fn apply(&self, src_row: &[u8], dst_row: &mut [u8]) {
        divide_alpha_row(src_row, dst_row, self.recip_alpha);
    }
}

/// Premultiplies `src_image` into `dst_image`.
pub fn multiply_alpha(src_image: TypedImageView<'_>, dst_image: TypedImageViewMut<'_>)
    requires
        same_shape_rgba8(src_image, dst_image),
    ensures
        final(dst_image.buffer)@ == multiplied(src_image.buffer@),
{
    let kernel = MultiplyAlpha;
    proof {
        lemma_rgba8_stride(src_image.width);
        lemma_rows_fill_buffer(src_image.width, src_image.height, src_image.pixel_type, 0);
        lemma_multiplied_by_rows(
            &kernel,
            src_image.buffer@,
            src_image.stride(),
            src_image.height as int,
        );
    }
    process_two_images(&kernel, src_image, dst_image);
}

/// Premultiplies `image` in place.
pub fn multiply_alpha_inplace(image: TypedImageViewMut<'_>)
    requires
        image.wf(),
        image.pixel_type == PixelType::U8x4,
    ensures
        final(image.buffer)@ == multiplied(old(image.buffer)@),
{
    let kernel = MultiplyAlpha;
    proof {
        lemma_rgba8_stride(image.width);
        lemma_rows_fill_buffer(image.width, image.height, image.pixel_type, 0);
        lemma_multiplied_by_rows(&kernel, image.buffer@, image.stride(), image.height as int);
    }
    process_one_image(&kernel, image);
}

/// Takes `src_image` back from premultiplied form into `dst_image`.
pub fn divide_alpha(
    src_image: TypedImageView<'_>,
    dst_image: TypedImageViewMut<'_>,
    recip_alpha: &[u32; 256],
)
    requires
        same_shape_rgba8(src_image, dst_image),
        is_recip_alpha_table(recip_alpha@),
    ensures
        final(dst_image.buffer)@ == divided(src_image.buffer@, src_image.stride(), 0),
{
    let kernel = DivideAlpha { recip_alpha };
    proof {
        lemma_rgba8_stride(src_image.width);
        lemma_rows_fill_buffer(src_image.width, src_image.height, src_image.pixel_type, 0);
        lemma_divided_by_rows(
            &kernel,
            src_image.buffer@,
            src_image.stride(),
            src_image.height as int,
            0,
        );
    }
    process_two_images(&kernel, src_image, dst_image);
}

/// Takes `image` back from premultiplied form in place.
pub fn divide_alpha_inplace(image: TypedImageViewMut<'_>, recip_alpha: &[u32; 256])
    requires
        image.wf(),
        image.pixel_type == PixelType::U8x4,
        is_recip_alpha_table(recip_alpha@),
    ensures
        final(image.buffer)@ == divided(old(image.buffer)@, image.stride(), 0),
{
    let kernel = DivideAlpha { recip_alpha };
    proof {
        lemma_rgba8_stride(image.width);
        lemma_rows_fill_buffer(image.width, image.height, image.pixel_type, 0);
        lemma_divided_by_rows(&kernel, image.buffer@, image.stride(), image.height as int, 0);
    }
    process_one_image(&kernel, image);
}

} // verus!
