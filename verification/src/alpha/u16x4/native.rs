//! Scalar kernels: one pixel per step.

use crate::alpha::common::{div_and_clip16, mul_div_65535};
use crate::alpha::rows::{process_one_image, process_two_images, RowKernel};
use crate::alpha::u16x4::{
    byte_of_channel, channel16, divided16, divided16_channel, is_recip_alpha16_table,
    lemma_rgba16_stride, lemma_rows16, multiplied16, multiplied16_channel,
};
use crate::image_view::{lemma_rows_fill_buffer, TypedImageView, TypedImageViewMut};
use crate::pixels::PixelType;
use vstd::prelude::*;

verus! {

/// Reads channel `ch` of a row.
fn load_channel(row: &[u8], ch: usize) -> (v: u16)
    requires
        2 * ch + 1 < row@.len() <= usize::MAX,
    ensures
        v as int == channel16(row@, ch as int),
{
    let lo: u16 = row[2 * ch] as u16;
    let hi: u16 = row[2 * ch + 1] as u16;
    lo + hi * 256
}

/// Writes `v` as channel `ch` of a row.
fn store_channel(row: &mut [u8], ch: usize, v: u16)
    requires
        2 * ch + 1 < old(row)@.len() <= usize::MAX,
    ensures
        final(row)@ == old(row)@.update(2 * ch as int, byte_of_channel(v as int, 0)).update(
            2 * ch + 1,
            byte_of_channel(v as int, 1),
        ),
{
    row[2 * ch] = (v % 256) as u8;
    row[2 * ch + 1] = (v / 256) as u8;
}

/// Premultiplies one row.
pub fn multiply_alpha_row(src_row: &[u8], dst_row: &mut [u8])
    requires
        src_row@.len() % 8 == 0,
        src_row@.len() == old(dst_row)@.len(),
    ensures
        final(dst_row)@ == multiplied16(src_row@),
{
    let pixels: usize = src_row.len() / 8;
    let mut i: usize = 0;
    while i < pixels
        invariant
            i <= pixels,
            pixels * 8 == src_row@.len() <= usize::MAX,
            dst_row@.len() == src_row@.len(),
            forall|j: int|
                0 <= j < 8 * i ==> dst_row@[j] == #[trigger] byte_of_channel(
                    multiplied16_channel(src_row@, j / 2),
                    j,
                ),
        decreases pixels - i,
    {
        let ch: usize = 4 * i;
        let alpha: u16 = load_channel(src_row, ch + 3);
        store_channel(dst_row, ch, mul_div_65535(load_channel(src_row, ch), alpha));
        store_channel(dst_row, ch + 1, mul_div_65535(load_channel(src_row, ch + 1), alpha));
        store_channel(dst_row, ch + 2, mul_div_65535(load_channel(src_row, ch + 2), alpha));
        store_channel(dst_row, ch + 3, alpha);
        i += 1;
    }
    assert(dst_row@ =~= multiplied16(src_row@));
}

/// Takes one row back from premultiplied form.
pub fn divide_alpha_row(src_row: &[u8], dst_row: &mut [u8], recip_alpha: &[u64; 65536])
    requires
        src_row@.len() % 8 == 0,
        src_row@.len() == old(dst_row)@.len(),
        is_recip_alpha16_table(recip_alpha@),
    ensures
        final(dst_row)@ == divided16(src_row@),
{
    let pixels: usize = src_row.len() / 8;
    let mut i: usize = 0;
    while i < pixels
        invariant
            i <= pixels,
            pixels * 8 == src_row@.len() <= usize::MAX,
            dst_row@.len() == src_row@.len(),
            is_recip_alpha16_table(recip_alpha@),
            forall|j: int|
                0 <= j < 8 * i ==> dst_row@[j] == #[trigger] byte_of_channel(
                    divided16_channel(src_row@, j / 2),
                    j,
                ),
        decreases pixels - i,
    {
        let ch: usize = 4 * i;
        let alpha: u16 = load_channel(src_row, ch + 3);
        let recip: u64 = recip_alpha[alpha as usize];
        if alpha == 0 {
            store_channel(dst_row, ch, 0);
            store_channel(dst_row, ch + 1, 0);
            store_channel(dst_row, ch + 2, 0);
        } else {
            store_channel(dst_row, ch, div_and_clip16(load_channel(src_row, ch), recip));
            store_channel(dst_row, ch + 1, div_and_clip16(load_channel(src_row, ch + 1), recip));
            store_channel(dst_row, ch + 2, div_and_clip16(load_channel(src_row, ch + 2), recip));
        }
        store_channel(dst_row, ch + 3, alpha);
        i += 1;
    }
    assert(dst_row@ =~= divided16(src_row@));
}

/// The scalar premultiplying kernel.
pub struct MultiplyAlpha;

impl RowKernel for MultiplyAlpha {
    open spec fn wf(&self) -> bool {
        true
    }

    open spec fn accepts(&self, len: int) -> bool {
        len % 8 == 0
    }

    open spec fn row_result(&self, src_row: Seq<u8>) -> Seq<u8> {
        multiplied16(src_row)
    }

    proof fn lemma_row_result_len(&self, src_row: Seq<u8>) {
    }

    fn apply(&self, src_row: &[u8], dst_row: &mut [u8]) {
        multiply_alpha_row(src_row, dst_row);
    }
}

/// The scalar kernel that undoes premultiplication.
pub struct DivideAlpha<'a> {
    pub recip_alpha: &'a [u64; 65536],
}

impl<'a> RowKernel for DivideAlpha<'a> {
    open spec fn wf(&self) -> bool {
        is_recip_alpha16_table(self.recip_alpha@)
    }

    open spec fn accepts(&self, len: int) -> bool {
        len % 8 == 0
    }

    open spec fn row_result(&self, src_row: Seq<u8>) -> Seq<u8> {
        divided16(src_row)
    }

    proof fn lemma_row_result_len(&self, src_row: Seq<u8>) {
    }

    fn apply(&self, src_row: &[u8], dst_row: &mut [u8]) {
        divide_alpha_row(src_row, dst_row, self.recip_alpha);
    }
}

/// What the image-level kernels ask of a pair of images: both hold four
/// 16-bit channels and have the same dimensions.
pub open spec fn same_shape_rgba16(src: TypedImageView<'_>, dst: TypedImageViewMut<'_>) -> bool {
    &&& src.wf()
    &&& dst.wf()
    &&& src.pixel_type == PixelType::U16x4
    &&& dst.pixel_type == PixelType::U16x4
    &&& src.width == dst.width
    &&& src.height == dst.height
}

/// Premultiplies `src_image` into `dst_image`.
pub fn multiply_alpha(src_image: TypedImageView<'_>, dst_image: TypedImageViewMut<'_>)
    requires
        same_shape_rgba16(src_image, dst_image),
    ensures
        final(dst_image.buffer)@ == multiplied16(src_image.buffer@),
{
    let kernel = MultiplyAlpha;
    proof {
        lemma_rgba16_stride(src_image.width);
        lemma_rows_fill_buffer(src_image.width, src_image.height, src_image.pixel_type, 0);
        lemma_rows16(
            &kernel,
            src_image.buffer@,
            src_image.stride(),
            src_image.height as int,
            false,
        );
    }
    process_two_images(&kernel, src_image, dst_image);
}

/// Premultiplies `image` in place.
pub fn multiply_alpha_inplace(image: TypedImageViewMut<'_>)
    requires
        image.wf(),
        image.pixel_type == PixelType::U16x4,
    ensures
        final(image.buffer)@ == multiplied16(old(image.buffer)@),
{
    let kernel = MultiplyAlpha;
    proof {
        lemma_rgba16_stride(image.width);
        lemma_rows_fill_buffer(image.width, image.height, image.pixel_type, 0);
        lemma_rows16(&kernel, image.buffer@, image.stride(), image.height as int, false);
    }
    process_one_image(&kernel, image);
}

/// Takes `src_image` back from premultiplied form into `dst_image`.
pub fn divide_alpha(
    src_image: TypedImageView<'_>,
    dst_image: TypedImageViewMut<'_>,
    recip_alpha: &[u64; 65536],
)
    requires
        same_shape_rgba16(src_image, dst_image),
        is_recip_alpha16_table(recip_alpha@),
    ensures
        final(dst_image.buffer)@ == divided16(src_image.buffer@),
{
    let kernel = DivideAlpha { recip_alpha };
    proof {
        lemma_rgba16_stride(src_image.width);
        lemma_rows_fill_buffer(src_image.width, src_image.height, src_image.pixel_type, 0);
        lemma_rows16(
            &kernel,
            src_image.buffer@,
            src_image.stride(),
            src_image.height as int,
            true,
        );
    }
    process_two_images(&kernel, src_image, dst_image);
}

/// Takes `image` back from premultiplied form in place.
pub fn divide_alpha_inplace(image: TypedImageViewMut<'_>, recip_alpha: &[u64; 65536])
    requires
        image.wf(),
        image.pixel_type == PixelType::U16x4,
        is_recip_alpha16_table(recip_alpha@),
    ensures
        final(image.buffer)@ == divided16(old(image.buffer)@),
{
    let kernel = DivideAlpha { recip_alpha };
    proof {
        lemma_rgba16_stride(image.width);
        lemma_rows_fill_buffer(image.width, image.height, image.pixel_type, 0);
        lemma_rows16(&kernel, image.buffer@, image.stride(), image.height as int, true);
    }
    process_one_image(&kernel, image);
}

} // verus!
