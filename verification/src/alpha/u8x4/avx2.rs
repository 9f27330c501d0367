//! Kernels that take eight pixels per step, as a 256-bit vector holds them.
//!
//! A row is cut into vectors of 32 bytes. What is left after the last full
//! vector goes to the scalar kernels.

use crate::alpha::rows::{map_rows, process_one_image, process_two_images, RowKernel};
use crate::alpha::u8x4::lanes::{divide_alpha_vector, multiply_alpha_vector};
use crate::alpha::u8x4::native;
use crate::alpha::u8x4::{
    close_to_scalar,
    divided,
    divided_row,
    divided_wide,
    is_recip_alpha_table,
    lemma_divided_by_rows,
    lemma_divided_close,
    lemma_divided_in_parts,
    lemma_divided_one_chunk,
    lemma_divided_row_close,
    lemma_image_of_pixels,
    lemma_multiplied_by_rows,
    lemma_multiplied_in_parts,
    lemma_rgba8_stride,
    multiplied,
    same_shape_rgba8,
};
use crate::image_view::{lemma_rows_fill_buffer, TypedImageView, TypedImageViewMut};
use crate::pixels::PixelType;
use vstd::prelude::*;

verus! {

/// Bytes in one vector.
pub const VECTOR_BYTES: usize = 32;

/// Premultiplies eight pixels.
pub struct MultiplyEightPixels;

impl RowKernel for MultiplyEightPixels {
    open spec fn wf(&self) -> bool {
        true
    }

    open spec fn accepts(&self, len: int) -> bool {
        len == VECTOR_BYTES
    }

    open spec fn row_result(&self, src_row: Seq<u8>) -> Seq<u8> {
        multiplied(src_row)
    }

    proof fn lemma_row_result_len(&self, src_row: Seq<u8>) {
    }

    fn apply(&self, src_row: &[u8], dst_row: &mut [u8]) {
        multiply_alpha_vector(src_row, dst_row);
    }
}

/// Takes eight pixels back from premultiplied form.
pub struct DivideEightPixels;

impl RowKernel for DivideEightPixels {
    open spec fn wf(&self) -> bool {
        true
    }

    open spec fn accepts(&self, len: int) -> bool {
        len == VECTOR_BYTES
    }

    open spec fn row_result(&self, src_row: Seq<u8>) -> Seq<u8> {
        divided_wide(src_row)
    }

    proof fn lemma_row_result_len(&self, src_row: Seq<u8>) {
    }

    fn apply(&self, src_row: &[u8], dst_row: &mut [u8]) {
        divide_alpha_eight_pixels(src_row, dst_row);
    }
}

/// Premultiplies one row, eight pixels at a time.
pub fn multiply_alpha_row(src_row: &[u8], dst_row: &mut [u8])
    requires
        src_row@.len() % 4 == 0,
        src_row@.len() == old(dst_row)@.len(),
    ensures
        final(dst_row)@ == multiplied(src_row@),
{
    let chunks: usize = src_row.len() / VECTOR_BYTES;
    let full: usize = chunks * VECTOR_BYTES;
    let (src_chunks, src_remainder) = src_row.split_at(full);
    let (dst_chunks, dst_remainder) = dst_row.split_at_mut(full);
    let kernel = MultiplyEightPixels;
    proof {
        lemma_multiplied_by_rows(&kernel, src_chunks@, VECTOR_BYTES as int, chunks as int);
        lemma_multiplied_in_parts(src_row@, full as int);
    }
    map_rows(&kernel, src_chunks, dst_chunks, VECTOR_BYTES, chunks);
    if src_remainder.len() > 0 {
        native::multiply_alpha_row(src_remainder, dst_remainder);
    }
    assert(dst_remainder@ =~= multiplied(src_remainder@));
}

/// Takes eight pixels back from premultiplied form. The alpha of each pixel
/// gives the factor for its three colour lanes; the alpha lanes are kept.
pub fn divide_alpha_eight_pixels(src: &[u8], dst: &mut [u8])
    requires
        src@.len() == VECTOR_BYTES,
        old(dst)@.len() == VECTOR_BYTES,
    ensures
        final(dst)@ == divided_wide(src@),
{
    divide_alpha_vector(src, dst);
}

/// Takes one row back from premultiplied form, eight pixels at a time.
pub fn divide_alpha_row(src_row: &[u8], dst_row: &mut [u8], recip_alpha: &[u32; 256])
    requires
        src_row@.len() % 4 == 0,
        src_row@.len() == old(dst_row)@.len(),
        is_recip_alpha_table(recip_alpha@),
    ensures
        final(dst_row)@ == divided_row(src_row@, VECTOR_BYTES as int),
        close_to_scalar(src_row@, final(dst_row)@),
{
    proof {
        lemma_divided_row_close(src_row@, VECTOR_BYTES as int);
    }
    let chunks: usize = src_row.len() / VECTOR_BYTES;
    let full: usize = chunks * VECTOR_BYTES;
    let (src_chunks, src_remainder) = src_row.split_at(full);
    let (dst_chunks, dst_remainder) = dst_row.split_at_mut(full);
    let kernel = DivideEightPixels;
    proof {
        assert forall|row: Seq<u8>| row.len() == VECTOR_BYTES implies #[trigger] kernel.row_result(
            row,
        ) == divided_row(row, VECTOR_BYTES as int) by {
            lemma_divided_one_chunk(row, VECTOR_BYTES as int);
        }
        lemma_divided_by_rows(
            &kernel,
            src_chunks@,
            VECTOR_BYTES as int,
            chunks as int,
            VECTOR_BYTES as int,
        );
        assert(divided(src_chunks@, VECTOR_BYTES as int, VECTOR_BYTES as int) =~= divided_wide(
            src_chunks@,
        ));
        lemma_divided_in_parts(src_row@, VECTOR_BYTES as int);
    }
    map_rows(&kernel, src_chunks, dst_chunks, VECTOR_BYTES, chunks);
    if src_remainder.len() > 0 {
        native::divide_alpha_row(src_remainder, dst_remainder, recip_alpha);
    }
    assert(dst_remainder@ =~= divided_row(src_remainder@, 0));
}

/// The row kernel that premultiplies eight pixels at a time.
pub struct MultiplyAlpha;

impl RowKernel for MultiplyAlpha {
    open spec fn wf(&self) -> bool {
        true
    }

    open spec fn accepts(&self, len: int) -> bool {
        len % 4 == 0
    }

    open spec fn row_result(&self, src_row: Seq<u8>) -> Seq<u8> {
        multiplied(src_row)
    }

    proof fn lemma_row_result_len(&self, src_row: Seq<u8>) {
    }

    fn apply(&self, src_row: &[u8], dst_row: &mut [u8]) {
        multiply_alpha_row(src_row, dst_row);
    }
}

/// The row kernel that undoes premultiplication eight pixels at a time.
pub struct DivideAlpha<'a> {
    pub recip_alpha: &'a [u32; 256],
}

impl<'a> RowKernel for DivideAlpha<'a> {
    open spec fn wf(&self) -> bool {
        is_recip_alpha_table(self.recip_alpha@)
    }

    open spec fn accepts(&self, len: int) -> bool {
        len % 4 == 0
    }

    open spec fn row_result(&self, src_row: Seq<u8>) -> Seq<u8> {
        divided_row(src_row, VECTOR_BYTES as int)
    }

    proof fn lemma_row_result_len(&self, src_row: Seq<u8>) {
    }

    fn apply(&self, src_row: &[u8], dst_row: &mut [u8]) {
        divide_alpha_row(src_row, dst_row, self.recip_alpha);
    }
}

/// Premultiplies `src_image` into `dst_image`.
pub fn multiply_alpha(src_image: TypedImageView<'_>, dst_image: TypedImageViewMut<'_>)
    requires
        same_shape_rgba8(src_image, dst_image),
    ensures
        final(dst_image.buffer)@ == multiplied(src_image.buffer@),
{
    let kernel = MultiplyAlpha;
    proof {
        lemma_rgba8_stride(src_image.width);
        lemma_rows_fill_buffer(src_image.width, src_image.height, src_image.pixel_type, 0);
        lemma_multiplied_by_rows(
            &kernel,
            src_image.buffer@,
            src_image.stride(),
            src_image.height as int,
        );
    }
    process_two_images(&kernel, src_image, dst_image);
}

/// Premultiplies `image` in place.
pub fn multiply_alpha_inplace(image: TypedImageViewMut<'_>)
    requires
        image.wf(),
        image.pixel_type == PixelType::U8x4,
    ensures
        final(image.buffer)@ == multiplied(old(image.buffer)@),
{
    let kernel = MultiplyAlpha;
    proof {
        lemma_rgba8_stride(image.width);
        lemma_rows_fill_buffer(image.width, image.height, image.pixel_type, 0);
        lemma_multiplied_by_rows(&kernel, image.buffer@, image.stride(), image.height as int);
    }
    process_one_image(&kernel, image);
}

/// Takes `src_image` back from premultiplied form into `dst_image`.
pub fn divide_alpha(
    src_image: TypedImageView<'_>,
    dst_image: TypedImageViewMut<'_>,
    recip_alpha: &[u32; 256],
)
    requires
        same_shape_rgba8(src_image, dst_image),
        is_recip_alpha_table(recip_alpha@),
    ensures
        final(dst_image.buffer)@ == divided(
            src_image.buffer@,
            src_image.stride(),
            VECTOR_BYTES as int,
        ),
        close_to_scalar(src_image.buffer@, final(dst_image.buffer)@),
{
    let kernel = DivideAlpha { recip_alpha };
    proof {
        lemma_image_of_pixels(src_image.width, src_image.height);
        lemma_divided_close(src_image.buffer@, src_image.stride(), VECTOR_BYTES as int);
        lemma_rgba8_stride(src_image.width);
        lemma_rows_fill_buffer(src_image.width, src_image.height, src_image.pixel_type, 0);
        lemma_divided_by_rows(
            &kernel,
            src_image.buffer@,
            src_image.stride(),
            src_image.height as int,
            VECTOR_BYTES as int,
        );
    }
    process_two_images(&kernel, src_image, dst_image);
}

/// Takes `image` back from premultiplied form in place.
pub fn divide_alpha_inplace(image: TypedImageViewMut<'_>, recip_alpha: &[u32; 256])
    requires
        image.wf(),
        image.pixel_type == PixelType::U8x4,
        is_recip_alpha_table(recip_alpha@),
    ensures
        final(image.buffer)@ == divided(old(image.buffer)@, image.stride(), VECTOR_BYTES as int),
        close_to_scalar(old(image.buffer)@, final(image.buffer)@),
{
    let kernel = DivideAlpha { recip_alpha };
    proof {
        lemma_image_of_pixels(image.width, image.height);
        lemma_divided_close(image.buffer@, image.stride(), VECTOR_BYTES as int);
        lemma_rgba8_stride(image.width);
        lemma_rows_fill_buffer(image.width, image.height, image.pixel_type, 0);
        lemma_divided_by_rows(
            &kernel,
            image.buffer@,
            image.stride(),
            image.height as int,
            VECTOR_BYTES as int,
        );
    }
    process_one_image(&kernel, image);
}

} // verus!
