//! Running a row kernel over every row of an image.

use crate::image_view::{
    buffer_fits, lemma_row_in_bounds, lemma_rows_fill_buffer, row_mut, row_of, row_stride,
    with_row, TypedImageView, TypedImageViewMut,
};
use vstd::prelude::*;
use vstd::slice::slice_subrange;

verus! {

/// An operation that turns one row of pixels into a row of the same
/// length. A kernel never looks beyond the row it is given, so an image can
/// be processed row by row, in any order and in any grouping of rows.
pub trait RowKernel {
    /// What the kernel needs to hold of its own state.
    spec fn wf(&self) -> bool;

    /// Whether the kernel takes rows of `len` bytes.
    spec fn accepts(&self, len: int) -> bool;

    /// The row the kernel writes for a given source row.
    spec fn row_result(&self, src_row: Seq<u8>) -> Seq<u8>;

    /// A kernel writes as many bytes as it reads.
    proof fn lemma_row_result_len(&self, src_row: Seq<u8>)
        ensures
            self.row_result(src_row).len() == src_row.len(),
    ;

    /// Writes the result for `src_row` into `dst_row`.
    fn apply(&self, src_row: &[u8], dst_row: &mut [u8])
        requires
            self.wf(),
            self.accepts(src_row@.len() as int),
            src_row@.len() == old(dst_row)@.len(),
        ensures
            final(dst_row)@ == self.row_result(src_row@),
    ;
}

/// The image obtained by applying a kernel to each row of `bytes`, whose
/// rows take `stride` bytes.
pub open spec fn rows_mapped<K: RowKernel>(kernel: &K, bytes: Seq<u8>, stride: int) -> Seq<u8> {
    Seq::new(
        bytes.len(),
        |j: int| kernel.row_result(row_of(bytes, stride, j / stride))[j % stride],
    )
}

/// Position `j` of a buffer lies in row `j / stride`, at offset `j % stride`.
pub proof fn lemma_row_position(stride: int, y: int, k: int)
    requires
        0 < stride,
        0 <= y,
        0 <= k < stride,
    ensures
        (y * stride + k) / stride == y,
        (y * stride + k) % stride == k,
{
    vstd::arithmetic::div_mod::lemma_fundamental_div_mod_converse(y * stride + k, stride, y, k);
}

/// A band of rows processed on its own comes out as the same band of the
/// image processed whole. So an image can be cut along its rows into
/// bands, the bands handed to different workers, and the bytes are those
/// of a single pass.
pub proof fn lemma_band_of_rows<K: RowKernel>(
    kernel: &K,
    bytes: Seq<u8>,
    stride: int,
    height: int,
    first: int,
    end: int,
)
    requires
        0 < stride,
        bytes.len() == height * stride,
        0 <= first <= end <= height,
    ensures
        0 <= first * stride <= end * stride <= bytes.len(),
        rows_mapped(kernel, bytes.subrange(first * stride, end * stride), stride) == rows_mapped(
            kernel,
            bytes,
            stride,
        ).subrange(first * stride, end * stride),
{
    assert(0 <= first * stride <= end * stride <= height * stride && end * stride - first * stride
        == (end - first) * stride) by (nonlinear_arith)
        requires
            0 < stride,
            0 <= first <= end <= height,
    ;
    let band = bytes.subrange(first * stride, end * stride);
    let whole = rows_mapped(kernel, bytes, stride);
    assert forall|k: int| 0 <= k < band.len() implies rows_mapped(kernel, band, stride)[k]
        == whole[first * stride + k] by {
        vstd::arithmetic::div_mod::lemma_fundamental_div_mod(k, stride);
        let y = k / stride;
        assert(stride * y == y * stride) by (nonlinear_arith);
        assert(0 <= y < end - first && y * stride + stride <= (end - first) * stride
            && first * stride + k == (first + y) * stride + k % stride) by (nonlinear_arith)
            requires
                0 < stride,
                0 <= k < (end - first) * stride,
                k == y * stride + k % stride,
                0 <= k % stride < stride,
        ;
        lemma_row_position(stride, first + y, k % stride);
        assert((first + y) * stride == first * stride + y * stride) by (nonlinear_arith);
        assert(row_of(band, stride, y) =~= row_of(bytes, stride, first + y));
    }
    assert(rows_mapped(kernel, band, stride) =~= whole.subrange(first * stride, end * stride));
}

/// Replacing row `y` by its result extends the processed part of an image
/// by one row.
proof fn lemma_row_done<K: RowKernel>(
    kernel: &K,
    src: Seq<u8>,
    before: Seq<u8>,
    after: Seq<u8>,
    stride: int,
    y: int,
)
    requires
        0 < stride,
        0 <= y,
        y * stride + stride <= src.len(),
        before.len() == src.len(),
        after == with_row(before, stride, y, kernel.row_result(row_of(src, stride, y))),
        forall|j: int| 0 <= j < y * stride ==> before[j] == #[trigger] rows_mapped(kernel, src, stride)[j],
    ensures
        after.len() == src.len(),
        forall|j: int| 0 <= j < (y + 1) * stride ==> after[j] == #[trigger] rows_mapped(kernel, src, stride)[j],
        forall|j: int| (y + 1) * stride <= j < src.len() ==> #[trigger] after[j] == before[j],
{
    let row = row_of(src, stride, y);
    kernel.lemma_row_result_len(row);
    assert((y + 1) * stride == y * stride + stride) by (nonlinear_arith);
    assert(0 <= y * stride) by (nonlinear_arith)
        requires
            0 < stride,
            0 <= y,
    ;
    assert forall|j: int| 0 <= j < (y + 1) * stride implies after[j] == #[trigger] rows_mapped(
        kernel,
        src,
        stride,
    )[j] by {
        if j >= y * stride {
            lemma_row_position(stride, y, j - y * stride);
        }
    }
}

/// Applies `kernel` to each of the `count` rows of `src`, which take
/// `stride` bytes each, and writes the rows to `dst`.
pub fn map_rows<K: RowKernel>(kernel: &K, src: &[u8], dst: &mut [u8], stride: usize, count: usize)
    requires
        kernel.wf(),
        kernel.accepts(stride as int),
        0 < stride,
        src@.len() == count * stride,
        old(dst)@.len() == src@.len(),
    ensures
        final(dst)@ == rows_mapped(kernel, src@, stride as int),
{
    let ghost image = rows_mapped(kernel, src@, stride as int);
    let len: usize = src.len();
    let mut y: usize = 0;
    while y < count
        invariant
            y <= count,
            kernel.wf(),
            kernel.accepts(stride as int),
            0 < stride,
            len == count * stride,
            src@.len() == len,
            dst@.len() == len,
            image == rows_mapped(kernel, src@, stride as int),
            forall|j: int| 0 <= j < y * stride ==> dst@[j] == #[trigger] image[j],
        decreases count - y,
    {
        proof {
            lemma_row_in_bounds(stride as int, count as int, y as int);
        }
        let start: usize = y * stride;
        let src_row = slice_subrange(src, start, start + stride);
        let ghost before = dst@;
        let dst_row = row_mut(dst, stride, y);
        kernel.apply(src_row, dst_row);
        proof {
            lemma_row_done(kernel, src@, before, dst@, stride as int, y as int);
        }
        y += 1;
    }
    assert(dst@ =~= image);
}

/// Applies `kernel` to every row of `src_view` and writes the rows to
/// `dst_view`.
pub fn process_two_images<K: RowKernel>(
    kernel: &K,
    src_view: TypedImageView<'_>,
    dst_view: TypedImageViewMut<'_>,
)
    requires
        kernel.wf(),
        kernel.accepts(src_view.stride()),
        src_view.wf(),
        dst_view.wf(),
        src_view.width == dst_view.width,
        src_view.height == dst_view.height,
        src_view.pixel_type == dst_view.pixel_type,
    ensures
        final(dst_view.buffer)@ == rows_mapped(kernel, src_view.buffer@, src_view.stride()),
{
    let TypedImageViewMut { width, height, pixel_type, buffer } = dst_view;
    let len: usize = buffer.len();
    proof {
        lemma_rows_fill_buffer(width, height, pixel_type, 0);
    }
    let stride: usize = width as usize * pixel_type.size();
    map_rows(kernel, src_view.buffer, buffer, stride, height as usize);
}

/// Applies `kernel` to every row of `image_view` and writes each row back
/// in place. A row is read in full before any byte of it is overwritten.
pub fn process_one_image<K: RowKernel>(kernel: &K, image_view: TypedImageViewMut<'_>)
    requires
        kernel.wf(),
        kernel.accepts(image_view.stride()),
        image_view.wf(),
    ensures
        final(image_view.buffer)@ == rows_mapped(
            kernel,
            old(image_view.buffer)@,
            image_view.stride(),
        ),
{
    let TypedImageViewMut { width, height, pixel_type, buffer } = image_view;
    let size: usize = pixel_type.size();
    let len: usize = buffer.len();
    proof {
        lemma_rows_fill_buffer(width, height, pixel_type, 0);
    }
    let stride: usize = width as usize * size;
    let ghost untouched = buffer@;
    let ghost image = rows_mapped(kernel, untouched, stride as int);
    let mut scratch: Vec<u8> = Vec::with_capacity(stride);
    let mut y: u32 = 0;
    while y < height
        invariant
            y <= height,
            kernel.wf(),
            kernel.accepts(stride as int),
            width > 0,
            stride == row_stride(width, pixel_type),
            buffer_fits(width, height, pixel_type, untouched.len()),
            untouched.len() == len,
            buffer@.len() == untouched.len(),
            image == rows_mapped(kernel, untouched, stride as int),
            forall|j: int| 0 <= j < y * stride ==> buffer@[j] == #[trigger] image[j],
            forall|j: int| y * stride <= j < untouched.len() ==> buffer@[j] == #[trigger] untouched[j],
        decreases height - y,
    {
        proof {
            lemma_rows_fill_buffer(width, height, pixel_type, y as int);
        }
        let start: usize = y as usize * stride;
        scratch.clear();
        scratch.extend_from_slice(slice_subrange(buffer, start, start + stride));
        assert(scratch@ =~= row_of(untouched, stride as int, y as int));
        let ghost before = buffer@;
        let dst_row = row_mut(buffer, stride, y as usize);
        kernel.apply(scratch.as_slice(), dst_row);
        proof {
            lemma_row_done(kernel, untouched, before, buffer@, stride as int, y as int);
            assert forall|j: int| (y + 1) * stride <= j < untouched.len() implies buffer@[j]
                == #[trigger] untouched[j] by {
                assert(y * stride <= (y + 1) * stride) by (nonlinear_arith);
                assert(before[j] == untouched[j]);
            }
        }
        y += 1;
    }
    proof {
        lemma_rows_fill_buffer(width, height, pixel_type, 0);
        assert(buffer@ =~= image);
    }
}

} // verus!
