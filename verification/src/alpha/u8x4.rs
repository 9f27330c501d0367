//! Alpha conversion of images with four 8-bit channels.
//!
//! A pixel takes four bytes: red, green, blue, alpha.

pub mod avx2;
pub mod lanes;
pub mod native;
pub mod sse4;

use crate::alpha::common::{div_and_clip_value, recip_alpha_entry, round_div, PRECISION};
use crate::alpha::rows::{rows_mapped, RowKernel};
use crate::cpu_extensions::{CpuExtensions, KernelTier};
use crate::image_view::{row_of, row_stride, TypedImageView, TypedImageViewMut};
use crate::pixels::PixelType;
use vstd::arithmetic::div_mod::lemma_fundamental_div_mod;
use vstd::arithmetic::power2::lemma2_to64;
use vstd::prelude::*;

verus! {

/// Alpha of the pixel that byte `j` belongs to.
pub open spec fn alpha_at(bytes: Seq<u8>, j: int) -> int {
    bytes[j - j % 4 + 3] as int
}

/// A colour channel scaled by `alpha / 255`, rounded to nearest.
pub open spec fn multiplied_channel(c: int, alpha: int) -> int {
    round_div(c * alpha, 255)
}

/// Byte `j` of a premultiplied image: alpha is kept, a colour channel is
/// scaled by its pixel's alpha.
pub open spec fn multiplied_byte(bytes: Seq<u8>, j: int) -> u8 {
    if j % 4 == 3 {
        bytes[j]
    } else {
        multiplied_channel(bytes[j] as int, alpha_at(bytes, j)) as u8
    }
}

/// The premultiplied form of an image or of a row.
pub open spec fn multiplied(bytes: Seq<u8>) -> Seq<u8> {
    Seq::new(bytes.len(), |j: int| multiplied_byte(bytes, j))
}

/// The reciprocal of `alpha` that the divide kernels multiply by:
/// `255 * 256 / alpha` rounded to nearest, and 0 for alpha 0.
pub open spec fn recip_alpha(alpha: int) -> int {
    recip_alpha_entry(255, PRECISION as nat, alpha)
}

/// Whether `table` is the reciprocal table for 8-bit channels.
pub open spec fn is_recip_alpha_table(table: Seq<u32>) -> bool {
    &&& table.len() == 256
    &&& forall|a: int| 0 <= a < 256 ==> #[trigger] table[a] as int == recip_alpha(a)
}

/// A colour channel divided by `alpha / 255` the scalar way: the product
/// with the reciprocal is rounded to nearest and clipped to 255. With alpha
/// 0 the result is 0.
pub open spec fn divided_channel(c: int, alpha: int) -> int {
    if alpha == 0 {
        0
    } else {
        div_and_clip_value(c, recip_alpha(alpha), PRECISION as nat, 255)
    }
}

/// A colour channel divided by `alpha / 255` the way a vector lane does it:
/// the product with the reciprocal is rounded down and clipped to 255.
pub open spec fn divided_channel_wide(c: int, alpha: int) -> int {
    let lane = (c * recip_alpha(alpha)) / 256;
    if lane > 255 {
        255
    } else {
        lane
    }
}

/// Byte `j` of an image taken back from premultiplied form. `wide` tells
/// which of the two roundings applies to the byte.
pub open spec fn divided_byte(bytes: Seq<u8>, j: int, wide: bool) -> u8 {
    if j % 4 == 3 {
        bytes[j]
    } else if wide {
        divided_channel_wide(bytes[j] as int, alpha_at(bytes, j)) as u8
    } else {
        divided_channel(bytes[j] as int, alpha_at(bytes, j)) as u8
    }
}

/// Whether offset `k` of a row of `len` bytes falls into a full vector of
/// `chunk` bytes. The bytes after the last full vector form the tail, which
/// the scalar code handles. With `chunk` 0 there are no vectors.
pub open spec fn in_full_chunk(len: int, chunk: int, k: int) -> bool {
    chunk > 0 && k / chunk < len / chunk
}

/// A row taken back from premultiplied form by a kernel that works on
/// vectors of `chunk` bytes.
pub open spec fn divided_row(row: Seq<u8>, chunk: int) -> Seq<u8> {
    Seq::new(
        row.len(),
        |k: int| divided_byte(row, k, in_full_chunk(row.len() as int, chunk, k)),
    )
}

/// An image taken back from premultiplied form, row by row, by a kernel
/// that works on vectors of `chunk` bytes. Rows take `stride` bytes.
pub open spec fn divided(bytes: Seq<u8>, stride: int, chunk: int) -> Seq<u8> {
    Seq::new(
        bytes.len(),
        |j: int| divided_byte(bytes, j, in_full_chunk(stride, chunk, j % stride)),
    )
}

/// Whether `dst` is `src` taken back from premultiplied form to within
/// the tolerance of the wide kernels: every alpha is kept, and every
/// colour is at most 1 away from what the scalar kernel gives for it.
pub open spec fn close_to_scalar(src: Seq<u8>, dst: Seq<u8>) -> bool {
    &&& dst.len() == src.len()
    &&& forall|j: int|
        0 <= j < dst.len() ==> if j % 4 == 3 {
            (#[trigger] dst[j]) == src[j]
        } else {
            -1 <= dst[j] - divided_channel(src[j] as int, alpha_at(src, j)) <= 1
        }
}

/// The reciprocal of an alpha is at most 65280, and times alpha it is
/// within half an alpha of 65280.
pub proof fn lemma_recip_alpha_range(alpha: int)
    requires
        0 <= alpha <= 255,
    ensures
        0 <= recip_alpha(alpha) <= 65280,
        alpha >= 1 ==> 130560 - alpha < 2 * (alpha * recip_alpha(alpha)) <= 130560 + alpha,
{
    lemma2_to64();
    if alpha >= 1 {
        let recip = recip_alpha(alpha);
        lemma_fundamental_div_mod(2 * 65280 + alpha, 2 * alpha);
        assert((2 * alpha) * recip == 2 * (alpha * recip)) by (nonlinear_arith);
        assert(0 <= recip <= 65280) by (nonlinear_arith)
            requires
                130560 - alpha < 2 * (alpha * recip) <= 130560 + alpha,
                1 <= alpha <= 255,
        ;
    }
}

/// The wide kernels give the colour that the scalar kernel gives or the
/// one below it: they round down where it rounds to nearest.
pub proof fn lemma_divide_lane_close(c: int, alpha: int)
    requires
        0 <= c <= 255,
        0 <= alpha <= 255,
    ensures
        0 <= divided_channel_wide(c, alpha) <= divided_channel(c, alpha) <= 255,
        divided_channel(c, alpha) <= divided_channel_wide(c, alpha) + 1,
{
    lemma_recip_alpha_range(alpha);
    lemma2_to64();
    let p = c * recip_alpha(alpha);
    assert(0 <= p) by (nonlinear_arith)
        requires
            p == c * recip_alpha(alpha),
            0 <= c,
            0 <= recip_alpha(alpha),
    ;
    lemma_fundamental_div_mod(p, 256);
    lemma_fundamental_div_mod(2 * p + 256, 512);
    if alpha == 0 {
        assert(p == 0) by (nonlinear_arith)
            requires
                p == c * recip_alpha(alpha),
                recip_alpha(alpha) == 0,
        ;
    }
}

/// Whatever the width of its vectors, a kernel takes a row back from
/// premultiplied form to within the tolerance of the wide kernels.
pub proof fn lemma_divided_row_close(row: Seq<u8>, chunk: int)
    requires
        row.len() % 4 == 0,
    ensures
        close_to_scalar(row, divided_row(row, chunk)),
{
    let dst = divided_row(row, chunk);
    assert forall|j: int| 0 <= j < dst.len() implies if j % 4 == 3 {
        (#[trigger] dst[j]) == row[j]
    } else {
        -1 <= dst[j] - divided_channel(row[j] as int, alpha_at(row, j)) <= 1
    } by {
        if j % 4 != 3 {
            lemma_divide_lane_close(row[j] as int, alpha_at(row, j));
        }
    }
}

/// Whatever the width of its vectors, a kernel takes an image back from
/// premultiplied form to within the tolerance of the wide kernels.
pub proof fn lemma_divided_close(bytes: Seq<u8>, stride: int, chunk: int)
    requires
        bytes.len() % 4 == 0,
    ensures
        close_to_scalar(bytes, divided(bytes, stride, chunk)),
{
    let dst = divided(bytes, stride, chunk);
    assert forall|j: int| 0 <= j < dst.len() implies if j % 4 == 3 {
        (#[trigger] dst[j]) == bytes[j]
    } else {
        -1 <= dst[j] - divided_channel(bytes[j] as int, alpha_at(bytes, j)) <= 1
    } by {
        if j % 4 != 3 {
            lemma_divide_lane_close(bytes[j] as int, alpha_at(bytes, j));
        }
    }
}

/// A run of pixels taken back from premultiplied form with the rounding
/// of the vector lanes throughout.
pub open spec fn divided_wide(bytes: Seq<u8>) -> Seq<u8> {
    Seq::new(bytes.len(), |j: int| divided_byte(bytes, j, true))
}

/// A byte of a run of whole pixels cut out of `bytes` sees the same pixel
/// in the run as in `bytes`.
pub proof fn lemma_pixel_in_part(bytes: Seq<u8>, start: int, end: int, k: int)
    requires
        0 <= start <= end <= bytes.len(),
        start % 4 == 0,
        end % 4 == 0,
        0 <= k < end - start,
    ensures
        (start + k) % 4 == k % 4,
        bytes.subrange(start, end)[k] == bytes[start + k],
        alpha_at(bytes.subrange(start, end), k) == alpha_at(bytes, start + k),
{
}

/// A byte of row `y` sees the same pixel in the row as in the image.
pub proof fn lemma_pixel_in_row(bytes: Seq<u8>, stride: int, y: int, k: int)
    requires
        0 < stride,
        stride % 4 == 0,
        0 <= y,
        0 <= k < stride,
        y * stride + stride <= bytes.len(),
    ensures
        (y * stride + k) % 4 == k % 4,
        row_of(bytes, stride, y)[k] == bytes[y * stride + k],
        alpha_at(row_of(bytes, stride, y), k) == alpha_at(bytes, y * stride + k),
{
    vstd::arithmetic::div_mod::lemma_mul_mod_noop_right(y, stride, 4);
    assert((y * stride) % 4 == 0);
    assert(0 <= y * stride) by (nonlinear_arith)
        requires
            0 < stride,
            0 <= y,
    ;
    lemma_pixel_in_part(bytes, y * stride, y * stride + stride, k);
}

/// Byte `j` of an image of whole rows lies in a row inside the image.
pub proof fn lemma_byte_in_row(len: int, stride: int, height: int, j: int)
    requires
        0 < stride,
        len == height * stride,
        0 <= j < len,
    ensures
        0 <= j / stride < height,
        0 <= j % stride < stride,
        j == (j / stride) * stride + j % stride,
        (j / stride) * stride + stride <= len,
{
    vstd::arithmetic::div_mod::lemma_fundamental_div_mod(j, stride);
    let y = j / stride;
    assert(stride * y == y * stride) by (nonlinear_arith);
    assert(0 <= y < height && y * stride + stride <= height * stride) by (nonlinear_arith)
        requires
            0 < stride,
            0 <= j < height * stride,
            j == y * stride + j % stride,
            0 <= j % stride < stride,
    ;
}

/// A kernel that premultiplies each row premultiplies the image.
pub proof fn lemma_multiplied_by_rows<K: RowKernel>(
    kernel: &K,
    bytes: Seq<u8>,
    stride: int,
    height: int,
)
    requires
        0 < stride,
        stride % 4 == 0,
        bytes.len() == height * stride,
        forall|row: Seq<u8>| #[trigger] kernel.row_result(row) == multiplied(row),
    ensures
        rows_mapped(kernel, bytes, stride) == multiplied(bytes),
{
    assert forall|j: int| 0 <= j < bytes.len() implies rows_mapped(kernel, bytes, stride)[j]
        == multiplied(bytes)[j] by {
        lemma_byte_in_row(bytes.len() as int, stride, height, j);
        lemma_pixel_in_row(bytes, stride, j / stride, j % stride);
    }
    assert(rows_mapped(kernel, bytes, stride) =~= multiplied(bytes));
}

/// A kernel that takes each row back from premultiplied form, on vectors
/// of `chunk` bytes, does so for the image.
pub proof fn lemma_divided_by_rows<K: RowKernel>(
    kernel: &K,
    bytes: Seq<u8>,
    stride: int,
    height: int,
    chunk: int,
)
    requires
        0 < stride,
        stride % 4 == 0,
        bytes.len() == height * stride,
        forall|row: Seq<u8>|
            row.len() == stride ==> #[trigger] kernel.row_result(row) == divided_row(row, chunk),
    ensures
        rows_mapped(kernel, bytes, stride) == divided(bytes, stride, chunk),
{
    assert forall|j: int| 0 <= j < bytes.len() implies rows_mapped(kernel, bytes, stride)[j]
        == divided(bytes, stride, chunk)[j] by {
        lemma_byte_in_row(bytes.len() as int, stride, height, j);
        lemma_pixel_in_row(bytes, stride, j / stride, j % stride);
    }
    assert(rows_mapped(kernel, bytes, stride) =~= divided(bytes, stride, chunk));
}

/// Offset `k` of a row falls into a full vector exactly if it lies before
/// the end of the last full vector.
pub proof fn lemma_full_chunks(len: int, chunk: int, k: int)
    requires
        0 < chunk,
        0 <= k < len,
    ensures
        in_full_chunk(len, chunk, k) <==> k < (len / chunk) * chunk,
        0 <= (len / chunk) * chunk <= len,
{
    vstd::arithmetic::div_mod::lemma_fundamental_div_mod(k, chunk);
    vstd::arithmetic::div_mod::lemma_fundamental_div_mod(len, chunk);
    let q = len / chunk;
    let p = k / chunk;
    assert(p < q <==> chunk * p + k % chunk < q * chunk) by (nonlinear_arith)
        requires
            0 < chunk,
            0 <= k % chunk < chunk,
    ;
    assert(0 <= q * chunk <= len) by (nonlinear_arith)
        requires
            len == chunk * q + len % chunk,
            0 <= len % chunk < chunk,
            0 < len,
            0 < chunk,
    ;
}

/// Premultiplying a run of whole pixels and what follows it, one after the
/// other, premultiplies the whole.
pub proof fn lemma_multiplied_in_parts(bytes: Seq<u8>, mid: int)
    requires
        0 <= mid <= bytes.len(),
        mid % 4 == 0,
        bytes.len() % 4 == 0,
    ensures
        multiplied(bytes.subrange(0, mid)) + multiplied(bytes.subrange(mid, bytes.len() as int))
            == multiplied(bytes),
{
    let len = bytes.len() as int;
    let joined = multiplied(bytes.subrange(0, mid)) + multiplied(bytes.subrange(mid, len));
    assert forall|j: int| 0 <= j < len implies joined[j] == multiplied(bytes)[j] by {
        if j < mid {
            lemma_pixel_in_part(bytes, 0, mid, j);
        } else {
            lemma_pixel_in_part(bytes, mid, len, j - mid);
        }
    }
    assert(joined =~= multiplied(bytes));
}

/// The full vectors of a row done the wide way and the tail done the
/// scalar way make up the row as a kernel of that vector width gives it.
pub proof fn lemma_divided_in_parts(bytes: Seq<u8>, chunk: int)
    requires
        0 < chunk,
        chunk % 4 == 0,
        bytes.len() % 4 == 0,
    ensures
        ({
            let mid = (bytes.len() as int / chunk) * chunk;
            &&& 0 <= mid <= bytes.len()
            &&& mid % 4 == 0
            &&& divided_wide(bytes.subrange(0, mid)) + divided_row(
                bytes.subrange(mid, bytes.len() as int),
                0,
            ) == divided_row(bytes, chunk)
        }),
{
    let len = bytes.len() as int;
    let mid = (len / chunk) * chunk;
    vstd::arithmetic::div_mod::lemma_mul_mod_noop_right(len / chunk, chunk, 4);
    if len > 0 {
        lemma_full_chunks(len, chunk, 0);
    } else {
        assert(mid == 0);
    }
    let joined = divided_wide(bytes.subrange(0, mid)) + divided_row(bytes.subrange(mid, len), 0);
    assert forall|j: int| 0 <= j < len implies joined[j] == divided_row(bytes, chunk)[j] by {
        lemma_full_chunks(len, chunk, j);
        if j < mid {
            lemma_pixel_in_part(bytes, 0, mid, j);
        } else {
            lemma_pixel_in_part(bytes, mid, len, j - mid);
        }
    }
    assert(joined =~= divided_row(bytes, chunk));
}

/// A run that is one vector long is done the wide way throughout.
pub proof fn lemma_divided_one_chunk(row: Seq<u8>, chunk: int)
    requires
        0 < chunk,
        row.len() == chunk,
    ensures
        divided_row(row, chunk) == divided_wide(row),
{
    assert forall|k: int| 0 <= k < chunk implies in_full_chunk(chunk, chunk, k) by {
        lemma_full_chunks(chunk, chunk, k);
        vstd::arithmetic::div_mod::lemma_div_by_self(chunk);
        assert(1 * chunk == chunk);
    }
    assert(divided_row(row, chunk) =~= divided_wide(row));
}

/// An image of four-byte pixels takes a multiple of four bytes.
pub proof fn lemma_image_of_pixels(width: u32, height: u32)
    ensures
        (width * height * PixelType::U8x4.spec_size()) % 4 == 0,
{
    let pixels = width * height;
    assert(pixels * 4 == 4 * pixels);
}

/// A row of four-byte pixels takes a multiple of four bytes.
pub proof fn lemma_rgba8_stride(width: u32)
    ensures
        row_stride(width, PixelType::U8x4) == 4 * width,
        row_stride(width, PixelType::U8x4) % 4 == 0,
{
}

/// What the image-level kernels ask of a pair of images: both hold
/// four 8-bit channels and have the same dimensions.
pub open spec fn same_shape_rgba8(src: TypedImageView<'_>, dst: TypedImageViewMut<'_>) -> bool {
    &&& src.wf()
    &&& dst.wf()
    &&& src.pixel_type == PixelType::U8x4
    &&& dst.pixel_type == PixelType::U8x4
    &&& src.width == dst.width
    &&& src.height == dst.height
}

/// Bytes in one vector of a kernel tier; 0 for the scalar tier, which has
/// no vectors.
pub open spec fn vector_bytes(tier: KernelTier) -> int {
    match tier {
        KernelTier::Scalar => 0,
        KernelTier::Wide128 => 16,
        KernelTier::Wide256 => 32,
    }
}

/// Premultiplies `src_image` into `dst_image` with the kernel that serves
/// `cpu_extensions`. Every kernel gives the same bytes.
pub fn multiply_alpha(
    src_image: TypedImageView<'_>,
    dst_image: TypedImageViewMut<'_>,
    cpu_extensions: CpuExtensions,
)
    requires
        same_shape_rgba8(src_image, dst_image),
    ensures
        final(dst_image.buffer)@ == multiplied(src_image.buffer@),
{
    match cpu_extensions.kernel() {
        KernelTier::Wide256 => avx2::multiply_alpha(src_image, dst_image),
        KernelTier::Wide128 => sse4::multiply_alpha(src_image, dst_image),
        KernelTier::Scalar => native::multiply_alpha(src_image, dst_image),
    }
}

/// Premultiplies `image` in place with the kernel that serves
/// `cpu_extensions`.
pub fn multiply_alpha_inplace(image: TypedImageViewMut<'_>, cpu_extensions: CpuExtensions)
    requires
        image.wf(),
        image.pixel_type == PixelType::U8x4,
    ensures
        final(image.buffer)@ == multiplied(old(image.buffer)@),
{
    match cpu_extensions.kernel() {
        KernelTier::Wide256 => avx2::multiply_alpha_inplace(image),
        KernelTier::Wide128 => sse4::multiply_alpha_inplace(image),
        KernelTier::Scalar => native::multiply_alpha_inplace(image),
    }
}

/// Takes `src_image` back from premultiplied form into `dst_image` with
/// the kernel that serves `cpu_extensions`.
pub fn divide_alpha(
    src_image: TypedImageView<'_>,
    dst_image: TypedImageViewMut<'_>,
    recip_alpha: &[u32; 256],
    cpu_extensions: CpuExtensions,
)
    requires
        same_shape_rgba8(src_image, dst_image),
        is_recip_alpha_table(recip_alpha@),
    ensures
        final(dst_image.buffer)@ == divided(
            src_image.buffer@,
            src_image.stride(),
            vector_bytes(cpu_extensions.spec_kernel()),
        ),
        close_to_scalar(src_image.buffer@, final(dst_image.buffer)@),
{
    proof {
        lemma_image_of_pixels(src_image.width, src_image.height);
        lemma_divided_close(
            src_image.buffer@,
            src_image.stride(),
            vector_bytes(cpu_extensions.spec_kernel()),
        );
    }
    match cpu_extensions.kernel() {
        KernelTier::Wide256 => avx2::divide_alpha(src_image, dst_image, recip_alpha),
        KernelTier::Wide128 => sse4::divide_alpha(src_image, dst_image, recip_alpha),
        KernelTier::Scalar => native::divide_alpha(src_image, dst_image, recip_alpha),
    }
}

/// Takes `image` back from premultiplied form in place with the kernel
/// that serves `cpu_extensions`.
pub fn divide_alpha_inplace(
    image: TypedImageViewMut<'_>,
    recip_alpha: &[u32; 256],
    cpu_extensions: CpuExtensions,
)
    requires
        image.wf(),
        image.pixel_type == PixelType::U8x4,
        is_recip_alpha_table(recip_alpha@),
    ensures
        final(image.buffer)@ == divided(
            old(image.buffer)@,
            image.stride(),
            vector_bytes(cpu_extensions.spec_kernel()),
        ),
        close_to_scalar(old(image.buffer)@, final(image.buffer)@),
{
    proof {
        lemma_image_of_pixels(image.width, image.height);
        lemma_divided_close(
            image.buffer@,
            image.stride(),
            vector_bytes(cpu_extensions.spec_kernel()),
        );
    }
    match cpu_extensions.kernel() {
        KernelTier::Wide256 => avx2::divide_alpha_inplace(image, recip_alpha),
        KernelTier::Wide128 => sse4::divide_alpha_inplace(image, recip_alpha),
        KernelTier::Scalar => native::divide_alpha_inplace(image, recip_alpha),
    }
}

} // verus!
