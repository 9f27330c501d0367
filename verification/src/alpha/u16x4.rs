//! Alpha conversion of images with four 16-bit channels.
//!
//! A pixel takes eight bytes: red, green, blue, alpha, each little-endian.

pub mod native;

use crate::alpha::common::{div_and_clip_value, recip_alpha_entry, round_div, PRECISION16};
use crate::alpha::rows::{rows_mapped, RowKernel};
use crate::image_view::row_stride;
use crate::pixels::PixelType;
use vstd::prelude::*;

verus! {

/// Channel `ch` of a buffer of 16-bit channels.
pub open spec fn channel16(bytes: Seq<u8>, ch: int) -> int {
    bytes[2 * ch] as int + 256 * bytes[2 * ch + 1] as int
}

/// Alpha of the pixel that channel `ch` belongs to.
pub open spec fn alpha16_at(bytes: Seq<u8>, ch: int) -> int {
    channel16(bytes, ch - ch % 4 + 3)
}

/// Byte `j` of a buffer in which channel `j / 2` has the value `v`.
pub open spec fn byte_of_channel(v: int, j: int) -> u8 {
    if j % 2 == 0 {
        (v % 256) as u8
    } else {
        (v / 256) as u8
    }
}

/// The reciprocal of a 16-bit `alpha`: `65535 * 2^33 / alpha` rounded to
/// nearest, and 0 for alpha 0.
pub open spec fn recip_alpha16(alpha: int) -> int {
    recip_alpha_entry(65535, PRECISION16 as nat, alpha)
}

/// Whether `table` is the reciprocal table for 16-bit channels.
pub open spec fn is_recip_alpha16_table(table: Seq<u64>) -> bool {
    &&& table.len() == 65536
    &&& forall|a: int| 0 <= a < 65536 ==> #[trigger] table[a] as int == recip_alpha16(a)
}

/// Channel `ch` of a premultiplied image: alpha is kept, a colour channel
/// is scaled by `alpha / 65535` and rounded to nearest.
pub open spec fn multiplied16_channel(bytes: Seq<u8>, ch: int) -> int {
    if ch % 4 == 3 {
        channel16(bytes, ch)
    } else {
        round_div(channel16(bytes, ch) * alpha16_at(bytes, ch), 65535)
    }
}

/// The premultiplied form of an image or of a row.
pub open spec fn multiplied16(bytes: Seq<u8>) -> Seq<u8> {
    Seq::new(bytes.len(), |j: int| byte_of_channel(multiplied16_channel(bytes, j / 2), j))
}

/// Channel `ch` of an image taken back from premultiplied form: alpha is
/// kept; a colour channel is multiplied by the reciprocal of alpha, rounded
/// to nearest and clipped to 65535. With alpha 0 the colour is 0.
pub open spec fn divided16_channel(bytes: Seq<u8>, ch: int) -> int {
    if ch % 4 == 3 {
        channel16(bytes, ch)
    } else if alpha16_at(bytes, ch) == 0 {
        0
    } else {
        div_and_clip_value(
            channel16(bytes, ch),
            recip_alpha16(alpha16_at(bytes, ch)),
            PRECISION16 as nat,
            65535,
        )
    }
}

/// An image or a row taken back from premultiplied form.
pub open spec fn divided16(bytes: Seq<u8>) -> Seq<u8> {
    Seq::new(bytes.len(), |j: int| byte_of_channel(divided16_channel(bytes, j / 2), j))
}

/// A byte of a run of whole pixels cut out of `bytes` sees the same pixel
/// in the run as in `bytes`.
pub proof fn lemma_pixel16_in_part(bytes: Seq<u8>, start: int, end: int, k: int)
    requires
        0 <= start <= end <= bytes.len(),
        start % 8 == 0,
        end % 8 == 0,
        0 <= k < end - start,
    ensures
        (start + k) % 2 == k % 2,
        ((start + k) / 2) % 4 == (k / 2) % 4,
        channel16(bytes.subrange(start, end), k / 2) == channel16(bytes, (start + k) / 2),
        alpha16_at(bytes.subrange(start, end), k / 2) == alpha16_at(bytes, (start + k) / 2),
{
}

/// A kernel that converts each row by a rule that looks at one pixel at a
/// time converts the image by that rule.
pub proof fn lemma_rows16<K: RowKernel>(
    kernel: &K,
    bytes: Seq<u8>,
    stride: int,
    height: int,
    divide: bool,
)
    requires
        0 < stride,
        stride % 8 == 0,
        bytes.len() == height * stride,
        forall|row: Seq<u8>| #[trigger]
            kernel.row_result(row) == if divide {
                divided16(row)
            } else {
                multiplied16(row)
            },
    ensures
        rows_mapped(kernel, bytes, stride) == if divide {
            divided16(bytes)
        } else {
            multiplied16(bytes)
        },
{
    let whole = if divide {
        divided16(bytes)
    } else {
        multiplied16(bytes)
    };
    assert forall|j: int| 0 <= j < bytes.len() implies rows_mapped(kernel, bytes, stride)[j]
        == whole[j] by {
        crate::alpha::u8x4::lemma_byte_in_row(bytes.len() as int, stride, height, j);
        let y = j / stride;
        vstd::arithmetic::div_mod::lemma_mul_mod_noop_right(y, stride, 8);
        assert(0 <= y * stride) by (nonlinear_arith)
            requires
                0 < stride,
                0 <= y,
        ;
        lemma_pixel16_in_part(bytes, y * stride, y * stride + stride, j % stride);
    }
    assert(rows_mapped(kernel, bytes, stride) =~= whole);
}

/// A row of eight-byte pixels takes a multiple of eight bytes.
pub proof fn lemma_rgba16_stride(width: u32)
    ensures
        row_stride(width, PixelType::U16x4) == 8 * width,
        row_stride(width, PixelType::U16x4) % 8 == 0,
{
}

} // verus!
