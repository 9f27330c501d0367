//! One pass of the convolution along an axis.
//!
//! A buffer is read as a sequence of channels, each one byte wide or two.
//! Along the axis of a pass the buffer is made of positions of `step`
//! channels each: along the rows of an image a position is a pixel and
//! `step` the number of its channels; down the columns a position is a row
//! and `step` the number of channels in a row. A pass gives channel `c` of
//! destination position `i` the weighted sum of channel `c` of the source
//! positions in window `i`.

use crate::convolution::optimisations::{
    clip_value, lemma_window_index, window_ok, NormalizerGuard,
};
use crate::convolution::{
    dot, lemma_dot_bound, lemma_dot_constant, lemma_dot_step, lemma_sum_abs_prefix, sum, sum_abs,
};
use crate::image_view::{
    buffer_fits,
    lemma_row_in_bounds, lemma_rows_fill_buffer, row_mut, row_of, row_stride, with_row,
    TypedImageView, TypedImageViewMut,
};
use crate::pixels::PixelType;
use vstd::arithmetic::power2::pow2;
use vstd::prelude::*;

verus! {

/// Channel `e` of a buffer of channels that are two bytes wide, little end
/// first, or one byte wide.
pub open spec fn sample(bytes: Seq<u8>, wide: bool, e: int) -> int {
    if wide {
        bytes[2 * e] as int + 256 * bytes[2 * e + 1] as int
    } else {
        bytes[e] as int
    }
}

/// Bytes that `count` channels take.
pub open spec fn channel_bytes(count: int, wide: bool) -> int {
    if wide {
        2 * count
    } else {
        count
    }
}

/// Reads channel `e`.
pub fn load_sample(bytes: &[u8], wide: bool, e: usize) -> (v: u16)
    requires
        channel_bytes(e + 1, wide) <= bytes@.len() <= usize::MAX,
    ensures
        v as int == sample(bytes@, wide, e as int),
        !wide ==> v <= 255,
{
    if wide {
        let lo: u16 = bytes[2 * e] as u16;
        let hi: u16 = bytes[2 * e + 1] as u16;
        lo + hi * 256
    } else {
        bytes[e] as u16
    }
}

/// Writes `v` as channel `e`. No other channel changes.
pub fn store_sample(bytes: &mut [u8], wide: bool, e: usize, v: u16)
    requires
        channel_bytes(e + 1, wide) <= old(bytes)@.len() <= usize::MAX,
        !wide ==> v <= 255,
    ensures
        final(bytes)@.len() == old(bytes)@.len(),
        sample(final(bytes)@, wide, e as int) == v,
        forall|other: int|
            0 <= other && other != e && channel_bytes(other + 1, wide) <= old(bytes)@.len()
                ==> #[trigger] sample(final(bytes)@, wide, other) == sample(
                old(bytes)@,
                wide,
                other,
            ),
{
    if wide {
        bytes[2 * e] = (v % 256) as u8;
        bytes[2 * e + 1] = (v / 256) as u8;
    } else {
        bytes[e] = v as u8;
    }
}

/// Channel `c` of the source positions `start .. start + size`.
pub open spec fn strided_samples(
    src: Seq<u8>,
    wide: bool,
    step: int,
    start: int,
    size: int,
    c: int,
) -> Seq<int> {
    Seq::new(size as nat, |k: int| sample(src, wide, (start + k) * step + c))
}

/// Channel `c` of destination position `i` after a pass: the weighted sum
/// of the window, started from half a unit, shifted and clipped.
pub open spec fn strided_value(
    src: Seq<u8>,
    normalizer: &NormalizerGuard,
    step: int,
    i: int,
    c: int,
) -> int {
    let bound = normalizer.bounds@[i];
    clip_value(
        pow2((normalizer.precision - 1) as nat) + dot(
            strided_samples(
                src,
                normalizer.channel_max == 65535,
                step,
                bound.start as int,
                bound.size as int,
                c,
            ),
            normalizer.weights(i),
        ),
        normalizer.precision as nat,
        normalizer.channel_max as int,
    )
}

/// What a pass asks of its buffers: the source holds `src_dim` positions
/// of `step` channels, every window lies inside it, and the destination
/// holds one position for each window.
pub open spec fn pass_fits(
    src_len: int,
    dst_len: int,
    step: int,
    src_dim: int,
    normalizer: &NormalizerGuard,
) -> bool {
    let wide = normalizer.channel_max == 65535;
    &&& normalizer.wf()
    &&& 0 < step
    &&& 0 <= src_dim
    &&& src_len == channel_bytes(src_dim * step, wide)
    &&& dst_len == channel_bytes(normalizer.bounds@.len() * step, wide)
    &&& normalizer.fits_source(src_dim)
}

/// The weighted sum of channel `c` over window `i`, shifted and clipped.
fn accumulate(src: &[u8], normalizer: &NormalizerGuard, step: usize, src_dim: usize, i: usize, c: usize) -> (v: u16)
    requires
        normalizer.wf(),
        0 < step,
        src@.len() == channel_bytes(src_dim * step, normalizer.channel_max == 65535),
        src@.len() <= usize::MAX,
        normalizer.fits_source(src_dim as int),
        i < normalizer.bounds@.len(),
        c < step,
    ensures
        v as int == strided_value(src@, normalizer, step as int, i as int, c as int),
        v <= normalizer.channel_max,
{
    let wide: bool = normalizer.channel_max == 65535;
    let bound = normalizer.bounds[i];
    let start: usize = bound.start as usize;
    let size: usize = bound.size as usize;
    let ghost weights = normalizer.weights(i as int);
    let ghost samples = strided_samples(src@, wide, step as int, start as int, size as int, c as int);
    let ghost max = normalizer.channel_max as int;
    let ghost bias = pow2((normalizer.precision - 1) as nat) as int;
    let mut total: i64 = normalizer.initial();
    proof {
        assert(window_ok(weights, normalizer.precision as nat, normalizer.depth()));
        lemma_sum_abs_prefix(weights, 0);
    }
    let mut k: usize = 0;
    while k < size
        invariant
            k <= size,
            normalizer.wf(),
            0 < step,
            c < step,
            i < normalizer.bounds@.len(),
            bound == normalizer.bounds@[i as int],
            start == bound.start,
            size == bound.size,
            start + size <= src_dim,
            wide == (normalizer.channel_max == 65535),
            src@.len() == channel_bytes(src_dim * step, wide),
            src@.len() <= usize::MAX,
            weights == normalizer.weights(i as int),
            weights.len() == size,
            samples == strided_samples(src@, wide, step as int, start as int, size as int, c as int),
            max == normalizer.channel_max,
            bias == pow2((normalizer.precision - 1) as nat),
            0 < bias,
            sum_abs(weights) * max + bias <= 0x7fff_ffff_ffff_ffff,
            forall|m: int| 0 <= m < size ==> -0x8000_0000 <= #[trigger] weights[m] < 0x8000_0000,
            total == bias + dot(samples.subrange(0, k as int), weights.subrange(0, k as int)),
        decreases size - k,
    {
        proof {
            lemma_window_index(step as int, (start + k) as int, src_dim as int, c as int);
            lemma_dot_step(samples, weights, k as int);
            lemma_dot_bound(
                samples.subrange(0, k + 1),
                weights.subrange(0, k + 1),
                max,
            );
            lemma_sum_abs_prefix(weights, k + 1);
            assert(max * sum_abs(weights.subrange(0, k + 1)) <= sum_abs(weights) * max)
                by (nonlinear_arith)
                requires
                    0 <= sum_abs(weights.subrange(0, k + 1)) <= sum_abs(weights),
                    0 <= max,
            ;
        }
        let s: i64 = load_sample(src, wide, (start + k) * step + c) as i64;
        let w: i64 = normalizer.weight(i, k) as i64;
        assert(-65535 * 0x8000_0000 <= s * w <= 65535 * 0x8000_0000) by (nonlinear_arith)
            requires
                0 <= s <= 65535,
                -0x8000_0000 <= w < 0x8000_0000,
        ;
        total = total + s * w;
        k += 1;
    }
    proof {
        assert(samples.subrange(0, size as int) =~= samples);
        assert(weights.subrange(0, size as int) =~= weights);
    }
    normalizer.clip(total)
}

/// The weighted sum of channel `c` over window `i`, as `accumulate` gives
/// it, taken two weights at a time in a 32-bit accumulator: each step adds
/// the sum of two products, and a window of odd size ends with a single
/// product.
fn accumulate_pairs(
    src: &[u8],
    normalizer: &NormalizerGuard,
    step: usize,
    src_dim: usize,
    i: usize,
    c: usize,
) -> (v: u16)
    requires
        normalizer.wf(),
        normalizer.channel_max == 255,
        0 < step,
        src@.len() == channel_bytes(src_dim * step, false),
        src@.len() <= usize::MAX,
        normalizer.fits_source(src_dim as int),
        i < normalizer.bounds@.len(),
        c < step,
    ensures
        v as int == strided_value(src@, normalizer, step as int, i as int, c as int),
        v <= normalizer.channel_max,
{
    let bound = normalizer.bounds[i];
    let start: usize = bound.start as usize;
    let size: usize = bound.size as usize;
    let ghost weights = normalizer.weights(i as int);
    let ghost samples = strided_samples(src@, false, step as int, start as int, size as int, c as int);
    let ghost bias = pow2((normalizer.precision - 1) as nat) as int;
    let mut total: i32 = normalizer.initial() as i32;
    proof {
        assert(window_ok(weights, normalizer.precision as nat, normalizer.depth()));
        lemma_sum_abs_prefix(weights, 0);
    }
    let mut k: usize = 0;
    while k < size
        invariant
            k <= size,
            normalizer.wf(),
            normalizer.channel_max == 255,
            0 < step,
            c < step,
            i < normalizer.bounds@.len(),
            bound == normalizer.bounds@[i as int],
            start == bound.start,
            size == bound.size,
            start + size <= src_dim,
            src@.len() == channel_bytes(src_dim * step, false),
            src@.len() <= usize::MAX,
            weights == normalizer.weights(i as int),
            weights.len() == size,
            samples == strided_samples(src@, false, step as int, start as int, size as int, c as int),
            bias == pow2((normalizer.precision - 1) as nat),
            0 < bias,
            sum_abs(weights) * 255 + bias <= 0x7fff_ffff,
            forall|m: int| 0 <= m < size ==> -0x8000 <= #[trigger] weights[m] < 0x8000,
            total == bias + dot(samples.subrange(0, k as int), weights.subrange(0, k as int)),
        decreases size - k,
    {
        let pair: bool = size - k >= 2;
        let ghost next: int = if pair {
            k + 2
        } else {
            k + 1
        };
        proof {
            lemma_window_index(step as int, (start + k) as int, src_dim as int, c as int);
            lemma_dot_step(samples, weights, k as int);
            if pair {
                lemma_window_index(step as int, (start + k + 1) as int, src_dim as int, c as int);
                lemma_dot_step(samples, weights, k + 1);
            }
            lemma_dot_bound(samples.subrange(0, next), weights.subrange(0, next), 255);
            lemma_sum_abs_prefix(weights, next);
            assert(255 * sum_abs(weights.subrange(0, next)) <= sum_abs(weights) * 255)
                by (nonlinear_arith)
                requires
                    0 <= sum_abs(weights.subrange(0, next)) <= sum_abs(weights),
            ;
        }
        let first: i32 = load_sample(src, false, (start + k) * step + c) as i32;
        let first_weight: i32 = normalizer.weight(i, k);
        assert(-255 * 0x8000 <= first * first_weight <= 255 * 0x8000) by (nonlinear_arith)
            requires
                0 <= first <= 255,
                -0x8000 <= first_weight < 0x8000,
        ;
        if pair {
            let second: i32 = load_sample(src, false, (start + k + 1) * step + c) as i32;
            let second_weight: i32 = normalizer.weight(i, k + 1);
            assert(-255 * 0x8000 <= second * second_weight <= 255 * 0x8000) by (nonlinear_arith)
                requires
                    0 <= second <= 255,
                    -0x8000 <= second_weight < 0x8000,
            ;
            total = total + (first * first_weight + second * second_weight);
            k += 2;
        } else {
            total = total + first * first_weight;
            k += 1;
        }
    }
    proof {
        assert(samples.subrange(0, size as int) =~= samples);
        assert(weights.subrange(0, size as int) =~= weights);
    }
    normalizer.clip(total as i64)
}

/// A window over which channel `c` has the same value everywhere gives
/// that value: a pass keeps what is constant.
pub proof fn lemma_constant_preserved(
    src: Seq<u8>,
    normalizer: &NormalizerGuard,
    step: int,
    i: int,
    c: int,
    v: int,
)
    requires
        normalizer.wf(),
        0 <= i < normalizer.bounds@.len(),
        0 <= v <= normalizer.channel_max,
        ({
            let samples = strided_samples(
                src,
                normalizer.channel_max == 65535,
                step,
                normalizer.bounds@[i].start as int,
                normalizer.bounds@[i].size as int,
                c,
            );
            forall|k: int| 0 <= k < samples.len() ==> #[trigger] samples[k] == v
        }),
    ensures
        strided_value(src, normalizer, step, i, c) == v,
{
    let bound = normalizer.bounds@[i];
    let p = normalizer.precision as nat;
    let weights = normalizer.weights(i);
    let samples = strided_samples(
        src,
        normalizer.channel_max == 65535,
        step,
        bound.start as int,
        bound.size as int,
        c,
    );
    lemma_dot_constant(samples, weights, v);
    assert(sum(weights) == pow2(p));
    let unit = pow2(p) as int;
    vstd::arithmetic::power2::lemma_pow2_pos(p);
    vstd::arithmetic::power2::lemma_pow2_unfold(p);
    let half = pow2((p - 1) as nat) as int;
    assert(unit == 2 * half);
    assert(v * unit == unit * v) by (nonlinear_arith);
    vstd::arithmetic::div_mod::lemma_fundamental_div_mod_converse(half + v * unit, unit, v, half);
}

/// Whether `dst` is what a pass over `src` gives: every channel of every
/// destination position holds the weighted sum of its window.
pub open spec fn convolved_to(
    src: Seq<u8>,
    dst: Seq<u8>,
    normalizer: &NormalizerGuard,
    step: int,
) -> bool {
    forall|i: int, c: int|
        0 <= i < normalizer.bounds@.len() && 0 <= c < step ==> sample(
            dst,
            normalizer.channel_max == 65535,
            i * step + c,
        ) == #[trigger] strided_value(src, normalizer, step, i, c)
}

/// A pass has one result: two buffers of the length of the destination
/// that both hold what the pass gives are the same buffer.
pub proof fn lemma_pass_result_unique(
    src: Seq<u8>,
    a: Seq<u8>,
    b: Seq<u8>,
    normalizer: &NormalizerGuard,
    step: int,
)
    requires
        0 < step,
        a.len() == channel_bytes(
            normalizer.bounds@.len() * step,
            normalizer.channel_max == 65535,
        ),
        b.len() == a.len(),
        convolved_to(src, a, normalizer, step),
        convolved_to(src, b, normalizer, step),
    ensures
        a == b,
{
    let wide = normalizer.channel_max == 65535;
    let rows = normalizer.bounds@.len() as int;
    assert forall|j: int| 0 <= j < a.len() implies a[j] == b[j] by {
        let e = if wide {
            j / 2
        } else {
            j
        };
        vstd::arithmetic::div_mod::lemma_fundamental_div_mod(e, step);
        let i = e / step;
        let c = e % step;
        assert(step * i == i * step) by (nonlinear_arith);
        assert(0 <= i < rows) by (nonlinear_arith)
            requires
                0 <= e < rows * step,
                e == i * step + c,
                0 <= c < step,
        ;
        assert(sample(a, wide, i * step + c) == strided_value(src, normalizer, step, i, c));
        assert(sample(b, wide, i * step + c) == strided_value(src, normalizer, step, i, c));
    }
    assert(a =~= b);
}

/// Runs one pass: every channel of every destination position gets the
/// weighted sum of its window. With `pairs` set, a pass over 8-bit
/// channels takes the weights two at a time; the bytes are the same.
pub fn convolve_strided(
    src: &[u8],
    dst: &mut [u8],
    step: usize,
    src_dim: usize,
    normalizer: &NormalizerGuard,
    pairs: bool,
)
    requires
        pass_fits(
            src@.len() as int,
            old(dst)@.len() as int,
            step as int,
            src_dim as int,
            normalizer,
        ),
    ensures
        final(dst)@.len() == old(dst)@.len(),
        convolved_to(src@, final(dst)@, normalizer, step as int),
{
    let wide: bool = normalizer.channel_max == 65535;
    let rows: usize = normalizer.bounds.len();
    let src_len: usize = src.len();
    let dst_len: usize = dst.len();
    let mut i: usize = 0;
    while i < rows
        invariant
            i <= rows,
            rows == normalizer.bounds@.len(),
            wide == (normalizer.channel_max == 65535),
            src@.len() == src_len,
            dst@.len() == dst_len,
            pass_fits(src_len as int, dst_len as int, step as int, src_dim as int, normalizer),
            forall|i2: int, c2: int|
                0 <= i2 < i && 0 <= c2 < step ==> sample(dst@, wide, i2 * step + c2)
                    == #[trigger] strided_value(src@, normalizer, step as int, i2, c2),
        decreases rows - i,
    {
        let mut c: usize = 0;
        while c < step
            invariant
                c <= step,
                i < rows,
                rows == normalizer.bounds@.len(),
                wide == (normalizer.channel_max == 65535),
                src@.len() == src_len,
                dst@.len() == dst_len,
                pass_fits(src_len as int, dst_len as int, step as int, src_dim as int, normalizer),
                forall|i2: int, c2: int|
                    0 <= i2 < i && 0 <= c2 < step ==> sample(dst@, wide, i2 * step + c2)
                        == #[trigger] strided_value(src@, normalizer, step as int, i2, c2),
                forall|c2: int|
                    0 <= c2 < c ==> sample(dst@, wide, i * step + c2) == #[trigger] strided_value(
                        src@,
                        normalizer,
                        step as int,
                        i as int,
                        c2,
                    ),
            decreases step - c,
        {
            let v: u16 = if pairs && !wide {
                accumulate_pairs(src, normalizer, step, src_dim, i, c)
            } else {
                accumulate(src, normalizer, step, src_dim, i, c)
            };
            proof {
                lemma_window_index(step as int, i as int, rows as int, c as int);
            }
            let ghost before = dst@;
            store_sample(dst, wide, i * step + c, v);
            proof {
                assert forall|i2: int, c2: int| 0 <= i2 < i && 0 <= c2 < step implies sample(
                    dst@,
                    wide,
                    i2 * step + c2,
                ) == #[trigger] strided_value(src@, normalizer, step as int, i2, c2) by {
                    lemma_window_index(step as int, i2, i as int, c2);
                    assert(sample(before, wide, i2 * step + c2) == strided_value(
                        src@,
                        normalizer,
                        step as int,
                        i2,
                        c2,
                    ));
                }
                assert forall|c2: int| 0 <= c2 < c + 1 implies sample(dst@, wide, i * step + c2)
                    == #[trigger] strided_value(src@, normalizer, step as int, i as int, c2) by {
                    if c2 < c {
                        assert(sample(before, wide, i * step + c2) == strided_value(
                            src@,
                            normalizer,
                            step as int,
                            i as int,
                            c2,
                        ));
                    }
                }
            }
            c += 1;
        }
        i += 1;
    }
}

/// Whether a normalizer is made for the channel width of a pixel format.
pub open spec fn depth_matches(normalizer: &NormalizerGuard, pixel_type: PixelType) -> bool {
    normalizer.channel_max == if pixel_type.spec_channel_bits() == 8 {
        255u16
    } else {
        65535u16
    }
}

/// What the pass along the rows asks of its images: the same format and
/// a normalizer for its depth; one window for each destination pixel, all
/// inside a source row; and a source row for every destination row, from
/// row `offset` of the source on.
pub open spec fn horiz_fits(
    src: TypedImageView<'_>,
    dst: TypedImageViewMut<'_>,
    offset: u32,
    normalizer: &NormalizerGuard,
) -> bool {
    &&& src.wf()
    &&& dst.wf()
    &&& src.pixel_type == dst.pixel_type
    &&& normalizer.wf()
    &&& depth_matches(normalizer, src.pixel_type)
    &&& normalizer.bounds@.len() == dst.width
    &&& normalizer.fits_source(src.width as int)
    &&& offset + dst.height <= src.height
}

/// Whether every row of `dst` is what the pass along the rows gives for
/// the source row `offset` rows further down.
pub open spec fn horiz_convolved(
    src: Seq<u8>,
    src_width: u32,
    pixel_type: PixelType,
    dst: Seq<u8>,
    dst_width: u32,
    dst_height: u32,
    offset: u32,
    normalizer: &NormalizerGuard,
) -> bool {
    forall|y: int|
        0 <= y < dst_height ==> convolved_to(
            row_of(src, row_stride(src_width, pixel_type), y + offset),
            #[trigger] row_of(dst, row_stride(dst_width, pixel_type), y),
            normalizer,
            pixel_type.spec_channels() as int,
        )
}

/// The pass along the rows has one result: two buffers of the size of the
/// destination whose rows all hold what the pass gives are the same
/// buffer.
pub proof fn lemma_horiz_result_unique(
    src: Seq<u8>,
    src_width: u32,
    pixel_type: PixelType,
    a: Seq<u8>,
    b: Seq<u8>,
    dst_width: u32,
    dst_height: u32,
    offset: u32,
    normalizer: &NormalizerGuard,
)
    requires
        depth_matches(normalizer, pixel_type),
        normalizer.bounds@.len() == dst_width,
        buffer_fits(dst_width, dst_height, pixel_type, a.len()),
        b.len() == a.len(),
        horiz_convolved(src, src_width, pixel_type, a, dst_width, dst_height, offset, normalizer),
        horiz_convolved(src, src_width, pixel_type, b, dst_width, dst_height, offset, normalizer),
    ensures
        a == b,
{
    let stride = row_stride(dst_width, pixel_type);
    lemma_rows_fill_buffer(dst_width, dst_height, pixel_type, 0);
    lemma_channels_in_row(dst_width, pixel_type);
    assert forall|j: int| 0 <= j < a.len() implies a[j] == b[j] by {
        vstd::arithmetic::div_mod::lemma_fundamental_div_mod(j, stride);
        let y = j / stride;
        assert(stride * y == y * stride) by (nonlinear_arith);
        assert(0 <= y < dst_height && y * stride + stride <= dst_height * stride)
            by (nonlinear_arith)
            requires
                0 <= j < dst_height * stride,
                j == y * stride + j % stride,
                0 <= j % stride < stride,
        ;
        let row_a = row_of(a, stride, y);
        let row_b = row_of(b, stride, y);
        lemma_pass_result_unique(
            row_of(src, row_stride(src_width, pixel_type), y + offset),
            row_a,
            row_b,
            normalizer,
            pixel_type.spec_channels() as int,
        );
        assert(row_a[j % stride] == a[j]);
        assert(row_b[j % stride] == b[j]);
    }
    assert(a =~= b);
}

/// Replacing row `y` of a buffer leaves the other rows as they are.
pub proof fn lemma_with_row(bytes: Seq<u8>, stride: int, height: int, y: int, row: Seq<u8>, other: int)
    requires
        0 < stride,
        bytes.len() == height * stride,
        row.len() == stride,
        0 <= y < height,
        0 <= other < height,
    ensures
        with_row(bytes, stride, y, row).len() == bytes.len(),
        row_of(with_row(bytes, stride, y, row), stride, y) == row,
        other != y ==> row_of(with_row(bytes, stride, y, row), stride, other) == row_of(
            bytes,
            stride,
            other,
        ),
{
    lemma_row_in_bounds(stride, height, y);
    lemma_row_in_bounds(stride, height, other);
    let replaced = with_row(bytes, stride, y, row);
    assert(row_of(replaced, stride, y) =~= row);
    if other < y {
        assert(other * stride + stride <= y * stride) by (nonlinear_arith)
            requires
                other < y,
                0 < stride,
        ;
        assert(row_of(replaced, stride, other) =~= row_of(bytes, stride, other));
    } else if other > y {
        assert(y * stride + stride <= other * stride) by (nonlinear_arith)
            requires
                y < other,
                0 < stride,
        ;
        assert(row_of(replaced, stride, other) =~= row_of(bytes, stride, other));
    }
}

/// Runs the pass along the rows: every destination row gets the pass over
/// the source row `offset` rows further down.
pub fn convolve_rows(
    src_image: TypedImageView<'_>,
    dst_image: TypedImageViewMut<'_>,
    offset: u32,
    normalizer: &NormalizerGuard,
    pairs: bool,
)
    requires
        horiz_fits(src_image, dst_image, offset, normalizer),
    ensures
        final(dst_image.buffer)@.len() == old(dst_image.buffer)@.len(),
        horiz_convolved(
            src_image.buffer@,
            src_image.width,
            src_image.pixel_type,
            final(dst_image.buffer)@,
            dst_image.width,
            dst_image.height,
            offset,
            normalizer,
        ),
{
    let TypedImageViewMut { width, height, pixel_type, buffer } = dst_image;
    let channels: usize = pixel_type.channels();
    let size: usize = pixel_type.size();
    let len: usize = buffer.len();
    proof {
        lemma_rows_fill_buffer(width, height, pixel_type, 0);
        lemma_rows_fill_buffer(src_image.width, src_image.height, pixel_type, 0);
    }
    let stride: usize = width as usize * size;
    let mut y: u32 = 0;
    while y < height
        invariant
            y <= height,
            horiz_fits(
                src_image,
                TypedImageViewMut { width, height, pixel_type, buffer },
                offset,
                normalizer,
            ),
            channels == pixel_type.spec_channels(),
            size == pixel_type.spec_size(),
            stride == row_stride(width, pixel_type),
            0 < stride,
            buffer@.len() == len,
            len == height * stride,
            forall|y2: int|
                0 <= y2 < y ==> convolved_to(
                    row_of(src_image.buffer@, src_image.stride(), y2 + offset),
                    #[trigger] row_of(buffer@, stride as int, y2),
                    normalizer,
                    channels as int,
                ),
        decreases height - y,
    {
        proof {
            lemma_rows_fill_buffer(width, height, pixel_type, y as int);
            lemma_channels_in_row(src_image.width, pixel_type);
            lemma_channels_in_row(width, pixel_type);
        }
        let src_row = src_image.row(y + offset);
        let ghost before = buffer@;
        let dst_row = row_mut(buffer, stride, y as usize);
        convolve_strided(src_row, dst_row, channels, src_image.width as usize, normalizer, pairs);
        proof {
            assert forall|y2: int| 0 <= y2 < y + 1 implies convolved_to(
                row_of(src_image.buffer@, src_image.stride(), y2 + offset),
                #[trigger] row_of(buffer@, stride as int, y2),
                normalizer,
                channels as int,
            ) by {
                lemma_with_row(
                    before,
                    stride as int,
                    height as int,
                    y as int,
                    row_of(buffer@, stride as int, y as int),
                    y2,
                );
                assert(buffer@ =~= with_row(
                    before,
                    stride as int,
                    y as int,
                    row_of(buffer@, stride as int, y as int),
                ));
                if y2 < y {
                    assert(row_of(buffer@, stride as int, y2) == row_of(before, stride as int, y2));
                }
            }
        }
        y += 1;
    }
}

/// What the pass down the columns asks of its images: the same format
/// and width, and a normalizer for the depth; one window for each
/// destination row, all inside the source.
pub open spec fn vert_fits(
    src: TypedImageView<'_>,
    dst: TypedImageViewMut<'_>,
    normalizer: &NormalizerGuard,
) -> bool {
    &&& src.wf()
    &&& dst.wf()
    &&& src.pixel_type == dst.pixel_type
    &&& src.width == dst.width
    &&& normalizer.wf()
    &&& depth_matches(normalizer, src.pixel_type)
    &&& normalizer.bounds@.len() == dst.height
    &&& normalizer.fits_source(src.height as int)
}

/// Channels in one row of an image.
pub open spec fn row_channels(width: u32, pixel_type: PixelType) -> int {
    width * pixel_type.spec_channels()
}

/// Runs the pass down the columns: every destination row gets the
/// weighted sum of the source rows in its window, channel by channel.
pub fn convolve_columns(
    src_image: TypedImageView<'_>,
    dst_image: TypedImageViewMut<'_>,
    normalizer: &NormalizerGuard,
    pairs: bool,
)
    requires
        vert_fits(src_image, dst_image, normalizer),
    ensures
        final(dst_image.buffer)@.len() == old(dst_image.buffer)@.len(),
        convolved_to(
            src_image.buffer@,
            final(dst_image.buffer)@,
            normalizer,
            row_channels(src_image.width, src_image.pixel_type),
        ),
{
    let TypedImageViewMut { width, height, pixel_type, buffer } = dst_image;
    let len: usize = buffer.len();
    let src_len: usize = src_image.buffer.len();
    proof {
        lemma_rows_fill_buffer(width, height, pixel_type, 0);
        lemma_rows_fill_buffer(width, src_image.height, pixel_type, 0);
        lemma_channels_in_row(width, pixel_type);
        lemma_channels_in_image(width, height, pixel_type);
        lemma_channels_in_image(width, src_image.height, pixel_type);
    }
    let step: usize = width as usize * pixel_type.channels();
    convolve_strided(
        src_image.buffer,
        buffer,
        step,
        src_image.height as usize,
        normalizer,
        pairs,
    );
}

/// An image of `height` rows holds `height` times the channels of a row.
pub proof fn lemma_channels_in_image(width: u32, height: u32, pixel_type: PixelType)
    ensures
        width * height * pixel_type.spec_size() == channel_bytes(
            height * row_channels(width, pixel_type),
            pixel_type.spec_channel_bits() == 16,
        ),
        0 <= row_channels(width, pixel_type) <= row_stride(width, pixel_type),
{
    let w = width as int;
    let h = height as int;
    let c = pixel_type.spec_channels() as int;
    assert(w * h * (2 * c) == 2 * (h * (w * c)) && w * h * c == h * (w * c) && 0 <= w * c <= w
        * (2 * c)) by (nonlinear_arith)
        requires
            0 <= w,
            0 <= h,
            0 <= c,
    ;
}

/// A row of `width` pixels holds `width * channels` channels.
pub proof fn lemma_channels_in_row(width: u32, pixel_type: PixelType)
    ensures
        row_stride(width, pixel_type) == channel_bytes(
            width * pixel_type.spec_channels(),
            pixel_type.spec_channel_bits() == 16,
        ),
{
    let w = width as int;
    let c = pixel_type.spec_channels() as int;
    assert(w * (2 * c) == 2 * (w * c)) by (nonlinear_arith);
}

} // verus!
