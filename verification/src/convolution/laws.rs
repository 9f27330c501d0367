//! What holds of a pass, and of a resize, on every image.
//!
//! The weights of a window sum to one. So a pass keeps what is constant,
//! whatever the weights; and where no weight is negative, every channel it
//! writes lies between the smallest and the largest channel of the source.
//! Both carry over to a resize, and to a resize to other dimensions
//! followed by a resize back.

use crate::convolution::optimisations::{lemma_window_index, NormalizerGuard};
use crate::convolution::pass::{
    channel_bytes,
    convolved_to,
    horiz_convolved,
    lemma_channels_in_image,
    lemma_channels_in_row,
    lemma_constant_preserved,
    pass_fits,
    row_channels,
    sample,
    strided_samples,
    strided_value,
};
use crate::convolution::{dot, sum};
use crate::image_view::{buffer_fits, lemma_rows_fill_buffer, row_of, row_stride, ImageView};
use crate::pixels::PixelType;
use crate::resizer::{axis_depth_matches, axis_fits, resized};
use vstd::arithmetic::div_mod::lemma_fundamental_div_mod;
use vstd::arithmetic::power2::{lemma_pow2_pos, lemma_pow2_unfold, pow2};
use vstd::prelude::*;

verus! {

/// Whether every channel of a buffer lies between `lo` and `hi`.
pub open spec fn all_channels_in(bytes: Seq<u8>, wide: bool, lo: int, hi: int) -> bool {
    forall|e: int|
        0 <= e && channel_bytes(e + 1, wide) <= bytes.len() ==> lo <= #[trigger] sample(
            bytes,
            wide,
            e,
        ) <= hi
}

/// Whether no channel of `a` is more than `bound` away from the same
/// channel of `b`.
pub open spec fn channels_within(a: Seq<u8>, b: Seq<u8>, wide: bool, bound: int) -> bool {
    forall|e: int|
        0 <= e && channel_bytes(e + 1, wide) <= a.len() ==> -bound <= #[trigger] sample(
            a,
            wide,
            e,
        ) - sample(b, wide, e) <= bound
}

/// Whether no weight of a normalizer is negative.
pub open spec fn non_negative(normalizer: &NormalizerGuard) -> bool {
    forall|j: int| 0 <= j < normalizer.values@.len() ==> #[trigger] normalizer.values@[j] >= 0
}

/// Whether the weights given for an axis, if any, are all non-negative.
pub open spec fn axis_non_negative(weights: Option<&NormalizerGuard>) -> bool {
    match weights {
        Some(normalizer) => non_negative(normalizer),
        None => true,
    }
}

/// Samples between `lo` and `hi` with weights that are not negative give
/// a sum between `lo` and `hi` times the sum of the weights.
pub proof fn lemma_dot_range(samples: Seq<int>, weights: Seq<int>, lo: int, hi: int)
    requires
        samples.len() == weights.len(),
        forall|k: int| 0 <= k < samples.len() ==> lo <= #[trigger] samples[k] <= hi,
        forall|k: int| 0 <= k < weights.len() ==> #[trigger] weights[k] >= 0,
    ensures
        lo * sum(weights) <= dot(samples, weights) <= hi * sum(weights),
    decreases weights.len(),
{
    if weights.len() > 0 {
        lemma_dot_range(samples.drop_last(), weights.drop_last(), lo, hi);
        let s = samples.last();
        let w = weights.last();
        let rest = sum(weights.drop_last());
        assert(lo * (rest + w) == lo * rest + lo * w && hi * (rest + w) == hi * rest + hi * w
            && lo * w <= s * w <= hi * w) by (nonlinear_arith)
            requires
                lo <= s <= hi,
                0 <= w,
        ;
    } else {
        assert(lo * 0 == 0 && hi * 0 == 0);
    }
}

/// A window whose samples lie between `lo` and `hi`, with weights that are
/// not negative, gives a value between `lo` and `hi`: a pass with such
/// weights neither undershoots nor overshoots.
pub proof fn lemma_value_within_range(
    src: Seq<u8>,
    normalizer: &NormalizerGuard,
    step: int,
    i: int,
    c: int,
    lo: int,
    hi: int,
)
    requires
        normalizer.wf(),
        0 <= i < normalizer.bounds@.len(),
        0 <= lo <= hi <= normalizer.channel_max,
        ({
            let samples = strided_samples(
                src,
                normalizer.channel_max == 65535,
                step,
                normalizer.bounds@[i].start as int,
                normalizer.bounds@[i].size as int,
                c,
            );
            forall|k: int| 0 <= k < samples.len() ==> lo <= #[trigger] samples[k] <= hi
        }),
        ({
            let weights = normalizer.weights(i);
            forall|k: int| 0 <= k < weights.len() ==> #[trigger] weights[k] >= 0
        }),
    ensures
        lo <= strided_value(src, normalizer, step, i, c) <= hi,
{
    let bound = normalizer.bounds@[i];
    let p = normalizer.precision as nat;
    let weights = normalizer.weights(i);
    let samples = strided_samples(
        src,
        normalizer.channel_max == 65535,
        step,
        bound.start as int,
        bound.size as int,
        c,
    );
    lemma_dot_range(samples, weights, lo, hi);
    assert(sum(weights) == pow2(p));
    let unit = pow2(p) as int;
    lemma_pow2_pos(p);
    lemma_pow2_unfold(p);
    let half = pow2((p - 1) as nat) as int;
    assert(unit == 2 * half);
    let total = half + dot(samples, weights);
    lemma_fundamental_div_mod(total, unit);
    let q = total / unit;
    assert(lo <= q <= hi) by (nonlinear_arith)
        requires
            total == unit * q + total % unit,
            0 <= total % unit < unit,
            half + lo * unit <= total <= half + hi * unit,
            unit == 2 * half,
            0 < half,
    ;
}

/// Whatever the weights and whatever the source, every channel that a
/// pass writes lies between 0 and the largest value of a channel. So two
/// results of passes never differ by more than that value in any channel.
pub proof fn lemma_pass_in_channel_range(
    src: Seq<u8>,
    dst: Seq<u8>,
    normalizer: &NormalizerGuard,
    step: int,
)
    requires
        0 < step,
        dst.len() == channel_bytes(
            normalizer.bounds@.len() * step,
            normalizer.channel_max == 65535,
        ),
        convolved_to(src, dst, normalizer, step),
    ensures
        all_channels_in(
            dst,
            normalizer.channel_max == 65535,
            0,
            normalizer.channel_max as int,
        ),
{
    let wide = normalizer.channel_max == 65535;
    let rows = normalizer.bounds@.len() as int;
    assert forall|e: int| 0 <= e && channel_bytes(e + 1, wide) <= dst.len() implies 0
        <= #[trigger] sample(dst, wide, e) <= normalizer.channel_max by {
        lemma_fundamental_div_mod(e, step);
        let i = e / step;
        let c = e % step;
        assert(step * i == i * step) by (nonlinear_arith);
        assert(0 <= i < rows) by (nonlinear_arith)
            requires
                0 <= e < rows * step,
                e == i * step + c,
                0 <= c < step,
        ;
        assert(sample(dst, wide, i * step + c) == strided_value(src, normalizer, step, i, c));
    }
}

/// Channel `e` of row `y` of a buffer is channel `y * row_len + e` of the
/// buffer, where a row holds `row_len` channels.
pub proof fn lemma_row_sample(
    bytes: Seq<u8>,
    wide: bool,
    row_len: int,
    height: int,
    y: int,
    e: int,
)
    requires
        0 < row_len,
        bytes.len() == channel_bytes(height * row_len, wide),
        0 <= y < height,
        0 <= e < row_len,
    ensures
        0 <= y * row_len + e < height * row_len,
        channel_bytes(y * row_len + e + 1, wide) <= bytes.len(),
        sample(row_of(bytes, channel_bytes(row_len, wide), y), wide, e) == sample(
            bytes,
            wide,
            y * row_len + e,
        ),
{
    lemma_window_index(row_len, y, height, e);
    assert(y * row_len + row_len <= height * row_len) by (nonlinear_arith)
        requires
            0 <= y < height,
            0 < row_len,
    ;
    assert(y * (2 * row_len) == 2 * (y * row_len)) by (nonlinear_arith);
}

/// Where every channel of the source lies between `lo` and `hi`, and
/// either `lo` is `hi` or no weight is negative, every channel that a pass
/// writes lies between `lo` and `hi`.
pub proof fn lemma_pass_within_range(
    src: Seq<u8>,
    dst: Seq<u8>,
    normalizer: &NormalizerGuard,
    step: int,
    src_dim: int,
    lo: int,
    hi: int,
)
    requires
        pass_fits(src.len() as int, dst.len() as int, step, src_dim, normalizer),
        convolved_to(src, dst, normalizer, step),
        0 <= lo <= hi <= normalizer.channel_max,
        all_channels_in(src, normalizer.channel_max == 65535, lo, hi),
        lo == hi || non_negative(normalizer),
    ensures
        all_channels_in(dst, normalizer.channel_max == 65535, lo, hi),
{
    let wide = normalizer.channel_max == 65535;
    let rows = normalizer.bounds@.len() as int;
    let ws = normalizer.window_size as int;
    assert forall|e: int| 0 <= e && channel_bytes(e + 1, wide) <= dst.len() implies lo
        <= #[trigger] sample(dst, wide, e) <= hi by {
        lemma_fundamental_div_mod(e, step);
        let i = e / step;
        let c = e % step;
        assert(step * i == i * step) by (nonlinear_arith);
        assert(0 <= i < rows) by (nonlinear_arith)
            requires
                0 <= e < rows * step,
                e == i * step + c,
                0 <= c < step,
        ;
        let bound = normalizer.bounds@[i];
        let samples = strided_samples(src, wide, step, bound.start as int, bound.size as int, c);
        assert forall|k: int| 0 <= k < samples.len() implies lo <= #[trigger] samples[k]
            <= hi by {
            lemma_window_index(step, bound.start + k, src_dim, c);
            assert(lo <= sample(src, wide, (bound.start + k) * step + c) <= hi);
        }
        if lo == hi {
            lemma_constant_preserved(src, normalizer, step, i, c, lo);
        } else {
            let weights = normalizer.weights(i);
            assert forall|k: int| 0 <= k < weights.len() implies #[trigger] weights[k] >= 0 by {
                lemma_window_index(ws, i, rows, k);
                assert(rows * ws == ws * rows) by (nonlinear_arith);
                assert(normalizer.values@[i * ws + k] >= 0);
            }
            lemma_value_within_range(src, normalizer, step, i, c, lo, hi);
        }
        assert(sample(dst, wide, i * step + c) == strided_value(src, normalizer, step, i, c));
    }
}

/// Where every channel of the source lies between `lo` and `hi`, and
/// either `lo` is `hi` or no weight is negative, every channel that the
/// pass along the rows writes lies between `lo` and `hi`.
pub proof fn lemma_rows_within_range(
    src: Seq<u8>,
    src_width: u32,
    src_height: u32,
    pixel_type: PixelType,
    dst: Seq<u8>,
    dst_width: u32,
    dst_height: u32,
    offset: u32,
    normalizer: &NormalizerGuard,
    lo: int,
    hi: int,
)
    requires
        buffer_fits(src_width, src_height, pixel_type, src.len()),
        buffer_fits(dst_width, dst_height, pixel_type, dst.len()),
        normalizer.wf(),
        normalizer.channel_max == if pixel_type.spec_channel_bits() == 8 {
            255u16
        } else {
            65535u16
        },
        normalizer.bounds@.len() == dst_width,
        normalizer.fits_source(src_width as int),
        offset + dst_height <= src_height,
        horiz_convolved(
            src,
            src_width,
            pixel_type,
            dst,
            dst_width,
            dst_height,
            offset,
            normalizer,
        ),
        0 <= lo <= hi <= normalizer.channel_max,
        all_channels_in(src, normalizer.channel_max == 65535, lo, hi),
        lo == hi || non_negative(normalizer),
    ensures
        all_channels_in(dst, normalizer.channel_max == 65535, lo, hi),
{
    let wide = normalizer.channel_max == 65535;
    let channels = pixel_type.spec_channels() as int;
    let src_row_len = row_channels(src_width, pixel_type);
    let dst_row_len = row_channels(dst_width, pixel_type);
    lemma_channels_in_image(src_width, src_height, pixel_type);
    lemma_channels_in_image(dst_width, dst_height, pixel_type);
    lemma_channels_in_row(src_width, pixel_type);
    lemma_channels_in_row(dst_width, pixel_type);
    assert(0 < src_row_len && 0 < dst_row_len) by (nonlinear_arith)
        requires
            src_row_len == src_width * channels,
            dst_row_len == dst_width * channels,
            0 < src_width,
            0 < dst_width,
            0 < channels,
    ;
    assert forall|e: int| 0 <= e && channel_bytes(e + 1, wide) <= dst.len() implies lo
        <= #[trigger] sample(dst, wide, e) <= hi by {
        lemma_fundamental_div_mod(e, dst_row_len);
        let y = e / dst_row_len;
        let within = e % dst_row_len;
        assert(dst_row_len * y == y * dst_row_len) by (nonlinear_arith);
        assert(0 <= y < dst_height) by (nonlinear_arith)
            requires
                0 <= e < dst_height * dst_row_len,
                e == y * dst_row_len + within,
                0 <= within < dst_row_len,
        ;
        let src_row = row_of(src, row_stride(src_width, pixel_type), y + offset);
        let dst_row = row_of(dst, row_stride(dst_width, pixel_type), y);
        lemma_rows_fill_buffer(src_width, src_height, pixel_type, y + offset);
        lemma_rows_fill_buffer(dst_width, dst_height, pixel_type, y);
        assert forall|f: int| 0 <= f && channel_bytes(f + 1, wide) <= src_row.len() implies lo
            <= #[trigger] sample(src_row, wide, f) <= hi by {
            lemma_row_sample(src, wide, src_row_len, src_height as int, y + offset, f);
            assert(lo <= sample(src, wide, (y + offset) * src_row_len + f) <= hi);
        }
        lemma_pass_within_range(src_row, dst_row, normalizer, channels, src_width as int, lo, hi);
        lemma_row_sample(dst, wide, dst_row_len, dst_height as int, y, within);
        assert(lo <= sample(dst_row, wide, within) <= hi);
    }
}

/// Two buffers of the same length whose channels all have the value `v`
/// are the same buffer.
pub proof fn lemma_constant_buffers_equal(a: Seq<u8>, b: Seq<u8>, wide: bool, v: int)
    requires
        a.len() == b.len(),
        wide ==> a.len() % 2 == 0,
        all_channels_in(a, wide, v, v),
        all_channels_in(b, wide, v, v),
    ensures
        a == b,
{
    assert forall|j: int| 0 <= j < a.len() implies a[j] == b[j] by {
        let e = if wide {
            j / 2
        } else {
            j
        };
        assert(sample(a, wide, e) == v);
        assert(sample(b, wide, e) == v);
    }
    assert(a =~= b);
}

/// What the resize laws ask of the weights of an axis: along an axis that
/// changes, well-formed weights made for these dimensions and this depth.
pub open spec fn axis_serves(
    weights: Option<&NormalizerGuard>,
    src_dim: u32,
    dst_dim: u32,
    pixel_type: PixelType,
) -> bool {
    src_dim != dst_dim ==> axis_fits(weights, src_dim, dst_dim) && axis_depth_matches(
        weights,
        pixel_type,
    ) && weights->Some_0.wf()
}

/// Largest value of a channel of a pixel format.
pub open spec fn channel_max(pixel_type: PixelType) -> int {
    if pixel_type.spec_channel_bits() == 8 {
        255
    } else {
        65535
    }
}

/// Where every channel of an image lies between `lo` and `hi`, and either
/// `lo` is `hi` or no weight is negative, every channel of the resized
/// image lies between `lo` and `hi`. In particular a resize keeps an image
/// of one colour as it is.
pub proof fn lemma_resize_within_range(
    src: ImageView<'_>,
    dst_width: u32,
    dst_height: u32,
    horiz: Option<&NormalizerGuard>,
    vert: Option<&NormalizerGuard>,
    result: Seq<u8>,
    lo: int,
    hi: int,
)
    requires
        src.wf(),
        buffer_fits(dst_width, dst_height, src.pixel_type, result.len()),
        axis_serves(horiz, src.width, dst_width, src.pixel_type),
        axis_serves(vert, src.height, dst_height, src.pixel_type),
        resized(src, dst_width, dst_height, horiz, vert, result),
        0 <= lo <= hi <= channel_max(src.pixel_type),
        all_channels_in(src.buffer@, src.pixel_type.spec_channel_bits() == 16, lo, hi),
        lo == hi || ((src.width != dst_width ==> axis_non_negative(horiz)) && (src.height
            != dst_height ==> axis_non_negative(vert))),
    ensures
        all_channels_in(result, src.pixel_type.spec_channel_bits() == 16, lo, hi),
{
    let along = src.width != dst_width;
    let down = src.height != dst_height;
    let pixel_type = src.pixel_type;
    lemma_channels_in_image(dst_width, dst_height, pixel_type);
    lemma_channels_in_image(dst_width, src.height, pixel_type);
    lemma_channels_in_image(src.width, src.height, pixel_type);
    let step = row_channels(dst_width, pixel_type);
    assert(0 < step) by (nonlinear_arith)
        requires
            step == dst_width * pixel_type.spec_channels(),
            0 < dst_width,
            0 < pixel_type.spec_channels(),
    ;
    if along && down {
        let between = choose|between: Seq<u8>|
            {
                &&& buffer_fits(dst_width, src.height, pixel_type, between.len())
                &&& #[trigger] horiz_convolved(
                    src.buffer@,
                    src.width,
                    pixel_type,
                    between,
                    dst_width,
                    src.height,
                    0,
                    horiz->Some_0,
                )
                &&& convolved_to(between, result, vert->Some_0, step)
            };
        lemma_rows_within_range(
            src.buffer@,
            src.width,
            src.height,
            pixel_type,
            between,
            dst_width,
            src.height,
            0,
            horiz->Some_0,
            lo,
            hi,
        );
        lemma_pass_within_range(between, result, vert->Some_0, step, src.height as int, lo, hi);
    } else if along {
        lemma_rows_within_range(
            src.buffer@,
            src.width,
            src.height,
            pixel_type,
            result,
            dst_width,
            dst_height,
            0,
            horiz->Some_0,
            lo,
            hi,
        );
    } else if down {
        lemma_pass_within_range(src.buffer@, result, vert->Some_0, step, src.height as int, lo, hi);
    }
}

/// An image resized to other dimensions and resized back: where every
/// channel of the image lies between `lo` and `hi`, and either `lo` is
/// `hi` or no weight is negative, every channel that comes back lies
/// between `lo` and `hi`, so that no channel comes back more than
/// `hi - lo` away from where it was. An image of one colour comes back as
/// it was, whatever the weights.
pub proof fn lemma_there_and_back(
    image: ImageView<'_>,
    resized_image: ImageView<'_>,
    there_horiz: Option<&NormalizerGuard>,
    there_vert: Option<&NormalizerGuard>,
    back_horiz: Option<&NormalizerGuard>,
    back_vert: Option<&NormalizerGuard>,
    back: Seq<u8>,
    lo: int,
    hi: int,
)
    requires
        image.wf(),
        resized_image.wf(),
        resized_image.pixel_type == image.pixel_type,
        back.len() == image.buffer@.len(),
        axis_serves(there_horiz, image.width, resized_image.width, image.pixel_type),
        axis_serves(there_vert, image.height, resized_image.height, image.pixel_type),
        axis_serves(back_horiz, resized_image.width, image.width, image.pixel_type),
        axis_serves(back_vert, resized_image.height, image.height, image.pixel_type),
        resized(
            image,
            resized_image.width,
            resized_image.height,
            there_horiz,
            there_vert,
            resized_image.buffer@,
        ),
        resized(resized_image, image.width, image.height, back_horiz, back_vert, back),
        0 <= lo <= hi <= channel_max(image.pixel_type),
        all_channels_in(image.buffer@, image.pixel_type.spec_channel_bits() == 16, lo, hi),
        lo == hi || (image.width != resized_image.width ==> axis_non_negative(there_horiz)
            && axis_non_negative(back_horiz)),
        lo == hi || (image.height != resized_image.height ==> axis_non_negative(there_vert)
            && axis_non_negative(back_vert)),
    ensures
        all_channels_in(back, image.pixel_type.spec_channel_bits() == 16, lo, hi),
        channels_within(
            back,
            image.buffer@,
            image.pixel_type.spec_channel_bits() == 16,
            hi - lo,
        ),
        lo == hi ==> back == image.buffer@,
{
    let wide = image.pixel_type.spec_channel_bits() == 16;
    lemma_resize_within_range(
        image,
        resized_image.width,
        resized_image.height,
        there_horiz,
        there_vert,
        resized_image.buffer@,
        lo,
        hi,
    );
    lemma_resize_within_range(
        resized_image,
        image.width,
        image.height,
        back_horiz,
        back_vert,
        back,
        lo,
        hi,
    );
    assert forall|e: int| 0 <= e && channel_bytes(e + 1, wide) <= back.len() implies -(hi - lo)
        <= #[trigger] sample(back, wide, e) - sample(image.buffer@, wide, e) <= hi - lo by {
        assert(lo <= sample(image.buffer@, wide, e) <= hi);
    }
    assert(channels_within(back, image.buffer@, wide, hi - lo));
    if lo == hi {
        lemma_channels_in_image(image.width, image.height, image.pixel_type);
        lemma_constant_buffers_equal(back, image.buffer@, wide, lo);
    }
}

} // verus!
