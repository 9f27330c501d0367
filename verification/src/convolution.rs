//! Separable convolution with integer weights.
//!
//! A resize runs one pass along each axis. A pass gives every destination
//! position a window of source positions and one weight for each of them.
//! The weights of an axis arrive as fixed-point numbers; before a pass they
//! are brought to the precision that the pixel depth allows.

pub mod laws;
pub mod optimisations;
pub mod pass;
pub mod u16x1;
pub mod u8x1;
pub mod vertical_u16;
pub mod vertical_u8;

use crate::convolution::optimisations::NormalizerGuard;
use crate::convolution::pass::{
    convolve_rows, convolved_to, horiz_convolved, horiz_fits, row_channels, vert_fits,
};
use crate::cpu_extensions::CpuExtensions;
use crate::image_view::{TypedImageView, TypedImageViewMut};
use crate::pixels::PixelType;
use vstd::prelude::*;

verus! {

/// Fractional bits of the weights that a `Coefficients` bundle holds: the
/// weight 1 is `1 << WEIGHT_BITS`.
pub const WEIGHT_BITS: u32 = 40;

/// The window of one destination position: `size` source positions from
/// `start` on.
#[derive(Clone, Copy, Debug, PartialEq, Eq, Structural)]
pub struct Bound {
    pub start: u32,
    pub size: u32,
}

/// The weights of one axis. Destination position `i` has the window
/// `bounds[i]` and the weights `values[i * window_size ..][.. bounds[i].size]`.
/// What follows them up to the next multiple of `window_size` is padding.
pub struct Coefficients {
    pub values: Vec<i64>,
    pub window_size: usize,
    pub bounds: Vec<Bound>,
}

/// Sum of the numbers of a sequence.
pub open spec fn sum(s: Seq<int>) -> int
    decreases s.len(),
{
    if s.len() == 0 {
        0
    } else {
        sum(s.drop_last()) + s.last()
    }
}

/// Absolute value.
pub open spec fn abs(x: int) -> int {
    if x < 0 {
        -x
    } else {
        x
    }
}

/// Sum of the absolute values of the numbers of a sequence.
pub open spec fn sum_abs(s: Seq<int>) -> int
    decreases s.len(),
{
    if s.len() == 0 {
        0
    } else {
        sum_abs(s.drop_last()) + abs(s.last())
    }
}

/// Sum of the products of samples and weights, position by position.
pub open spec fn dot(samples: Seq<int>, weights: Seq<int>) -> int
    recommends
        samples.len() == weights.len(),
    decreases weights.len(),
{
    if weights.len() == 0 {
        0
    } else {
        dot(samples.drop_last(), weights.drop_last()) + samples.last() * weights.last()
    }
}

/// The first `n + 1` numbers sum to the first `n` plus the next.
pub proof fn lemma_sum_step(s: Seq<int>, n: int)
    requires
        0 <= n < s.len(),
    ensures
        sum(s.subrange(0, n + 1)) == sum(s.subrange(0, n)) + s[n],
        sum_abs(s.subrange(0, n + 1)) == sum_abs(s.subrange(0, n)) + abs(s[n]),
{
    assert(s.subrange(0, n + 1).drop_last() =~= s.subrange(0, n));
}

/// The first `n + 1` products sum to the first `n` plus the next.
pub proof fn lemma_dot_step(samples: Seq<int>, weights: Seq<int>, n: int)
    requires
        0 <= n < weights.len(),
        samples.len() == weights.len(),
    ensures
        dot(samples.subrange(0, n + 1), weights.subrange(0, n + 1)) == dot(
            samples.subrange(0, n),
            weights.subrange(0, n),
        ) + samples[n] * weights[n],
{
    assert(samples.subrange(0, n + 1).drop_last() =~= samples.subrange(0, n));
    assert(weights.subrange(0, n + 1).drop_last() =~= weights.subrange(0, n));
}

/// A sum of products of samples between 0 and `max` with weights is, in
/// absolute value, at most `max` times the sum of the absolute weights.
pub proof fn lemma_dot_bound(samples: Seq<int>, weights: Seq<int>, max: int)
    requires
        samples.len() == weights.len(),
        forall|k: int| 0 <= k < samples.len() ==> 0 <= #[trigger] samples[k] <= max,
    ensures
        abs(dot(samples, weights)) <= max * sum_abs(weights),
        0 <= sum_abs(weights),
    decreases weights.len(),
{
    if weights.len() > 0 {
        lemma_dot_bound(samples.drop_last(), weights.drop_last(), max);
        let s = samples.last();
        let w = weights.last();
        assert(abs(s * w) <= max * abs(w)) by (nonlinear_arith)
            requires
                0 <= s <= max,
        ;
        assert(max * (sum_abs(weights.drop_last()) + abs(w)) == max * sum_abs(
            weights.drop_last(),
        ) + max * abs(w)) by (nonlinear_arith);
    } else {
        assert(max * 0 == 0);
    }
}

/// A sum of absolute values is not negative.
pub proof fn lemma_sum_abs_nonneg(s: Seq<int>)
    ensures
        0 <= sum_abs(s),
    decreases s.len(),
{
    if s.len() > 0 {
        lemma_sum_abs_nonneg(s.drop_last());
    }
}

/// The sum of absolute values grows with the sequence.
pub proof fn lemma_sum_abs_prefix(s: Seq<int>, n: int)
    requires
        0 <= n <= s.len(),
    ensures
        0 <= sum_abs(s.subrange(0, n)) <= sum_abs(s),
    decreases s.len() - n,
{
    lemma_sum_abs_nonneg(s.subrange(0, n));
    if n == s.len() {
        assert(s.subrange(0, n) =~= s);
    } else {
        lemma_sum_abs_prefix(s, n + 1);
        lemma_sum_step(s, n);
    }
}

/// Samples that all have the value `v` give `v` times the sum of the
/// weights.
pub proof fn lemma_dot_constant(samples: Seq<int>, weights: Seq<int>, v: int)
    requires
        samples.len() == weights.len(),
        forall|k: int| 0 <= k < samples.len() ==> #[trigger] samples[k] == v,
    ensures
        dot(samples, weights) == v * sum(weights),
    decreases weights.len(),
{
    if weights.len() > 0 {
        lemma_dot_constant(samples.drop_last(), weights.drop_last(), v);
        assert(v * (sum(weights.drop_last()) + weights.last()) == v * sum(weights.drop_last()) + v
            * weights.last()) by (nonlinear_arith);
    } else {
        assert(v * 0 == 0);
    }
}

/// Runs the pass along the rows of an image of any format, with the
/// kernel that the format has for `cpu_extensions`.
pub fn horiz_convolution(
    src_image: TypedImageView<'_>,
    dst_image: TypedImageViewMut<'_>,
    offset: u32,
    normalizer: &NormalizerGuard,
    cpu_extensions: CpuExtensions,
)
    requires
        horiz_fits(src_image, dst_image, offset, normalizer),
    ensures
        final(dst_image.buffer)@.len() == old(dst_image.buffer)@.len(),
        horiz_convolved(
            src_image.buffer@,
            src_image.width,
            src_image.pixel_type,
            final(dst_image.buffer)@,
            dst_image.width,
            dst_image.height,
            offset,
            normalizer,
        ),
{
    match src_image.pixel_type {
        PixelType::U8 => u8x1::horiz_convolution(
            src_image,
            dst_image,
            offset,
            normalizer,
            cpu_extensions,
        ),
        PixelType::U16 => u16x1::native::horiz_convolution(
            src_image,
            dst_image,
            offset,
            normalizer,
        ),
        _ => convolve_rows(src_image, dst_image, offset, normalizer, false),
    }
}

/// Runs the pass down the columns of an image of any format, with the
/// kernel that the format has for `cpu_extensions`.
pub fn vert_convolution(
    src_image: TypedImageView<'_>,
    dst_image: TypedImageViewMut<'_>,
    normalizer: &NormalizerGuard,
    cpu_extensions: CpuExtensions,
)
    requires
        vert_fits(src_image, dst_image, normalizer),
    ensures
        final(dst_image.buffer)@.len() == old(dst_image.buffer)@.len(),
        convolved_to(
            src_image.buffer@,
            final(dst_image.buffer)@,
            normalizer,
            row_channels(src_image.width, src_image.pixel_type),
        ),
{
    match src_image.pixel_type {
        PixelType::U8 => u8x1::vert_convolution(src_image, dst_image, normalizer, cpu_extensions),
        PixelType::U8x2 | PixelType::U8x3 | PixelType::U8x4 => vertical_u8::vert_convolution_u8(
            src_image,
            dst_image,
            normalizer,
            cpu_extensions,
        ),
        _ => vertical_u16::vert_convolution_u16(src_image, dst_image, normalizer),
    }
}

} // verus!
