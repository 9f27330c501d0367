//! What holds of the alpha conversions on every image.

use crate::alpha::common::round_div;
use crate::alpha::u16x4::{channel16, multiplied16};
use crate::alpha::u8x4::{
    alpha_at,
    divided,
    divided_channel,
    lemma_divide_lane_close,
    lemma_recip_alpha_range,
    multiplied,
    multiplied_channel,
    recip_alpha,
};
use vstd::arithmetic::div_mod::lemma_fundamental_div_mod;
use vstd::arithmetic::power2::lemma2_to64;
use vstd::assert_by_contradiction;
use vstd::prelude::*;

verus! {

/// A colour channel that has been premultiplied and taken back by the
/// scalar kernel.
pub open spec fn round_trip(c: int, alpha: int) -> int {
    divided_channel(multiplied_channel(c, alpha), alpha)
}

/// The quantities a round trip goes through, and how far each rounding
/// can move them.
proof fn lemma_round_trip_steps(c: int, alpha: int) -> (r: (int, int, int))
    requires
        0 <= c <= 255,
        1 <= alpha <= 255,
    ensures
        ({
            let (m, recip, d) = r;
            &&& m == multiplied_channel(c, alpha)
            &&& recip == recip_alpha(alpha)
            &&& d == round_div(m * recip, 256)
            &&& round_trip(c, alpha) == if d > 255 { 255 } else { d }
            &&& 0 <= m <= alpha
            &&& c * alpha - 127 <= 255 * m <= c * alpha + 127
            &&& 130560 - alpha < 2 * (alpha * recip) <= 130560 + alpha
            &&& m * recip - 127 <= 256 * d <= m * recip + 128
            &&& 0 <= recip
            &&& 0 <= d
        }),
{
    let x = c * alpha;
    assert(0 <= x <= 255 * alpha) by (nonlinear_arith)
        requires
            x == c * alpha,
            0 <= c <= 255,
            1 <= alpha,
    ;
    let m = multiplied_channel(c, alpha);
    lemma_fundamental_div_mod(2 * x + 255, 510);
    lemma2_to64();
    let recip = recip_alpha(alpha);
    assert(recip == (2 * 65280 + alpha) / (2 * alpha));
    lemma_fundamental_div_mod(2 * 65280 + alpha, 2 * alpha);
    assert((2 * alpha) * recip == 2 * (alpha * recip)) by (nonlinear_arith);
    assert(0 <= recip) by (nonlinear_arith)
        requires
            130560 - alpha < 2 * (alpha * recip),
            1 <= alpha <= 255,
    ;
    let p = m * recip;
    assert(0 <= p) by (nonlinear_arith)
        requires
            p == m * recip,
            0 <= m,
            0 <= recip,
    ;
    let d = round_div(p, 256);
    lemma_fundamental_div_mod(2 * p + 256, 512);
    (m, recip, d)
}

/// How far above the colour the unclipped round trip `d` can end, and how
/// far below, both scaled by `130560 * alpha`.
proof fn lemma_round_trip_scaled(c: int, alpha: int, m: int, recip: int, d: int)
    requires
        0 <= c <= 255,
        1 <= alpha <= 255,
        0 <= m,
        0 <= recip,
        c * alpha - 127 <= 255 * m <= c * alpha + 127,
        130560 - alpha < 2 * (alpha * recip) <= 130560 + alpha,
        m * recip - 127 <= 256 * d <= m * recip + 128,
    ensures
        130560 * (alpha * d - c * alpha) <= (c * alpha) * alpha + 16581120 + 65407 * alpha,
        c * alpha >= 127 ==> 130560 * (c * alpha - alpha * d) <= (c * alpha) * (alpha - 1)
            + 16581247 + 64643 * alpha,
{
    let x = c * alpha;
    let p = m * recip;
    let ar = alpha * recip;
    let ap = alpha * p;
    let ad = alpha * d;
    assert(0 <= x) by (nonlinear_arith)
        requires
            x == c * alpha,
            0 <= c,
            1 <= alpha,
    ;
    assert(0 <= ar) by (nonlinear_arith)
        requires
            ar == alpha * recip,
            0 <= recip,
            1 <= alpha,
    ;
    assert((255 * m) * (2 * ar) == 510 * ap) by (nonlinear_arith)
        requires
            ar == alpha * recip,
            ap == alpha * p,
            p == m * recip,
    ;
    assert((255 * m) * (2 * ar) <= (x + 127) * (130560 + alpha)) by (nonlinear_arith)
        requires
            0 <= 255 * m <= x + 127,
            0 <= 2 * ar <= 130560 + alpha,
    ;
    assert((x + 127) * (130560 + alpha) == 130560 * x + x * alpha + 16581120 + 127 * alpha)
        by (nonlinear_arith);
    assert(256 * ad <= ap + 128 * alpha && ap - 127 * alpha <= 256 * ad) by (nonlinear_arith)
        requires
            ad == alpha * d,
            ap == alpha * p,
            p - 127 <= 256 * d <= p + 128,
            1 <= alpha,
    ;
    if x >= 127 {
        assert((x - 127) * (130561 - alpha) <= (255 * m) * (2 * ar)) by (nonlinear_arith)
            requires
                0 <= x - 127 <= 255 * m,
                0 <= 130561 - alpha <= 2 * ar,
        ;
        assert((x - 127) * (130561 - alpha) == 130561 * x - x * alpha - 16581247 + 127 * alpha)
            by (nonlinear_arith);
        assert(x * (alpha - 1) == x * alpha - x) by (nonlinear_arith);
    }
}

/// With alpha 0 every colour goes to 0 and stays there.
pub proof fn lemma_round_trip_alpha_zero(c: int)
    requires
        0 <= c <= 255,
    ensures
        multiplied_channel(c, 0) == 0,
        round_trip(c, 0) == 0,
{
    assert(c * 0 == 0) by (nonlinear_arith);
    vstd::arithmetic::div_mod::lemma_fundamental_div_mod_converse(255, 510, 0, 255);
}

/// Premultiplying a colour and taking it back by the scalar kernel moves
/// it by less than `1 + 127 / alpha`, whatever the colour and the alpha.
pub proof fn lemma_round_trip_bound(c: int, alpha: int)
    requires
        0 <= c <= 255,
        1 <= alpha <= 255,
    ensures
        0 <= round_trip(c, alpha) <= 255,
        alpha * (round_trip(c, alpha) - c) < 127 + alpha,
        alpha * (c - round_trip(c, alpha)) < 127 + alpha,
{
    let (m, recip, d) = lemma_round_trip_steps(c, alpha);
    lemma_round_trip_scaled(c, alpha, m, recip, d);
    let x = c * alpha;
    let back = round_trip(c, alpha);
    assert(0 <= x <= 65025 && x * alpha <= 65025 * alpha && x * (alpha - 1) <= 64770 * alpha)
        by (nonlinear_arith)
        requires
            x == c * alpha,
            0 <= c <= 255,
            1 <= alpha <= 255,
    ;
    assert(alpha * (d - c) == alpha * d - x && alpha * (c - d) == x - alpha * d) by (nonlinear_arith)
        requires
            x == c * alpha,
    ;
    assert(alpha * (d - c) < 127 + alpha);
    if x >= 127 {
        assert(alpha * (c - d) < 127 + alpha);
    } else {
        assert(alpha * (c - d) <= x) by (nonlinear_arith)
            requires
                x == c * alpha,
                0 <= d,
                1 <= alpha,
        ;
    }
    if d > 255 {
        assert(alpha * (255 - c) <= alpha * (d - c)) by (nonlinear_arith)
            requires
                255 <= d,
                1 <= alpha,
        ;
        assert(alpha * (c - 255) <= 0) by (nonlinear_arith)
            requires
                c <= 255,
                1 <= alpha,
        ;
    }
}

/// Alphas with which every colour survives a round trip to within 1: all
/// from 93 on, and a few below. Alpha 92 is not one of them, as
/// `lemma_round_trip_alpha_92` shows.
pub open spec fn keeps_colours(alpha: int) -> bool {
    ||| 93 <= alpha <= 255
    ||| alpha == 85
    ||| alpha == 86
    ||| alpha == 88
    ||| alpha == 90
    ||| alpha == 91
}

/// With an alpha that keeps colours, premultiplying a colour and taking it
/// back by the scalar kernel moves it by at most 1.
pub proof fn lemma_round_trip_within_one(c: int, alpha: int)
    requires
        0 <= c <= 255,
        keeps_colours(alpha),
    ensures
        c - 1 <= round_trip(c, alpha) <= c + 1,
{
    if alpha < 97 {
        lemma_round_trip_low_alphas(c as u32, alpha as u32);
        lemma_round_trip_as_u32(c, alpha);
    } else {
        let (m, recip, d) = lemma_round_trip_steps(c, alpha);
        lemma_round_trip_scaled(c, alpha, m, recip, d);
        let x = c * alpha;
        assert(0 <= x && x * alpha <= 255 * (alpha * alpha) && x * (alpha - 1) <= 255 * (alpha
            * alpha) - 255 * alpha) by (nonlinear_arith)
            requires
                x == c * alpha,
                0 <= c <= 255,
                1 <= alpha <= 255,
        ;
        assert(alpha * alpha <= 352 * alpha - 24735) by (nonlinear_arith)
            requires
                97 <= alpha <= 255,
        ;
        assert_by_contradiction!(d <= c + 1, {
            assert(alpha * d >= x + 2 * alpha) by (nonlinear_arith)
                requires
                    x == c * alpha,
                    d >= c + 2,
                    1 <= alpha,
            ;
        });
        assert_by_contradiction!(d >= c - 1, {
            assert(alpha * d <= x - 2 * alpha) by (nonlinear_arith)
                requires
                    x == c * alpha,
                    d <= c - 2,
                    1 <= alpha,
            ;
            assert(x >= 127) by (nonlinear_arith)
                requires
                    x == c * alpha,
                    c >= 2,
                    alpha >= 97,
            ;
        });
    }
}

/// With alpha 92 the colour 237 comes back as 239.
pub proof fn lemma_round_trip_alpha_92()
    ensures
        round_trip(237, 92) == 239,
        !keeps_colours(92),
{
    lemma_round_trip_as_u32(237, 92);
    assert(round_trip_u32(237, 92) == 239) by (bit_vector);
}

/// The round trip written out in machine arithmetic.
pub open spec fn round_trip_u32(c: u32, alpha: u32) -> u32 {
    let m: u32 = ((2 * (c * alpha) + 255) / 510) as u32;
    let recip: u32 = ((130560 + alpha) / (2 * alpha)) as u32;
    let d: u32 = ((2 * (m * recip) + 256) / 512) as u32;
    if d > 255 {
        255
    } else {
        d
    }
}

proof fn lemma_round_trip_as_u32(c: int, alpha: int)
    requires
        0 <= c <= 255,
        1 <= alpha <= 255,
    ensures
        round_trip(c, alpha) == round_trip_u32(c as u32, alpha as u32),
{
    let (m, recip, d) = lemma_round_trip_steps(c, alpha);
    lemma2_to64();
    assert(0 <= c * alpha <= 65025) by (nonlinear_arith)
        requires
            0 <= c <= 255,
            1 <= alpha <= 255,
    ;
    assert(recip <= 65408 && m * recip <= 255 * 65408) by (nonlinear_arith)
        requires
            2 * (alpha * recip) <= 130560 + alpha,
            1 <= alpha <= 255,
            0 <= m <= 255,
            0 <= recip,
    ;
}

proof fn lemma_round_trip_low_alphas(c: u32, alpha: u32)
    requires
        c <= 255,
        alpha <= 96,
        keeps_colours(alpha as int),
    ensures
        c <= round_trip_u32(c, alpha) + 1,
        round_trip_u32(c, alpha) <= c + 1,
{
    if alpha == 85 {
        assert(c <= 255 ==> c <= round_trip_u32(c, 85) + 1 && round_trip_u32(c, 85) <= c + 1)
            by (bit_vector);
    } else if alpha == 86 {
        assert(c <= 255 ==> c <= round_trip_u32(c, 86) + 1 && round_trip_u32(c, 86) <= c + 1)
            by (bit_vector);
    } else if alpha == 88 {
        assert(c <= 255 ==> c <= round_trip_u32(c, 88) + 1 && round_trip_u32(c, 88) <= c + 1)
            by (bit_vector);
    } else if alpha == 90 {
        assert(c <= 255 ==> c <= round_trip_u32(c, 90) + 1 && round_trip_u32(c, 90) <= c + 1)
            by (bit_vector);
    } else if alpha == 91 {
        assert(c <= 255 ==> c <= round_trip_u32(c, 91) + 1 && round_trip_u32(c, 91) <= c + 1)
            by (bit_vector);
    } else if alpha == 93 {
        assert(c <= 255 ==> c <= round_trip_u32(c, 93) + 1 && round_trip_u32(c, 93) <= c + 1)
            by (bit_vector);
    } else if alpha == 94 {
        assert(c <= 255 ==> c <= round_trip_u32(c, 94) + 1 && round_trip_u32(c, 94) <= c + 1)
            by (bit_vector);
    } else if alpha == 95 {
        assert(c <= 255 ==> c <= round_trip_u32(c, 95) + 1 && round_trip_u32(c, 95) <= c + 1)
            by (bit_vector);
    } else {
        assert(c <= 255 ==> c <= round_trip_u32(c, 96) + 1 && round_trip_u32(c, 96) <= c + 1)
            by (bit_vector);
    }
}

/// Premultiplying leaves the alpha of every pixel as it is.
pub proof fn lemma_multiply_keeps_alpha(bytes: Seq<u8>, j: int)
    requires
        0 <= j < bytes.len(),
        j % 4 == 3,
    ensures
        multiplied(bytes)[j] == bytes[j],
{
}

/// Premultiplying an image of 16-bit channels leaves the alpha of every
/// pixel as it is.
pub proof fn lemma_multiply16_keeps_alpha(bytes: Seq<u8>, ch: int)
    requires
        bytes.len() % 8 == 0,
        0 <= ch,
        2 * ch + 1 < bytes.len(),
        ch % 4 == 3,
    ensures
        channel16(multiplied16(bytes), ch) == channel16(bytes, ch),
        multiplied16(bytes)[2 * ch] == bytes[2 * ch],
        multiplied16(bytes)[2 * ch + 1] == bytes[2 * ch + 1],
{
    assert((2 * ch) / 2 == ch && (2 * ch + 1) / 2 == ch);
}

/// Taking a premultiplied image back by the scalar kernel gives, for each
/// byte: the alpha as it was; 0 for a colour of a pixel with alpha 0; and a
/// colour within 1 of what it was where the alpha keeps colours.
pub proof fn lemma_divide_undoes_multiply(bytes: Seq<u8>, stride: int, j: int)
    requires
        bytes.len() % 4 == 0,
        0 <= j < bytes.len(),
    ensures
        ({
            let back = divided(multiplied(bytes), stride, 0);
            &&& back.len() == bytes.len()
            &&& j % 4 == 3 ==> back[j] == bytes[j]
            &&& j % 4 != 3 && alpha_at(bytes, j) == 0 ==> back[j] == 0
            &&& j % 4 != 3 && keeps_colours(alpha_at(bytes, j)) ==> bytes[j] - 1 <= back[j]
                <= bytes[j] + 1
            &&& j % 4 != 3 && alpha_at(bytes, j) >= 1 ==> back[j] == round_trip(
                bytes[j] as int,
                alpha_at(bytes, j),
            )
        }),
{
    let c = bytes[j] as int;
    let alpha = alpha_at(bytes, j);
    let pre = multiplied(bytes);
    assert(alpha_at(pre, j) == alpha);
    if j % 4 != 3 {
        if alpha == 0 {
            lemma_round_trip_alpha_zero(c);
        } else {
            lemma_round_trip_bound(c, alpha);
            lemma_round_trip_steps(c, alpha);
            if keeps_colours(alpha) {
                lemma_round_trip_within_one(c, alpha);
            }
        }
    }
}

/// A colour divided by `alpha / 255` exactly, rounded to nearest and
/// clipped to 255.
pub open spec fn exact_quotient(c: int, alpha: int) -> int {
    let q = round_div(255 * c, alpha);
    if q > 255 {
        255
    } else {
        q
    }
}

/// The scalar kernel, which multiplies by a rounded reciprocal, is never
/// more than 1 away from the exact quotient.
pub proof fn lemma_divide_close_to_exact(c: int, alpha: int)
    requires
        0 <= c <= 255,
        1 <= alpha <= 255,
    ensures
        exact_quotient(c, alpha) - 1 <= divided_channel(c, alpha) <= exact_quotient(c, alpha) + 1,
{
    lemma2_to64();
    lemma_recip_alpha_range(alpha);
    let recip = recip_alpha(alpha);
    let e = round_div(255 * c, alpha);
    let p = c * recip;
    let d = round_div(p, 256);
    assert((2 * alpha) * e == 2 * (alpha * e)) by (nonlinear_arith);
    lemma_fundamental_div_mod(2 * (255 * c) + alpha, 2 * alpha);
    lemma_fundamental_div_mod(2 * p + 256, 512);
    let ae = alpha * e;
    let ad = alpha * d;
    let ar = alpha * recip;
    assert(alpha * p == c * ar) by (nonlinear_arith)
        requires
            p == c * recip,
            ar == alpha * recip,
    ;
    assert(c * (130560 - alpha) <= c * (2 * ar) <= c * (130560 + alpha)) by (nonlinear_arith)
        requires
            0 <= c,
            130560 - alpha < 2 * ar <= 130560 + alpha,
    ;
    assert(c * (130560 - alpha) == 130560 * c - c * alpha && c * (130560 + alpha) == 130560 * c
        + c * alpha && c * (2 * ar) == 2 * (c * ar)) by (nonlinear_arith);
    assert(0 <= c * alpha <= 255 * alpha) by (nonlinear_arith)
        requires
            0 <= c <= 255,
            1 <= alpha,
    ;
    assert(512 * ad <= 2 * (alpha * p) + 256 * alpha < 512 * ad + 512 * alpha) by (nonlinear_arith)
        requires
            ad == alpha * d,
            512 * d <= 2 * p + 256 < 512 * d + 512,
            1 <= alpha,
    ;
    assert_by_contradiction!(d <= e + 1, {
        assert(ad >= ae + 2 * alpha) by (nonlinear_arith)
            requires
                ad == alpha * d,
                ae == alpha * e,
                d >= e + 2,
                1 <= alpha,
        ;
    });
    assert_by_contradiction!(d >= e - 1, {
        assert(ad <= ae - 2 * alpha) by (nonlinear_arith)
            requires
                ad == alpha * d,
                ae == alpha * e,
                d <= e - 2,
                1 <= alpha,
        ;
    });
}

/// Two kernel tiers, with vectors of `chunk_a` and of `chunk_b` bytes,
/// take an image back from premultiplied form to bytes that differ by at
/// most 1, and to the same alpha.
pub proof fn lemma_divide_tiers_close(
    bytes: Seq<u8>,
    stride: int,
    chunk_a: int,
    chunk_b: int,
    j: int,
)
    requires
        bytes.len() % 4 == 0,
        0 <= j < bytes.len(),
    ensures
        divided(bytes, stride, chunk_a)[j] - divided(bytes, stride, chunk_b)[j] <= 1,
        divided(bytes, stride, chunk_b)[j] - divided(bytes, stride, chunk_a)[j] <= 1,
        j % 4 == 3 ==> divided(bytes, stride, chunk_a)[j] == bytes[j],
{
    if j % 4 != 3 {
        lemma_divide_lane_close(bytes[j] as int, alpha_at(bytes, j));
    }
}

/// Taking a premultiplied image back on any kernel tier gives, for each
/// byte: the alpha as it was; 0 for a colour of a pixel with alpha 0; and,
/// where the alpha keeps colours, a colour that is at most 1 above what it
/// was and at most 2 below.
pub proof fn lemma_divide_undoes_multiply_on_any_tier(
    bytes: Seq<u8>,
    stride: int,
    chunk: int,
    j: int,
)
    requires
        bytes.len() % 4 == 0,
        0 <= j < bytes.len(),
    ensures
        ({
            let back = divided(multiplied(bytes), stride, chunk);
            &&& back.len() == bytes.len()
            &&& j % 4 == 3 ==> back[j] == bytes[j]
            &&& j % 4 != 3 && alpha_at(bytes, j) == 0 ==> back[j] == 0
            &&& j % 4 != 3 && keeps_colours(alpha_at(bytes, j)) ==> bytes[j] - 2 <= back[j]
                <= bytes[j] + 1
        }),
{
    let c = bytes[j] as int;
    let alpha = alpha_at(bytes, j);
    let pre = multiplied(bytes);
    assert(alpha_at(pre, j) == alpha);
    lemma_divide_undoes_multiply(bytes, stride, j);
    if j % 4 != 3 {
        if alpha == 0 {
            lemma_round_trip_alpha_zero(c);
            lemma_divide_lane_close(0, 0);
        } else {
            let (m, recip, d) = lemma_round_trip_steps(c, alpha);
            lemma_divide_lane_close(m, alpha);
        }
    }
}

} // verus!
