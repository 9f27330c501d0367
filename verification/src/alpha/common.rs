//! Fixed-point arithmetic shared by every alpha kernel.

use vstd::arithmetic::div_mod::{
    lemma_div_denominator, lemma_div_plus_one, lemma_fundamental_div_mod_converse,
};
use vstd::arithmetic::power2::{lemma2_to64, lemma2_to64_rest, lemma_pow2_strictly_increases, pow2};
use vstd::bits::{lemma_u32_shl_is_mul, lemma_u64_shl_is_mul};
use vstd::prelude::*;

verus! {

/// `num / den` rounded to the nearest integer, halves rounded up.
pub open spec fn round_div(num: int, den: int) -> int
    recommends
        den > 0,
{
    (2 * num + den) / (2 * den)
}

/// Scales `a` by `b / 255`, rounded to the nearest integer.
pub fn mul_div_255(a: u8, b: u8) -> (r: u8)
    ensures
        r as int == round_div(a as int * b as int, 255),
{
    proof {
        lemma_product_bound(a as int, b as int, 255);
        lemma_fold_255(a as int * b as int);
    }
    let tmp: u32 = a as u32 * b as u32 + 128;
    let folded: u32 = ((tmp >> 8) + tmp) >> 8;
    folded as u8
}

/// Scales `a` by `b / 65535`, rounded to the nearest integer.
pub fn mul_div_65535(a: u16, b: u16) -> (r: u16)
    ensures
        r as int == round_div(a as int * b as int, 65535),
{
    proof {
        lemma_product_bound(a as int, b as int, 65535);
        lemma_fold_65535(a as int * b as int);
    }
    let tmp: u32 = a as u32 * b as u32 + 0x8000;
    let folded: u32 = ((tmp >> 16) + tmp) >> 16;
    folded as u16
}

proof fn lemma_product_bound(a: int, b: int, max: int)
    requires
        0 <= a <= max,
        0 <= b <= max,
    ensures
        0 <= a * b <= max * max,
{
    assert(0 <= a * b <= max * max) by (nonlinear_arith)
        requires
            0 <= a <= max,
            0 <= b <= max,
    ;
}

/// Adding the high byte back in and dividing by 256 once more divides by
/// 255, rounding to nearest.
pub proof fn lemma_fold_255_int(x: int)
    requires
        0 <= x <= 255 * 255,
    ensures
        ((x + 128) / 256 + (x + 128)) / 256 == round_div(x, 255),
        0 <= round_div(x, 255) <= 255,
        (x + 128) / 256 + (x + 128) <= 65407,
{
    let t = x + 128;
    let q = t / 256;
    let r = t % 256;
    assert(2 * x + 255 == 510 * q + 2 * (q + r) - 1);
}

proof fn lemma_fold_255(x: int)
    requires
        0 <= x <= 255 * 255,
    ensures
        ({
            let t = (x + 128) as u32;
            &&& (t >> 8) + t <= u32::MAX
            &&& ((((t >> 8) + t) as u32) >> 8) as int == round_div(x, 255)
            &&& round_div(x, 255) <= 255
        }),
{
    let t = (x + 128) as u32;
    assert(t >> 8 == t / 256) by (bit_vector);
    let s = ((t / 256) + t) as u32;
    assert(s >> 8 == s / 256) by (bit_vector);
    lemma_fold_255_int(x);
}

/// Adding the high half back in and shifting once more divides by 65535.
proof fn lemma_fold_65535(x: int)
    requires
        0 <= x <= 65535 * 65535,
    ensures
        ({
            let t = (x + 0x8000) as u32;
            &&& (t >> 16) + t <= u32::MAX
            &&& ((((t >> 16) + t) as u32) >> 16) as int == round_div(x, 65535)
            &&& round_div(x, 65535) <= 65535
        }),
{
    let t = (x + 0x8000) as u32;
    let q = t / 65536;
    let r = t % 65536;
    assert(t >> 16 == t / 65536) by (bit_vector);
    let s = (q + t) as u32;
    assert(s >> 16 == s / 65536) by (bit_vector);
    assert(t == 65536 * q + r);
    assert(q <= 65534);
    let carry: int = if q + r >= 65536 { 1 } else { 0 };
    assert(s / 65536 == q + carry) by {
        lemma_fundamental_div_mod_converse(s as int, 65536, q + carry, q + r - 65536 * carry);
    }
    assert(round_div(x, 65535) == q + carry) by {
        lemma_fundamental_div_mod_converse(
            2 * x + 65535,
            131070,
            q + carry,
            2 * (q + r) - 1 - 131070 * carry,
        );
    }
}

/// Fractional bits of the 8-bit reciprocal table.
pub const PRECISION: u32 = 8;

/// Half a unit at `PRECISION`, added before the final shift.
pub const ROUND_CORRECTION: u32 = 128;

/// Fractional bits of the 16-bit reciprocal table.
pub const PRECISION16: u64 = 33;

/// Half a unit at `PRECISION16`, added before the final shift.
pub const ROUND_CORRECTION16: u64 = 0x1_0000_0000;

/// Entry `alpha` of a reciprocal table for channels up to `max` with
/// `precision` fractional bits: `max * 2^precision / alpha`, rounded to
/// the nearest integer. Entry 0 is 0.
pub open spec fn recip_alpha_entry(max: int, precision: nat, alpha: int) -> int {
    if alpha <= 0 {
        0
    } else {
        round_div(max * pow2(precision), alpha)
    }
}

/// Halving the doubled quotient, rounded up, is division rounded to nearest.
proof fn lemma_half_of_doubled(x: int, d: int)
    requires
        0 <= x,
        0 < d,
    ensures
        ((2 * x) / d + 1) / 2 == round_div(x, d),
{
    lemma_div_plus_one(2 * x, d);
    lemma_div_denominator(2 * x + d, d, 2);
    assert(d * 2 == 2 * d);
}

/// Builds the reciprocal table for 8-bit channels.
pub fn recip_alpha_array(precision: u32) -> (res: [u32; 256])
    requires
        precision <= 23,
    ensures
        forall|i: int| 0 <= i < 256 ==> #[trigger] res@[i] as int == recip_alpha_entry(255, precision as nat, i),
{
    let mut res: [u32; 256] = [0u32; 256];
    proof {
        lemma_pow2_strictly_increases(precision as nat, 24);
        lemma_pow2_strictly_increases((precision + 1) as nat, 25);
        vstd::arithmetic::power2::lemma_pow2_unfold((precision + 1) as nat);
        lemma2_to64();
        lemma_u32_shl_is_mul(1u32, (precision + 1) as u32);
    }
    let scale: u32 = 1u32 << (precision + 1);
    let scaled_max: u32 = 255 * scale;
    let mut i: usize = 1;
    while i < 256
        invariant
            1 <= i <= 256,
            scaled_max as int == 2 * (255 * pow2(precision as nat)),
            res@[0] == 0,
            forall|j: int| 1 <= j < i ==> #[trigger] res@[j] as int == recip_alpha_entry(255, precision as nat, j),
        decreases 256 - i,
    {
        let half: u32 = (scaled_max / i as u32) + 1;
        proof {
            lemma_half_of_doubled((255 * pow2(precision as nat)) as int, i as int);
            assert(half >> 1 == half / 2) by (bit_vector);
        }
        res[i] = half >> 1;
        i += 1;
    }
    res
}

/// Builds the reciprocal table for 16-bit channels.
pub fn recip_alpha16_array(precision: u64) -> (res: [u64; 65536])
    requires
        precision <= 47,
    ensures
        forall|i: int| 0 <= i < 65536 ==> #[trigger] res@[i] as int == recip_alpha_entry(65535, precision as nat, i),
{
    let mut res: [u64; 65536] = [0u64; 65536];
    proof {
        lemma_pow2_strictly_increases(precision as nat, 48);
        lemma_pow2_strictly_increases((precision + 1) as nat, 49);
        vstd::arithmetic::power2::lemma_pow2_unfold((precision + 1) as nat);
        lemma2_to64();
        lemma2_to64_rest();
        lemma_u64_shl_is_mul(1u64, (precision + 1) as u64);
    }
    let scale: u64 = 1u64 << (precision + 1);
    let scaled_max: u64 = 0xffff * scale;
    let mut i: usize = 1;
    while i < 65536
        invariant
            1 <= i <= 65536,
            scaled_max as int == 2 * (65535 * pow2(precision as nat)),
            res@[0] == 0,
            forall|j: int| 1 <= j < i ==> #[trigger] res@[j] as int == recip_alpha_entry(65535, precision as nat, j),
        decreases 65536 - i,
    {
        let half: u64 = (scaled_max / i as u64) + 1;
        proof {
            lemma_half_of_doubled((65535 * pow2(precision as nat)) as int, i as int);
            assert(half >> 1 == half / 2) by (bit_vector);
        }
        res[i] = half >> 1;
        i += 1;
    }
    res
}

/// `v * recip / 2^precision`, rounded to the nearest integer and clipped
/// to `max`.
pub open spec fn div_and_clip_value(v: int, recip: int, precision: nat, max: int) -> int {
    let scaled = round_div(v * recip, pow2(precision) as int);
    if scaled > max {
        max
    } else {
        scaled
    }
}

/// Multiplies an 8-bit channel by a reciprocal taken at `PRECISION` and
/// clips the rounded result to 255.
pub fn div_and_clip(v: u8, recip_alpha: u32) -> (r: u8)
    ensures
        r as int == div_and_clip_value(v as int, recip_alpha as int, PRECISION as nat, 255),
{
    proof {
        lemma2_to64();
        assert(0 <= v as int * recip_alpha as int <= 255 * 0xffff_ffff) by (nonlinear_arith)
            requires
                0 <= v <= 255,
                0 <= recip_alpha <= 0xffff_ffff,
        ;
    }
    let product: u64 = v as u64 * recip_alpha as u64 + ROUND_CORRECTION as u64;
    proof {
        assert(product >> 8 == product / 256) by (bit_vector);
        lemma_div_denominator(2 * product as int, 2, 256);
    }
    let scaled: u64 = product >> 8;
    if scaled > 0xff {
        0xff
    } else {
        scaled as u8
    }
}

/// Multiplies a 16-bit channel by a reciprocal taken at `PRECISION16` and
/// clips the rounded result to 65535.
pub fn div_and_clip16(v: u16, recip_alpha: u64) -> (r: u16)
    ensures
        r as int == div_and_clip_value(v as int, recip_alpha as int, PRECISION16 as nat, 65535),
{
    proof {
        lemma2_to64();
        lemma2_to64_rest();
        assert(0 <= v as int * recip_alpha as int <= 65535 * 0xffff_ffff_ffff_ffff) by (nonlinear_arith)
            requires
                0 <= v <= 65535,
                0 <= recip_alpha <= 0xffff_ffff_ffff_ffff,
        ;
    }
    let product: u128 = v as u128 * recip_alpha as u128 + ROUND_CORRECTION16 as u128;
    proof {
        assert(product >> 33 == product / 0x2_0000_0000) by (bit_vector);
        lemma_div_denominator(2 * product as int, 2, 0x2_0000_0000);
    }
    let scaled: u128 = product >> 33;
    if scaled > 0xffff {
        0xffff
    } else {
        scaled as u16
    }
}

} // verus!
