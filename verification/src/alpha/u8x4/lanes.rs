//! The arithmetic of one vector lane.
//!
//! The wide kernels treat a row as a sequence of vectors and do the same
//! steps on every 16-bit lane of a vector: widen a byte, multiply, shift,
//! pack back to a byte. The functions here are those steps for one lane,
//! and the loops that run them over all lanes of a vector.

use crate::alpha::common::lemma_fold_255_int;
use crate::alpha::u8x4::{
    divided_byte,
    divided_wide,
    multiplied,
    multiplied_byte,
    multiplied_channel,
    recip_alpha,
};
use vstd::arithmetic::div_mod::{lemma_fundamental_div_mod, lemma_fundamental_div_mod_converse};
use vstd::arithmetic::power2::lemma2_to64;
use vstd::prelude::*;

verus! {

/// A 16-bit lane packed to a byte: a lane above 255 gives 255.
pub open spec fn packed_lane(lane: int) -> int {
    if lane > 255 {
        255
    } else {
        lane
    }
}

/// Packs a 16-bit lane to a byte with unsigned saturation. The lane is
/// limited to 255 first, so that the pack never meets a lane with the top
/// bit set.
pub fn pack_lane(lane: u16) -> (r: u8)
    ensures
        r as int == packed_lane(lane as int),
{
    let limited: u16 = if lane > 255 {
        255
    } else {
        lane
    };
    limited as u8
}

/// Multiplying by 255 over 255 changes nothing.
pub proof fn lemma_multiplied_by_opaque(c: int)
    requires
        0 <= c <= 255,
    ensures
        multiplied_channel(c, 255) == c,
{
    lemma_fundamental_div_mod_converse(2 * (c * 255) + 255, 510, c, 255);
}

/// One lane of the premultiplying kernel: the widened byte times the
/// factor, plus 128, with the high byte folded back in, shifted and packed.
/// All sums stay inside the lane.
pub fn multiply_lane(pix: u8, factor: u8) -> (r: u8)
    ensures
        r as int == multiplied_channel(pix as int, factor as int),
{
    let ghost x = pix as int * factor as int;
    proof {
        assert(0 <= x <= 255 * 255) by (nonlinear_arith)
            requires
                x == pix as int * factor as int,
                0 <= pix <= 255,
                0 <= factor <= 255,
        ;
        lemma_fold_255_int(x);
    }
    let product: u16 = (pix as u16).wrapping_mul(factor as u16);
    let biased: u16 = product.wrapping_add(128);
    assert(biased >> 8 == biased / 256) by (bit_vector);
    let folded: u16 = biased.wrapping_add(biased >> 8);
    assert(folded >> 8 == folded / 256) by (bit_vector);
    pack_lane(folded >> 8)
}

/// The factor that a lane of the dividing kernel multiplies by:
/// `255 * 256 / alpha` rounded to nearest, and 0 where alpha is 0. No
/// alpha leaves a remainder of exactly half, so nothing hangs on how a tie
/// would be rounded, and the factor is the reciprocal that the scalar
/// kernel looks up.
pub fn reciprocal_lane(alpha: u8) -> (r: u16)
    ensures
        r as int == recip_alpha(alpha as int),
{
    if alpha == 0 {
        return 0;
    }
    let a: u32 = alpha as u32;
    let quotient: u32 = 65280 / a;
    let remainder: u32 = 65280 % a;
    proof {
        lemma2_to64();
        assert(1 <= a < 256 ==> 2 * (65280u32 % a) != a) by (bit_vector);
        let up: int = if 2 * remainder > a { 1 } else { 0 };
        lemma_fundamental_div_mod(65280, a as int);
        assert(2 * 65280 + a == (2 * a) * (quotient + up) + (2 * remainder + a - 2 * a * up))
            by (nonlinear_arith)
            requires
                65280 == a * quotient + remainder,
        ;
        lemma_fundamental_div_mod_converse(
            2 * 65280 + a,
            2 * a,
            quotient + up,
            2 * remainder + a - 2 * a * up,
        );
    }
    let rounded: u32 = if 2 * remainder > a {
        quotient + 1
    } else {
        quotient
    };
    rounded as u16
}

/// One lane of the dividing kernel: the byte in the high half of the lane,
/// times the factor, of which the high 16 bits are kept, limited to 255
/// and packed.
pub fn divide_lane(pix: u8, factor: u16) -> (r: u8)
    ensures
        r as int == packed_lane((pix as int * factor as int) / 256),
{
    let widened: u32 = (pix as u32) * 256;
    let ghost x = pix as int * factor as int;
    proof {
        assert(0 <= x <= 255 * 65535 && widened * factor == 256 * x) by (nonlinear_arith)
            requires
                x == pix as int * factor as int,
                widened == pix * 256,
                0 <= pix <= 255,
                0 <= factor <= 65535,
        ;
    }
    let product: u32 = widened * (factor as u32);
    assert(product >> 16 == product / 65536) by (bit_vector);
    let high: u32 = product >> 16;
    pack_lane(high as u16)
}

/// Premultiplies one vector of pixels. Every lane is multiplied by the
/// alpha of its pixel; the alpha lanes are multiplied by 255, which leaves
/// them as they are.
pub fn multiply_alpha_vector(src: &[u8], dst: &mut [u8])
    requires
        src@.len() % 4 == 0,
        src@.len() == old(dst)@.len(),
    ensures
        final(dst)@ == multiplied(src@),
{
    let pixels: usize = src.len() / 4;
    let mut i: usize = 0;
    while i < pixels
        invariant
            i <= pixels,
            pixels * 4 == src@.len() <= usize::MAX,
            dst@.len() == src@.len(),
            forall|j: int| 0 <= j < 4 * i ==> dst@[j] == #[trigger] multiplied_byte(src@, j),
        decreases pixels - i,
    {
        let at: usize = 4 * i;
        let factor: u8 = src[at + 3];
        proof {
            lemma_multiplied_by_opaque(factor as int);
        }
        dst[at] = multiply_lane(src[at], factor);
        dst[at + 1] = multiply_lane(src[at + 1], factor);
        dst[at + 2] = multiply_lane(src[at + 2], factor);
        dst[at + 3] = multiply_lane(src[at + 3], 0xff);
        i += 1;
    }
    assert(dst@ =~= multiplied(src@));
}

/// Takes one vector of pixels back from premultiplied form. The colour
/// lanes are multiplied by the factor of their pixel; the alpha lanes are
/// taken over from the source.
pub fn divide_alpha_vector(src: &[u8], dst: &mut [u8])
    requires
        src@.len() % 4 == 0,
        src@.len() == old(dst)@.len(),
    ensures
        final(dst)@ == divided_wide(src@),
{
    let pixels: usize = src.len() / 4;
    let mut i: usize = 0;
    while i < pixels
        invariant
            i <= pixels,
            pixels * 4 == src@.len() <= usize::MAX,
            dst@.len() == src@.len(),
            forall|j: int| 0 <= j < 4 * i ==> dst@[j] == #[trigger] divided_byte(src@, j, true),
        decreases pixels - i,
    {
        let at: usize = 4 * i;
        let alpha: u8 = src[at + 3];
        let factor: u16 = reciprocal_lane(alpha);
        dst[at] = divide_lane(src[at], factor);
        dst[at + 1] = divide_lane(src[at + 1], factor);
        dst[at + 2] = divide_lane(src[at + 2], factor);
        dst[at + 3] = alpha;
        i += 1;
    }
    assert(dst@ =~= divided_wide(src@));
}

} // verus!
