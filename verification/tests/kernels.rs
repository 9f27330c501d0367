use fast_image_resize::alpha::common::{div_and_clip, mul_div_255, recip_alpha_array, PRECISION};
use fast_image_resize::alpha::rows::{map_rows, process_one_image, process_two_images};
use fast_image_resize::alpha::u16x4::native as rgba16;
use fast_image_resize::alpha::u8x4::lanes::{
    divide_alpha_vector, divide_lane, multiply_alpha_vector, multiply_lane, pack_lane,
    reciprocal_lane,
};
use fast_image_resize::alpha::u8x4::{avx2, native, sse4};
use fast_image_resize::convolution::optimisations::NormalizerGuard;
use fast_image_resize::convolution::pass::{
    convolve_columns, convolve_rows, convolve_strided, load_sample, store_sample,
};
use fast_image_resize::convolution::{Bound, Coefficients, WEIGHT_BITS};
use fast_image_resize::cpu_extensions::KernelTier;
use fast_image_resize::image_view::{TypedImageView, TypedImageViewMut};
use fast_image_resize::{CpuExtensions, PixelType};

fn sample_bytes(len: usize, seed: u32) -> Vec<u8> {
    let mut state = seed;
    (0..len)
        .map(|_| {
            state = state.wrapping_mul(1664525).wrapping_add(1013904223);
            (state >> 24) as u8
        })
        .collect()
}

fn typed(width: u32, height: u32, pixel_type: PixelType, buffer: &[u8]) -> TypedImageView<'_> {
    TypedImageView { width, height, pixel_type, buffer }
}

fn typed_mut(
    width: u32,
    height: u32,
    pixel_type: PixelType,
    buffer: &mut [u8],
) -> TypedImageViewMut<'_> {
    TypedImageViewMut { width, height, pixel_type, buffer }
}

#[test]
fn tiers_in_order_and_their_kernels() {
    assert_eq!(CpuExtensions::default(), CpuExtensions::Scalar);
    assert!(CpuExtensions::Scalar.rank() < CpuExtensions::Sse2.rank());
    assert!(CpuExtensions::Sse2.rank() < CpuExtensions::Sse4_1.rank());
    assert!(CpuExtensions::Sse4_1.rank() < CpuExtensions::Avx2.rank());
    assert_eq!(CpuExtensions::Neon.rank(), CpuExtensions::Scalar.rank());
    assert_eq!(CpuExtensions::Scalar.kernel(), KernelTier::Scalar);
    assert_eq!(CpuExtensions::Sse2.kernel(), KernelTier::Scalar);
    assert_eq!(CpuExtensions::Neon.kernel(), KernelTier::Scalar);
    assert_eq!(CpuExtensions::Sse4_1.kernel(), KernelTier::Wide128);
    assert_eq!(CpuExtensions::Avx2.kernel(), KernelTier::Wide256);
}

#[test]
fn a_lane_packs_with_saturation() {
    assert_eq!(pack_lane(0), 0);
    assert_eq!(pack_lane(255), 255);
    assert_eq!(pack_lane(256), 255);
    assert_eq!(pack_lane(32767), 255);
    assert_eq!(pack_lane(32768), 255);
    assert_eq!(pack_lane(65535), 255);
}

#[test]
fn a_lane_multiplies_as_the_scalar_code_does() {
    for c in 0..=255u8 {
        for a in 0..=255u8 {
            assert_eq!(multiply_lane(c, a), mul_div_255(c, a));
        }
        assert_eq!(multiply_lane(c, 255), c);
    }
}

#[test]
fn the_factor_of_a_lane_is_the_reciprocal_of_the_table() {
    let table = recip_alpha_array(PRECISION);
    for a in 0..=255u8 {
        assert_eq!(reciprocal_lane(a) as u32, table[a as usize]);
    }
    assert_eq!(reciprocal_lane(0), 0);
    assert_eq!(reciprocal_lane(1), 65280);
    assert_eq!(reciprocal_lane(7), 9326);
    assert_eq!(reciprocal_lane(255), 256);
}

#[test]
fn a_lane_divides_rounding_down() {
    let table = recip_alpha_array(PRECISION);
    assert_eq!(divide_lane(3, 326), 3);
    assert_eq!(div_and_clip(3, 326), 4);
    assert_eq!(divide_lane(14, 653), 35);
    assert_eq!(divide_lane(255, 65280), 255);
    assert_eq!(divide_lane(129, 65280), 255);
    assert_eq!(divide_lane(128, 65280), 255);
    assert_eq!(divide_lane(1, 65280), 255);
    assert_eq!(divide_lane(1, 255), 0);
    assert_eq!(divide_lane(200, 0), 0);
    for a in 0..=255u8 {
        for c in 0..=255u8 {
            let wide = divide_lane(c, reciprocal_lane(a));
            let scalar = if a == 0 { 0 } else { div_and_clip(c, table[a as usize]) };
            assert!(wide == scalar || wide + 1 == scalar);
        }
    }
}

#[test]
fn vectors_of_any_number_of_pixels() {
    for pixels in [0usize, 1, 4, 8, 11] {
        let src = sample_bytes(4 * pixels, 7);
        let mut scalar = vec![0u8; src.len()];
        native::multiply_alpha_row(&src, &mut scalar);
        let mut wide = vec![1u8; src.len()];
        multiply_alpha_vector(&src, &mut wide);
        assert_eq!(wide, scalar);

        let mut divided = vec![1u8; src.len()];
        divide_alpha_vector(&src, &mut divided);
        for (j, byte) in divided.iter().enumerate() {
            let alpha = src[j - j % 4 + 3];
            let expected =
                if j % 4 == 3 { alpha } else { divide_lane(src[j], reciprocal_lane(alpha)) };
            assert_eq!(*byte, expected);
        }
    }
    let src = sample_bytes(16, 3);
    let mut four = vec![0u8; 16];
    sse4::divide_alpha_four_pixels(&src, &mut four);
    let mut any = vec![0u8; 16];
    divide_alpha_vector(&src, &mut any);
    assert_eq!(four, any);
    let src = sample_bytes(32, 4);
    let mut eight = vec![0u8; 32];
    avx2::divide_alpha_eight_pixels(&src, &mut eight);
    let mut any = vec![0u8; 32];
    divide_alpha_vector(&src, &mut any);
    assert_eq!(eight, any);
}

#[test]
fn rows_of_every_length_on_every_tier() {
    let table = recip_alpha_array(PRECISION);
    for pixels in 0..40usize {
        let src = sample_bytes(4 * pixels, pixels as u32);
        let mut scalar = vec![0u8; src.len()];
        native::multiply_alpha_row(&src, &mut scalar);
        let mut four = vec![0u8; src.len()];
        sse4::multiply_alpha_row(&src, &mut four);
        let mut eight = vec![0u8; src.len()];
        avx2::multiply_alpha_row(&src, &mut eight);
        assert_eq!(four, scalar);
        assert_eq!(eight, scalar);

        let mut scalar = vec![0u8; src.len()];
        native::divide_alpha_row(&src, &mut scalar, &table);
        let mut lanes = vec![0u8; src.len()];
        divide_alpha_vector(&src, &mut lanes);
        for (chunk, row) in [(4usize, &mut four), (8, &mut eight)] {
            if chunk == 4 {
                sse4::divide_alpha_row(&src, row, &table);
            } else {
                avx2::divide_alpha_row(&src, row, &table);
            }
            let full = pixels / chunk * chunk * 4;
            assert_eq!(&row[..full], &lanes[..full]);
            assert_eq!(&row[full..], &scalar[full..]);
        }
    }
}

#[test]
fn bands_give_the_bytes_of_one_pass() {
    let table = recip_alpha_array(PRECISION);
    let (width, height) = (5u32, 7u32);
    let src = sample_bytes((width * height * 4) as usize, 99);
    for y in 1..height {
        let mut whole = vec![0u8; src.len()];
        sse4::divide_alpha(
            typed(width, height, PixelType::U8x4, &src),
            typed_mut(width, height, PixelType::U8x4, &mut whole),
            &table,
        );
        let mut banded = vec![0u8; src.len()];
        let (src_top, src_bottom) = typed(width, height, PixelType::U8x4, &src).split_at_row(y);
        let (dst_top, dst_bottom) =
            typed_mut(width, height, PixelType::U8x4, &mut banded).split_at_row(y);
        sse4::divide_alpha(src_bottom, dst_bottom, &table);
        sse4::divide_alpha(src_top, dst_top, &table);
        assert_eq!(banded, whole);

        let mut inplace = src.clone();
        let (top, bottom) = typed_mut(width, height, PixelType::U8x4, &mut inplace).split_at_row(y);
        avx2::multiply_alpha_inplace(bottom);
        avx2::multiply_alpha_inplace(top);
        let mut whole = vec![0u8; src.len()];
        native::multiply_alpha(
            typed(width, height, PixelType::U8x4, &src),
            typed_mut(width, height, PixelType::U8x4, &mut whole),
        );
        assert_eq!(inplace, whole);
    }
}

#[test]
fn a_row_kernel_over_every_row() {
    let src = sample_bytes(3 * 2 * 4, 5);
    let mut by_rows = vec![0u8; src.len()];
    map_rows(&native::MultiplyAlpha, &src, &mut by_rows, 8, 3);
    let mut expected = vec![0u8; src.len()];
    for y in 0..3 {
        native::multiply_alpha_row(&src[8 * y..8 * y + 8], &mut expected[8 * y..8 * y + 8]);
    }
    assert_eq!(by_rows, expected);

    let mut two = vec![0u8; src.len()];
    process_two_images(
        &sse4::MultiplyAlpha,
        typed(2, 3, PixelType::U8x4, &src),
        typed_mut(2, 3, PixelType::U8x4, &mut two),
    );
    assert_eq!(two, expected);
    let mut one = src.clone();
    process_one_image(&avx2::MultiplyAlpha, typed_mut(2, 3, PixelType::U8x4, &mut one));
    assert_eq!(one, expected);

    let table = recip_alpha_array(PRECISION);
    let mut one = src.clone();
    process_one_image(
        &native::DivideAlpha { recip_alpha: &table },
        typed_mut(2, 3, PixelType::U8x4, &mut one),
    );
    let mut expected = vec![0u8; src.len()];
    native::divide_alpha_row(&src, &mut expected, &table);
    assert_eq!(one, expected);
}

#[test]
fn sixteen_bit_rows() {
    let src: Vec<u8> = [65535u16, 1, 30000, 65535, 7, 8, 9, 0, 100, 200, 300, 400]
        .iter()
        .flat_map(|c| c.to_le_bytes())
        .collect();
    let mut dst = vec![0u8; src.len()];
    rgba16::multiply_alpha_row(&src, &mut dst);
    let channels: Vec<u16> = dst.chunks(2).map(|b| u16::from_le_bytes([b[0], b[1]])).collect();
    assert_eq!(channels, vec![65535, 1, 30000, 65535, 0, 0, 0, 0, 1, 1, 2, 400]);
    let two_rows: Vec<u8> = src.iter().chain(src.iter()).copied().collect();
    let mut image = two_rows.clone();
    rgba16::multiply_alpha_inplace(typed_mut(3, 2, PixelType::U16x4, &mut image));
    assert_eq!(&image[..24], &dst[..]);
    assert_eq!(&image[24..], &dst[..]);
}

#[test]
fn rows_from_an_offset() {
    let bytes: Vec<u8> = (0..24).collect();
    let view = typed(2, 4, PixelType::U8x3, &bytes);
    let rows = view.iter_rows(1);
    assert_eq!(rows, vec![&bytes[6..12], &bytes[12..18], &bytes[18..24]]);
    assert_eq!(view.iter_rows(0).len(), 4);
    assert!(view.iter_rows(4).is_empty());
}

#[test]
fn channels_of_one_and_of_two_bytes() {
    let mut bytes = vec![1u8, 2, 3, 4];
    assert_eq!(load_sample(&bytes, false, 2), 3);
    assert_eq!(load_sample(&bytes, true, 1), 3 + 4 * 256);
    store_sample(&mut bytes, true, 0, 0xabcd);
    assert_eq!(bytes, vec![0xcd, 0xab, 3, 4]);
    store_sample(&mut bytes, false, 3, 9);
    assert_eq!(bytes, vec![0xcd, 0xab, 3, 9]);
}

fn thirds() -> Coefficients {
    let w = |x: f64| (x * (1u64 << WEIGHT_BITS) as f64).round() as i64;
    Coefficients {
        values: vec![w(0.25), w(0.5), w(0.25), w(0.5), w(0.5), 0],
        window_size: 3,
        bounds: vec![Bound { start: 0, size: 3 }, Bound { start: 2, size: 2 }],
    }
}

#[test]
fn windows_as_the_passes_read_them() {
    let guard = NormalizerGuard::for_u8(&thirds()).unwrap();
    let chunks = guard.normalized_chunks();
    assert_eq!(chunks.len(), 2);
    assert_eq!((chunks[0].start, chunks[0].values), (0, &[4096, 8192, 4096][..]));
    assert_eq!((chunks[1].start, chunks[1].values), (2, &[8192, 8192][..]));
}

#[test]
fn a_pass_along_positions_of_several_channels() {
    let guard = NormalizerGuard::for_u8(&thirds()).unwrap();
    // Four positions of two channels.
    let src = [0u8, 255, 100, 255, 200, 255, 50, 1];
    for pairs in [false, true] {
        let mut dst = [0u8; 4];
        convolve_strided(&src, &mut dst, 2, 4, &guard, pairs);
        assert_eq!(dst, [100, 255, 125, 128]);
    }
    // The same numbers as two rows of four pixels, and as four rows of two channels.
    let two_rows: Vec<u8> = [0u8, 100, 200, 50, 255, 255, 255, 1].to_vec();
    for pairs in [false, true] {
        let mut dst = [0u8; 4];
        convolve_rows(
            typed(4, 2, PixelType::U8, &two_rows),
            typed_mut(2, 2, PixelType::U8, &mut dst),
            0,
            &guard,
            pairs,
        );
        assert_eq!(dst, [100, 125, 255, 128]);
        let mut dst = [0u8; 2];
        convolve_rows(
            typed(4, 2, PixelType::U8, &two_rows),
            typed_mut(2, 1, PixelType::U8, &mut dst),
            1,
            &guard,
            pairs,
        );
        assert_eq!(dst, [255, 128]);
        let mut dst = [0u8; 4];
        convolve_columns(
            typed(1, 4, PixelType::U8x2, &src),
            typed_mut(1, 2, PixelType::U8x2, &mut dst),
            &guard,
            pairs,
        );
        assert_eq!(dst, [100, 255, 125, 128]);
    }
}

#[test]
fn scalar_divide_is_within_one_of_the_exact_quotient() {
    let table = recip_alpha_array(PRECISION);
    for a in 1..=255u32 {
        for c in 0..=255u32 {
            let exact = ((2 * 255 * c + a) / (2 * a)).min(255) as i32;
            let got = div_and_clip(c as u8, table[a as usize]) as i32;
            assert!((got - exact).abs() <= 1);
        }
    }
    // The rounded reciprocal of 200 is a little small: 127.5 comes out as 127.
    assert_eq!(div_and_clip(100, table[200]), 127);
    assert_eq!((2 * 255 * 100 + 200) / 400, 128);
}

#[test]
fn a_round_trip_moves_a_colour_by_less_than_one_and_127_over_alpha() {
    let table = recip_alpha_array(PRECISION);
    for a in 1..=255i32 {
        for c in 0..=255i32 {
            let back = div_and_clip(mul_div_255(c as u8, a as u8), table[a as usize]) as i32;
            assert!(a * (back - c).abs() < 127 + a);
            if a >= 93 {
                assert!((back - c).abs() <= 1);
            }
        }
    }
    assert_eq!(div_and_clip(mul_div_255(237, 92), table[92]), 239);
    assert_eq!(div_and_clip(mul_div_255(64, 2), table[2]), 128);
}
