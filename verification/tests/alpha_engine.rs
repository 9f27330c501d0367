use fast_image_resize::{CpuExtensions, ImageError, ImageView, ImageViewMut, MulDiv, PixelType};

const TIERS: [CpuExtensions; 5] = [
    CpuExtensions::Scalar,
    CpuExtensions::Sse2,
    CpuExtensions::Sse4_1,
    CpuExtensions::Avx2,
    CpuExtensions::Neon,
];

fn engine(tier: CpuExtensions) -> MulDiv {
    let mut mul_div = MulDiv::new();
    mul_div.set_cpu_extensions(tier);
    mul_div
}

fn multiply(tier: CpuExtensions, width: u32, height: u32, src: &[u8]) -> Vec<u8> {
    let mut dst = vec![0xaau8; src.len()];
    let src_view = ImageView::new(width, height, src, PixelType::U8x4).unwrap();
    let dst_view = ImageViewMut::new(width, height, &mut dst, PixelType::U8x4).unwrap();
    engine(tier).multiply_alpha(&src_view, dst_view).unwrap();
    dst
}

fn divide(tier: CpuExtensions, width: u32, height: u32, src: &[u8]) -> Vec<u8> {
    let mut dst = vec![0xaau8; src.len()];
    let src_view = ImageView::new(width, height, src, PixelType::U8x4).unwrap();
    let dst_view = ImageViewMut::new(width, height, &mut dst, PixelType::U8x4).unwrap();
    engine(tier).divide_alpha(&src_view, dst_view).unwrap();
    dst
}

fn row_of_pixels(pixel: &[u8; 4], count: usize) -> Vec<u8> {
    pixel.iter().cycle().take(4 * count).copied().collect()
}

#[test]
fn multiply_two_pixels_on_every_tier() {
    let src = [255u8, 128, 0, 128, 0, 0, 0, 0];
    for tier in TIERS {
        assert_eq!(multiply(tier, 2, 1, &src), vec![128, 64, 0, 128, 0, 0, 0, 0]);
    }
}

#[test]
fn divide_one_pixel() {
    let src = [128u8, 64, 0, 128];
    for tier in TIERS {
        assert_eq!(divide(tier, 1, 1, &src), vec![255, 128, 0, 128]);
    }
    // In a full vector the product is rounded down: 64 * 510 / 256 is 127.5.
    let row: Vec<u8> = src.iter().cycle().take(32).copied().collect();
    let wide: Vec<u8> = [255u8, 127, 0, 128].iter().cycle().take(32).copied().collect();
    assert_eq!(divide(CpuExtensions::Sse4_1, 8, 1, &row), wide);
    assert_eq!(divide(CpuExtensions::Avx2, 8, 1, &row), wide);
    assert_eq!(divide(CpuExtensions::Scalar, 8, 1, &row), row_of_pixels(&[255, 128, 0, 128], 8));
}

#[test]
fn divide_with_alpha_zero() {
    let src = [200u8, 200, 200, 0];
    for tier in TIERS {
        assert_eq!(divide(tier, 1, 1, &src), vec![0, 0, 0, 0]);
    }
    let row: Vec<u8> = src.iter().cycle().take(4 * 9).copied().collect();
    for tier in TIERS {
        assert_eq!(divide(tier, 9, 1, &row), vec![0u8; 36]);
    }
}

#[test]
fn engine_starts_scalar_and_keeps_the_tier_it_is_given() {
    let mut mul_div = MulDiv::new();
    assert_eq!(mul_div.cpu_extensions(), CpuExtensions::Scalar);
    assert_eq!(MulDiv::default().cpu_extensions(), CpuExtensions::Scalar);
    mul_div.set_cpu_extensions(CpuExtensions::Avx2);
    assert_eq!(mul_div.cpu_extensions(), CpuExtensions::Avx2);
}

#[test]
fn refuses_images_of_different_formats() {
    let src = [0u8; 4];
    let mut dst = [7u8; 8];
    let src_view = ImageView::new(1, 1, &src, PixelType::U8x4).unwrap();
    let dst_view = ImageViewMut::new(1, 1, &mut dst, PixelType::U16x4).unwrap();
    assert_eq!(MulDiv::new().multiply_alpha(&src_view, dst_view), Err(ImageError::FormatMismatch));
    let dst_view = ImageViewMut::new(1, 1, &mut dst, PixelType::U16x4).unwrap();
    assert_eq!(MulDiv::new().divide_alpha(&src_view, dst_view), Err(ImageError::FormatMismatch));
    assert_eq!(dst, [7u8; 8]);
}

#[test]
fn looks_at_the_dimensions_first_and_at_the_alpha_channel_next() {
    let src = [0u8; 8];
    let mut dst = [7u8; 8];
    // Different in dimensions and in format.
    let src_view = ImageView::new(2, 1, &src, PixelType::U8x4).unwrap();
    let dst_view = ImageViewMut::new(1, 1, &mut dst, PixelType::U16x4).unwrap();
    assert_eq!(
        MulDiv::new().multiply_alpha(&src_view, dst_view),
        Err(ImageError::IncompatibleShapes)
    );
    // Different in dimensions, and neither format has an alpha channel.
    let src_view = ImageView::new(4, 2, &src, PixelType::U8).unwrap();
    let dst_view = ImageViewMut::new(2, 2, &mut dst, PixelType::U8x2).unwrap();
    assert_eq!(
        MulDiv::new().divide_alpha(&src_view, dst_view),
        Err(ImageError::IncompatibleShapes)
    );
    // The same dimensions, different formats, one without an alpha channel.
    let src_view = ImageView::new(2, 1, &src, PixelType::U8x4).unwrap();
    let dst_view = ImageViewMut::new(2, 1, &mut dst, PixelType::U16x2).unwrap();
    assert_eq!(
        MulDiv::new().multiply_alpha(&src_view, dst_view),
        Err(ImageError::UnsupportedFormat)
    );
    let src_view = ImageView::new(2, 1, &src, PixelType::U16x2).unwrap();
    let dst_view = ImageViewMut::new(2, 1, &mut dst, PixelType::U8x4).unwrap();
    assert_eq!(
        MulDiv::new().divide_alpha(&src_view, dst_view),
        Err(ImageError::UnsupportedFormat)
    );
    assert_eq!(dst, [7u8; 8]);
}

#[test]
fn refuses_images_of_different_shapes() {
    let src = [0u8; 16];
    let mut dst = [7u8; 16];
    let src_view = ImageView::new(4, 1, &src, PixelType::U8x4).unwrap();
    let dst_view = ImageViewMut::new(2, 2, &mut dst, PixelType::U8x4).unwrap();
    assert_eq!(
        MulDiv::new().multiply_alpha(&src_view, dst_view),
        Err(ImageError::IncompatibleShapes)
    );
    let dst_view = ImageViewMut::new(1, 4, &mut dst, PixelType::U8x4).unwrap();
    assert_eq!(
        MulDiv::new().divide_alpha(&src_view, dst_view),
        Err(ImageError::IncompatibleShapes)
    );
    assert_eq!(dst, [7u8; 16]);
}

#[test]
fn refuses_formats_without_alpha() {
    let src = [1u8; 6];
    let mut dst = [7u8; 6];
    for pixel_type in [PixelType::U8, PixelType::U8x2, PixelType::U8x3, PixelType::U16, PixelType::U16x3]
    {
        let width = 6 / pixel_type.size() as u32;
        let src_view = ImageView::new(width, 1, &src, pixel_type).unwrap();
        let dst_view = ImageViewMut::new(width, 1, &mut dst, pixel_type).unwrap();
        assert_eq!(
            MulDiv::new().multiply_alpha(&src_view, dst_view),
            Err(ImageError::UnsupportedFormat)
        );
        let dst_view = ImageViewMut::new(width, 1, &mut dst, pixel_type).unwrap();
        assert_eq!(
            MulDiv::new().divide_alpha(&src_view, dst_view),
            Err(ImageError::UnsupportedFormat)
        );
        let dst_view = ImageViewMut::new(width, 1, &mut dst, pixel_type).unwrap();
        assert_eq!(
            MulDiv::new().multiply_alpha_inplace(dst_view),
            Err(ImageError::UnsupportedFormat)
        );
        let dst_view = ImageViewMut::new(width, 1, &mut dst, pixel_type).unwrap();
        assert_eq!(
            MulDiv::new().divide_alpha_inplace(dst_view),
            Err(ImageError::UnsupportedFormat)
        );
        assert_eq!(dst, [7u8; 6]);
    }
}

fn sample_image(width: u32, height: u32) -> Vec<u8> {
    let mut bytes = Vec::new();
    let mut state: u32 = 12345;
    for _ in 0..(width * height * 4) {
        state = state.wrapping_mul(1103515245).wrapping_add(12345);
        bytes.push((state >> 16) as u8);
    }
    bytes
}

#[test]
fn multiply_keeps_alpha_and_agrees_on_every_tier() {
    for (width, height) in [(1u32, 1u32), (3, 2), (4, 1), (5, 3), (8, 2), (13, 4), (33, 2)] {
        let src = sample_image(width, height);
        let scalar = multiply(CpuExtensions::Scalar, width, height, &src);
        for pixel in 0..(width * height) as usize {
            assert_eq!(scalar[4 * pixel + 3], src[4 * pixel + 3]);
            for channel in 0..3 {
                let c = src[4 * pixel + channel] as f64;
                let a = src[4 * pixel + 3] as f64;
                assert_eq!(scalar[4 * pixel + channel], (c * a / 255.0).round() as u8);
            }
        }
        for tier in TIERS {
            assert_eq!(multiply(tier, width, height, &src), scalar);
        }
    }
}

#[test]
fn inplace_gives_what_two_images_give() {
    for (width, height) in [(1u32, 1u32), (5, 3), (13, 4), (33, 2)] {
        let src = sample_image(width, height);
        for tier in TIERS {
            let mut image = src.clone();
            let view = ImageViewMut::new(width, height, &mut image, PixelType::U8x4).unwrap();
            engine(tier).multiply_alpha_inplace(view).unwrap();
            assert_eq!(image, multiply(tier, width, height, &src));

            let mut image = src.clone();
            let view = ImageViewMut::new(width, height, &mut image, PixelType::U8x4).unwrap();
            engine(tier).divide_alpha_inplace(view).unwrap();
            assert_eq!(image, divide(tier, width, height, &src));
        }
    }
}

#[test]
fn wide_divide_rounds_down_in_full_vectors_only() {
    // 5 pixels of (100, 3, 255, 200): one full vector of four and a tail of one.
    let row: Vec<u8> = [100u8, 3, 255, 200].iter().cycle().take(20).copied().collect();
    let scalar = divide(CpuExtensions::Scalar, 5, 1, &row);
    assert_eq!(&scalar[0..4], &[127, 4, 255, 200]);
    let wide = divide(CpuExtensions::Sse4_1, 5, 1, &row);
    assert_eq!(&wide[0..4], &[127, 3, 255, 200]);
    assert_eq!(&wide[12..16], &[127, 3, 255, 200]);
    assert_eq!(&wide[16..20], &[127, 4, 255, 200]);
    // With eight pixels to a vector all five are tail.
    assert_eq!(divide(CpuExtensions::Avx2, 5, 1, &row), scalar);
    // The vectors start afresh in every row.
    let two_rows: Vec<u8> = row.iter().chain(row.iter()).copied().collect();
    let wide = divide(CpuExtensions::Sse4_1, 5, 2, &two_rows);
    assert_eq!(&wide[16..20], &[127, 4, 255, 200]);
    assert_eq!(&wide[20..24], &[127, 3, 255, 200]);
    assert_eq!(&wide[36..40], &[127, 4, 255, 200]);
}

#[test]
fn wide_divide_clips_what_exceeds_255() {
    let row: Vec<u8> = [255u8, 129, 128, 1].iter().cycle().take(16).copied().collect();
    for tier in TIERS {
        assert_eq!(divide(tier, 4, 1, &row)[0..4], [255, 255, 255, 1]);
    }
    let row = row_of_pixels(&[255, 0, 0, 1], 8);
    for tier in TIERS {
        assert_eq!(divide(tier, 8, 1, &row), row);
    }
}

#[test]
fn every_tier_divides_to_within_one_of_the_scalar_tier() {
    for (width, height) in [(4u32, 1u32), (8, 1), (13, 3), (33, 2), (64, 4)] {
        let src = sample_image(width, height);
        let scalar = divide(CpuExtensions::Scalar, width, height, &src);
        for tier in TIERS {
            let got = divide(tier, width, height, &src);
            for (j, (x, y)) in got.iter().zip(scalar.iter()).enumerate() {
                assert!((*x as i32 - *y as i32).abs() <= 1);
                if j % 4 == 3 {
                    assert_eq!(*x, src[j]);
                }
            }
        }
    }
    // In a full vector the product is rounded down: 14 * 653 / 256 is 35.7.
    let row = row_of_pixels(&[14, 0, 0, 100], 4);
    assert_eq!(divide(CpuExtensions::Sse4_1, 4, 1, &row)[0], 35);
    assert_eq!(divide(CpuExtensions::Scalar, 4, 1, &row)[0], 36);
}

#[test]
fn divide_after_multiply_is_within_one_from_alpha_93() {
    for alpha in 93..=255u8 {
        let mut src = Vec::new();
        for c in 0..=255u8 {
            src.extend_from_slice(&[c, 255 - c, c / 2, alpha]);
        }
        let back = divide(CpuExtensions::Scalar, 256, 1, &multiply(CpuExtensions::Scalar, 256, 1, &src));
        for (x, y) in src.iter().zip(back.iter()) {
            assert!((*x as i32 - *y as i32).abs() <= 1);
        }
    }
    let src = [200u8, 10, 90, 1];
    let back = divide(CpuExtensions::Scalar, 1, 1, &multiply(CpuExtensions::Scalar, 1, 1, &src));
    assert_eq!(back, vec![255, 0, 0, 1]);
}

#[test]
fn sixteen_bit_images() {
    fn bytes(channels: &[u16]) -> Vec<u8> {
        channels.iter().flat_map(|c| c.to_le_bytes()).collect()
    }
    let src = bytes(&[65535, 32768, 0, 32768, 1000, 2000, 3000, 0, 40000, 1, 65535, 20000]);
    let mut dst = vec![0u8; src.len()];
    let src_view = ImageView::new(3, 1, &src, PixelType::U16x4).unwrap();
    let dst_view = ImageViewMut::new(3, 1, &mut dst, PixelType::U16x4).unwrap();
    MulDiv::new().multiply_alpha(&src_view, dst_view).unwrap();
    assert_eq!(dst, bytes(&[32768, 16384, 0, 32768, 0, 0, 0, 0, 12207, 0, 20000, 20000]));

    let premultiplied = bytes(&[32768, 16384, 0, 32768, 1000, 2000, 3000, 0, 12207, 0, 20000, 20000]);
    let src_view = ImageView::new(3, 1, &premultiplied, PixelType::U16x4).unwrap();
    let dst_view = ImageViewMut::new(3, 1, &mut dst, PixelType::U16x4).unwrap();
    MulDiv::new().divide_alpha(&src_view, dst_view).unwrap();
    assert_eq!(dst, bytes(&[65535, 32768, 0, 32768, 0, 0, 0, 0, 39999, 0, 65535, 20000]));

    let mut image = premultiplied.clone();
    let view = ImageViewMut::new(1, 3, &mut image, PixelType::U16x4).unwrap();
    MulDiv::new().divide_alpha_inplace(view).unwrap();
    assert_eq!(image, dst);

    let mut image = src.clone();
    let view = ImageViewMut::new(3, 1, &mut image, PixelType::U16x4).unwrap();
    MulDiv::new().multiply_alpha_inplace(view).unwrap();
    assert_eq!(image, bytes(&[32768, 16384, 0, 32768, 0, 0, 0, 0, 12207, 0, 20000, 20000]));
}
