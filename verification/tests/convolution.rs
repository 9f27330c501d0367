use fast_image_resize::convolution::optimisations::NormalizerGuard;
use fast_image_resize::convolution::{Bound, Coefficients, WEIGHT_BITS};
use fast_image_resize::{CpuExtensions, ImageError, ImageView, ImageViewMut, PixelType, Resizer};

const TIERS: [CpuExtensions; 5] = [
    CpuExtensions::Scalar,
    CpuExtensions::Sse2,
    CpuExtensions::Sse4_1,
    CpuExtensions::Avx2,
    CpuExtensions::Neon,
];

fn fixed(w: f64) -> i64 {
    (w * (1u64 << WEIGHT_BITS) as f64).round() as i64
}

/// Weights of a box filter that shrinks `src` positions to `dst`, where `dst` divides `src`.
fn box_coefficients(src: u32, dst: u32) -> Coefficients {
    let window = src / dst;
    let mut values = Vec::new();
    let mut bounds = Vec::new();
    for i in 0..dst {
        bounds.push(Bound { start: i * window, size: window });
        for _ in 0..window {
            values.push(fixed(1.0 / window as f64));
        }
    }
    Coefficients { values, window_size: window as usize, bounds }
}

fn coefficients(window_size: usize, rows: &[(u32, &[f64])]) -> Coefficients {
    let mut values = Vec::new();
    let mut bounds = Vec::new();
    for (start, weights) in rows {
        bounds.push(Bound { start: *start, size: weights.len() as u32 });
        for k in 0..window_size {
            values.push(if k < weights.len() { fixed(weights[k]) } else { 0 });
        }
    }
    Coefficients { values, window_size, bounds }
}

fn window(guard: &NormalizerGuard, i: usize) -> Vec<i32> {
    let size = guard.bounds[i].size as usize;
    guard.values[i * guard.window_size..i * guard.window_size + size].to_vec()
}

fn resize_u8(
    tier: CpuExtensions,
    pixel_type: PixelType,
    src: &[u8],
    (sw, sh): (u32, u32),
    (dw, dh): (u32, u32),
    horiz: Option<&NormalizerGuard>,
    vert: Option<&NormalizerGuard>,
) -> Result<Vec<u8>, ImageError> {
    let mut dst = vec![0xaau8; (dw * dh) as usize * pixel_type.size()];
    let src_view = ImageView::new(sw, sh, src, pixel_type).unwrap();
    let dst_view = ImageViewMut::new(dw, dh, &mut dst, pixel_type).unwrap();
    let mut resizer = Resizer::new();
    resizer.set_cpu_extensions(tier);
    resizer.resize(&src_view, dst_view, horiz, vert)?;
    Ok(dst)
}

#[test]
fn normalizer_takes_the_largest_precision_that_fits() {
    let halves = box_coefficients(2, 1);
    let guard = NormalizerGuard::for_u8(&halves).unwrap();
    assert_eq!(guard.precision(), 14);
    assert_eq!(guard.channel_max, 255);
    assert_eq!(window(&guard, 0), vec![8192, 8192]);
    assert_eq!(guard.initial(), 8192);

    // A weight of 2 needs 2 << p < 32768, so 13 bits.
    let twos = coefficients(2, &[(0, &[2.0, -1.0])]);
    let guard = NormalizerGuard::for_u8(&twos).unwrap();
    assert_eq!(guard.precision(), 13);
    assert_eq!(window(&guard, 0), vec![16384, -8192]);

    // One half at 32 bits is 1 << 31, one too many for 32 bits.
    let guard = NormalizerGuard::for_u16(&halves).unwrap();
    assert_eq!(guard.precision(), 31);
    assert_eq!(guard.channel_max, 65535);
    assert_eq!(window(&guard, 0), vec![1 << 30, 1 << 30]);
    assert_eq!(guard.initial(), 1 << 30);

    let quarters = box_coefficients(8, 2);
    let guard = NormalizerGuard::for_u16(&quarters).unwrap();
    assert_eq!(guard.precision(), 32);
    assert_eq!(window(&guard, 1), vec![1 << 30; 4]);
    assert_eq!(guard.initial(), 1i64 << 31);
}

#[test]
fn normalizer_makes_every_window_sum_to_one() {
    let thirds = coefficients(3, &[(0, &[1.0 / 3.0; 3]), (1, &[0.3, 0.7])]);
    let guard = NormalizerGuard::for_u8(&thirds).unwrap();
    assert_eq!(guard.precision(), 14);
    assert_eq!(window(&guard, 0), vec![5462, 5461, 5461]);
    assert_eq!(window(&guard, 1), vec![4915, 11469]);
    assert_eq!(guard.values, vec![5462, 5461, 5461, 4915, 11469, 0]);

    let sevenths = coefficients(7, &[(0, &[1.0 / 7.0; 7])]);
    let guard = NormalizerGuard::for_u8(&sevenths).unwrap();
    // 16384 / 7 rounds up to 2341, seven of them are 3 too many.
    assert_eq!(window(&guard, 0), vec![2341, 2341, 2341, 2341, 2340, 2340, 2340]);

    let lanczos_like = coefficients(
        5,
        &[(0, &[-0.03, 0.28, 0.5, 0.28, -0.03]), (2, &[0.1, 0.2, 0.3, 0.4]), (7, &[1.0])],
    );
    for guard in
        [NormalizerGuard::for_u8(&lanczos_like).unwrap(), NormalizerGuard::for_u16(&lanczos_like).unwrap()]
    {
        for i in 0..3 {
            let sum: i64 = window(&guard, i).iter().map(|w| *w as i64).sum();
            assert_eq!(sum, 1i64 << guard.precision());
        }
    }
}

#[test]
fn normalizer_spreads_a_large_difference_evenly() {
    // The weights sum to 1/2: each of the two takes up half of what is missing.
    let short = coefficients(2, &[(0, &[0.25, 0.25])]);
    let guard = NormalizerGuard::for_u8(&short).unwrap();
    assert_eq!(guard.precision(), 14);
    assert_eq!(window(&guard, 0), vec![8192, 8192]);
    // The weights sum to 1 + 3/16384: one unit comes off each.
    let long = Coefficients {
        values: vec![fixed(0.5) + (1 << 26), fixed(0.25) + (1 << 26), fixed(0.25) + (1 << 26)],
        window_size: 3,
        bounds: vec![Bound { start: 0, size: 3 }],
    };
    let guard = NormalizerGuard::for_u8(&long).unwrap();
    assert_eq!(window(&guard, 0), vec![8192, 4096, 4096]);
}

#[test]
fn normalizer_rounds_halves_away_from_zero() {
    // 1.5 and -0.5 units of 2^-14.
    let values = vec![(1i64 << 26) + (1 << 25), -(1i64 << 25), fixed(1.0) - (1 << 26)];
    let coeffs = Coefficients { values, window_size: 3, bounds: vec![Bound { start: 0, size: 3 }] };
    let guard = NormalizerGuard::for_u8(&coeffs).unwrap();
    assert_eq!(guard.precision(), 14);
    assert_eq!(window(&guard, 0), vec![2, -1, 16383]);
}

#[test]
fn normalizer_refuses_what_no_precision_allows() {
    // A window of one weight is brought to the weight 1, whatever it was.
    let huge = coefficients(1, &[(0, &[200.0])]);
    let guard = NormalizerGuard::for_u8(&huge).unwrap();
    assert_eq!((guard.precision(), window(&guard, 0)), (14, vec![16384]));
    let many = coefficients(2, &[(0, &[100.0, -99.0])]);
    assert_eq!(NormalizerGuard::for_u8(&many).unwrap().precision(), 8);
    let too_many = coefficients(2, &[(0, &[128.0, -127.0])]);
    assert!(NormalizerGuard::for_u8(&too_many).is_none());
    assert_eq!(NormalizerGuard::for_u16(&too_many).unwrap().precision(), 23);
}

#[test]
fn normalizer_refuses_a_malformed_bundle() {
    let no_window =
        Coefficients { values: vec![], window_size: 0, bounds: vec![Bound { start: 0, size: 0 }] };
    assert!(!no_window.is_wf());
    assert!(NormalizerGuard::for_u8(&no_window).is_none());
    let empty_bound = Coefficients {
        values: vec![fixed(1.0)],
        window_size: 1,
        bounds: vec![Bound { start: 0, size: 0 }],
    };
    assert!(!empty_bound.is_wf());
    assert!(NormalizerGuard::for_u16(&empty_bound).is_none());
    let wide_bound = Coefficients {
        values: vec![fixed(1.0)],
        window_size: 1,
        bounds: vec![Bound { start: 0, size: 2 }],
    };
    assert!(!wide_bound.is_wf());
    let short_values = Coefficients {
        values: vec![fixed(1.0); 3],
        window_size: 2,
        bounds: vec![Bound { start: 0, size: 2 }, Bound { start: 0, size: 2 }],
    };
    assert!(!short_values.is_wf());
    assert!(NormalizerGuard::for_u8(&short_values).is_none());
    assert!(box_coefficients(4, 2).is_wf());
}

#[test]
fn clip_shifts_and_saturates() {
    let guard = NormalizerGuard::for_u8(&box_coefficients(2, 1)).unwrap();
    assert_eq!(guard.clip(0), 0);
    assert_eq!(guard.clip(16383), 0);
    assert_eq!(guard.clip(16384), 1);
    assert_eq!(guard.clip(255 * 16384 + 16383), 255);
    assert_eq!(guard.clip(256 * 16384), 255);
    assert_eq!(guard.clip(i64::MAX), 255);
    assert_eq!(guard.clip(-1), 0);
    assert_eq!(guard.clip(i64::MIN), 0);
    let guard = NormalizerGuard::for_u16(&box_coefficients(2, 1)).unwrap();
    assert_eq!(guard.clip(65535i64 << 31), 65535);
    assert_eq!(guard.clip((65536i64 << 31) + 5), 65535);
    assert_eq!(guard.clip((1234i64 << 31) + 77), 1234);
    assert_eq!(guard.clip(-5), 0);
}

#[test]
fn windows_are_checked_against_the_source() {
    let guard = NormalizerGuard::for_u8(&box_coefficients(4, 2)).unwrap();
    assert!(guard.check_source(4));
    assert!(guard.check_source(5));
    assert!(!guard.check_source(3));
    assert_eq!(guard.weight(1, 0), 8192);
}

#[test]
fn resize_keeps_a_constant_image() {
    let src = [100u8; 16];
    let guard = NormalizerGuard::for_u8(&box_coefficients(4, 2)).unwrap();
    let thirds = NormalizerGuard::for_u8(&coefficients(
        3,
        &[(0, &[0.2, 0.5, 0.3]), (1, &[-0.1, 0.6, 0.5])],
    ))
    .unwrap();
    for tier in TIERS {
        let dst =
            resize_u8(tier, PixelType::U8, &src, (4, 4), (2, 2), Some(&guard), Some(&guard));
        assert_eq!(dst, Ok(vec![100u8; 4]));
        let dst =
            resize_u8(tier, PixelType::U8, &src, (4, 4), (2, 2), Some(&thirds), Some(&thirds));
        assert_eq!(dst, Ok(vec![100u8; 4]));
    }
}

#[test]
fn resize_two_by_two_to_one_pixel() {
    let src = [0u8, 0, 0, 255];
    let guard = NormalizerGuard::for_u8(&box_coefficients(2, 1)).unwrap();
    for tier in TIERS {
        let dst =
            resize_u8(tier, PixelType::U8, &src, (2, 2), (1, 1), Some(&guard), Some(&guard));
        assert_eq!(dst, Ok(vec![64]));
    }
}

#[test]
fn resize_to_the_same_dimensions_copies() {
    let src: Vec<u8> = (0..24).collect();
    let guard = NormalizerGuard::for_u8(&box_coefficients(2, 1)).unwrap();
    for tier in TIERS {
        assert_eq!(resize_u8(tier, PixelType::U8x3, &src, (4, 2), (4, 2), None, None), Ok(src.clone()));
        assert_eq!(
            resize_u8(tier, PixelType::U8x4, &src, (3, 2), (3, 2), Some(&guard), Some(&guard)),
            Ok(src.clone())
        );
    }
}

#[test]
fn resize_along_one_axis_only() {
    // 4 x 2 pixels of one channel.
    let src = [10u8, 20, 30, 41, 0, 255, 255, 255];
    let halves = NormalizerGuard::for_u8(&box_coefficients(4, 2)).unwrap();
    let rows = NormalizerGuard::for_u8(&box_coefficients(2, 1)).unwrap();
    for tier in TIERS {
        let dst = resize_u8(tier, PixelType::U8, &src, (4, 2), (2, 2), Some(&halves), None);
        assert_eq!(dst, Ok(vec![15, 36, 128, 255]));
        let dst = resize_u8(tier, PixelType::U8, &src, (4, 2), (4, 1), None, Some(&rows));
        assert_eq!(dst, Ok(vec![5, 138, 143, 148]));
    }
}

#[test]
fn resize_keeps_the_channels_apart() {
    // 2 x 2 pixels of three channels.
    let src = [0u8, 100, 200, 10, 110, 210, 20, 120, 220, 30, 130, 230];
    let guard = NormalizerGuard::for_u8(&box_coefficients(2, 1)).unwrap();
    for tier in TIERS {
        let dst =
            resize_u8(tier, PixelType::U8x3, &src, (2, 2), (1, 1), Some(&guard), Some(&guard));
        assert_eq!(dst, Ok(vec![15, 115, 215]));
        let dst = resize_u8(tier, PixelType::U8x3, &src, (2, 2), (1, 2), Some(&guard), None);
        assert_eq!(dst, Ok(vec![5, 105, 205, 25, 125, 225]));
    }
}

#[test]
fn resize_clips_what_negative_weights_push_out_of_range() {
    let sharp = NormalizerGuard::for_u8(&coefficients(2, &[(0, &[1.5, -0.5]), (0, &[-0.5, 1.5])]))
        .unwrap();
    assert_eq!(sharp.precision(), 14);
    let src = [255u8, 0, 0, 255, 100, 100];
    for tier in TIERS {
        let dst = resize_u8(tier, PixelType::U8, &src, (2, 3), (2, 2), None, Some(&sharp));
        assert_eq!(dst, Ok(vec![255, 0, 0, 255]));
    }
    let tall = NormalizerGuard::for_u8(&coefficients(
        2,
        &[(0, &[1.5, -0.5]), (0, &[-0.5, 1.5]), (0, &[0.5, 0.5])],
    ))
    .unwrap();
    let src = [255u8, 0, 0, 255];
    for tier in TIERS {
        let dst = resize_u8(tier, PixelType::U8, &src, (2, 2), (2, 3), None, Some(&tall));
        assert_eq!(dst, Ok(vec![255, 0, 0, 255, 128, 128]));
        let dst = resize_u8(tier, PixelType::U8, &src, (2, 2), (3, 2), Some(&tall), None);
        assert_eq!(dst, Ok(vec![255, 0, 128, 0, 255, 128]));
    }
}

#[test]
fn resize_sixteen_bit_channels() {
    fn bytes(channels: &[u16]) -> Vec<u8> {
        channels.iter().flat_map(|c| c.to_le_bytes()).collect()
    }
    let src = bytes(&[0, 65535, 1000, 2001, 40000, 40000, 65535, 65535]);
    let halves = NormalizerGuard::for_u16(&box_coefficients(4, 2)).unwrap();
    let rows = NormalizerGuard::for_u16(&box_coefficients(2, 1)).unwrap();
    let mut dst = vec![0u8; 4];
    let src_view = ImageView::new(4, 2, &src, PixelType::U16).unwrap();
    let dst_view = ImageViewMut::new(2, 1, &mut dst, PixelType::U16).unwrap();
    Resizer::new().resize(&src_view, dst_view, Some(&halves), Some(&rows)).unwrap();
    // rows: (32768, 1501), (40000, 65535); columns: 36384, 33518.
    assert_eq!(dst, bytes(&[36384, 33518]));

    let mut dst = vec![0u8; 8];
    let src_view = ImageView::new(2, 2, &src[0..16], PixelType::U16x2).unwrap();
    let dst_view = ImageViewMut::new(1, 2, &mut dst, PixelType::U16x2).unwrap();
    Resizer::new().resize(&src_view, dst_view, Some(&rows), None).unwrap();
    assert_eq!(dst, bytes(&[500, 33768, 52768, 52768]));
}

#[test]
fn resize_refuses_what_does_not_fit() {
    let src = [1u8; 16];
    let u8_halves = NormalizerGuard::for_u8(&box_coefficients(4, 2)).unwrap();
    let u16_halves = NormalizerGuard::for_u16(&box_coefficients(4, 2)).unwrap();
    let wide = NormalizerGuard::for_u8(&box_coefficients(8, 2)).unwrap();
    let three = NormalizerGuard::for_u8(&box_coefficients(3, 3)).unwrap();

    let mut dst = [7u8; 8];
    let src_view = ImageView::new(4, 4, &src, PixelType::U8).unwrap();
    let dst_view = ImageViewMut::new(2, 2, &mut dst, PixelType::U16).unwrap();
    assert_eq!(
        Resizer::new().resize(&src_view, dst_view, Some(&u8_halves), Some(&u8_halves)),
        Err(ImageError::FormatMismatch)
    );
    assert_eq!(dst, [7u8; 8]);

    let shapes = ImageError::IncompatibleShapes;
    let fit = Some(&u8_halves);
    for (horiz, vert) in [
        (None, fit),
        (fit, None),
        (Some(&wide), fit),
        (fit, Some(&wide)),
        (Some(&three), fit),
        (fit, Some(&three)),
    ] {
        assert_eq!(
            resize_u8(CpuExtensions::Scalar, PixelType::U8, &src, (4, 4), (2, 2), horiz, vert),
            Err(shapes)
        );
    }
    assert_eq!(
        resize_u8(CpuExtensions::Scalar, PixelType::U8, &src, (4, 4), (2, 2), Some(&u16_halves), fit),
        Err(ImageError::UnsupportedFormat)
    );
    assert_eq!(
        resize_u8(CpuExtensions::Scalar, PixelType::U8, &src, (4, 4), (2, 2), fit, Some(&u16_halves)),
        Err(ImageError::UnsupportedFormat)
    );
    // Weights for an axis that keeps its size are not looked at.
    assert_eq!(
        resize_u8(CpuExtensions::Scalar, PixelType::U8, &src, (4, 4), (2, 4), fit, Some(&u16_halves)),
        Ok(vec![1u8; 8])
    );
}

#[test]
fn resizer_starts_scalar_and_keeps_the_tier_it_is_given() {
    let mut resizer = Resizer::new();
    assert_eq!(resizer.cpu_extensions(), CpuExtensions::Scalar);
    assert_eq!(Resizer::default().cpu_extensions(), CpuExtensions::Scalar);
    resizer.set_cpu_extensions(CpuExtensions::Sse4_1);
    assert_eq!(resizer.cpu_extensions(), CpuExtensions::Sse4_1);
}

fn doubling() -> Coefficients {
    coefficients(2, &[(0, &[1.0]), (0, &[0.75, 0.25]), (0, &[0.25, 0.75]), (1, &[1.0])])
}

fn there_and_back(tier: CpuExtensions, src: &[u8], up: &NormalizerGuard, down: &NormalizerGuard) -> Vec<u8> {
    let enlarged =
        resize_u8(tier, PixelType::U8, src, (2, 2), (4, 4), Some(up), Some(up)).unwrap();
    resize_u8(tier, PixelType::U8, &enlarged, (4, 4), (2, 2), Some(down), Some(down)).unwrap()
}

#[test]
fn enlarging_and_reducing_stays_between_the_darkest_and_the_brightest_pixel() {
    let up = NormalizerGuard::for_u8(&doubling()).unwrap();
    let down = NormalizerGuard::for_u8(&box_coefficients(4, 2)).unwrap();
    assert!(up.values.iter().all(|w| *w >= 0) && down.values.iter().all(|w| *w >= 0));
    for src in [[0u8, 255, 255, 0], [10, 20, 30, 40], [200, 100, 100, 201], [7, 7, 7, 250]] {
        let lo = *src.iter().min().unwrap();
        let hi = *src.iter().max().unwrap();
        for tier in TIERS {
            let back = there_and_back(tier, &src, &up, &down);
            assert!(back.iter().all(|c| lo <= *c && *c <= hi));
        }
    }
    let back = there_and_back(CpuExtensions::Scalar, &[0, 255, 255, 0], &up, &down);
    assert_eq!(back, vec![56, 199, 199, 56]);
}

#[test]
fn enlarging_and_reducing_keeps_an_image_of_one_colour() {
    let up = NormalizerGuard::for_u8(&doubling()).unwrap();
    let down = NormalizerGuard::for_u8(&box_coefficients(4, 2)).unwrap();
    let sharp_up = NormalizerGuard::for_u8(&coefficients(
        2,
        &[(0, &[1.25, -0.25]), (0, &[0.75, 0.25]), (0, &[0.25, 0.75]), (0, &[-0.25, 1.25])],
    ))
    .unwrap();
    let sharp_down = NormalizerGuard::for_u8(&coefficients(
        4,
        &[(0, &[-0.1, 0.6, 0.6, -0.1]), (0, &[-0.2, 0.1, 0.5, 0.6])],
    ))
    .unwrap();
    for v in [0u8, 1, 100, 127, 128, 254, 255] {
        for tier in TIERS {
            assert_eq!(there_and_back(tier, &[v; 4], &up, &down), vec![v; 4]);
            assert_eq!(there_and_back(tier, &[v; 4], &sharp_up, &sharp_down), vec![v; 4]);
        }
    }
    // With negative weights a pass can leave the range of its source.
    let overshoot = resize_u8(
        CpuExtensions::Scalar,
        PixelType::U8,
        &[100, 200, 100, 200],
        (2, 2),
        (4, 2),
        Some(&sharp_up),
        None,
    );
    assert_eq!(overshoot, Ok(vec![75, 125, 175, 225, 75, 125, 175, 225]));
}
