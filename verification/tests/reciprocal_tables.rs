use fast_image_resize::alpha::common::{
    div_and_clip, div_and_clip16, mul_div_255, mul_div_65535, recip_alpha16_array,
    recip_alpha_array, PRECISION, PRECISION16,
};

#[test]
fn test_recip_alpha_array() {
    let table = recip_alpha_array(PRECISION);
    for alpha in 0..=255u8 {
        let expected = if alpha == 0 {
            0
        } else {
            let scale = (1 << PRECISION) as f64;
            (255.0 * scale / alpha as f64).round() as u32
        };

        let recip_alpha = table[alpha as usize];
        assert_eq!(expected, recip_alpha, "alpha {}", alpha);
    }
}

#[test]
fn test_div_and_clip() {
    let table = recip_alpha_array(PRECISION);
    let mut err_sum: i32 = 0;
    for alpha in 0..=255u8 {
        for color in 0..=255u8 {
            let expected_color = if alpha == 0 {
                0
            } else {
                let res = color as f64 / (alpha as f64 / 255.);
                res.round().min(255.) as u8
            };

            let recip_alpha = table[alpha as usize];
            let result_color = div_and_clip(color, recip_alpha);
            let delta = result_color as i32 - expected_color as i32;
            err_sum += delta.abs();
        }
    }
    assert_eq!(err_sum, 2512);
}

#[test]
fn test_recip_alpha16_array() {
    let table = recip_alpha16_array(PRECISION16);
    for alpha in 0..=0xffffu16 {
        let expected = if alpha == 0 {
            0
        } else {
            let scale = (1u64 << PRECISION16) as f64;
            (65535.0 * scale / alpha as f64).round() as u64
        };

        let recip_alpha = table[alpha as usize];
        assert_eq!(expected, recip_alpha, "alpha {}", alpha);
    }
}

#[test]
fn recip_alpha_spot_values() {
    let table = recip_alpha_array(PRECISION);
    assert_eq!(table[0], 0);
    assert_eq!(table[1], 65280);
    assert_eq!(table[2], 32640);
    assert_eq!(table[3], 21760);
    assert_eq!(table[128], 510);
    assert_eq!(table[255], 256);
}

#[test]
fn recip_alpha16_spot_values() {
    let table = recip_alpha16_array(PRECISION16);
    assert_eq!(table[0], 0);
    assert_eq!(table[1], 65535u64 << 33);
    assert_eq!(table[65535], 1u64 << 33);
    assert_eq!(table[3], 21845u64 << 33);
}

#[test]
fn recip_alpha_other_precision() {
    let table = recip_alpha_array(0);
    assert_eq!(table[1], 255);
    assert_eq!(table[2], 128);
    assert_eq!(table[255], 1);
    let table = recip_alpha_array(23);
    assert_eq!(table[255], 1 << 23);
}

#[test]
fn mul_div_255_rounds_to_nearest() {
    assert_eq!(mul_div_255(255, 128), 128);
    assert_eq!(mul_div_255(128, 128), 64);
    assert_eq!(mul_div_255(0, 128), 0);
    assert_eq!(mul_div_255(255, 255), 255);
    assert_eq!(mul_div_255(1, 127), 0);
    assert_eq!(mul_div_255(1, 128), 1);
    for a in 0..=255u32 {
        for b in 0..=255u32 {
            let expected = ((a * b) as f64 / 255.0).round() as u8;
            assert_eq!(mul_div_255(a as u8, b as u8), expected);
        }
    }
}

#[test]
fn mul_div_65535_rounds_to_nearest() {
    assert_eq!(mul_div_65535(65535, 65535), 65535);
    assert_eq!(mul_div_65535(65535, 32768), 32768);
    assert_eq!(mul_div_65535(1, 32767), 0);
    assert_eq!(mul_div_65535(1, 32768), 1);
    assert_eq!(mul_div_65535(40000, 20000), 12207);
    assert_eq!(mul_div_65535(0, 65535), 0);
}

#[test]
fn div_and_clip_clips_at_255() {
    assert_eq!(div_and_clip(128, 510), 255);
    assert_eq!(div_and_clip(64, 510), 128);
    assert_eq!(div_and_clip(200, 65280), 255);
    assert_eq!(div_and_clip(255, u32::MAX), 255);
    assert_eq!(div_and_clip(0, u32::MAX), 0);
    assert_eq!(div_and_clip(1, 127), 0);
    assert_eq!(div_and_clip(1, 128), 1);
}

#[test]
fn div_and_clip16_clips_at_65535() {
    let table = recip_alpha16_array(PRECISION16);
    assert_eq!(div_and_clip16(32768, table[32768]), 65535);
    assert_eq!(div_and_clip16(16384, table[32768]), 32768);
    assert_eq!(div_and_clip16(65535, table[1]), 65535);
    assert_eq!(div_and_clip16(65535, u64::MAX), 65535);
    assert_eq!(div_and_clip16(100, table[65535]), 100);
    assert_eq!(div_and_clip16(0, table[7]), 0);
}
