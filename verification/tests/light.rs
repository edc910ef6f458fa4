use lightboard::light::{
    byte_of_level, clamp, level_of_byte, level_of_single, low_byte, mix_intensity, scale_level,
    Color, BYTE_STEP, FULL,
};

fn unit(level: u32) -> f32 {
    level as f32 / FULL as f32
}

fn color(r: f32, g: f32, b: f32) -> Color {
    Color::from_singles(r.to_bits(), g.to_bits(), b.to_bits())
}

#[test]
fn test_color_creation_limits_values() {
    let c = color(-0.5, 1.5, f32::NAN);
    assert_eq!(0.0, unit(c.r()));
    assert_eq!(1.0, unit(c.g()));
    assert_eq!(0.0, unit(c.b()));
}

#[test]
fn test_create_color_from_u32() {
    let c: Color = 0x00FF80.into();
    assert_eq!(0.0, unit(c.r()));
    assert_eq!(1.0, unit(c.g()));
    assert_eq!(0.5019608, unit(c.b()));
}

#[test]
fn test_adding_colors() {
    let c0 = color(0.1, 0.2, 0.3);
    let c1 = color(0.2, 0.3, 0.4);
    let c2 = c0 + c1;
    assert!((0.3 - unit(c2.r())).abs() < 0.0001);
    assert!((0.5 - unit(c2.g())).abs() < 0.0001);
    assert!((0.7 - unit(c2.b())).abs() < 0.0001);
}

#[test]
fn new_clamps_levels_from_both_sides() {
    let c = Color::new(-1, 70_000, 1234);
    assert_eq!((0, FULL, 1234), (c.r(), c.g(), c.b()));
    let d = Color::new(i64::MIN, i64::MAX, 0);
    assert_eq!((0, FULL, 0), (d.r(), d.g(), d.b()));
    let e = Color::new(FULL as i64, FULL as i64 + 1, -0);
    assert_eq!((FULL, FULL, 0), (e.r(), e.g(), e.b()));
}

#[test]
fn clamp_keeps_what_is_in_range() {
    assert_eq!(0, clamp(0));
    assert_eq!(1, clamp(1));
    assert_eq!(FULL, clamp(65_535));
    assert_eq!(FULL, clamp(65_536));
    assert_eq!(0, clamp(-65_535));
}

#[test]
fn black_is_dark() {
    let c = Color::black();
    assert_eq!((0, 0, 0), (c.r(), c.g(), c.b()));
    assert_eq!(Color::new(0, 0, 0), c);
}

#[test]
fn color_from_int_reads_each_byte() {
    let c = Color::from(0x12_34_56);
    assert_eq!(0x12 * BYTE_STEP, c.r());
    assert_eq!(0x34 * BYTE_STEP, c.g());
    assert_eq!(0x56 * BYTE_STEP, c.b());
    let white = Color::from(0xff_ff_ff);
    assert_eq!((FULL, FULL, FULL), (white.r(), white.g(), white.b()));
}

#[test]
fn color_from_int_ignores_the_high_byte_and_takes_negative_numbers() {
    assert_eq!(Color::from(0x00_ab_cd_ef), Color::from(0x7f_ab_cd_ef));
    let c = Color::from(-1);
    assert_eq!((FULL, FULL, FULL), (c.r(), c.g(), c.b()));
    let d = Color::from(i32::MIN);
    assert_eq!((0, 0, 0), (d.r(), d.g(), d.b()));
    let e = Color::from(-256);
    assert_eq!((FULL, FULL, 0), (e.r(), e.g(), e.b()));
}

#[test]
fn low_byte_takes_bit_fields() {
    assert_eq!(0x56, low_byte(0x12_34_56, 0));
    assert_eq!(0x34, low_byte(0x12_34_56, 1));
    assert_eq!(0x12, low_byte(0x12_34_56, 2));
    assert_eq!(0xfe, low_byte(-2, 0));
    assert_eq!(0xff, low_byte(-2, 1));
    assert_eq!(0xff, low_byte(-2, 2));
}

#[test]
fn adding_is_commutative_and_clamped() {
    let a = Color::new(60_000, 10, 0);
    let b = Color::new(10_000, 20, FULL as i64);
    let ab = a + b;
    let ba = b + a;
    assert_eq!(ab, ba);
    assert_eq!((FULL, 30, FULL), (ab.r(), ab.g(), ab.b()));
}

#[test]
fn scale_weights_and_rounds_down() {
    let mut c = Color::new(FULL as i64, 257, 3);
    c.scale(FULL);
    assert_eq!((FULL, 257, 3), (c.r(), c.g(), c.b()));
    c.scale(FULL / 2);
    assert_eq!((32_767, 128, 1), (c.r(), c.g(), c.b()));
    c.scale(0);
    assert_eq!(Color::black(), c);
}

#[test]
fn scale_above_full_is_clamped() {
    let mut c = Color::new(40_000, 1, 0);
    c.scale(2 * FULL);
    assert_eq!((FULL, 2, 0), (c.r(), c.g(), c.b()));
    let mut d = Color::new(FULL as i64, FULL as i64, FULL as i64);
    d.scale(u32::MAX);
    assert_eq!((FULL, FULL, FULL), (d.r(), d.g(), d.b()));
    assert_eq!(FULL, scale_level(u32::MAX, u32::MAX));
    assert_eq!(21_845, scale_level(FULL, 21_845));
    assert_eq!(10, scale_level(21, 32_768));
}

#[test]
fn bytes_and_levels_round_trip() {
    for byte in 0..=255u8 {
        assert_eq!(byte as u32 * 257, level_of_byte(byte));
        assert_eq!(byte, byte_of_level(level_of_byte(byte)));
    }
    assert_eq!(0, byte_of_level(256));
    assert_eq!(1, byte_of_level(257));
    assert_eq!(254, byte_of_level(FULL - 1));
    assert_eq!(255, byte_of_level(FULL));
    assert_eq!(255, byte_of_level(FULL + 1));
    assert_eq!(255, byte_of_level(u32::MAX));
}

#[test]
fn packing_a_color_and_reading_it_back_stays_within_a_byte_step() {
    let levels = [0u32, 1, 256, 257, 258, 30_000, 65_278, 65_534, 65_535];
    for &r in levels.iter() {
        for &g in levels.iter() {
            let c = Color::new(r as i64, g as i64, 12_345);
            let back = Color::from(c.to_rgb_hex());
            assert!(back.r() <= c.r() && c.r() - back.r() < BYTE_STEP);
            assert!(back.g() <= c.g() && c.g() - back.g() < BYTE_STEP);
            assert!(back.b() <= c.b() && c.b() - back.b() < BYTE_STEP);
            assert_eq!(c.to_rgb_hex(), back.to_rgb_hex());
        }
    }
    assert_eq!(0x00_ff_80, Color::from(0x00_ff_80).to_rgb_hex());
    assert_eq!(0x00_00_30, Color::new(0, 256, 12_345).to_rgb_hex());
}

#[test]
fn mix_intensity_adds_the_weighted_low_byte() {
    assert_eq!(FULL, mix_intensity(0, 0xff, FULL));
    assert_eq!(128 * 257, mix_intensity(0, 0x12_34_80, FULL));
    assert_eq!(100 + 64 * 257 / 2, mix_intensity(100, 0x40, 32_768) + 0);
    assert_eq!(100, mix_intensity(100, 0xff, 0));
    assert_eq!(2 * FULL, mix_intensity(FULL, -1, FULL));
    assert_eq!(u32::MAX, mix_intensity(u32::MAX - 5, 0xff, FULL));
    assert_eq!(u32::MAX, mix_intensity(7, 0xff, u32::MAX));
}

#[test]
fn level_of_single_clamps_and_scales() {
    assert_eq!(0, level_of_single(0.0f32.to_bits()));
    assert_eq!(0, level_of_single((-0.0f32).to_bits()));
    assert_eq!(FULL, level_of_single(1.0f32.to_bits()));
    assert_eq!(FULL, level_of_single(2.5f32.to_bits()));
    assert_eq!(FULL, level_of_single(f32::INFINITY.to_bits()));
    assert_eq!(FULL, level_of_single(f32::MAX.to_bits()));
    assert_eq!(0, level_of_single(f32::NEG_INFINITY.to_bits()));
    assert_eq!(0, level_of_single((-1.0f32).to_bits()));
    assert_eq!(0, level_of_single(f32::NAN.to_bits()));
    assert_eq!(0, level_of_single(0x7fc0_0001));
    assert_eq!(0, level_of_single(0xffc0_0000));
    assert_eq!(0, level_of_single(f32::MIN_POSITIVE.to_bits()));
    assert_eq!(0, level_of_single(1));
    assert_eq!(32_767, level_of_single(0.5f32.to_bits()));
    assert_eq!(16_383, level_of_single(0.25f32.to_bits()));
    assert_eq!(49_151, level_of_single(0.75f32.to_bits()));
    assert_eq!(FULL - 1, level_of_single(0x3f7f_ffff));
    assert_eq!(1, level_of_single((1.0f32 / 65_535.0 * 1.5).to_bits()));
    assert_eq!(0, level_of_single((1.0f32 / 65_536.0).to_bits()));
}

#[test]
fn level_of_single_agrees_with_the_product_rounded_down() {
    let mut x = 0.0f64;
    while x < 1.0 {
        let single = x as f32;
        let exact = (single as f64 * 65_535.0).floor() as u32;
        assert_eq!(exact.min(FULL), level_of_single(single.to_bits()), "{}", x);
        x += 0.000_37;
    }
}
