use gumbel_estimation::gen_gumbel::{
    mantissa, mantissa_to_float_bits, recovered, shift_round, BIAS, MAX_REGISTER_VALUE,
    MIN_REGISTER_VALUE, ONE_BITS, UNIT,
};

fn uniform(bits: u32) -> f32 {
    f32::from_bits(mantissa_to_float_bits(bits)) - 1.0
}

fn quantile(q: f32) -> f32 {
    -f32::ln(-f32::ln(q))
}

fn float_shift_round(value: f32, c: f32) -> u32 {
    ((f32::floor(value + c).clamp(-16.0, 15.0) as i32) + 16) as u32
}

fn next(state: &mut u64) -> u32 {
    *state = state.wrapping_mul(6_364_136_223_846_793_005).wrapping_add(1_442_695_040_888_963_407);
    (*state >> 32) as u32
}

#[test]
fn constants_have_their_values() {
    assert_eq!(MIN_REGISTER_VALUE, -16);
    assert_eq!(MAX_REGISTER_VALUE, 15);
    assert_eq!(BIAS, 16);
    assert_eq!(UNIT, 1 << 23);
    assert_eq!(ONE_BITS, 1.0f32.to_bits());
}

#[test]
fn mantissa_is_the_23_high_bits() {
    assert_eq!(mantissa(0), 0);
    assert_eq!(mantissa(511), 0);
    assert_eq!(mantissa(512), 1);
    assert_eq!(mantissa(0x8000_0000), 0x40_0000);
    assert_eq!(mantissa(u32::MAX), 0x7f_ffff);
    assert_eq!(mantissa(0x1234_5678), 0x1234_5678 >> 9);
}

#[test]
fn float_bits_have_exponent_127() {
    assert_eq!(mantissa_to_float_bits(0), 0x3f80_0000);
    assert_eq!(mantissa_to_float_bits(511), 0x3f80_0000);
    assert_eq!(mantissa_to_float_bits(512), 0x3f80_0001);
    assert_eq!(mantissa_to_float_bits(u32::MAX), 0x3fff_ffff);
    assert_eq!(mantissa_to_float_bits(0x8000_0000), 0x3fc0_0000);
}

#[test]
fn float_bits_give_a_uniform_value_below_one() {
    assert_eq!(uniform(0), 0.0);
    assert_eq!(uniform(0x8000_0000), 0.5);
    assert_eq!(uniform(0x4000_0000), 0.25);
    assert_eq!(uniform(u32::MAX), 1.0 - 1.0 / 8_388_608.0);
    let mut state = 7u64;
    for _ in 0..10_000 {
        let bits = next(&mut state);
        let value = uniform(bits);
        assert!((0.0..1.0).contains(&value));
        assert_eq!(value, mantissa(bits) as f32 / UNIT as f32);
    }
}

#[test]
fn shift_round_clamps_and_adds_the_bias() {
    assert_eq!(shift_round(i32::MIN), 0);
    assert_eq!(shift_round(-1000), 0);
    assert_eq!(shift_round(-17), 0);
    assert_eq!(shift_round(-16), 0);
    assert_eq!(shift_round(-15), 1);
    assert_eq!(shift_round(-1), 15);
    assert_eq!(shift_round(0), 16);
    assert_eq!(shift_round(1), 17);
    assert_eq!(shift_round(3), 19);
    assert_eq!(shift_round(14), 30);
    assert_eq!(shift_round(15), 31);
    assert_eq!(shift_round(16), 31);
    assert_eq!(shift_round(i32::MAX), 31);
}

#[test]
fn shift_round_never_falls_as_the_level_rises() {
    let mut previous = shift_round(-40);
    for level in -39..=40 {
        let code = shift_round(level);
        assert!(code >= previous);
        assert!(code <= 31);
        previous = code;
    }
}

#[test]
fn shift_round_of_the_floor_is_the_code_of_the_variate() {
    let specials = [
        f32::NEG_INFINITY,
        f32::INFINITY,
        f32::NAN,
        -16.0,
        -16.5,
        -17.0,
        15.0,
        15.999,
        16.0,
        -0.0,
        0.0,
        1.0e30,
        -1.0e30,
    ];
    for value in specials {
        for c in [0.0f32, 0.25, 0.5, 0.999_999_9] {
            let level = f32::floor(value + c) as i32;
            assert_eq!(shift_round(level), float_shift_round(value, c));
        }
    }
    let mut state = 11u64;
    for _ in 0..20_000 {
        let value = quantile(uniform(next(&mut state)));
        let c = uniform(next(&mut state));
        let level = f32::floor(value + c) as i32;
        assert_eq!(shift_round(level), float_shift_round(value, c));
    }
}

#[test]
fn quantile_of_zero_gives_the_lowest_code() {
    let value = quantile(uniform(0));
    assert_eq!(value, f32::NEG_INFINITY);
    assert_eq!(shift_round(f32::floor(value + 0.5) as i32), 0);
}

#[test]
fn recovered_takes_bias_and_calibration_off() {
    assert_eq!(recovered(16, 0), 0);
    assert_eq!(recovered(17, 0), 8_388_608);
    assert_eq!(recovered(0, 0), -134_217_728);
    assert_eq!(recovered(31, 0), 125_829_120);
    assert_eq!(recovered(16, 1), -1);
    assert_eq!(recovered(17, 4_194_304), 4_194_304);
    assert_eq!(recovered(0, 8_388_607), -142_606_335);
    assert_eq!(recovered(31, 8_388_607), 117_440_513);
}

#[test]
fn recovered_is_the_float_level_times_unit() {
    let mut state = 3u64;
    for _ in 0..10_000 {
        let code = next(&mut state) % 32;
        let calibration = mantissa(next(&mut state));
        let c = calibration as f32 / UNIT as f32;
        let level = (code as i32 - 16) as f64 - c as f64;
        assert_eq!(recovered(code, calibration) as f64 / UNIT as f64, level);
    }
}
