use fixed_dsp::basic::{
    cos_i16, cos_i32, div_i16, div_i32, dot_i16, dot_i32, mul_i16, mul_i32, offset_i16, offset_i32,
    scale_i16, scale_i32, shift_i16, shift_i32, sqrt_i16, sqrt_i32, vlog_i16, vlog_i32,
    vlog_i32_in_place,
};
use fixed_dsp::common::error::Error;

fn sqrt_lut_q15() -> Vec<u16> {
    (0..12)
        .map(|k| {
            let x = ((k + 4) * 2048) as f64 / 32768.0;
            (4096.0 / x.sqrt()).round() as u16
        })
        .collect()
}

fn sqrt_lut_q31() -> Vec<u32> {
    (0..24)
        .map(|k| {
            let x = ((k + 8) as f64 * 67_108_864.0) / 2_147_483_648.0;
            (268_435_456.0 / x.sqrt()).round() as u32
        })
        .collect()
}

fn sin_table_q15() -> Vec<u16> {
    (0..=512)
        .map(|i| {
            let v = (2.0 * std::f64::consts::PI * i as f64 / 512.0).sin() * 32768.0;
            (v.round().clamp(-32768.0, 32767.0) as i16) as u16
        })
        .collect()
}

fn sin_table_q31() -> Vec<u32> {
    (0..=512)
        .map(|i| {
            let v = (2.0 * std::f64::consts::PI * i as f64 / 512.0).sin() * 2_147_483_648.0;
            (v.round().clamp(-2_147_483_648.0, 2_147_483_647.0) as i32) as u32
        })
        .collect()
}

#[test]
fn dot_i16_basic() {
    let a = [0x4000_i16, 0x4000_i16]; // 0.5, 0.5
    let b = [0x4000_i16, 0x2000_i16]; // 0.5, 0.25

    let out = dot_i16(&a, &b);
    assert_eq!(out, 402_653_184);
}

#[test]
fn dot_i32_basic() {
    let a = [0x4000_0000_i32, 0x4000_0000_i32];
    let b = [0x4000_0000_i32, 0x2000_0000_i32];

    let out = dot_i32(&a, &b);
    let expected = (((0x4000_0000_i64 * 0x4000_0000_i64) >> 14)
        + ((0x4000_0000_i64 * 0x2000_0000_i64) >> 14)) as i64;
    assert_eq!(out, expected);
}

#[test]
fn mul_i16_basic_q15_scaling() {
    let a = [0x4000_i16, 0x4000_i16, -0x4000_i16]; // 0.5, 0.5, -0.5
    let b = [0x4000_i16, 0x2000_i16, 0x4000_i16]; // 0.5, 0.25, 0.5
    let mut out = [0_i16; 3];

    mul_i16(&a, &b, &mut out);

    assert_eq!(out, [0x2000, 0x1000, -0x2000]); // 0.25, 0.125, -0.25
}

#[test]
fn mul_i16_saturates_at_positive_limit() {
    let a = [i16::MIN];
    let b = [i16::MIN];
    let mut out = [0_i16; 1];

    mul_i16(&a, &b, &mut out);

    assert_eq!(out[0], i16::MAX);
}

#[test]
fn mul_i32_basic_q31_scaling() {
    let a = [0x4000_0000_i32, 0x4000_0000_i32, -0x4000_0000_i32]; // 0.5, 0.5, -0.5
    let b = [0x4000_0000_i32, 0x2000_0000_i32, 0x4000_0000_i32]; // 0.5, 0.25, 0.5
    let mut out = [0_i32; 3];

    mul_i32(&a, &b, &mut out);

    assert_eq!(out, [0x2000_0000, 0x1000_0000, -0x2000_0000]);
}

#[test]
fn mul_i32_saturates_at_positive_limit() {
    let a = [i32::MIN];
    let b = [i32::MIN];
    let mut out = [0_i32; 1];

    mul_i32(&a, &b, &mut out);

    assert_eq!(out[0], i32::MAX);
}

#[test]
fn scale_i16_in_place_changes_buffer() {
    let mut data = [0x4000_i16, -0x4000_i16, 0x2000_i16];
    scale_i16(&mut data, 0x4000, 0);
    assert_eq!(data, [0x2000, -0x2000, 0x1000]);
}

#[test]
fn scale_i32_in_place_changes_buffer() {
    let mut data = [0x4000_0000_i32, -0x4000_0000_i32, 0x2000_0000_i32];
    scale_i32(&mut data, 0x4000_0000, 0);
    assert_eq!(data, [0x2000_0000, -0x2000_0000, 0x1000_0000]);
}

#[test]
fn sqrt_q15_handles_sign_and_zero() {
    let lut = sqrt_lut_q15();
    assert_eq!(sqrt_i16(-1, &lut), Err(Error::NanInf));
    assert_eq!(sqrt_i16(0, &lut), Ok(0));
}

#[test]
fn sqrt_q31_handles_sign_and_zero() {
    let lut = sqrt_lut_q31();
    assert_eq!(sqrt_i32(-1, &lut), Err(Error::NanInf));
    assert_eq!(sqrt_i32(0, &lut), Ok(0));
}

#[test]
fn sqrt_i16_approximates_root() {
    let lut = sqrt_lut_q15();
    // sqrt(0.25) = 0.5, sqrt(0.5) ~ 0.70711, sqrt(1/64) = 1/8
    assert_eq!(sqrt_i16(0x2000, &lut), Ok(0x4000));
    assert_eq!(sqrt_i16(0x4000, &lut), Ok(23_172));
    assert_eq!(sqrt_i16(0x0200, &lut), Ok(4096));
    assert_eq!(sqrt_i16(1, &lut), Ok(181));
    assert_eq!(sqrt_i16(i16::MAX, &lut), Ok(i16::MAX));
}

#[test]
fn sqrt_i32_approximates_root() {
    let lut = sqrt_lut_q31();
    assert_eq!(sqrt_i32(0x2000_0000, &lut), Ok(0x4000_0000));
    assert_eq!(sqrt_i32(0x4000_0000, &lut), Ok(1_518_500_248));
    assert_eq!(sqrt_i32(0x0800_0000, &lut), Ok(0x2000_0000));
    assert_eq!(sqrt_i32(i32::MAX, &lut), Ok(i32::MAX));
    assert_eq!(sqrt_i32(i32::MIN, &lut), Err(Error::NanInf));
}

#[test]
fn offset_saturates_both_ways() {
    let mut a = [32_000_i16, -32_000, 5];
    offset_i16(&mut a, 1000);
    assert_eq!(a, [32_767, -31_000, 1005]);
    let mut b = [32_000_i16, -32_000, 5];
    offset_i16(&mut b, -1000);
    assert_eq!(b, [31_000, -32_768, -995]);
    let mut c = [i32::MAX - 1, i32::MIN + 1, 0];
    offset_i32(&mut c, 10);
    assert_eq!(c, [i32::MAX, i32::MIN + 11, 10]);
}

#[test]
fn offset_by_zero_keeps_samples() {
    let mut a = [i16::MIN, -1, 0, 1, i16::MAX];
    offset_i16(&mut a, 0);
    assert_eq!(a, [i16::MIN, -1, 0, 1, i16::MAX]);
}

#[test]
fn shift_left_saturates_and_right_floors() {
    let mut a = [0x4000_i16, -3, 1];
    shift_i16(&mut a, 1);
    assert_eq!(a, [i16::MAX, -6, 2]);
    let mut b = [0x4000_i16, -3, 1];
    shift_i16(&mut b, -1);
    assert_eq!(b, [0x2000, -2, 0]);
    let mut c = [0x4000_0000_i32, -0x4000_0001, 7];
    shift_i32(&mut c, 1);
    assert_eq!(c, [i32::MAX, i32::MIN, 14]);
    let mut d = [0x4000_0000_i32, -5, 7];
    shift_i32(&mut d, -2);
    assert_eq!(d, [0x1000_0000, -2, 1]);
}

#[test]
fn scale_with_shift() {
    let mut a = [0x4000_i16, 0x7fff];
    scale_i16(&mut a, 0x4000, 1);
    assert_eq!(a, [0x4000, 0x7fff]);
    let mut b = [0x4000_i16];
    scale_i16(&mut b, 0x7fff, 2);
    assert_eq!(b, [0x7fff]);
}

#[test]
fn div_by_zero_is_nan_inf() {
    assert_eq!(div_i16(1, 0), Err(Error::NanInf));
    assert_eq!(div_i32(-1, 0), Err(Error::NanInf));
}

#[test]
fn div_normalizes_quotient() {
    // 0.5 / 0.5 = 1.0 = 0.5 * 2^1
    assert_eq!(div_i16(0x4000, 0x4000), Ok((0x4000, 1)));
    // 0.25 / 0.5 = 0.5
    assert_eq!(div_i16(0x2000, 0x4000), Ok((0x4000, 0)));
    assert_eq!(div_i16(-0x2000, 0x4000), Ok((-0x4000, 0)));
    assert_eq!(div_i32(0x2000_0000, 0x4000_0000), Ok((0x4000_0000, 0)));
    assert_eq!(div_i32(0x4000_0000, -0x4000_0000), Ok((-0x4000_0000, 1)));
}

#[test]
fn vlog_matches_reference_values() {
    let input = [0x4000_i16, 0x7fff, 1, 0];
    let mut out = [0_i16; 4];
    vlog_i16(&input, &mut out);
    assert_eq!(out, [-1420, -1, -21294, -22713]);

    let input = [0x4000_0000_i32, 0x7fff_ffff, 0];
    let mut out = [0_i32; 3];
    vlog_i32(&input, &mut out);
    assert_eq!(out, [-46_516_320, -1, -1_488_522_235]);

    let mut data = [0x4000_0000_i32, 0x7fff_ffff, 0];
    vlog_i32_in_place(&mut data);
    assert_eq!(data, out);
}

#[test]
fn cos_at_quarter_points() {
    let t16 = sin_table_q15();
    assert_eq!(cos_i16(0, &t16), 32_766);
    assert_eq!(cos_i16(0x4000, &t16), -32_768);
    assert!(cos_i16(0x2000, &t16).abs() <= 2);
    let t32 = sin_table_q31();
    assert_eq!(cos_i32(0, &t32), 2_147_483_646);
    assert!(cos_i32(0x2000_0000, &t32).abs() <= 4);
}

#[test]
fn cos_interpolates_between_entries() {
    let t16 = sin_table_q15();
    // an angle halfway between two table entries
    let x = 0x0020_i16;
    let expected = (2.0 * std::f64::consts::PI * (x as f64) / 32768.0).cos() * 32768.0;
    assert!((cos_i16(x, &t16) as f64 - expected).abs() <= 4.0);
}

#[test]
fn mul_commutes_on_samples() {
    let a = [0x1234_i16, -0x4000, i16::MIN, 7];
    let b = [-0x0321_i16, 0x7fff, i16::MIN, -9];
    let mut ab = [0_i16; 4];
    let mut ba = [0_i16; 4];
    mul_i16(&a, &b, &mut ab);
    mul_i16(&b, &a, &mut ba);
    assert_eq!(ab, ba);
}

#[test]
fn dot_commutes_on_samples() {
    let a = [0x1234_i16, -0x4000, i16::MIN, 7];
    let b = [-0x0321_i16, 0x7fff, i16::MIN, -9];
    assert_eq!(dot_i16(&a, &b), dot_i16(&b, &a));
    let c = [i32::MIN, 0x1234_5678, -3];
    let d = [i32::MAX, -0x0765_4321, 99];
    assert_eq!(dot_i32(&c, &d), dot_i32(&d, &c));
}

#[test]
fn mul_stops_at_shortest_slice() {
    let a = [0x4000_i16, 0x4000];
    let b = [0x4000_i16];
    let mut out = [9_i16; 3];
    mul_i16(&a, &b, &mut out);
    assert_eq!(out, [0x2000, 9, 9]);
}

#[test]
fn vlog_i16_never_decreases_on_non_negative_samples() {
    let input: Vec<i16> = (0..=i16::MAX).collect();
    let mut out = vec![0_i16; input.len()];
    vlog_i16(&input, &mut out);
    for k in 1..out.len() {
        assert!(out[k - 1] <= out[k], "{k}: {} > {}", out[k - 1], out[k]);
    }
}
