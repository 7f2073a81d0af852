use fixed_dsp::complex::{cmplx_mag_i16, cmplx_mag_i32};

fn sqrt_lut_q31() -> Vec<u32> {
    (0..24)
        .map(|k| {
            let x = ((k + 8) as f64 * 67_108_864.0) / 2_147_483_648.0;
            (268_435_456.0 / x.sqrt()).round() as u32
        })
        .collect()
}

#[test]
fn cmplx_mag_of_zero_is_zero() {
    let lut = sqrt_lut_q31();
    let input = [0_i16; 4];
    let mut out = [7_i16; 2];
    cmplx_mag_i16(&input, &mut out, &lut);
    assert_eq!(out, [0, 0]);
    let input = [0_i32; 2];
    let mut out = [7_i32; 1];
    cmplx_mag_i32(&input, &mut out, &lut);
    assert_eq!(out, [0]);
}

#[test]
fn cmplx_mag_i16_of_axis_values() {
    let lut = sqrt_lut_q31();
    // |0.5| = 0.5, which is 0x2000 in 2.14
    let input = [0x4000_i16, 0, 0, -0x4000, 0x3000, 0x4000];
    let mut out = [0_i16; 3];
    cmplx_mag_i16(&input, &mut out, &lut);
    // |0.375 + 0.5 i| = 0.625 -> 0x2800
    assert_eq!(out, [0x2000, 0x2000, 0x2800]);
}

#[test]
fn cmplx_mag_i32_of_axis_values() {
    let lut = sqrt_lut_q31();
    // |0.5| = 0.5, which is 0x2000_0000 in 2.30
    let input = [0x4000_0000_i32, 0, 0x3000_0000, 0x4000_0000];
    let mut out = [0_i32; 2];
    cmplx_mag_i32(&input, &mut out, &lut);
    assert_eq!(out, [0x2000_0000, 0x2800_0000]);
}

#[test]
fn cmplx_mag_ignores_swap_of_parts() {
    let lut = sqrt_lut_q31();
    let input = [0x1234_i16, -0x0567, -0x0567, 0x1234];
    let mut out = [0_i16; 2];
    cmplx_mag_i16(&input, &mut out, &lut);
    assert_eq!(out[0], out[1]);
    let input = [0x1234_5678_i32, -0x0567_8901, -0x0567_8901, 0x1234_5678];
    let mut out = [0_i32; 2];
    cmplx_mag_i32(&input, &mut out, &lut);
    assert_eq!(out[0], out[1]);
}
