use fixed_dsp::basic::{div_i16, scale_i16};
use fixed_dsp::statistics::absmax_i16;
use fixed_dsp::transform::bitreversal::{bitreversal_i16, bitreversal_i32};
use fixed_dsp::transform::cfft::{CfftI16, CfftI32};
use fixed_dsp::transform::mfcc::{MfccI16, MfccI32};
use fixed_dsp::transform::radix2::{radix2_butterfly_i16, radix2_butterfly_inverse_i16};
use fixed_dsp::transform::radix4::{
    radix4_butterfly_i16, radix4_butterfly_i32, radix4_butterfly_inverse_i16,
    radix4_butterfly_inverse_i32,
};
use fixed_dsp::transform::rfft::{RfftI16, RfftI32};
use std::f64::consts::PI;

fn q15(x: f64) -> u16 {
    ((x * 32768.0).round().clamp(-32768.0, 32767.0) as i16) as u16
}

fn q31(x: f64) -> u32 {
    ((x * 2_147_483_648.0).round().clamp(-2_147_483_648.0, 2_147_483_647.0) as i32) as u32
}

fn twiddle_q15(n: usize) -> Vec<u16> {
    let mut t = Vec::new();
    for i in 0..(3 * n / 4) {
        let a = 2.0 * PI * i as f64 / n as f64;
        t.push(q15(a.cos()));
        t.push(q15(a.sin()));
    }
    t
}

fn twiddle_q31(n: usize) -> Vec<u32> {
    let mut t = Vec::new();
    for i in 0..(3 * n / 4) {
        let a = 2.0 * PI * i as f64 / n as f64;
        t.push(q31(a.cos()));
        t.push(q31(a.sin()));
    }
    t
}

fn real_coef_q15() -> (Vec<u16>, Vec<u16>) {
    let mut a = Vec::new();
    let mut b = Vec::new();
    for i in 0..4096 {
        let w = 2.0 * PI * i as f64 / 8192.0;
        a.push(q15(0.5 * (1.0 - w.sin())));
        a.push(q15(0.5 * (-w.cos())));
        b.push(q15(0.5 * (1.0 + w.sin())));
        b.push(q15(0.5 * w.cos()));
    }
    (a, b)
}

fn real_coef_q31() -> (Vec<u32>, Vec<u32>) {
    let mut a = Vec::new();
    let mut b = Vec::new();
    for i in 0..4096 {
        let w = 2.0 * PI * i as f64 / 8192.0;
        a.push(q31(0.5 * (1.0 - w.sin())));
        a.push(q31(0.5 * (-w.cos())));
        b.push(q31(0.5 * (1.0 + w.sin())));
        b.push(q31(0.5 * w.cos()));
    }
    (a, b)
}

fn sqrt_lut_q31() -> Vec<u32> {
    (0..24)
        .map(|k| {
            let x = ((k + 8) as f64 * 67_108_864.0) / 2_147_483_648.0;
            (268_435_456.0 / x.sqrt()).round() as u32
        })
        .collect()
}

fn bit_rev(mut c: usize, bits: usize) -> usize {
    let mut r = 0;
    for _ in 0..bits {
        r = (r << 1) | (c & 1);
        c >>= 1;
    }
    r
}

#[test]
fn bitreversal_swaps_mirrored_indices() {
    let orig: Vec<i16> = (0..32).collect();
    let mut data = orig.clone();
    bitreversal_i16(&mut data, 16);
    for p in 0..16 {
        let q = bit_rev(p, 4);
        assert_eq!(data[2 * p], orig[2 * q]);
        assert_eq!(data[2 * p + 1], orig[2 * q + 1]);
    }
    assert_eq!(data[2], 16);
}

#[test]
fn bitreversal_twice_is_identity() {
    let orig: Vec<i32> = (0..128).map(|k| k * 1_000_003 - 7).collect();
    let mut data = orig.clone();
    bitreversal_i32(&mut data, 64);
    assert_ne!(data, orig);
    bitreversal_i32(&mut data, 64);
    assert_eq!(data, orig);
}

fn assert_flat_i16(data: &[i16], re: i32, tol: i32) {
    for k in 0..data.len() / 2 {
        assert!((data[2 * k] as i32 - re).abs() <= tol, "bin {k}: {:?}", data);
        assert!((data[2 * k + 1] as i32).abs() <= tol, "bin {k}: {:?}", data);
    }
}

fn assert_flat_i32(data: &[i32], re: i64, tol: i64) {
    for k in 0..data.len() / 2 {
        assert!((data[2 * k] as i64 - re).abs() <= tol, "bin {k}: {:?}", data);
        assert!((data[2 * k + 1] as i64).abs() <= tol, "bin {k}: {:?}", data);
    }
}

#[test]
fn cfft_i16_of_impulse_is_flat() {
    for &n in &[16usize, 32, 64, 128] {
        let tw = twiddle_q15(n);
        let mut data = vec![0_i16; 2 * n];
        data[0] = 0x4000;
        CfftI16::new(n, false, true, &tw).run(&mut data);
        assert_flat_i16(&data, 0x4000 / n as i32, 4);
        let mut data = vec![0_i16; 2 * n];
        data[0] = 0x4000;
        CfftI16::new(n, true, true, &tw).run(&mut data);
        assert_flat_i16(&data, 0x4000 / n as i32, 4);
    }
}

#[test]
fn cfft_i16_of_constant_is_a_single_bin() {
    let n = 16;
    let tw = twiddle_q15(n);
    let mut data = vec![0_i16; 2 * n];
    for k in 0..n {
        data[2 * k] = 0x0800;
    }
    CfftI16::new(n, false, true, &tw).run(&mut data);
    assert!((data[0] as i32 - 0x0800).abs() <= 4, "{data:?}");
    for k in 1..n {
        assert!((data[2 * k] as i32).abs() <= 4, "{data:?}");
        assert!((data[2 * k + 1] as i32).abs() <= 4, "{data:?}");
    }
}

#[test]
fn cfft_i32_of_impulse_is_flat() {
    for &n in &[16usize, 32, 64] {
        let tw = twiddle_q31(n);
        let mut data = vec![0_i32; 2 * n];
        data[0] = 0x4000_0000;
        CfftI32::new(n, false, true, &tw).run(&mut data);
        assert_flat_i32(&data, 0x4000_0000 / n as i64, 64);
    }
}

fn assert_same_bins_i16(data: &[i16], tol: i32) {
    let re = data[0] as i32;
    assert!(re > 0, "{data:?}");
    assert_flat_i16(data, re, tol);
}

#[test]
fn radix4_kernels_spread_an_impulse() {
    let n = 16;
    let tw = twiddle_q15(n);
    let mut data = vec![0_i16; 2 * n];
    data[0] = 0x4000;
    radix4_butterfly_i16(&mut data, n, &tw, 1);
    assert_flat_i16(&data, 0x4000 / 16, 4);
    let mut data = vec![0_i16; 2 * n];
    data[0] = 0x4000;
    radix4_butterfly_inverse_i16(&mut data, n, &tw, 1);
    assert_flat_i16(&data, 0x4000 / 16, 4);

    let tw = twiddle_q31(n);
    let mut data = vec![0_i32; 2 * n];
    data[0] = 0x4000_0000;
    radix4_butterfly_i32(&mut data, n, &tw, 1);
    assert_flat_i32(&data, 0x0400_0000, 64);
    let mut data = vec![0_i32; 2 * n];
    data[0] = 0x4000_0000;
    radix4_butterfly_inverse_i32(&mut data, n, &tw, 1);
    assert_flat_i32(&data, 0x0400_0000, 64);
}

#[test]
fn radix2_kernels_spread_an_impulse() {
    let n = 8;
    let tw = twiddle_q15(n);
    let mut data = vec![0_i16; 2 * n];
    data[0] = 0x4000;
    radix2_butterfly_i16(&mut data, n, &tw, 1);
    assert_same_bins_i16(&data, 4);
    let mut data = vec![0_i16; 2 * n];
    data[0] = 0x4000;
    radix2_butterfly_inverse_i16(&mut data, n, &tw, 1);
    assert_same_bins_i16(&data, 4);
}

#[test]
fn rfft_i16_spectrum_is_conjugate_symmetric() {
    let n_real = 64;
    let tw = twiddle_q15(n_real / 2);
    let (a, b) = real_coef_q15();
    let input: Vec<i16> = (0..n_real)
        .map(|k| ((k as i32 * 1237 + 345) % 20000 - 10000) as i16)
        .collect();
    let mut out = vec![0_i16; 2 * n_real];
    RfftI16::new(n_real, false, true, &a, &b, &tw).run(&input, &mut out);
    let n = n_real / 2;
    assert_eq!(out[1], 0);
    assert_eq!(out[2 * n + 1], 0);
    for i in 1..n {
        assert_eq!(out[4 * n - 2 * i], out[2 * i]);
        assert_eq!(out[4 * n - 2 * i + 1], out[2 * i + 1].wrapping_neg());
    }
}

#[test]
fn rfft_i32_spectrum_is_conjugate_symmetric() {
    let n_real = 32;
    let tw = twiddle_q31(n_real / 2);
    let (a, b) = real_coef_q31();
    let input: Vec<i32> = (0..n_real)
        .map(|k| (k as i32 * 123_456_789).wrapping_add(987_654_321) >> 3)
        .collect();
    let mut out = vec![0_i32; 2 * n_real];
    RfftI32::new(n_real, false, true, &a, &b, &tw).run(&input, &mut out);
    let n = n_real / 2;
    assert_eq!(out[1], 0);
    assert_eq!(out[2 * n + 1], 0);
    for i in 1..n {
        assert_eq!(out[4 * n - 2 * i], out[2 * i]);
        assert_eq!(out[4 * n - 2 * i + 1], out[2 * i + 1].wrapping_neg());
    }
}

#[test]
fn rfft_i16_of_constant_has_only_dc() {
    let n_real = 32;
    let tw = twiddle_q15(n_real / 2);
    let (a, b) = real_coef_q15();
    let input = vec![0x1000_i16; n_real];
    let mut out = vec![0_i16; 2 * n_real];
    RfftI16::new(n_real, false, true, &a, &b, &tw).run(&input, &mut out);
    assert!(out[0] > 0x40, "{out:?}");
    for k in 1..n_real {
        assert!((out[2 * k] as i32).abs() <= 4, "{out:?}");
        assert!((out[2 * k + 1] as i32).abs() <= 4, "{out:?}");
    }
}

#[test]
fn rfft_inverse_returns_real_samples() {
    let n_real = 32;
    let tw = twiddle_q15(n_real / 2);
    let (a, b) = real_coef_q15();
    let spectrum = vec![0_i16; 2 * n_real];
    let mut out = vec![5_i16; n_real];
    RfftI16::new(n_real, true, true, &a, &b, &tw).run(&spectrum, &mut out);
    assert_eq!(out, vec![0_i16; n_real]);

    let tw = twiddle_q31(n_real / 2);
    let (a, b) = real_coef_q31();
    let spectrum = vec![0_i32; 2 * n_real];
    let mut out = vec![5_i32; n_real];
    RfftI32::new(n_real, true, true, &a, &b, &tw).run(&spectrum, &mut out);
    assert_eq!(out, vec![0_i32; n_real]);
}

struct MelSetup {
    dct16: Vec<u16>,
    dct32: Vec<u32>,
    filter16: Vec<u16>,
    filter32: Vec<u32>,
    pos: Vec<u16>,
    len: Vec<u16>,
    window16: Vec<u16>,
    window32: Vec<u32>,
}

fn mel_setup(n_fft: usize) -> MelSetup {
    // two mel filters of three bins each, identity DCT, rectangular window
    MelSetup {
        dct16: vec![0x7fff, 0, 0, 0x7fff],
        dct32: vec![0x7fff_ffff, 0, 0, 0x7fff_ffff],
        filter16: vec![0x4000; 6],
        filter32: vec![0x4000_0000; 6],
        pos: vec![1, 4],
        len: vec![3, 3],
        window16: vec![0xffff; n_fft],
        window32: vec![0xffff_ffff; n_fft],
    }
}

#[test]
fn mfcc_i16_of_silence() {
    let n_fft = 32;
    let s = mel_setup(n_fft);
    let tw = twiddle_q15(n_fft / 2);
    let (a, b) = real_coef_q15();
    let lut = sqrt_lut_q31();
    let mfcc = MfccI16::new(
        n_fft, 2, 2, &s.dct16, &s.filter16, &s.pos, &s.len, &s.window16, &a, &b, &tw, &lut,
    );
    let mut input = vec![0_i16; n_fft];
    let mut output = vec![0_i16; 2];
    let mut tmp = vec![77_i32; n_fft + 3];
    mfcc.run(&mut input, &mut output, &mut tmp);
    assert_eq!(&input[..2], &[-1331, -1331]);
    assert_eq!(&tmp[..2], &[-1331, -1331]);
    // the rest of the spectrum scratch: a silent frame has a zero spectrum
    assert!(tmp[2..n_fft].iter().all(|&v| v == 0));
    assert_eq!(&tmp[n_fft..], &[77, 77, 77]);
    assert_eq!(output, vec![-1331, -1331]);
}

#[test]
fn mfcc_i32_of_silence() {
    let n_fft = 32;
    let s = mel_setup(n_fft);
    let tw = twiddle_q31(n_fft / 2);
    let (a, b) = real_coef_q31();
    let lut = sqrt_lut_q31();
    let mfcc = MfccI32::new(
        n_fft, 2, 2, &s.dct32, &s.filter32, &s.pos, &s.len, &s.window32, &a, &b, &tw, &lut,
    );
    let mut input = vec![0_i32; n_fft];
    let mut output = vec![0_i32; 2];
    let mut tmp = vec![0_i32; 2 * n_fft];
    mfcc.run(&mut input, &mut output, &mut tmp);
    assert_eq!(&tmp[..2], &[-87_218_100, -87_218_100]);
    assert_eq!(output, vec![-87_218_100, -87_218_100]);
    assert_eq!(input, vec![0_i32; n_fft]);
}

#[test]
fn mfcc_i16_keeps_its_buffers_consistent() {
    let n_fft = 64;
    let s = mel_setup(n_fft);
    let tw = twiddle_q15(n_fft / 2);
    let (a, b) = real_coef_q15();
    let lut = sqrt_lut_q31();
    let mfcc = MfccI16::new(
        n_fft, 2, 2, &s.dct16, &s.filter16, &s.pos, &s.len, &s.window16, &a, &b, &tw, &lut,
    );
    let frame: Vec<i16> = (0..n_fft)
        .map(|k| ((2.0 * PI * 5.0 * k as f64 / n_fft as f64).sin() * 8000.0) as i16)
        .collect();
    let mut input = frame.clone();
    let mut output = vec![0_i16; 3];
    let mut tmp = vec![77_i32; n_fft];
    mfcc.run(&mut input, &mut output, &mut tmp);
    for k in 0..2 {
        assert_eq!(input[k] as i32, tmp[k].clamp(-32768, 32767));
    }
    // past the mel energies, `tmp` holds the spectrum of the normalized and
    // windowed frame, two samples per word in little-endian order
    let (peak, _) = absmax_i16(&frame, n_fft);
    let (q, sh) = div_i16(i16::MAX, peak).unwrap();
    let mut windowed = frame.clone();
    scale_i16(&mut windowed, q, sh as i8);
    for k in 0..n_fft {
        let v = (windowed[k] as i32 * 0xffff) >> 15;
        windowed[k] = v.clamp(-32768, 32767) as i16;
    }
    let mut spectrum = vec![0_i16; 2 * n_fft];
    RfftI16::new(n_fft, false, true, &a, &b, &tw).run(&windowed, &mut spectrum);
    for k in 2..n_fft {
        let lo = spectrum[2 * k].to_le_bytes();
        let hi = spectrum[2 * k + 1].to_le_bytes();
        assert_eq!(tmp[k], i32::from_le_bytes([lo[0], lo[1], hi[0], hi[1]]));
    }
    // with the identity DCT the coefficients are the saturated log energies, rescaled
    for k in 0..2 {
        let expected = ((input[k] as i64 * 0x7fff) >> 15) as i16;
        assert_eq!(output[k], expected);
    }
    assert_eq!(output[2], 0);
    // a second run on the same frame gives the same result
    let mut input2 = frame.clone();
    let mut output2 = vec![0_i16; 3];
    let mut tmp2 = vec![77_i32; n_fft];
    mfcc.run(&mut input2, &mut output2, &mut tmp2);
    assert_eq!(output, output2);
}

#[test]
fn mfcc_i32_leaves_short_output_alone() {
    let n_fft = 32;
    let s = mel_setup(n_fft);
    let tw = twiddle_q31(n_fft / 2);
    let (a, b) = real_coef_q31();
    let lut = sqrt_lut_q31();
    let mfcc = MfccI32::new(
        n_fft, 2, 2, &s.dct32, &s.filter32, &s.pos, &s.len, &s.window32, &a, &b, &tw, &lut,
    );
    let mut input: Vec<i32> = (0..n_fft as i32).map(|k| k * 40_000_000 - 600_000_000).collect();
    let mut output = vec![3_i32; 1];
    let mut tmp = vec![0_i32; 2 * n_fft + 4];
    mfcc.run(&mut input, &mut output, &mut tmp);
    assert_eq!(output, vec![3]);
    assert_eq!(&tmp[2 * n_fft..], &[0, 0, 0, 0]);
}

#[test]
fn cfft_i16_inverse_undoes_forward_up_to_scaling() {
    let n = 16;
    let tw = twiddle_q15(n);
    let orig: Vec<i16> = (0..2 * n).map(|k| ((k as i32 * 3001) % 24000 - 12000) as i16).collect();
    let mut data = orig.clone();
    CfftI16::new(n, false, true, &tw).run(&mut data);
    CfftI16::new(n, true, true, &tw).run(&mut data);
    // both directions scale by 1/n, so the round trip returns x / n
    for k in 0..2 * n {
        let expected = orig[k] as i32 / n as i32;
        assert!((data[k] as i32 - expected).abs() <= 6, "{k}: {data:?}");
    }
}
