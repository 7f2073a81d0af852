use fixed_dsp::common::error::Error;
use fixed_dsp::matrix::{
    mat_add_i16, mat_add_i32, mat_mul_i16, mat_mul_i32, mat_vec_mul_i16, mat_vec_mul_i32, Matrix,
};

#[test]
fn mat_mul_reports_size_mismatch() {
    let a = Matrix { rows: 2, cols: 2, data: vec![0_i16; 4] };
    let b = Matrix { rows: 1, cols: 4, data: vec![0_i16; 4] };
    let mut out = Matrix { rows: 2, cols: 2, data: vec![0_i16; 4] };

    assert_eq!(mat_mul_i16(&a, &b, &mut out), Err(Error::SizeMismatch));
}

#[test]
fn mat_mul_mismatch_leaves_output() {
    let a = Matrix { rows: 2, cols: 3, data: vec![1_i32; 6] };
    let b = Matrix { rows: 3, cols: 2, data: vec![1_i32; 6] };
    let mut out = Matrix { rows: 3, cols: 3, data: vec![7_i32; 9] };
    assert_eq!(mat_mul_i32(&a, &b, &mut out), Err(Error::SizeMismatch));
    assert_eq!(out.data, vec![7_i32; 9]);
}

#[test]
fn mat_mul_i16_scales_by_half_identity() {
    let a = Matrix { rows: 2, cols: 2, data: vec![0x4000_i16, 0, 0, 0x4000] };
    let b = Matrix { rows: 2, cols: 2, data: vec![0x2000_i16, 0x1000, -0x0800, 0x0400] };
    let mut out = Matrix { rows: 2, cols: 2, data: vec![0_i16; 4] };
    assert_eq!(mat_mul_i16(&a, &b, &mut out), Ok(()));
    assert_eq!(out.data, vec![0x1000, 0x0800, -0x0400, 0x0200]);
}

#[test]
fn mat_mul_i16_saturates() {
    let a = Matrix { rows: 1, cols: 2, data: vec![0x7fff_i16, 0x7fff] };
    let b = Matrix { rows: 2, cols: 1, data: vec![0x7fff_i16, 0x7fff] };
    let mut out = Matrix { rows: 1, cols: 1, data: vec![0_i16] };
    assert_eq!(mat_mul_i16(&a, &b, &mut out), Ok(()));
    assert_eq!(out.data, vec![i16::MAX]);
}

#[test]
fn mat_mul_i32_rectangular() {
    // [1x2] * [2x3], entries in Q31
    let a = Matrix { rows: 1, cols: 2, data: vec![0x4000_0000_i32, 0x2000_0000] };
    let b = Matrix {
        rows: 2,
        cols: 3,
        data: vec![0x4000_0000_i32, 0, -0x4000_0000, 0x4000_0000, 0x2000_0000, 0],
    };
    let mut out = Matrix { rows: 1, cols: 3, data: vec![0_i32; 3] };
    assert_eq!(mat_mul_i32(&a, &b, &mut out), Ok(()));
    assert_eq!(out.data, vec![0x3000_0000, 0x0800_0000, -0x2000_0000]);
}

#[test]
fn mat_add_saturates() {
    let a = Matrix { rows: 1, cols: 3, data: vec![32_000_i16, -32_000, 5] };
    let b = Matrix { rows: 1, cols: 3, data: vec![1000_i16, -1000, -5] };
    let mut out = Matrix { rows: 1, cols: 3, data: vec![0_i16; 3] };
    mat_add_i16(&a, &b, &mut out);
    assert_eq!(out.data, vec![i16::MAX, i16::MIN, 0]);

    let a = Matrix { rows: 2, cols: 1, data: vec![i32::MAX, i32::MIN] };
    let b = Matrix { rows: 2, cols: 1, data: vec![1_i32, -1] };
    let mut out = Matrix { rows: 2, cols: 1, data: vec![0_i32; 2] };
    mat_add_i32(&a, &b, &mut out);
    assert_eq!(out.data, vec![i32::MAX, i32::MIN]);
}

#[test]
fn mat_add_commutes() {
    let a = Matrix { rows: 2, cols: 2, data: vec![30_000_i16, -5, 7, -32_000] };
    let b = Matrix { rows: 2, cols: 2, data: vec![5_000_i16, 5, -9, -1_000] };
    let mut ab = Matrix { rows: 2, cols: 2, data: vec![0_i16; 4] };
    let mut ba = Matrix { rows: 2, cols: 2, data: vec![0_i16; 4] };
    mat_add_i16(&a, &b, &mut ab);
    mat_add_i16(&b, &a, &mut ba);
    assert_eq!(ab.data, ba.data);
}

#[test]
fn mat_vec_mul_rows() {
    let m = Matrix { rows: 2, cols: 2, data: vec![0x4000_i16, 0x4000, 0x7fff, -0x8000] };
    let v = [0x2000_i16, 0x2000];
    let mut out = [0_i16; 3];
    mat_vec_mul_i16(&m, &v, &mut out);
    // row 0: 0.5*0.25 + 0.5*0.25 = 0.25; row 1: (32767 - 32768) * 0x2000 >> 15 = -1/4 -> -1
    assert_eq!(out, [0x2000, -1, 0]);

    let m = Matrix { rows: 1, cols: 2, data: vec![0x4000_0000_i32, -0x4000_0000] };
    let v = [0x4000_0000_i32, 0x2000_0000];
    let mut out = [5_i32; 1];
    mat_vec_mul_i32(&m, &v, &mut out);
    assert_eq!(out, [0x1000_0000]);
}

#[test]
fn mat_vec_mul_ignores_short_buffers() {
    let m = Matrix { rows: 2, cols: 2, data: vec![1_i16; 4] };
    let short_vec = [1_i16];
    let mut out = [9_i16; 2];
    mat_vec_mul_i16(&m, &short_vec, &mut out);
    assert_eq!(out, [9, 9]);
    let v = [1_i16, 1];
    let mut short_out = [9_i16; 1];
    mat_vec_mul_i16(&m, &v, &mut short_out);
    assert_eq!(short_out, [9]);
}
