use crate::matrix::mat_mul::{
    acc_q15, mat_mul_entry_q31, row_col_acc_i16, row_col_acc_i32,
};
use crate::matrix::{lemma_entry_index, Matrix};
use crate::qmath::{clamp16, lemma_shr_floor};
use vstd::prelude::*;

verus! {

/// Row `row` of a Q15 matrix-vector product: the accumulator shifted down to
/// Q15 and saturated.
pub open spec fn mat_vec_entry_q15(m: Seq<i16>, v: Seq<i16>, cols: int, row: int) -> i16 {
    clamp16(acc_q15(m, v, cols, 1, row, 0) as int / 0x8000)
}

pub(crate) fn sat_i16_wide(x: i64) -> (r: i16)
    ensures
        r == clamp16(x as int),
{
    if x < -32768 {
        -32768
    } else if x > 32767 {
        32767
    } else {
        x as i16
    }
}

/// `data * vec` for the `rows x cols` matrix stored row by row in `data`, into
/// the first `rows` samples of `output`; the rest of `output` is left as it was.
pub(crate) fn mat_vec_rows_i16(
    data: &[i16],
    rows: usize,
    cols: usize,
    vec: &[i16],
    output: &mut [i16],
)
    requires
        data@.len() == rows * cols,
        vec@.len() >= cols,
        old(output)@.len() >= rows,
    ensures
        final(output)@.len() == old(output)@.len(),
        forall|r: int| 0 <= r < rows ==> #[trigger] final(output)@[r] == mat_vec_entry_q15(
                data@,
                vec@,
                cols as int,
                r,
            ),
        forall|r: int| rows <= r < old(output)@.len() ==> #[trigger] final(output)@[r] == old(output)@[r],
{
    let ghost before = output@;
    let mut row: usize = 0;
    while row < rows
        invariant
            data@.len() == rows * cols,
            vec@.len() >= cols,
            output@.len() == before.len(),
            before.len() >= rows,
            0 <= row <= rows,
            forall|r: int|
                0 <= r < row ==> #[trigger] output@[r] == mat_vec_entry_q15(
                    data@,
                    vec@,
                    cols as int,
                    r,
                ),
            forall|r: int| row <= r < before.len() ==> #[trigger] output@[r] == before[r],
        decreases rows - row,
    {
        proof {
            assert((row + 1) * cols <= rows * cols) by (nonlinear_arith)
                requires
                    row < rows,
                    0 <= cols,
            ;
            lemma_shr_floor();
        }
        let acc = row_col_acc_i16(data, vec, cols, 1, row, 0);
        output[row] = sat_i16_wide(acc >> 15);
        row = row + 1;
    }
}

/// `mat * vec` into the first `mat.rows` samples of `output` (Q15). Does
/// nothing when `vec` is shorter than a row or `output` than a column.
pub fn mat_vec_mul_i16(mat: &Matrix<i16>, vec: &[i16], output: &mut [i16])
    requires
        mat.well_formed(),
    ensures
        final(output)@.len() == old(output)@.len(),
        vec@.len() < mat.cols || old(output)@.len() < mat.rows ==> final(output)@ == old(output)@,
        vec@.len() >= mat.cols && old(output)@.len() >= mat.rows ==> (forall|r: int|
            0 <= r < mat.rows ==> #[trigger] final(output)@[r] == mat_vec_entry_q15(
                mat.data@,
                vec@,
                mat.cols as int,
                r,
            )) && (forall|r: int|
            mat.rows <= r < old(output)@.len() ==> #[trigger] final(output)@[r] == old(output)@[r]),
{
    if vec.len() < mat.cols || output.len() < mat.rows {
        return;
    }
    mat_vec_rows_i16(mat.data.as_slice(), mat.rows, mat.cols, vec, output);
}

/// `data * vec` for the `rows x cols` matrix stored row by row in `data`, into
/// the first `rows` samples of `output`; the rest of `output` is left as it was.
pub(crate) fn mat_vec_rows_i32(
    data: &[i32],
    rows: usize,
    cols: usize,
    vec: &[i32],
    output: &mut [i32],
)
    requires
        data@.len() == rows * cols,
        vec@.len() >= cols,
        old(output)@.len() >= rows,
    ensures
        final(output)@.len() == old(output)@.len(),
        forall|r: int| 0 <= r < rows ==> #[trigger] final(output)@[r] == mat_mul_entry_q31(
                data@,
                vec@,
                cols as int,
                1,
                r,
                0,
            ),
        forall|r: int| rows <= r < old(output)@.len() ==> #[trigger] final(output)@[r] == old(output)@[r],
{
    let ghost before = output@;
    let mut row: usize = 0;
    while row < rows
        invariant
            data@.len() == rows * cols,
            vec@.len() >= cols,
            output@.len() == before.len(),
            before.len() >= rows,
            0 <= row <= rows,
            forall|r: int|
                0 <= r < row ==> #[trigger] output@[r] == mat_mul_entry_q31(
                    data@,
                    vec@,
                    cols as int,
                    1,
                    r,
                    0,
                ),
            forall|r: int| row <= r < before.len() ==> #[trigger] output@[r] == before[r],
        decreases rows - row,
    {
        proof {
            assert((row + 1) * cols <= rows * cols) by (nonlinear_arith)
                requires
                    row < rows,
                    0 <= cols,
            ;
            lemma_shr_floor();
        }
        let acc = row_col_acc_i32(data, vec, cols, 1, row, 0);
        output[row] = #[verifier::truncate] ((acc >> 31) as i32);
        row = row + 1;
    }
}

/// `mat * vec` into the first `mat.rows` samples of `output` (Q31). Does
/// nothing when `vec` is shorter than a row or `output` than a column.
pub fn mat_vec_mul_i32(mat: &Matrix<i32>, vec: &[i32], output: &mut [i32])
    requires
        mat.well_formed(),
    ensures
        final(output)@.len() == old(output)@.len(),
        vec@.len() < mat.cols || old(output)@.len() < mat.rows ==> final(output)@ == old(output)@,
        vec@.len() >= mat.cols && old(output)@.len() >= mat.rows ==> (forall|r: int|
            0 <= r < mat.rows ==> #[trigger] final(output)@[r] == mat_mul_entry_q31(
                mat.data@,
                vec@,
                mat.cols as int,
                1,
                r,
                0,
            )) && (forall|r: int|
            mat.rows <= r < old(output)@.len() ==> #[trigger] final(output)@[r] == old(output)@[r]),
{
    if vec.len() < mat.cols || output.len() < mat.rows {
        return;
    }
    mat_vec_rows_i32(mat.data.as_slice(), mat.rows, mat.cols, vec, output);
}

} // verus!
