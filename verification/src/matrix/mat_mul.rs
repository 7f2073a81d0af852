use crate::common::error::{Error, Result};
use crate::matrix::{at, lemma_entry_index, lemma_index_order, Matrix};
use crate::qmath::{
    clamp16, lemma_shr_floor, lemma_wrap64_unique, lemma_wrapping_add_wrap64, sat_i16, sum_int,
    wrap64,
};
use vstd::prelude::*;

verus! {

/// The exact products along row `row` of the Q15 matrix `a` (with `inner`
/// columns) and column `col` of the Q15 matrix `b` (with `b_cols` columns).
pub open spec fn row_col_q15(
    a: Seq<i16>,
    b: Seq<i16>,
    inner: int,
    b_cols: int,
    row: int,
    col: int,
) -> Seq<int> {
    Seq::new(inner as nat, |k: int| a[row * inner + k] * b[k * b_cols + col])
}

/// The same for Q31 matrices.
pub open spec fn row_col_q31(
    a: Seq<i32>,
    b: Seq<i32>,
    inner: int,
    b_cols: int,
    row: int,
    col: int,
) -> Seq<int> {
    Seq::new(inner as nat, |k: int| a[row * inner + k] * b[k * b_cols + col])
}

/// The 64-bit accumulator of a Q15 row-by-column product, wrapping on overflow.
pub open spec fn acc_q15(a: Seq<i16>, b: Seq<i16>, inner: int, b_cols: int, row: int, col: int) -> i64 {
    wrap64(sum_int(row_col_q15(a, b, inner, b_cols, row, col), inner))
}

/// The 64-bit accumulator of a Q31 row-by-column product, wrapping on overflow.
pub open spec fn acc_q31(a: Seq<i32>, b: Seq<i32>, inner: int, b_cols: int, row: int, col: int) -> i64 {
    wrap64(sum_int(row_col_q31(a, b, inner, b_cols, row, col), inner))
}

/// Entry `(row, col)` of a Q15 matrix product: the accumulator shifted down to
/// Q15, cut to 32 bits, then saturated.
pub open spec fn mat_mul_entry_q15(
    a: Seq<i16>,
    b: Seq<i16>,
    inner: int,
    b_cols: int,
    row: int,
    col: int,
) -> i16 {
    clamp16(((acc_q15(a, b, inner, b_cols, row, col) as int / 0x8000) as i32) as int)
}

/// Entry `(row, col)` of a Q31 matrix product: the accumulator shifted down to
/// Q31 and cut to 32 bits.
pub open spec fn mat_mul_entry_q31(
    a: Seq<i32>,
    b: Seq<i32>,
    inner: int,
    b_cols: int,
    row: int,
    col: int,
) -> i32 {
    (acc_q31(a, b, inner, b_cols, row, col) as int / 0x8000_0000) as i32
}

/// Sums the products of row `row` of `a` and column `col` of `b` into a wrapping
/// 64-bit accumulator.
pub(crate) fn row_col_acc_i16(
    a: &[i16],
    b: &[i16],
    inner: usize,
    b_cols: usize,
    row: usize,
    col: usize,
) -> (acc: i64)
    requires
        (row + 1) * inner <= a@.len(),
        inner * b_cols <= b@.len(),
        col < b_cols,
    ensures
        acc == acc_q15(a@, b@, inner as int, b_cols as int, row as int, col as int),
{
    let ghost p = row_col_q15(a@, b@, inner as int, b_cols as int, row as int, col as int);
    let mut acc: i64 = 0;
    proof {
        lemma_wrap64_unique(0, 0);
        assert((row + 1) * inner == row * inner + inner) by (nonlinear_arith);
        assert(row * inner >= 0) by (nonlinear_arith);
    }
    let a_len = a.len();
    let b_len = b.len();
    let mut k: usize = 0;
    while k < inner
        invariant
            a_len == a@.len(),
            b_len == b@.len(),
            (row + 1) * inner <= a@.len(),
            (row + 1) * inner == row * inner + inner,
            row * inner >= 0,
            inner * b_cols <= b@.len(),
            col < b_cols,
            0 <= k <= inner,
            p == row_col_q15(a@, b@, inner as int, b_cols as int, row as int, col as int),
            acc == wrap64(sum_int(p, k as int)),
        decreases inner - k,
    {
        proof {
            lemma_entry_index(inner as int, b_cols as int, k as int, col as int);
        }
        let a_val = a[row * inner + k] as i64;
        let b_val = b[k * b_cols + col] as i64;
        proof {
            assert(-0x4000_0000 <= a_val * b_val <= 0x4000_0000) by (nonlinear_arith)
                requires
                    -0x8000 <= a_val <= 0x7fff,
                    -0x8000 <= b_val <= 0x7fff,
            ;
        }
        let prod = a_val * b_val;
        proof {
            lemma_wrapping_add_wrap64(sum_int(p, k as int), prod);
            assert(sum_int(p, k + 1) == sum_int(p, k as int) + p[k as int]);
        }
        acc = acc.wrapping_add(prod);
        k = k + 1;
    }
    acc
}

/// Sums the products of row `row` of `a` and column `col` of `b` into a wrapping
/// 64-bit accumulator.
pub(crate) fn row_col_acc_i32(
    a: &[i32],
    b: &[i32],
    inner: usize,
    b_cols: usize,
    row: usize,
    col: usize,
) -> (acc: i64)
    requires
        (row + 1) * inner <= a@.len(),
        inner * b_cols <= b@.len(),
        col < b_cols,
    ensures
        acc == acc_q31(a@, b@, inner as int, b_cols as int, row as int, col as int),
{
    let ghost p = row_col_q31(a@, b@, inner as int, b_cols as int, row as int, col as int);
    let mut acc: i64 = 0;
    proof {
        lemma_wrap64_unique(0, 0);
        assert((row + 1) * inner == row * inner + inner) by (nonlinear_arith);
        assert(row * inner >= 0) by (nonlinear_arith);
    }
    let a_len = a.len();
    let b_len = b.len();
    let mut k: usize = 0;
    while k < inner
        invariant
            a_len == a@.len(),
            b_len == b@.len(),
            (row + 1) * inner <= a@.len(),
            (row + 1) * inner == row * inner + inner,
            row * inner >= 0,
            inner * b_cols <= b@.len(),
            col < b_cols,
            0 <= k <= inner,
            p == row_col_q31(a@, b@, inner as int, b_cols as int, row as int, col as int),
            acc == wrap64(sum_int(p, k as int)),
        decreases inner - k,
    {
        proof {
            lemma_entry_index(inner as int, b_cols as int, k as int, col as int);
        }
        let a_val = a[row * inner + k] as i64;
        let b_val = b[k * b_cols + col] as i64;
        proof {
            assert(-0x4000_0000_0000_0000 <= a_val * b_val <= 0x4000_0000_0000_0000)
                by (nonlinear_arith)
                requires
                    -0x8000_0000 <= a_val <= 0x7fff_ffff,
                    -0x8000_0000 <= b_val <= 0x7fff_ffff,
            ;
        }
        let prod = a_val * b_val;
        proof {
            lemma_wrapping_add_wrap64(sum_int(p, k as int), prod);
            assert(sum_int(p, k + 1) == sum_int(p, k as int) + p[k as int]);
        }
        acc = acc.wrapping_add(prod);
        k = k + 1;
    }
    acc
}

/// Product `a * b` of two Q15 matrices into `output`, which keeps its shape.
/// Fails with `SizeMismatch`, leaving `output` as it was, unless `a.cols == b.rows`,
/// `a.rows == output.rows` and `b.cols == output.cols`.
pub fn mat_mul_i16(a: &Matrix<i16>, b: &Matrix<i16>, output: &mut Matrix<i16>) -> (r: Result<()>)
    requires
        a.well_formed(),
        b.well_formed(),
        old(output).well_formed(),
    ensures
        final(output).rows == old(output).rows,
        final(output).cols == old(output).cols,
        final(output).data@.len() == old(output).data@.len(),
        r is Err <==> (a.cols != b.rows || a.rows != old(output).rows || b.cols != old(output).cols),
        r is Err ==> r == Err::<(), Error>(Error::SizeMismatch) && final(output).data@ == old(
            output,
        ).data@,
        r is Ok ==> forall|row: int, col: int|
            0 <= row < a.rows && 0 <= col < b.cols ==> #[trigger] at(
                final(output).data@,
                b.cols as int,
                row,
                col,
            ) == mat_mul_entry_q15(a.data@, b.data@, a.cols as int, b.cols as int, row, col),
{
    if a.cols != b.rows || a.rows != output.rows || b.cols != output.cols {
        return Err(Error::SizeMismatch);
    }
    let rows = a.rows;
    let cols = a.cols;
    let out_cols = output.cols;
    let out_len = output.data.len();
    let mut row: usize = 0;
    while row < rows
        invariant
            a.well_formed(),
            b.well_formed(),
            rows == a.rows,
            cols == a.cols,
            cols == b.rows,
            out_cols == b.cols,
            output.rows == old(output).rows,
            output.cols == old(output).cols,
            output.rows == rows,
            output.cols == out_cols,
            output.data@.len() == rows * out_cols,
            out_len == output.data@.len(),
            0 <= row <= rows,
            forall|r: int, c: int|
                0 <= r < row && 0 <= c < out_cols ==> #[trigger] at(output.data@, out_cols as int, r, c)
                    == mat_mul_entry_q15(a.data@, b.data@, cols as int, out_cols as int, r, c),
        decreases rows - row,
    {
        let mut col: usize = 0;
        while col < out_cols
            invariant
                a.well_formed(),
                b.well_formed(),
                rows == a.rows,
                cols == a.cols,
                cols == b.rows,
                out_cols == b.cols,
                output.rows == old(output).rows,
                output.cols == old(output).cols,
                output.rows == rows,
                output.cols == out_cols,
                output.data@.len() == rows * out_cols,
            out_len == output.data@.len(),
                0 <= row < rows,
                0 <= col <= out_cols,
                forall|r: int, c: int|
                    0 <= r < row && 0 <= c < out_cols ==> #[trigger] at(
                        output.data@,
                        out_cols as int,
                        r,
                        c,
                    ) == mat_mul_entry_q15(a.data@, b.data@, cols as int, out_cols as int, r, c),
                forall|c: int|
                    0 <= c < col ==> #[trigger] at(output.data@, out_cols as int, row as int, c)
                        == mat_mul_entry_q15(
                        a.data@,
                        b.data@,
                        cols as int,
                        out_cols as int,
                        row as int,
                        c,
                    ),
            decreases out_cols - col,
        {
            proof {
                assert((row + 1) * cols <= rows * cols) by (nonlinear_arith)
                    requires
                        row < rows,
                        0 <= cols,
                ;
                lemma_entry_index(rows as int, out_cols as int, row as int, col as int);
                lemma_shr_floor();
            }
            let acc = row_col_acc_i16(a.data.as_slice(), b.data.as_slice(), cols, out_cols, row, col);
            let value = sat_i16(#[verifier::truncate] ((acc >> 15) as i32));
            let idx = row * out_cols + col;
            let ghost prev = output.data@;
            output.data.set(idx, value);
            proof {
                assert forall|r: int, c: int|
                    0 <= r < row && 0 <= c < out_cols implies #[trigger] at(
                        output.data@,
                        out_cols as int,
                        r,
                        c,
                    ) == mat_mul_entry_q15(a.data@, b.data@, cols as int, out_cols as int, r, c) by {
                    lemma_index_order(out_cols as int, r, c, row as int, col as int);
                    assert(at(output.data@, out_cols as int, r, c) == at(prev, out_cols as int, r, c));
                }
                assert forall|c: int|
                    0 <= c < col + 1 implies #[trigger] at(
                        output.data@,
                        out_cols as int,
                        row as int,
                        c,
                    ) == mat_mul_entry_q15(
                        a.data@,
                        b.data@,
                        cols as int,
                        out_cols as int,
                        row as int,
                        c,
                    ) by {
                    if c < col {
                        lemma_index_order(out_cols as int, row as int, c, row as int, col as int);
                        assert(at(output.data@, out_cols as int, row as int, c) == at(
                            prev,
                            out_cols as int,
                            row as int,
                            c,
                        ));
                    }
                }
            }
            col = col + 1;
        }
        row = row + 1;
    }
    Ok(())
}

/// Product `a * b` of two Q31 matrices into `output`, which keeps its shape.
/// Fails with `SizeMismatch`, leaving `output` as it was, unless `a.cols == b.rows`,
/// `a.rows == output.rows` and `b.cols == output.cols`.
pub fn mat_mul_i32(a: &Matrix<i32>, b: &Matrix<i32>, output: &mut Matrix<i32>) -> (r: Result<()>)
    requires
        a.well_formed(),
        b.well_formed(),
        old(output).well_formed(),
    ensures
        final(output).rows == old(output).rows,
        final(output).cols == old(output).cols,
        final(output).data@.len() == old(output).data@.len(),
        r is Err <==> (a.cols != b.rows || a.rows != old(output).rows || b.cols != old(output).cols),
        r is Err ==> r == Err::<(), Error>(Error::SizeMismatch) && final(output).data@ == old(
            output,
        ).data@,
        r is Ok ==> forall|row: int, col: int|
            0 <= row < a.rows && 0 <= col < b.cols ==> #[trigger] at(
                final(output).data@,
                b.cols as int,
                row,
                col,
            ) == mat_mul_entry_q31(a.data@, b.data@, a.cols as int, b.cols as int, row, col),
{
    if a.cols != b.rows || a.rows != output.rows || b.cols != output.cols {
        return Err(Error::SizeMismatch);
    }
    let rows = a.rows;
    let cols = a.cols;
    let out_cols = output.cols;
    let out_len = output.data.len();
    let mut row: usize = 0;
    while row < rows
        invariant
            a.well_formed(),
            b.well_formed(),
            rows == a.rows,
            cols == a.cols,
            cols == b.rows,
            out_cols == b.cols,
            output.rows == old(output).rows,
            output.cols == old(output).cols,
            output.rows == rows,
            output.cols == out_cols,
            output.data@.len() == rows * out_cols,
            out_len == output.data@.len(),
            0 <= row <= rows,
            forall|r: int, c: int|
                0 <= r < row && 0 <= c < out_cols ==> #[trigger] at(output.data@, out_cols as int, r, c)
                    == mat_mul_entry_q31(a.data@, b.data@, cols as int, out_cols as int, r, c),
        decreases rows - row,
    {
        let mut col: usize = 0;
        while col < out_cols
            invariant
                a.well_formed(),
                b.well_formed(),
                rows == a.rows,
                cols == a.cols,
                cols == b.rows,
                out_cols == b.cols,
                output.rows == old(output).rows,
                output.cols == old(output).cols,
                output.rows == rows,
                output.cols == out_cols,
                output.data@.len() == rows * out_cols,
            out_len == output.data@.len(),
                0 <= row < rows,
                0 <= col <= out_cols,
                forall|r: int, c: int|
                    0 <= r < row && 0 <= c < out_cols ==> #[trigger] at(
                        output.data@,
                        out_cols as int,
                        r,
                        c,
                    ) == mat_mul_entry_q31(a.data@, b.data@, cols as int, out_cols as int, r, c),
                forall|c: int|
                    0 <= c < col ==> #[trigger] at(output.data@, out_cols as int, row as int, c)
                        == mat_mul_entry_q31(
                        a.data@,
                        b.data@,
                        cols as int,
                        out_cols as int,
                        row as int,
                        c,
                    ),
            decreases out_cols - col,
        {
            proof {
                assert((row + 1) * cols <= rows * cols) by (nonlinear_arith)
                    requires
                        row < rows,
                        0 <= cols,
                ;
                lemma_entry_index(rows as int, out_cols as int, row as int, col as int);
                lemma_shr_floor();
            }
            let acc = row_col_acc_i32(a.data.as_slice(), b.data.as_slice(), cols, out_cols, row, col);
            let value = #[verifier::truncate] ((acc >> 31) as i32);
            let idx = row * out_cols + col;
            let ghost prev = output.data@;
            output.data.set(idx, value);
            proof {
                assert forall|r: int, c: int|
                    0 <= r < row && 0 <= c < out_cols implies #[trigger] at(
                        output.data@,
                        out_cols as int,
                        r,
                        c,
                    ) == mat_mul_entry_q31(a.data@, b.data@, cols as int, out_cols as int, r, c) by {
                    lemma_index_order(out_cols as int, r, c, row as int, col as int);
                    assert(at(output.data@, out_cols as int, r, c) == at(prev, out_cols as int, r, c));
                }
                assert forall|c: int|
                    0 <= c < col + 1 implies #[trigger] at(
                        output.data@,
                        out_cols as int,
                        row as int,
                        c,
                    ) == mat_mul_entry_q31(
                        a.data@,
                        b.data@,
                        cols as int,
                        out_cols as int,
                        row as int,
                        c,
                    ) by {
                    if c < col {
                        lemma_index_order(out_cols as int, row as int, c, row as int, col as int);
                        assert(at(output.data@, out_cols as int, row as int, c) == at(
                            prev,
                            out_cols as int,
                            row as int,
                            c,
                        ));
                    }
                }
            }
            col = col + 1;
        }
        row = row + 1;
    }
    Ok(())
}

} // verus!
