//! Row-major matrices and the products and sums over them.
use vstd::prelude::*;

pub mod mat_add;
pub mod mat_mul;
pub mod mat_vec_mul;

pub use mat_add::{mat_add_i16, mat_add_i32};
pub use mat_mul::{mat_mul_i16, mat_mul_i32};
pub use mat_vec_mul::{mat_vec_mul_i16, mat_vec_mul_i32};

verus! {

/// A `rows x cols` matrix stored row by row: entry `(r, c)` is `data[r * cols + c]`.
pub struct Matrix<T> {
    pub rows: usize,
    pub cols: usize,
    pub data: Vec<T>,
}

impl<T> Matrix<T> {
    /// The storage holds exactly `rows * cols` entries.
    pub open spec fn well_formed(&self) -> bool {
        self.data@.len() == self.rows * self.cols
    }
}

/// Entry `(r, c)` of the row-major storage `s` of a matrix with `cols` columns.
pub open spec fn at<T>(s: Seq<T>, cols: int, r: int, c: int) -> T {
    s[r * cols + c]
}

/// Entries of a row-major matrix come in row order: `(r1, c1)` before `(r2, c2)`
/// when `r1 < r2`, or `r1 == r2` and `c1 < c2`.
pub proof fn lemma_index_order(cols: int, r1: int, c1: int, r2: int, c2: int)
    requires
        0 <= c1 < cols,
        0 <= c2 < cols,
        0 <= r1,
        0 <= r2,
        r1 < r2 || (r1 == r2 && c1 < c2),
    ensures
        r1 * cols + c1 < r2 * cols + c2,
{
    if r1 < r2 {
        assert(r1 * cols + cols <= r2 * cols) by (nonlinear_arith)
            requires
                r1 < r2,
                0 <= cols,
        ;
    }
}

/// Row `row` of a matrix with `cols` columns and column `c` both lie in the
/// storage of a `rows x cols` matrix.
pub proof fn lemma_entry_index(rows: int, cols: int, row: int, c: int)
    requires
        0 <= row < rows,
        0 <= c < cols,
    ensures
        0 <= row * cols + c < rows * cols,
        0 <= row * cols,
        (row + 1) * cols == row * cols + cols,
{
    assert(0 <= row * cols + c < rows * cols) by (nonlinear_arith)
        requires
            0 <= row < rows,
            0 <= c < cols,
    ;
    assert((row + 1) * cols == row * cols + cols) by (nonlinear_arith);
}

} // verus!
