use crate::matrix::Matrix;
use crate::qmath::{clamp16, clamp32, sat_i16, sat_i32};
use vstd::prelude::*;

verus! {

/// Element-wise saturating sum of two Q15 matrices; the first `a.rows * a.cols`
/// entries of `output` receive `a + b`, the rest are left as they were.
pub fn mat_add_i16(a: &Matrix<i16>, b: &Matrix<i16>, output: &mut Matrix<i16>)
    requires
        a.well_formed(),
        b.data@.len() >= a.data@.len(),
        old(output).data@.len() >= a.data@.len(),
    ensures
        final(output).rows == old(output).rows,
        final(output).cols == old(output).cols,
        final(output).data@.len() == old(output).data@.len(),
        forall|i: int|
            0 <= i < a.data@.len() ==> #[trigger] final(output).data@[i] == clamp16(
                a.data@[i] + b.data@[i],
            ),
        forall|i: int|
            a.data@.len() <= i < old(output).data@.len() ==> #[trigger] final(output).data@[i]
                == old(output).data@[i],
{
    // `a.rows * a.cols`, which `a` holds
    let len = a.data.len();
    let ghost before = output.data@;
    let mut i: usize = 0;
    while i < len
        invariant
            len == a.data@.len(),
            b.data@.len() >= len,
            output.data@.len() == before.len(),
            before.len() >= len,
            output.rows == old(output).rows,
            output.cols == old(output).cols,
            before == old(output).data@,
            0 <= i <= len,
            forall|j: int| 0 <= j < i ==> #[trigger] output.data@[j] == clamp16(a.data@[j] + b.data@[j]),
            forall|j: int| i <= j < before.len() ==> #[trigger] output.data@[j] == before[j],
        decreases len - i,
    {
        let v = sat_i16(a.data[i] as i32 + b.data[i] as i32);
        output.data.set(i, v);
        i = i + 1;
    }
}

/// Element-wise saturating sum of two Q31 matrices; the first `a.rows * a.cols`
/// entries of `output` receive `a + b`, the rest are left as they were.
pub fn mat_add_i32(a: &Matrix<i32>, b: &Matrix<i32>, output: &mut Matrix<i32>)
    requires
        a.well_formed(),
        b.data@.len() >= a.data@.len(),
        old(output).data@.len() >= a.data@.len(),
    ensures
        final(output).rows == old(output).rows,
        final(output).cols == old(output).cols,
        final(output).data@.len() == old(output).data@.len(),
        forall|i: int|
            0 <= i < a.data@.len() ==> #[trigger] final(output).data@[i] == clamp32(
                a.data@[i] + b.data@[i],
            ),
        forall|i: int|
            a.data@.len() <= i < old(output).data@.len() ==> #[trigger] final(output).data@[i]
                == old(output).data@[i],
{
    // `a.rows * a.cols`, which `a` holds
    let len = a.data.len();
    let ghost before = output.data@;
    let mut i: usize = 0;
    while i < len
        invariant
            len == a.data@.len(),
            b.data@.len() >= len,
            output.data@.len() == before.len(),
            before.len() >= len,
            output.rows == old(output).rows,
            output.cols == old(output).cols,
            before == old(output).data@,
            0 <= i <= len,
            forall|j: int| 0 <= j < i ==> #[trigger] output.data@[j] == clamp32(a.data@[j] + b.data@[j]),
            forall|j: int| i <= j < before.len() ==> #[trigger] output.data@[j] == before[j],
        decreases len - i,
    {
        let v = sat_i32(a.data[i] as i64 + b.data[i] as i64);
        output.data.set(i, v);
        i = i + 1;
    }
}

} // verus!
