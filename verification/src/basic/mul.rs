use crate::qmath::{clamp16, clamp32, sat_i16, sat_i32};
use vstd::prelude::*;

verus! {

/// Q15 product: `(x * y) >> 15`, saturated.
pub open spec fn mul_q15(x: i16, y: i16) -> i16 {
    clamp16((((x as i32) * (y as i32)) as i32 >> 15i32) as int)
}

/// Q31 product: `(x * y) >> 31` computed on 64 bits, saturated.
pub open spec fn mul_q31(x: i32, y: i32) -> i32 {
    clamp32((((x as i64) * (y as i64)) as i64 >> 31i64) as int)
}

/// The Q15 and Q31 products do not depend on the order of the factors.
pub proof fn lemma_mul_commutes(x: i16, y: i16, u: i32, v: i32)
    ensures
        mul_q15(x, y) == mul_q15(y, x),
        mul_q31(u, v) == mul_q31(v, u),
{
    assert((x as i32) * (y as i32) == (y as i32) * (x as i32)) by (nonlinear_arith);
    assert((u as i64) * (v as i64) == (v as i64) * (u as i64)) by (nonlinear_arith);
}

/// Element-wise Q15 multiplication of `a` and `b` into `output`, over the
/// shortest of the three slices; the rest of `output` is left as it was.
pub fn mul_i16(a: &[i16], b: &[i16], output: &mut [i16])
    ensures
        final(output)@.len() == old(output)@.len(),
        forall|k: int|
            0 <= k < old(output)@.len() ==> #[trigger] final(output)@[k] == if k < a.len() && k
                < b.len() {
                mul_q15(a@[k], b@[k])
            } else {
                old(output)@[k]
            },
{
    let ghost o = output@;
    let mut k: usize = 0;
    while k < output.len() && k < a.len() && k < b.len()
        invariant
            output@.len() == o.len(),
            0 <= k <= o.len(),
            k <= a.len(),
            k <= b.len(),
            forall|j: int|
                0 <= j < o.len() ==> #[trigger] output@[j] == if j < k {
                    mul_q15(a@[j], b@[j])
                } else {
                    o[j]
                },
        decreases o.len() - k,
    {
        proof {
            assert(-0x4000_0000 <= (a@[k as int] as i32) * (b@[k as int] as i32) <= 0x4000_0000)
                by (nonlinear_arith);
        }
        output[k] = sat_i16((a[k] as i32 * b[k] as i32) >> 15);
        k = k + 1;
    }
}

/// Element-wise Q31 multiplication of `a` and `b` into `output`, over the
/// shortest of the three slices; the rest of `output` is left as it was.
pub fn mul_i32(a: &[i32], b: &[i32], output: &mut [i32])
    ensures
        final(output)@.len() == old(output)@.len(),
        forall|k: int|
            0 <= k < old(output)@.len() ==> #[trigger] final(output)@[k] == if k < a.len() && k
                < b.len() {
                mul_q31(a@[k], b@[k])
            } else {
                old(output)@[k]
            },
{
    let ghost o = output@;
    let mut k: usize = 0;
    while k < output.len() && k < a.len() && k < b.len()
        invariant
            output@.len() == o.len(),
            0 <= k <= o.len(),
            k <= a.len(),
            k <= b.len(),
            forall|j: int|
                0 <= j < o.len() ==> #[trigger] output@[j] == if j < k {
                    mul_q31(a@[j], b@[j])
                } else {
                    o[j]
                },
        decreases o.len() - k,
    {
        proof {
            assert(-0x4000_0000_0000_0000 <= (a@[k as int] as i64) * (b@[k as int] as i64)
                <= 0x4000_0000_0000_0000) by (nonlinear_arith);
        }
        output[k] = sat_i32((a[k] as i64 * b[k] as i64) >> 31);
        k = k + 1;
    }
}

} // verus!
