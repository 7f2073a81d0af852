use crate::qmath::{lemma_wrap64_unique, lemma_wrapping_add_wrap64, sum_int, wrap64};
use vstd::prelude::*;

verus! {

/// The products `a[k] * b[k]` of two Q15 vectors, as exact integers.
pub open spec fn products_q15(a: Seq<i16>, b: Seq<i16>) -> Seq<int> {
    Seq::new(a.len(), |k: int| a[k] * b[k])
}

/// The 2.62 products of two Q31 vectors truncated to 2.48: `(a[k] * b[k]) >> 14`.
pub open spec fn products_q31(a: Seq<i32>, b: Seq<i32>) -> Seq<int> {
    Seq::new(a.len(), |k: int| (((a[k] as i64) * (b[k] as i64)) as i64 >> 14i64) as int)
}

/// Dot product of two Q15 vectors: the exact sum of the 2.30 products, held in a
/// 64-bit (34.30) accumulator that wraps on overflow.
pub open spec fn dot_q15(a: Seq<i16>, b: Seq<i16>) -> i64 {
    wrap64(sum_int(products_q15(a, b), a.len() as int))
}

/// Dot product of two Q31 vectors: the sum of the products truncated to 2.48,
/// held in a 64-bit (16.48) accumulator that wraps on overflow.
pub open spec fn dot_q31(a: Seq<i32>, b: Seq<i32>) -> i64 {
    wrap64(sum_int(products_q31(a, b), a.len() as int))
}

/// The dot product does not depend on the order of its operands.
pub proof fn lemma_dot_commutes(a: Seq<i16>, b: Seq<i16>, c: Seq<i32>, d: Seq<i32>)
    requires
        a.len() == b.len(),
        c.len() == d.len(),
    ensures
        dot_q15(a, b) == dot_q15(b, a),
        dot_q31(c, d) == dot_q31(d, c),
{
    assert forall|k: int| 0 <= k < a.len() implies #[trigger] products_q15(a, b)[k] == products_q15(b, a)[k] by {
        vstd::arithmetic::mul::lemma_mul_is_commutative(a[k] as int, b[k] as int);
    }
    assert(products_q15(a, b) =~= products_q15(b, a));
    assert forall|k: int| 0 <= k < c.len() implies #[trigger] products_q31(c, d)[k] == products_q31(d, c)[k] by {
        vstd::arithmetic::mul::lemma_mul_is_commutative(c[k] as int, d[k] as int);
    }
    assert(products_q31(c, d) =~= products_q31(d, c));
}

/// Dot product of two Q15 vectors of the same length.
pub fn dot_i16(a: &[i16], b: &[i16]) -> (r: i64)
    requires
        a.len() == b.len(),
    ensures
        r == dot_q15(a@, b@),
{
    let ghost p = products_q15(a@, b@);
    let mut sum: i64 = 0;
    proof {
        lemma_wrap64_unique(0, 0);
    }
    let mut k: usize = 0;
    while k < a.len()
        invariant
            a.len() == b.len(),
            0 <= k <= a.len(),
            p == products_q15(a@, b@),
            sum == wrap64(sum_int(p, k as int)),
        decreases a.len() - k,
    {
        proof {
            assert(-0x4000_0000 <= (a@[k as int] as i64) * (b@[k as int] as i64) <= 0x4000_0000)
                by (nonlinear_arith);
        }
        let t = (a[k] as i32 as i64) * (b[k] as i32 as i64);
        proof {
            lemma_wrapping_add_wrap64(sum_int(p, k as int), t);
            assert(sum_int(p, k + 1) == sum_int(p, k as int) + p[k as int]);
        }
        sum = sum.wrapping_add(t);
        k = k + 1;
    }
    sum
}

/// Dot product of two Q31 vectors of the same length (CMSIS 16.48 accumulation).
pub fn dot_i32(a: &[i32], b: &[i32]) -> (r: i64)
    requires
        a.len() == b.len(),
    ensures
        r == dot_q31(a@, b@),
{
    let ghost p = products_q31(a@, b@);
    let mut sum: i64 = 0;
    proof {
        lemma_wrap64_unique(0, 0);
    }
    let mut k: usize = 0;
    while k < a.len()
        invariant
            a.len() == b.len(),
            0 <= k <= a.len(),
            p == products_q31(a@, b@),
            sum == wrap64(sum_int(p, k as int)),
        decreases a.len() - k,
    {
        proof {
            assert(-0x4000_0000_0000_0000 <= (a@[k as int] as i64) * (b@[k as int] as i64)
                <= 0x4000_0000_0000_0000) by (nonlinear_arith);
        }
        let prod = ((a[k] as i64) * (b[k] as i64)) >> 14;
        proof {
            lemma_wrapping_add_wrap64(sum_int(p, k as int), prod);
            assert(sum_int(p, k + 1) == sum_int(p, k as int) + p[k as int]);
        }
        sum = sum.wrapping_add(prod);
        k = k + 1;
    }
    sum
}

} // verus!
