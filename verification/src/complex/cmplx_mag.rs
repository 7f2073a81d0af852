//! Magnitudes of interleaved complex samples.
use crate::basic::sqrt::{sqrt_i32, sqrt_q31};
use crate::qmath::lemma_shr_floor;
use vstd::prelude::*;

verus! {

/// The Q31 square root as `sqrt_i32` returns it for a non-negative input, with
/// zero for zero.
pub open spec fn sqrt_nonneg_q31(x: int, lut: Seq<u32>) -> i32 {
    if x == 0 {
        0
    } else {
        sqrt_q31(x as i32, lut)
    }
}

/// Magnitude of a Q15 complex sample in Q2.14: the square root (in Q31) of half
/// the squared norm, rounded down to 16 bits.
pub open spec fn mag_q15(re: i16, im: i16, lut: Seq<u32>) -> i16 {
    let root = sqrt_nonneg_q31((re * re + im * im) / 2, lut);
    (root as int / 0x1_0000) as i16
}

/// Magnitude of a Q31 complex sample in Q2.30: the square root of the sum of the
/// squares, each rounded down to Q31 after halving.
pub open spec fn mag_q31(re: i32, im: i32, lut: Seq<u32>) -> i32 {
    sqrt_nonneg_q31((re * re) / 0x2_0000_0000 + (im * im) / 0x2_0000_0000, lut)
}

/// Swapping the real and imaginary parts leaves the magnitude unchanged.
pub proof fn lemma_mag_swap(re: i16, im: i16, re32: i32, im32: i32, lut: Seq<u32>)
    ensures
        mag_q15(re, im, lut) == mag_q15(im, re, lut),
        mag_q31(re32, im32, lut) == mag_q31(im32, re32, lut),
{
}

fn mag_sample_i16(re_in: i16, im_in: i16, sqrt_lut: &[u32]) -> (r: i16)
    requires
        sqrt_lut.len() >= 24,
    ensures
        r == mag_q15(re_in, im_in, sqrt_lut@),
{
    let re = re_in as i64;
    let im = im_in as i64;
    proof {
        assert(re * re <= 0x4000_0000 && im * im <= 0x4000_0000) by (nonlinear_arith)
            requires
                -0x8000 <= re <= 0x7fff,
                -0x8000 <= im <= 0x7fff,
        ;
        assert(re * re >= 0 && im * im >= 0) by (nonlinear_arith);
    }
    let sum = (re * re + im * im) as u64;
    proof {
        vstd::bits::lemma_u64_shr_is_div(sum, 1);
        vstd::arithmetic::power2::lemma2_to64();
    }
    let in_sqrt = (sum >> 1) as i32;
    let res = match sqrt_i32(in_sqrt, sqrt_lut) {
        Ok(v) => v,
        Err(_) => 0,
    };
    proof {
        lemma_shr_floor();
    }
    #[verifier::truncate] ((res >> 16) as i16)
}

fn mag_sample_i32(re_in: i32, im_in: i32, sqrt_lut: &[u32]) -> (r: i32)
    requires
        sqrt_lut.len() >= 24,
    ensures
        r == mag_q31(re_in, im_in, sqrt_lut@),
{
    let re = re_in as i64;
    let im = im_in as i64;
    proof {
        assert(re * re <= 0x4000_0000_0000_0000 && im * im <= 0x4000_0000_0000_0000)
            by (nonlinear_arith)
            requires
                -0x8000_0000 <= re <= 0x7fff_ffff,
                -0x8000_0000 <= im <= 0x7fff_ffff,
        ;
        assert(re * re >= 0 && im * im >= 0) by (nonlinear_arith);
        lemma_shr_floor();
    }
    let acc0 = (re * re) >> 33;
    let acc1 = (im * im) >> 33;
    let in_sqrt = (acc0 + acc1) as i32;
    match sqrt_i32(in_sqrt, sqrt_lut) {
        Ok(v) => v,
        Err(_) => 0,
    }
}

/// Q15 complex magnitude of `[re0, im0, re1, im1, ...]` into one output sample
/// per complex sample, in Q2.14. `sqrt_lut` is the table of `sqrt_i32`.
pub fn cmplx_mag_i16(input: &[i16], output: &mut [i16], sqrt_lut: &[u32])
    requires
        input.len() % 2 == 0,
        old(output).len() == input.len() / 2,
        sqrt_lut.len() >= 24,
    ensures
        final(output)@.len() == old(output)@.len(),
        forall|k: int|
            0 <= k < old(output)@.len() ==> #[trigger] final(output)@[k] == mag_q15(
                input@[2 * k],
                input@[2 * k + 1],
                sqrt_lut@,
            ),
{
    let n = input.len() / 2;
    let mut k: usize = 0;
    while k < n
        invariant
            n == input.len() / 2,
            output@.len() == n,
            input.len() % 2 == 0,
            sqrt_lut.len() >= 24,
            0 <= k <= n,
            forall|j: int|
                0 <= j < k ==> #[trigger] output@[j] == mag_q15(
                    input@[2 * j],
                    input@[2 * j + 1],
                    sqrt_lut@,
                ),
        decreases n - k,
    {
        output[k] = mag_sample_i16(input[2 * k], input[2 * k + 1], sqrt_lut);
        k = k + 1;
    }
}

/// Q31 complex magnitude of `[re0, im0, re1, im1, ...]` into one output sample
/// per complex sample, in Q2.30. `sqrt_lut` is the table of `sqrt_i32`.
pub fn cmplx_mag_i32(input: &[i32], output: &mut [i32], sqrt_lut: &[u32])
    requires
        input.len() % 2 == 0,
        old(output).len() == input.len() / 2,
        sqrt_lut.len() >= 24,
    ensures
        final(output)@.len() == old(output)@.len(),
        forall|k: int|
            0 <= k < old(output)@.len() ==> #[trigger] final(output)@[k] == mag_q31(
                input@[2 * k],
                input@[2 * k + 1],
                sqrt_lut@,
            ),
{
    let n = input.len() / 2;
    let mut k: usize = 0;
    while k < n
        invariant
            n == input.len() / 2,
            output@.len() == n,
            input.len() % 2 == 0,
            sqrt_lut.len() >= 24,
            0 <= k <= n,
            forall|j: int|
                0 <= j < k ==> #[trigger] output@[j] == mag_q31(
                    input@[2 * j],
                    input@[2 * j + 1],
                    sqrt_lut@,
                ),
        decreases n - k,
    {
        output[k] = mag_sample_i32(input[2 * k], input[2 * k + 1], sqrt_lut);
        k = k + 1;
    }
}

} // verus!
