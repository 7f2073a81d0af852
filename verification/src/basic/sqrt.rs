use crate::common::error::Error;
use crate::qmath::lemma_leading_zeros_u32;
use vstd::arithmetic::power2::pow2;
use vstd::prelude::*;
use vstd::wrapping::{i32_specs, i64_specs};

verus! {

/// The even shift that brings a positive `x` into `[top / 4, top)`: `x` is
/// multiplied by 4 while that stays below `top`.
pub open spec fn even_norm_shift(x: int, top: int) -> nat
    decreases top - x,
{
    if x <= 0 || x * 4 >= top {
        0
    } else {
        2 + even_norm_shift(x * 4, top)
    }
}

/// The even shift `e` with `x * 2^e` in `[top / 4, top)` is the normalizing shift.
proof fn lemma_even_norm_shift(x: int, top: int, e: nat)
    requires
        x > 0,
        top > 0,
        top % 4 == 0,
        e % 2 == 0,
        top / 4 <= x * pow2(e) < top,
    ensures
        even_norm_shift(x, top) == e,
    decreases e,
{
    vstd::arithmetic::power2::lemma2_to64();
    if e == 0 {
        assert(pow2(e) == 1);
        assert(x * pow2(e) == x) by (nonlinear_arith)
            requires
                pow2(e) == 1,
        ;
        assert(x * 4 >= top);
    } else {
        let e2 = (e - 2) as nat;
        vstd::arithmetic::power2::lemma_pow2_adds(2, e2);
        vstd::arithmetic::power2::lemma_pow2_pos(e2);
        assert(x * pow2(e) == (x * 4) * pow2(e2)) by (nonlinear_arith)
            requires
                pow2(e) == pow2(2) * pow2(e2),
                pow2(2) == 4,
        ;
        assert(x * 4 <= x * pow2(e)) by (nonlinear_arith)
            requires
                x > 0,
                pow2(e) == 4 * pow2(e2),
                pow2(e2) >= 1,
        ;
        lemma_even_norm_shift(x * 4, top, e2);
        assert(x * 4 < top);
        assert(even_norm_shift(x, top) == 2 + even_norm_shift(x * 4, top));
    }
}

/// `x * 2^e` stays far below the 64-bit limit for the shifts used here.
proof fn lemma_small_shift_product(x: int, e: nat)
    requires
        0 <= x < 0x8000_0000,
        e <= 31,
    ensures
        0 <= x * pow2(e) < 0x4000_0000_0000_0000,
{
    vstd::arithmetic::power2::lemma2_to64();
    if e < 31 {
        vstd::arithmetic::power2::lemma_pow2_strictly_increases(e, 31);
    }
    assert(0 <= x * pow2(e) < 0x4000_0000_0000_0000) by (nonlinear_arith)
        requires
            0 <= x < 0x8000_0000,
            0 < pow2(e) <= 0x8000_0000,
    ;
}

/// Three Newton steps towards `1 / sqrt(number)` in Q12, on 32-bit wrapping arithmetic.
pub open spec fn newton_q15(number: i32, var1: i32, k: nat) -> i32
    decreases k,
{
    if k == 0 {
        var1
    } else {
        let t0 = i32_specs::wrapping_mul(var1, var1) >> 12i32;
        let t1 = i32_specs::wrapping_mul(number, t0) >> 15i32;
        let t2 = i32_specs::wrapping_sub(0x3000, t1);
        newton_q15(number, i32_specs::wrapping_mul(var1, t2) >> 13i32, (k - 1) as nat)
    }
}

/// Three Newton steps towards `1 / sqrt(number)` in Q28, on 64-bit wrapping arithmetic.
pub open spec fn newton_q31(number: i64, var1: i64, k: nat) -> i64
    decreases k,
{
    if k == 0 {
        var1
    } else {
        let t0 = i64_specs::wrapping_mul(var1, var1) >> 28i64;
        let t1 = i64_specs::wrapping_mul(number, t0) >> 31i64;
        let t2 = i64_specs::wrapping_sub(0x3000_0000, t1);
        newton_q31(number, i64_specs::wrapping_mul(var1, t2) >> 29i64, (k - 1) as nat)
    }
}

/// Q15 square root of a positive sample: normalize by an even shift into
/// `[0x2000, 0x8000)`, take the initial guess of `1 / sqrt` from the table entry
/// `number / 2^11 - 4`, refine it by three Newton steps, multiply back and undo
/// half of the shift.
pub open spec fn sqrt_q15(x: i16, lut: Seq<u16>) -> i16 {
    let e = even_norm_shift(x as int, 0x8000);
    let number = (x as int * pow2(e)) as i32;
    let var1 = lut[(number as int) / 2048 - 4] as i32;
    let r = i32_specs::wrapping_mul(number, newton_q15(number, var1, 3)) >> 12i32;
    (r >> ((e / 2) as u32)) as i16
}

/// Q31 square root of a positive sample: normalize by an even shift into
/// `[0x2000_0000, 0x8000_0000)`, initial guess from the table entry
/// `number / 2^26 - 8`, three Newton steps, then undo half of the shift.
pub open spec fn sqrt_q31(x: i32, lut: Seq<u32>) -> i32 {
    let e = even_norm_shift(x as int, 0x8000_0000);
    let number = (x as int * pow2(e)) as i64;
    let var1 = lut[(number as int) / 0x400_0000 - 8] as i64;
    let r = i64_specs::wrapping_mul(number, newton_q31(number, var1, 3)) >> 28i64;
    (r >> ((e / 2) as u64)) as i32
}

fn sqrt_newton_q15(number: i32, var1: i32) -> (r: i32)
    ensures
        r == i32_specs::wrapping_mul(number, newton_q15(number, var1, 3)) >> 12i32,
{
    let mut v = var1;
    let mut i: usize = 0;
    while i < 3
        invariant
            0 <= i <= 3,
            newton_q15(number, v, (3 - i) as nat) == newton_q15(number, var1, 3),
        decreases 3 - i,
    {
        let mut temp = v.wrapping_mul(v) >> 12;
        temp = number.wrapping_mul(temp) >> 15;
        temp = 0x3000i32.wrapping_sub(temp);
        v = v.wrapping_mul(temp) >> 13;
        i = i + 1;
    }
    number.wrapping_mul(v) >> 12
}

fn sqrt_newton_q31(number: i64, var1: i64) -> (r: i64)
    ensures
        r == i64_specs::wrapping_mul(number, newton_q31(number, var1, 3)) >> 28i64,
{
    let mut v = var1;
    let mut i: usize = 0;
    while i < 3
        invariant
            0 <= i <= 3,
            newton_q31(number, v, (3 - i) as nat) == newton_q31(number, var1, 3),
        decreases 3 - i,
    {
        let mut temp = v.wrapping_mul(v) >> 28;
        temp = number.wrapping_mul(temp) >> 31;
        temp = 0x3000_0000i64.wrapping_sub(temp);
        v = v.wrapping_mul(temp) >> 29;
        i = i + 1;
    }
    number.wrapping_mul(v) >> 28
}

/// Q15 square root using the CMSIS lookup-table + Newton iteration; `lut` is the
/// 12-entry table of initial `1 / sqrt` guesses.
pub fn sqrt_i16(input: i16, lut: &[u16]) -> (r: Result<i16, Error>)
    requires
        lut.len() >= 12,
    ensures
        input < 0 ==> r == Err::<i16, Error>(Error::NanInf),
        input == 0 ==> r == Ok::<i16, Error>(0),
        input > 0 ==> r == Ok::<i16, Error>(sqrt_q15(input, lut@)),
{
    if input < 0 {
        return Err(Error::NanInf);
    }
    if input == 0 {
        return Ok(0);
    }
    let input_u = input as u16 as u32;
    let lz = input_u.leading_zeros();
    proof {
        lemma_leading_zeros_u32(input_u);
        let z = lz;
        assert(1 <= input_u <= 32767 && z <= 32 && (z < 32 ==> (input_u >> ((31 - z) as u32))
            & 1u32 != 0u32) && input_u >> ((32 - z) as u32) == 0 ==> 17 <= z <= 31) by (bit_vector);
    }
    let sign_bits = lz as i32 - 17;
    let shift = (if sign_bits & 1 == 0 {
        sign_bits
    } else {
        sign_bits - 1
    }) as u32;
    proof {
        let z = lz;
        let sb = sign_bits;
        assert((0 <= sb <= 14 ==> (sb & 1 == 0 <==> sb % 2 == 0)) && (1 <= input_u <= 32767 && 17 <= z <= 31 && (input_u >> ((31 - z) as u32)) & 1u32
            != 0u32 && input_u >> ((32 - z) as u32) == 0 && shift == (if (z - 17) % 2 == 0 {
            z - 17
        } else {
            z - 18
        }) ==> 0x2000 <= input_u << shift < 0x8000)) by (bit_vector);
        let xu = input_u as u64;
        let sh = shift as u64;
        lemma_small_shift_product(xu as int, sh as nat);
        vstd::bits::lemma_u64_shl_is_mul(xu, sh);
        assert((input_u << shift) as u64 == xu << sh) by (bit_vector)
            requires
                xu == input_u as u64,
                sh == shift as u64,
                input_u < 0x8000,
                shift < 15,
        ;
        assert(shift % 2 == 0);
        lemma_even_norm_shift(input as int, 0x8000, shift as nat);
    }
    let number = (input as i32).wrapping_shl(shift);
    proof {
        assert((input as i32) << shift == (input_u << shift) as i32) by (bit_vector)
            requires
                input_u == input as u32,
                0 <= input,
                shift < 15,
        ;
    }
    proof {
        assert(0x2000 <= number < 0x8000);
        assert(0x2000 <= number < 0x8000 ==> number >> 11 == number / 2048) by (bit_vector);
    }
    // the table starts at the mantissa 0x2000, whose index is 0x2000 >> 11 == 4
    let index = ((number >> 11) as usize) - 4;
    let var1 = lut[index] as i32;
    let mut result = sqrt_newton_q15(number, var1);
    let final_shift = if sign_bits & 1 == 0 {
        (sign_bits / 2) as u32
    } else {
        ((sign_bits - 1) / 2) as u32
    };
    proof {
        assert(final_shift == shift / 2);
    }
    result >>= final_shift;
    Ok(#[verifier::truncate] (result as i16))
}

/// Q31 square root using the CMSIS lookup-table + Newton iteration; `lut` is the
/// 24-entry table of initial `1 / sqrt` guesses.
pub fn sqrt_i32(input: i32, lut: &[u32]) -> (r: Result<i32, Error>)
    requires
        lut.len() >= 24,
    ensures
        input < 0 ==> r == Err::<i32, Error>(Error::NanInf),
        input == 0 ==> r == Ok::<i32, Error>(0),
        input > 0 ==> r == Ok::<i32, Error>(sqrt_q31(input, lut@)),
{
    if input < 0 {
        return Err(Error::NanInf);
    }
    if input == 0 {
        return Ok(0);
    }
    let input_u = input as u32;
    let lz = input_u.leading_zeros();
    proof {
        lemma_leading_zeros_u32(input_u);
        let z = lz;
        assert(1 <= input_u <= 0x7fff_ffff && z <= 32 && (z < 32 ==> (input_u >> ((31 - z) as u32))
            & 1u32 != 0u32) && input_u >> ((32 - z) as u32) == 0 ==> 1 <= z <= 31) by (bit_vector);
    }
    let sign_bits = lz as i32 - 1;
    let shift = (if sign_bits & 1 == 0 {
        sign_bits
    } else {
        sign_bits - 1
    }) as u32;
    proof {
        let z = lz;
        let sb = sign_bits;
        let xu = input_u as u64;
        let sh = shift as u64;
        assert((0 <= sb <= 30 ==> (sb & 1 == 0 <==> sb % 2 == 0)) && (1 <= input_u <= 0x7fff_ffff && 1 <= z <= 31 && (input_u >> ((31 - z) as u32)) & 1u32
            != 0u32 && input_u >> ((32 - z) as u32) == 0 && shift == (if (z - 1) % 2 == 0 {
            z - 1
        } else {
            z - 2
        }) && xu == input_u as u64 && sh == shift as u64 ==> 0x2000_0000 <= xu << sh < 0x8000_0000))
            by (bit_vector);
        lemma_small_shift_product(xu as int, sh as nat);
        vstd::bits::lemma_u64_shl_is_mul(xu, sh);
        assert(shift % 2 == 0);
        lemma_even_norm_shift(input as int, 0x8000_0000, shift as nat);
    }
    let number = (input as i64).wrapping_shl(shift);
    proof {
        let xu = input_u as u64;
        let sh = shift as u64;
        assert((input as i64) << (shift as i64) == (xu << sh) as i64) by (bit_vector)
            requires
                xu == input as u64,
                sh == shift as u64,
                0 <= input,
                shift < 31,
        ;
    }
    proof {
        assert(0x2000_0000 <= number < 0x8000_0000);
        assert(0x2000_0000 <= number < 0x8000_0000 ==> number >> 26 == number / 0x400_0000)
            by (bit_vector);
    }
    // the table starts at the mantissa 0x2000_0000, whose index is 0x2000_0000 >> 26 == 8
    let index = ((number >> 26) as usize) - 8;
    let var1 = lut[index] as i64;
    let mut result = sqrt_newton_q31(number, var1);
    let final_shift = if sign_bits & 1 == 0 {
        (sign_bits / 2) as u32
    } else {
        ((sign_bits - 1) / 2) as u32
    };
    proof {
        assert(final_shift == shift / 2);
    }
    result >>= final_shift;
    Ok(#[verifier::truncate] (result as i32))
}

} // verus!
