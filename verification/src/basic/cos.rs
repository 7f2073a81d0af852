//! Table-driven cosine of a normalized angle (a full turn is `1.0`).
use crate::qmath::lemma_shr_floor;
use vstd::prelude::*;

verus! {

/// Position on the sine table of `cos(2 pi x)`: the Q15 angle read as unsigned
/// and advanced by a quarter turn, modulo half the range (the table holds one
/// full period over `0 .. 0x8000`).
pub open spec fn cos_phase_q15(x: i16) -> int {
    ((x as u16) as int + 0x2000) % 0x8000
}

/// The same for a Q31 angle.
pub open spec fn cos_phase_q31(x: i32) -> int {
    ((x as u32) as int + 0x2000_0000) % 0x8000_0000
}

/// Q15 cosine: linear interpolation between the two sine-table entries that
/// bracket the phase, each stored as the bits of a Q15 value. The first product
/// is rounded down to Q15 before the second is added, and the sum is rounded
/// down and doubled.
pub open spec fn cos_q15(x: i16, table: Seq<u16>) -> i16 {
    let phase = cos_phase_q15(x);
    let index = phase / 64;
    let fract = (phase % 64) * 512;
    let a = (table[index] as i16) as int;
    let b = (table[index + 1] as i16) as int;
    let head = ((0x8000 - fract) * a) / 0x1_0000;
    let val = (head * 0x1_0000 + fract * b) / 0x1_0000;
    (val * 2) as i16
}

/// Q31 cosine, as `cos_q15` on a 512-entry table of Q31 values.
pub open spec fn cos_q31(x: i32, table: Seq<u32>) -> i32 {
    let phase = cos_phase_q31(x);
    let index = phase / 0x40_0000;
    let fract = (phase % 0x40_0000) * 512;
    let a = (table[index] as i32) as int;
    let b = (table[index + 1] as i32) as int;
    let head = ((0x8000_0000 - fract) * a) / 0x1_0000_0000;
    let val = (head * 0x1_0000_0000 + fract * b) / 0x1_0000_0000;
    (val * 2) as i32
}

/// The Q15 cosine interpolates linearly between the two sine-table entries that
/// bracket the angle advanced by a quarter turn: with the phase split into a
/// table step `k` and a fraction `f / 64` of the next step, the result `r`
/// satisfies `64 r <= (64 - f) a + f b < 64 r + 4 * 64`, where `a` and `b` are
/// entries `k` and `k + 1` read as Q15 values.
pub proof fn lemma_cos_q15_interpolates(x: i16, table: Seq<u16>)
    requires
        table.len() >= 513,
    ensures
        ({
            let t = ((x as u16) as int + 0x2000) % 0x8000;
            let k = t / 64;
            let f = t % 64;
            let a = (table[k] as i16) as int;
            let b = (table[k + 1] as i16) as int;
            let r = cos_q15(x, table) as int;
            r * 64 <= (64 - f) * a + f * b < r * 64 + 4 * 64
        }),
{
    let t = ((x as u16) as int + 0x2000) % 0x8000;
    let k = t / 64;
    let f = t % 64;
    let a = (table[k] as i16) as int;
    let b = (table[k + 1] as i16) as int;
    let fr = f * 512;
    let y1 = (0x8000 - fr) * a;
    let y2 = fr * b;
    let head = y1 / 0x1_0000;
    let val = (head * 0x1_0000 + y2) / 0x1_0000;
    assert(0 <= f < 64);
    assert(y1 + y2 == 512 * ((64 - f) * a + f * b)) by (nonlinear_arith)
        requires
            y1 == (0x8000 - fr) * a,
            y2 == fr * b,
            fr == f * 512,
    ;
    assert(-0x8000 * (0x8000 - fr) <= y1 <= 0x7fff * (0x8000 - fr)) by (nonlinear_arith)
        requires
            y1 == (0x8000 - fr) * a,
            0 <= fr <= 0x7e00,
            -0x8000 <= a <= 0x7fff,
    ;
    assert(-0x8000 * fr <= y2 <= 0x7fff * fr) by (nonlinear_arith)
        requires
            y2 == fr * b,
            0 <= fr <= 0x7e00,
            -0x8000 <= b <= 0x7fff,
    ;
    assert(val == head + y2 / 0x1_0000);
    assert(-0x4000 <= val <= 0x3fff);
    assert(cos_q15(x, table) as int == 2 * val);
}

/// The Q31 cosine interpolates linearly between the two sine-table entries that
/// bracket the angle advanced by a quarter turn: with the phase split into a
/// table step `k` and a fraction `f / 2^22` of the next step, the result `r`
/// satisfies `2^22 r <= (2^22 - f) a + f b < 2^22 r + 4 * 2^22`, where `a` and
/// `b` are entries `k` and `k + 1` read as Q31 values.
pub proof fn lemma_cos_q31_interpolates(x: i32, table: Seq<u32>)
    requires
        table.len() >= 513,
    ensures
        ({
            let t = ((x as u32) as int + 0x2000_0000) % 0x8000_0000;
            let k = t / 0x40_0000;
            let f = t % 0x40_0000;
            let a = (table[k] as i32) as int;
            let b = (table[k + 1] as i32) as int;
            let r = cos_q31(x, table) as int;
            r * 0x40_0000 <= (0x40_0000 - f) * a + f * b < r * 0x40_0000 + 4 * 0x40_0000
        }),
{
    let t = ((x as u32) as int + 0x2000_0000) % 0x8000_0000;
    let k = t / 0x40_0000;
    let f = t % 0x40_0000;
    let a = (table[k] as i32) as int;
    let b = (table[k + 1] as i32) as int;
    let fr = f * 512;
    let y1 = (0x8000_0000 - fr) * a;
    let y2 = fr * b;
    let head = y1 / 0x1_0000_0000;
    let val = (head * 0x1_0000_0000 + y2) / 0x1_0000_0000;
    assert(0 <= f < 0x40_0000);
    assert(y1 + y2 == 512 * ((0x40_0000 - f) * a + f * b)) by (nonlinear_arith)
        requires
            y1 == (0x8000_0000 - fr) * a,
            y2 == fr * b,
            fr == f * 512,
    ;
    assert(-0x8000_0000 * (0x8000_0000 - fr) <= y1 <= 0x7fff_ffff * (0x8000_0000 - fr))
        by (nonlinear_arith)
        requires
            y1 == (0x8000_0000 - fr) * a,
            0 <= fr <= 0x7fff_fe00,
            -0x8000_0000 <= a <= 0x7fff_ffff,
    ;
    assert(-0x8000_0000 * fr <= y2 <= 0x7fff_ffff * fr) by (nonlinear_arith)
        requires
            y2 == fr * b,
            0 <= fr <= 0x7fff_fe00,
            -0x8000_0000 <= b <= 0x7fff_ffff,
    ;
    assert(val == head + y2 / 0x1_0000_0000);
    assert(-0x4000_0000 <= val <= 0x3fff_ffff);
    assert(cos_q31(x, table) as int == 2 * val);
}

/// Cosine of a Q15 angle in `[0, 1)` turn, from a 513-entry sine table whose
/// entries are the bits of Q15 values.
pub fn cos_i16(x: i16, sin_table: &[u16]) -> (r: i16)
    requires
        sin_table.len() >= 513,
    ensures
        r == cos_q15(x, sin_table@),
{
    let mut x_bits = (x as u16).wrapping_add(0x2000);
    if x_bits >= 0x8000 {
        x_bits = x_bits.wrapping_add(0x8000);
    }
    proof {
        vstd::bits::lemma_u32_shr_is_div(x_bits as u32, 6);
        vstd::arithmetic::power2::lemma2_to64();
        lemma_shr_floor();
    }
    let x_mapped = x_bits as i32;
    let index = ((x_bits as u32) >> 6) as usize;
    assert(x_mapped == cos_phase_q15(x));
    let fract = (x_mapped - (index as i32) * 64) * 512;
    let a = sin_table[index] as i16 as i32;
    let b = sin_table[index + 1] as i16 as i32;
    proof {
        assert(-0x4000_0000 <= (0x8000 - fract) * a <= 0x4000_0000) by (nonlinear_arith)
            requires
                0 <= fract <= 0x7e00,
                -0x8000 <= a <= 0x7fff,
        ;
        assert(-0x3f00_0000 <= fract * b <= 0x3f00_0000) by (nonlinear_arith)
            requires
                0 <= fract <= 0x7e00,
                -0x8000 <= b <= 0x7fff,
        ;
        assert((0x8000 - fract) * a + fract * b <= 0x8000 * 0x7fff) by (nonlinear_arith)
            requires
                0 <= fract <= 0x7e00,
                a <= 0x7fff,
                b <= 0x7fff,
        ;
        assert((0x8000 - fract) * a + fract * b >= -0x8000 * 0x8000) by (nonlinear_arith)
            requires
                0 <= fract <= 0x7e00,
                -0x8000 <= a,
                -0x8000 <= b,
        ;
    }
    let head = ((0x8000i32 - fract) * a) >> 16;
    let cos_val = (head * 0x1_0000 + fract * b) >> 16;
    #[verifier::truncate] ((cos_val * 2) as i16)
}

/// Cosine of a Q31 angle in `[0, 1)` turn, from a 513-entry sine table whose
/// entries are the bits of Q31 values.
pub fn cos_i32(x: i32, sin_table: &[u32]) -> (r: i32)
    requires
        sin_table.len() >= 513,
    ensures
        r == cos_q31(x, sin_table@),
{
    let mut x_bits = (x as u32).wrapping_add(0x2000_0000);
    if x_bits >= 0x8000_0000 {
        x_bits = x_bits.wrapping_add(0x8000_0000);
    }
    proof {
        vstd::bits::lemma_u32_shr_is_div(x_bits, 22);
        vstd::arithmetic::power2::lemma2_to64();
        lemma_shr_floor();
    }
    let x_mapped = x_bits as i64;
    let index = (x_bits >> 22) as usize;
    assert(x_mapped == cos_phase_q31(x));
    let fract = (x_mapped - (index as i64) * 0x40_0000) * 512;
    let a = sin_table[index] as i32 as i64;
    let b = sin_table[index + 1] as i32 as i64;
    proof {
        assert(-0x4000_0000_0000_0000 <= (0x8000_0000 - fract) * a <= 0x4000_0000_0000_0000)
            by (nonlinear_arith)
            requires
                0 <= fract <= 0x7fff_fe00,
                -0x8000_0000 <= a <= 0x7fff_ffff,
        ;
        assert(-0x4000_0000_0000_0000 <= fract * b <= 0x4000_0000_0000_0000) by (nonlinear_arith)
            requires
                0 <= fract <= 0x7fff_fe00,
                -0x8000_0000 <= b <= 0x7fff_ffff,
        ;
        assert((0x8000_0000 - fract) * a + fract * b <= 0x8000_0000 * 0x7fff_ffff)
            by (nonlinear_arith)
            requires
                0 <= fract <= 0x7fff_fe00,
                a <= 0x7fff_ffff,
                b <= 0x7fff_ffff,
        ;
        assert((0x8000_0000 - fract) * a + fract * b >= -0x8000_0000 * 0x8000_0000)
            by (nonlinear_arith)
            requires
                0 <= fract <= 0x7fff_fe00,
                -0x8000_0000 <= a,
                -0x8000_0000 <= b,
        ;
    }
    let head = ((0x8000_0000i64 - fract) * a) >> 32;
    let cos_val = (head * 0x1_0000_0000 + fract * b) >> 32;
    #[verifier::truncate] ((cos_val * 2) as i32)
}

} // verus!
