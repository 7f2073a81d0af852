use crate::qmath::{lemma_leading_zeros_u32, lemma_shr_floor};
use vstd::prelude::*;
use vstd::std_specs::bits::u32_leading_zeros;

verus! {

/// The fractional bits of `log2` found by repeated squaring of a Q14-normalized
/// mantissa: each squaring that reaches 2.0 contributes `inc`, halved every step.
pub open spec fn log_bits_q15(xn: u32, inc: u32, k: nat) -> int
    decreases k,
{
    if k == 0 {
        0
    } else {
        let sq = (((xn as i32) * (xn as i32)) as i32 >> 14i32) as u32;
        if sq >= 0x8000 {
            inc + log_bits_q15(sq >> 1u32, inc >> 1u32, (k - 1) as nat)
        } else {
            log_bits_q15(sq, inc >> 1u32, (k - 1) as nat)
        }
    }
}

/// The same for a Q30-normalized 64-bit mantissa.
pub open spec fn log_bits_q31(xn: u64, inc: u64, k: nat) -> int
    decreases k,
{
    if k == 0 {
        0
    } else {
        let sq = ((xn * xn) as u64 >> 30u64) as u64;
        if sq >= 0x8000_0000 {
            inc + log_bits_q31(sq >> 1u64, inc >> 1u64, (k - 1) as nat)
        } else {
            log_bits_q31(sq, inc >> 1u64, (k - 1) as nat)
        }
    }
}

/// Natural logarithm of a Q15 sample (its 16 bits read as unsigned), in Q4.11
/// scaled by `1 / ln 2`: the sample is normalized by its leading zeros, fifteen
/// fractional bits of `log2` are found by squaring, the normalization is
/// subtracted and the result multiplied by `ln 2` (`0x58b9` in Q15).
pub open spec fn log_q15(x: i16) -> i16 {
    let src = (x as u16) as u32;
    let c = u32_leading_zeros(src) as int - 16;
    let xn = if c - 1 < 0 {
        src >> ((1 - c) as u32)
    } else {
        src << ((c - 1) as u32)
    };
    let y = log_bits_q15(xn, 1024, 15);
    let tmp = (y - c * 2048) as i32;
    (((tmp as i64) * 0x58b9) as i64 >> 15i64) as i32 as i16
}

/// Natural logarithm of a Q31 sample (its 32 bits read as unsigned), in Q5.26
/// scaled by `1 / ln 2`, as `log_q15` with thirty-one fractional bits.
pub open spec fn log_q31(x: i32) -> i32 {
    let src = x as u32;
    let c = u32_leading_zeros(src) as int;
    let xn = if c - 1 < 0 {
        (src as u64) >> ((1 - c) as u64)
    } else {
        (src as u64) << ((c - 1) as u64)
    };
    let y = log_bits_q31(xn, 0x200_0000, 31);
    let tmp = (y - c * 0x400_0000) as i64;
    ((tmp * 0x58b90bfb) as i64 >> 31i64) as i32
}

/// The leading-zero count of a 16-bit sample held in 32 bits is at least 16, and
/// the sample normalized by it stays below `0x8000`.
proof fn lemma_norm_q15(src: u32, z: u32)
    requires
        src <= 0xffff,
        z <= 32,
        z < 32 ==> (src >> ((31 - z) as u32)) & 1u32 != 0u32,
        src >> ((32 - z) as u32) == 0,
    ensures
        16 <= z <= 32,
        z == 16 ==> src >> 1u32 < 0x8000,
        z > 16 ==> src << ((z - 17) as u32) < 0x8000,
{
    assert(src <= 0xffff && z <= 32 && (z < 32 ==> (src >> ((31 - z) as u32)) & 1u32 != 0u32)
        && src >> ((32 - z) as u32) == 0 ==> 16 <= z <= 32 && (z == 16 ==> src >> 1u32 < 0x8000)
        && (z > 16 ==> src << ((z - 17) as u32) < 0x8000)) by (bit_vector);
}

/// A larger value has no more leading zeros.
proof fn lemma_leading_zeros_mono(x: u32, y: u32, zx: u32, zy: u32)
    requires
        x <= y,
        zx <= 32,
        zy <= 32,
        zx < 32 ==> (x >> ((31 - zx) as u32)) & 1u32 != 0u32,
        y >> ((32 - zy) as u32) == 0,
    ensures
        zy <= zx,
{
    assert(x <= y && zx <= 32 && zy <= 32 && (zx < 32 ==> (x >> ((31 - zx) as u32)) & 1u32 != 0u32)
        && y >> ((32 - zy) as u32) == 0 ==> zy <= zx) by (bit_vector);
}

/// Normalizing two 16-bit samples by the same leading-zero count keeps their order.
proof fn lemma_norm_mono(x: u32, y: u32, z: u32)
    requires
        x <= y,
        16 <= z <= 32,
        y >> ((32 - z) as u32) == 0,
    ensures
        z == 16 ==> x >> 1u32 <= y >> 1u32,
        z > 16 ==> x << ((z - 17) as u32) <= y << ((z - 17) as u32),
{
    assert(x <= y && 16 <= z <= 32 && y >> ((32 - z) as u32) == 0 ==> (z == 16 ==> x >> 1u32 <= y
        >> 1u32) && (z > 16 ==> x << ((z - 17) as u32) <= y << ((z - 17) as u32))) by (bit_vector);
}

/// The fractional bits add up to at most twice the first increment.
proof fn lemma_log_bits_q15_bound(xn: u32, inc: u32, k: nat)
    ensures
        0 <= log_bits_q15(xn, inc, k) <= 2 * inc,
    decreases k,
{
    if k > 0 {
        let sq = (((xn as i32) * (xn as i32)) as i32 >> 14i32) as u32;
        vstd::bits::lemma_u32_shr_is_div(inc, 1);
        vstd::arithmetic::power2::lemma2_to64();
        lemma_log_bits_q15_bound(sq >> 1u32, inc >> 1u32, (k - 1) as nat);
        lemma_log_bits_q15_bound(sq, inc >> 1u32, (k - 1) as nat);
    }
}

/// The fractional bits never decrease as the normalized mantissa grows.
proof fn lemma_log_bits_q15_mono(a: u32, b: u32, inc: u32, k: nat)
    requires
        a <= b < 0x8000,
    ensures
        log_bits_q15(a, inc, k) <= log_bits_q15(b, inc, k),
    decreases k,
{
    if k > 0 {
        assert(a * a <= b * b < 0x4000_0000) by (nonlinear_arith)
            requires
                a <= b < 0x8000,
        ;
        lemma_shr_floor();
        let pa = ((a as i32) * (a as i32)) as i32;
        let pb = ((b as i32) * (b as i32)) as i32;
        assert(pa == a * a && pb == b * b);
        let sa = (pa >> 14i32) as u32;
        let sb = (pb >> 14i32) as u32;
        assert(0 <= pa >> 14i32 <= pb >> 14i32 < 0x10000);
        assert(sa <= sb < 0x10000);
        vstd::bits::lemma_u32_shr_is_div(sa, 1);
        vstd::bits::lemma_u32_shr_is_div(sb, 1);
        vstd::bits::lemma_u32_shr_is_div(inc, 1);
        vstd::arithmetic::power2::lemma2_to64();
        let inc2 = inc >> 1u32;
        assert(sa >> 1u32 == sa / 2 && sb >> 1u32 == sb / 2);
        if sa >= 0x8000 {
            lemma_log_bits_q15_mono(sa >> 1u32, sb >> 1u32, inc2, (k - 1) as nat);
        } else if sb >= 0x8000 {
            lemma_log_bits_q15_bound(sa, inc2, (k - 1) as nat);
            lemma_log_bits_q15_bound(sb >> 1u32, inc2, (k - 1) as nat);
        } else {
            lemma_log_bits_q15_mono(sa, sb, inc2, (k - 1) as nat);
        }
    }
}

/// The Q15 logarithm never decreases over non-negative samples.
pub proof fn lemma_log_q15_monotone(x: i16, y: i16)
    requires
        0 <= x <= y,
    ensures
        log_q15(x) <= log_q15(y),
{
    let sx = (x as u16) as u32;
    let sy = (y as u16) as u32;
    assert(sx == x && sy == y);
    let zx = u32_leading_zeros(sx);
    let zy = u32_leading_zeros(sy);
    lemma_leading_zeros_u32(sx);
    lemma_leading_zeros_u32(sy);
    lemma_norm_q15(sx, zx);
    lemma_norm_q15(sy, zy);
    lemma_leading_zeros_mono(sx, sy, zx, zy);
    let cx = zx as int - 16;
    let cy = zy as int - 16;
    let nx = if cx - 1 < 0 { sx >> ((1 - cx) as u32) } else { sx << ((cx - 1) as u32) };
    let ny = if cy - 1 < 0 { sy >> ((1 - cy) as u32) } else { sy << ((cy - 1) as u32) };
    let bx = log_bits_q15(nx, 1024, 15);
    let by = log_bits_q15(ny, 1024, 15);
    lemma_log_bits_q15_bound(nx, 1024, 15);
    lemma_log_bits_q15_bound(ny, 1024, 15);
    if zx == zy {
        lemma_norm_mono(sx, sy, zx);
        lemma_log_bits_q15_mono(nx, ny, 1024, 15);
    }
    let tx = bx - cx * 2048;
    let ty = by - cy * 2048;
    assert(tx <= ty);
    assert(-32768 <= tx <= 2048 && -32768 <= ty <= 2048);
    lemma_shr_floor();
    let vx = ((tx as i32) as i64 * 0x58b9) as i64;
    let vy = ((ty as i32) as i64 * 0x58b9) as i64;
    assert(vx <= vy);
    assert(-0x8000 * 0x58b9 <= vx && vy <= 2048 * 0x58b9);
}

fn log_i16(x: i16) -> (r: i16)
    ensures
        r == log_q15(x),
{
    let src = x as u16 as u32;
    let lz = src.leading_zeros();
    proof {
        lemma_leading_zeros_u32(src);
        lemma_norm_q15(src, lz);
    }
    let c = lz as i32 - 16;
    let normalization = c;
    // half of the Q16 unit, moved past the four integer bits of the result
    let mut inc: u32 = 1024;
    let mut xn = src;
    if c - 1 < 0 {
        xn >>= (1 - c) as u32;
    } else {
        xn <<= (c - 1) as u32;
    }
    let ghost xn0 = xn;
    let mut y: u32 = 0;
    let mut i: usize = 0;
    while i < 15
        invariant
            0 <= i <= 15,
            xn < 0x8000,
            y + 2 * inc <= 2048,
            y + log_bits_q15(xn, inc, (15 - i) as nat) == log_bits_q15(xn0, 1024, 15),
        decreases 15 - i,
    {
        proof {
            assert(xn * xn < 0x4000_0000) by (nonlinear_arith)
                requires
                    xn < 0x8000,
            ;
            vstd::bits::lemma_u32_shr_is_div(inc, 1);
            vstd::arithmetic::power2::lemma2_to64();
        }
        let p: i32 = xn as i32 * xn as i32;
        proof {
            assert(0 <= p < 0x4000_0000 ==> 0 <= p >> 14i32 < 0x10000) by (bit_vector);
        }
        xn = (p >> 14) as u32;
        proof {
            vstd::bits::lemma_u32_shr_is_div(xn, 1);
        }
        if xn >= 0x8000 {
            y = y.wrapping_add(inc);
            xn >>= 1;
        }
        inc >>= 1;
        i = i + 1;
    }
    let tmp = y as i32 - normalization * 2048;
    (((tmp as i64 * 0x58b9i64) >> 15) as i32) as i16
}

/// Q15 natural logarithm of every input sample into `output`.
pub fn vlog_i16(input: &[i16], output: &mut [i16])
    requires
        input.len() == old(output).len(),
    ensures
        final(output)@.len() == input.len(),
        forall|k: int| 0 <= k < input.len() ==> #[trigger] final(output)@[k] == log_q15(input@[k]),
{
    let mut k: usize = 0;
    while k < input.len()
        invariant
            input.len() == output@.len(),
            0 <= k <= input.len(),
            forall|j: int| 0 <= j < k ==> #[trigger] output@[j] == log_q15(input@[j]),
        decreases input.len() - k,
    {
        output[k] = log_i16(input[k]);
        k = k + 1;
    }
}

fn log_i32(x: i32) -> (r: i32)
    ensures
        r == log_q31(x),
{
    let src = #[verifier::truncate] (x as u32);
    let lz = src.leading_zeros();
    proof {
        lemma_leading_zeros_u32(src);
        let z = lz;
        let s64 = src as u64;
        assert(z <= 32 && (z < 32 ==> (src >> ((31 - z) as u32)) & 1u32 != 0u32) && src >> ((32
            - z) as u32) == 0 && s64 == src as u64 ==> (z == 0 ==> s64 >> 1u64 < 0x8000_0000) && (z
            > 0 ==> s64 << ((z - 1) as u64) < 0x8000_0000)) by (bit_vector);
        vstd::arithmetic::power2::lemma2_to64();
    }
    let c = lz as i32;
    let normalization = c;
    // half of the Q32 unit, moved past the five integer bits of the result
    let mut inc: u64 = 0x200_0000;
    let mut xn = src as u64;
    if c - 1 < 0 {
        xn >>= (1 - c) as u64;
    } else {
        xn <<= (c - 1) as u64;
    }
    let ghost xn0 = xn;
    let mut y: u64 = 0;
    let mut i: usize = 0;
    while i < 31
        invariant
            0 <= i <= 31,
            xn < 0x8000_0000,
            y + 2 * inc <= 0x400_0000,
            y + log_bits_q31(xn, inc, (31 - i) as nat) == log_bits_q31(xn0, 0x200_0000, 31),
            vstd::arithmetic::power2::pow2(1) == 2,
            vstd::arithmetic::power2::pow2(30) == 0x4000_0000,
        decreases 31 - i,
    {
        proof {
            assert(xn * xn < 0x4000_0000_0000_0000) by (nonlinear_arith)
                requires
                    xn < 0x8000_0000,
            ;
            vstd::bits::lemma_u64_shr_is_div(inc, 1);
        }
        let p: u64 = xn * xn;
        proof {
            vstd::bits::lemma_u64_shr_is_div(p, 30);
        }
        xn = p >> 30;
        proof {
            vstd::bits::lemma_u64_shr_is_div(xn, 1);
        }
        if xn >= 0x8000_0000 {
            y = y.wrapping_add(inc);
            xn >>= 1;
        }
        inc >>= 1;
        i = i + 1;
    }
    let tmp = y as i64 - normalization as i64 * 0x400_0000;
    proof {
        assert(-0x8000_0000 * 0x58b90bfb <= tmp * 0x58b90bfb <= 0x400_0000 * 0x58b90bfb) by (nonlinear_arith)
            requires
                -0x8000_0000 <= tmp <= 0x400_0000,
        ;
    }
    #[verifier::truncate] (((tmp * 0x58b90bfbi64) >> 31) as i32)
}

/// Q31 natural logarithm of every input sample into `output`.
pub fn vlog_i32(input: &[i32], output: &mut [i32])
    requires
        input.len() == old(output).len(),
    ensures
        final(output)@.len() == input.len(),
        forall|k: int| 0 <= k < input.len() ==> #[trigger] final(output)@[k] == log_q31(input@[k]),
{
    let mut k: usize = 0;
    while k < input.len()
        invariant
            input.len() == output@.len(),
            0 <= k <= input.len(),
            forall|j: int| 0 <= j < k ==> #[trigger] output@[j] == log_q31(input@[j]),
        decreases input.len() - k,
    {
        output[k] = log_i32(input[k]);
        k = k + 1;
    }
}

/// Q31 natural logarithm of every sample, in place.
pub fn vlog_i32_in_place(data: &mut [i32])
    ensures
        final(data)@.len() == old(data)@.len(),
        forall|k: int| 0 <= k < old(data)@.len() ==> #[trigger] final(data)@[k] == log_q31(old(data)@[k]),
{
    let ghost before = data@;
    let mut k: usize = 0;
    while k < data.len()
        invariant
            data@.len() == before.len(),
            0 <= k <= data@.len(),
            forall|j: int| 0 <= j < k ==> #[trigger] data@[j] == log_q31(before[j]),
            forall|j: int| k <= j < data@.len() ==> #[trigger] data@[j] == before[j],
        decreases data@.len() - k,
    {
        let v = data[k];
        data[k] = log_i32(v);
        k = k + 1;
    }
}

} // verus!
