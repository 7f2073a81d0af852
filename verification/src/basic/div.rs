use crate::common::error::Error;
use crate::qmath::lemma_leading_zeros_u32;
use crate::statistics::absmax::{abs_q15, abs_q31, saturating_abs_i16, saturating_abs_i32};
use vstd::arithmetic::power2::pow2;
use vstd::prelude::*;

verus! {

/// `(q, s)` is the normalized Q15 quotient of `n / d`: with
/// `t = |n| * 2^15 / |d|` (saturating absolute values, integer division), `s` is the
/// smallest shift that brings `t` below `2^15`, and `q = ±(t >> s)` carries the sign
/// of the quotient, so that `n / d ≈ q * 2^s` in Q15.
pub open spec fn div_q15_ok(n: i16, d: i16, q: i16, s: i16) -> bool {
    let t = (abs_q15(n) as int * 32768) / (abs_q15(d) as int);
    let m = t / (pow2(s as nat) as int);
    &&& 0 <= s <= 15
    &&& m < 32768
    &&& (s == 0 || m >= 16384)
    &&& q == (if (n < 0) != (d < 0) {
        -m
    } else {
        m
    })
}

/// `(q, s)` is the normalized Q31 quotient of `n / d`: with
/// `t = |n| * 2^31 / |d|`, `s` is the smallest shift that brings `t` below `2^31`,
/// and `q = ±(t >> s)`.
pub open spec fn div_q31_ok(n: i32, d: i32, q: i32, s: i16) -> bool {
    let t = (abs_q31(n) as int * 0x8000_0000) / (abs_q31(d) as int);
    let m = t / (pow2(s as nat) as int);
    &&& 0 <= s <= 31
    &&& m < 0x8000_0000
    &&& (s == 0 || m >= 0x4000_0000)
    &&& q == (if (n < 0) != (d < 0) {
        -m
    } else {
        m
    })
}

/// The normalized Q15 quotient `(q, s)` of `n / d` (`d != 0`): the one pair with
/// `div_q15_ok(n, d, q, s)`.
pub open spec fn div_q15(n: i16, d: i16) -> (i16, i16) {
    choose|p: (i16, i16)| div_q15_ok(n, d, p.0, p.1)
}

/// The normalized Q31 quotient `(q, s)` of `n / d` (`d != 0`): the one pair with
/// `div_q31_ok(n, d, q, s)`.
pub open spec fn div_q31(n: i32, d: i32) -> (i32, i16) {
    choose|p: (i32, i16)| div_q31_ok(n, d, p.0, p.1)
}

/// A smaller shift leaves a larger quotient: if `t >> hi` reaches `h`, then
/// `t >> lo` reaches `2 h` for every `lo < hi`.
proof fn lemma_norm_shift_order(t: int, h: int, lo: nat, hi: nat)
    requires
        lo < hi,
        0 <= t,
        0 < h,
        t / (pow2(hi) as int) >= h,
    ensures
        t / (pow2(lo) as int) >= 2 * h,
{
    let d = (hi - lo) as nat;
    vstd::arithmetic::power2::lemma_pow2_adds(d, lo);
    vstd::arithmetic::power2::lemma_pow2_strictly_increases(0, d);
    vstd::arithmetic::power2::lemma2_to64();
    vstd::arithmetic::power2::lemma_pow2_pos(lo);
    vstd::arithmetic::power2::lemma_pow2_pos(hi);
    let pl = pow2(lo) as int;
    let ph = pow2(hi) as int;
    let pd = pow2(d) as int;
    assert(ph == pd * pl);
    vstd::arithmetic::div_mod::lemma_fundamental_div_mod(t, ph);
    vstd::arithmetic::div_mod::lemma_mod_bound(t, ph);
    let q = t / ph;
    assert(t >= 2 * h * pl) by (nonlinear_arith)
        requires
            t == ph * q + t % ph,
            t % ph >= 0,
            q >= h,
            ph == pd * pl,
            pd >= 2,
            pl > 0,
            h > 0,
    ;
    vstd::arithmetic::div_mod::lemma_div_is_ordered(2 * h * pl, t, pl);
    vstd::arithmetic::div_mod::lemma_div_by_multiple(2 * h, pl);
}

/// The normalizing shift of a non-negative quotient `t` is unique: there is one
/// `s` with `t >> s` below `2 h` and, unless `s` is zero, at least `h`.
proof fn lemma_norm_shift_unique(t: int, h: int, s1: nat, s2: nat)
    requires
        0 <= t,
        0 < h,
        t / (pow2(s1) as int) < 2 * h,
        s1 == 0 || t / (pow2(s1) as int) >= h,
        t / (pow2(s2) as int) < 2 * h,
        s2 == 0 || t / (pow2(s2) as int) >= h,
    ensures
        s1 == s2,
{
    if s1 < s2 {
        lemma_norm_shift_order(t, h, s1, s2);
    } else if s2 < s1 {
        lemma_norm_shift_order(t, h, s2, s1);
    }
}

/// The normalized Q15 quotient is unique: two pairs that both satisfy
/// `div_q15_ok` for the same operands are equal.
pub proof fn lemma_div_q15_unique(n: i16, d: i16, q1: i16, s1: i16, q2: i16, s2: i16)
    requires
        d != 0,
        div_q15_ok(n, d, q1, s1),
        div_q15_ok(n, d, q2, s2),
    ensures
        q1 == q2,
        s1 == s2,
{
    let t = (abs_q15(n) as int * 32768) / (abs_q15(d) as int);
    assert(t >= 0) by (nonlinear_arith)
        requires
            abs_q15(n) >= 0,
            abs_q15(d) > 0,
            t == (abs_q15(n) as int * 32768) / (abs_q15(d) as int),
    ;
    lemma_norm_shift_unique(t, 16384, s1 as nat, s2 as nat);
}

/// The normalized Q31 quotient is unique: two pairs that both satisfy
/// `div_q31_ok` for the same operands are equal.
pub proof fn lemma_div_q31_unique(n: i32, d: i32, q1: i32, s1: i16, q2: i32, s2: i16)
    requires
        d != 0,
        div_q31_ok(n, d, q1, s1),
        div_q31_ok(n, d, q2, s2),
    ensures
        q1 == q2,
        s1 == s2,
{
    let t = (abs_q31(n) as int * 0x8000_0000) / (abs_q31(d) as int);
    assert(t >= 0) by (nonlinear_arith)
        requires
            abs_q31(n) >= 0,
            abs_q31(d) > 0,
            t == (abs_q31(n) as int * 0x8000_0000) / (abs_q31(d) as int),
    ;
    lemma_norm_shift_unique(t, 0x4000_0000, s1 as nat, s2 as nat);
}

proof fn lemma_pow2_zero()
    ensures
        pow2(0) == 1,
{
    vstd::arithmetic::power2::lemma2_to64();
}

/// Fixed-point division for Q15 values.
///
/// The returned pair `(quotient, shift)` represents:
/// `numerator / denominator = quotient * 2^shift`, where `quotient` is normalized.
///
/// On divide-by-zero, [`Error::NanInf`] is returned.
pub fn div_i16(numerator: i16, denominator: i16) -> (r: Result<(i16, i16), Error>)
    ensures
        denominator == 0 ==> r == Err::<(i16, i16), Error>(Error::NanInf),
        denominator != 0 ==> r is Ok,
        r matches Ok((q, s)) ==> div_q15_ok(numerator, denominator, q, s),
        r matches Ok(p) ==> p == div_q15(numerator, denominator),
{
    let mut shift = 0_i16;
    let sign = (numerator < 0) ^ (denominator < 0);
    if denominator == 0 {
        return Err(Error::NanInf);
    }
    let numerator_abs = saturating_abs_i16(numerator);
    let denominator_abs = saturating_abs_i16(denominator);
    let na = numerator_abs as i32;
    proof {
        assert(0 <= na <= 32767 ==> na << 15 == na * 32768) by (bit_vector);
    }
    let mut temp = (na << 15) / (denominator_abs as i32);
    let ghost t = temp;
    let tu = temp as u32;
    let lz = tu.leading_zeros();
    proof {
        lemma_leading_zeros_u32(tu);
        assert(0 <= t < 0x4000_0000) by (nonlinear_arith)
            requires
                0 <= na <= 32767,
                1 <= denominator_abs,
                t == (na * 32768) / (denominator_abs as int),
        ;
        assert(tu == t);
    }
    let shift_for_normalizing = 17 - lz as i16;
    proof {
        lemma_pow2_zero();
        let z = lz;
        assert(tu < 0x4000_0000 && z <= 32 && (z < 32 ==> (tu >> ((31 - z) as u32)) & 1u32
            != 0u32) ==> z >= 2) by (bit_vector);
        assert(tu <= 0x4000_0000 && z <= 32 && (z < 32 ==> (tu >> ((31 - z) as u32)) & 1u32
            != 0u32) && tu >> ((32 - z) as u32) == 0 ==> (z >= 17 ==> tu < 32768) && (z < 17 ==> (tu
            >> ((17 - z) as u32)) < 32768 && (tu >> ((17 - z) as u32)) >= 16384)) by (bit_vector);
    }
    proof {
        assert(t == (numerator_abs as int * 32768) / (denominator_abs as int));
    }
    if shift_for_normalizing > 0 {
        shift = shift_for_normalizing;
        let k = shift_for_normalizing as u32;
        proof {
            assert(0 <= t ==> (t >> k) as u32 == (t as u32) >> k) by (bit_vector);
            vstd::bits::lemma_u32_shr_is_div(tu, k);
            assert(k == (17 - lz) as u32);
        }
        temp >>= k;
        proof {
            assert(temp == (t as int) / (pow2(shift as nat) as int));
            assert(16384 <= temp < 32768);
        }
    } else {
        proof {
            assert((t as int) / (pow2(0) as int) == t);
            assert(temp < 32768);
        }
    }
    let ghost m = temp;
    if sign {
        temp = -temp;
    }
    let quotient = temp as i16;
    proof {
        assert(m == (t as int) / (pow2(shift as nat) as int));
        assert(div_q15_ok(numerator, denominator, quotient, shift));
        let w = (quotient, shift);
        assert(div_q15_ok(numerator, denominator, w.0, w.1));
        let c = div_q15(numerator, denominator);
        lemma_div_q15_unique(numerator, denominator, quotient, shift, c.0, c.1);
    }
    Ok((quotient, shift))
}

/// Fixed-point division for Q31 values.
///
/// The returned pair `(quotient, shift)` represents:
/// `numerator / denominator = quotient * 2^shift`, where `quotient` is normalized.
///
/// On divide-by-zero, [`Error::NanInf`] is returned.
pub fn div_i32(numerator: i32, denominator: i32) -> (r: Result<(i32, i16), Error>)
    ensures
        denominator == 0 ==> r == Err::<(i32, i16), Error>(Error::NanInf),
        denominator != 0 ==> r is Ok,
        r matches Ok((q, s)) ==> div_q31_ok(numerator, denominator, q, s),
        r matches Ok(p) ==> p == div_q31(numerator, denominator),
{
    let mut shift = 0_i16;
    let sign = (numerator < 0) ^ (denominator < 0);
    if denominator == 0 {
        return Err(Error::NanInf);
    }
    let numerator_abs = saturating_abs_i32(numerator);
    let denominator_abs = saturating_abs_i32(denominator);
    let na = numerator_abs as i64;
    proof {
        assert(0 <= na <= 0x7fff_ffff ==> na << 31 == na * 0x8000_0000) by (bit_vector);
    }
    let mut temp = (na << 31) / (denominator_abs as i64);
    let ghost t = temp;
    let hi = #[verifier::truncate] ((temp >> 31) as u32);
    let lz = hi.leading_zeros();
    proof {
        lemma_leading_zeros_u32(hi);
        assert(0 <= t < 0x4000_0000_0000_0000) by (nonlinear_arith)
            requires
                0 <= na <= 0x7fff_ffff,
                1 <= denominator_abs,
                t == (na * 0x8000_0000) / (denominator_abs as int),
        ;
    }
    let shift_for_normalizing = 32 - lz as i16;
    proof {
        lemma_pow2_zero();
        let z = lz;
        let tu = t as u64;
        assert(tu < 0x4000_0000_0000_0000 && hi == (tu >> 31u64) as u32 && z <= 32 && (z < 32
            ==> (hi >> ((31 - z) as u32)) & 1u32 != 0u32) ==> z >= 1) by (bit_vector);
        assert(tu < 0x4000_0000_0000_0000 && hi == (tu >> 31u64) as u32 && z <= 32 && (z < 32
            ==> (hi >> ((31 - z) as u32)) & 1u32 != 0u32) && hi >> ((32 - z) as u32) == 0 ==> (z
            == 32 ==> tu < 0x8000_0000) && (z < 32 ==> (tu >> ((32 - z) as u64)) < 0x8000_0000 && (
            tu >> ((32 - z) as u64)) >= 0x4000_0000)) by (bit_vector);
    }
    proof {
        assert(t == (numerator_abs as int * 0x8000_0000) / (denominator_abs as int));
    }
    if shift_for_normalizing > 0 {
        shift = shift_for_normalizing;
        let k = shift_for_normalizing as u64;
        proof {
            assert(0 <= t ==> (t >> k) as u64 == (t as u64) >> k) by (bit_vector);
            vstd::bits::lemma_u64_shr_is_div(t as u64, k);
            assert(k == (32 - lz) as u64);
        }
        temp >>= k;
        proof {
            assert(temp == (t as int) / (pow2(shift as nat) as int));
            assert(0x4000_0000 <= temp < 0x8000_0000);
        }
    } else {
        proof {
            assert((t as int) / (pow2(0) as int) == t);
            assert(lz == 32);
            assert(temp < 0x8000_0000);
        }
    }
    let ghost m = temp;
    if sign {
        temp = -temp;
    }
    let quotient = temp as i32;
    proof {
        assert(m == (t as int) / (pow2(shift as nat) as int));
        assert(div_q31_ok(numerator, denominator, quotient, shift));
        let w = (quotient, shift);
        assert(div_q31_ok(numerator, denominator, w.0, w.1));
        let c = div_q31(numerator, denominator);
        lemma_div_q31_unique(numerator, denominator, quotient, shift, c.0, c.1);
    }
    Ok((quotient, shift))
}

} // verus!
