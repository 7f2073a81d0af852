use crate::qmath::{clamp16, clamp32, sat_i16, sat_i32};
use vstd::prelude::*;

verus! {

/// One sample of `arm_scale_q15`: `(x * scale) >> (15 - shift)`, saturated.
pub open spec fn scale_q15(x: i16, scale: i16, shift: i8) -> i16 {
    clamp16((((x as i32) * (scale as i32)) as i32 >> ((15 - shift) as u32)) as int)
}

/// One sample of `arm_scale_q31`: the high word of `x * scale`, shifted left by
/// `shift + 1` (right by `-(shift + 1)` when negative), saturated.
pub open spec fn scale_q31(x: i32, scale: i32, shift: i8) -> i32 {
    let in_val = (((x as i64) * (scale as i64)) as i64) >> 32i64;
    let k = shift + 1;
    if k >= 0 {
        clamp32((in_val << (k as u32)) as int)
    } else {
        clamp32((in_val >> ((-k) as u32)) as int)
    }
}

/// In-place Q15 scale, matching CMSIS `arm_scale_q15` scalar behavior.
pub fn scale_i16(data: &mut [i16], scale: i16, shift: i8)
    requires
        -112 <= shift,
        old(data)@.len() > 0 ==> -16 <= shift <= 15,
    ensures
        final(data)@.len() == old(data)@.len(),
        forall|k: int|
            0 <= k < old(data)@.len() ==> #[trigger] final(data)@[k] == scale_q15(
                old(data)@[k],
                scale,
                shift,
            ),
{
    let k_shift = 15 - shift;
    let ghost o = data@;
    let mut k: usize = 0;
    while k < data.len()
        invariant
            -112 <= shift,
            o.len() > 0 ==> -16 <= shift <= 15,
            k_shift == 15 - shift,
            data@.len() == o.len(),
            0 <= k <= o.len(),
            forall|j: int|
                0 <= j < o.len() ==> #[trigger] data@[j] == if j < k {
                    scale_q15(o[j], scale, shift)
                } else {
                    o[j]
                },
        decreases o.len() - k,
    {
        proof {
            assert(-0x4000_0000 <= (data@[k as int] as i32) * (scale as i32) <= 0x4000_0000)
                by (nonlinear_arith);
        }
        data[k] = sat_i16(((data[k] as i32) * (scale as i32)) >> (k_shift as u32));
        k = k + 1;
    }
}

/// In-place Q31 scale, matching CMSIS `arm_scale_q31` scalar behavior.
pub fn scale_i32(data: &mut [i32], scale: i32, shift: i8)
    requires
        shift <= 126,
        old(data)@.len() > 0 ==> -64 <= shift <= 62,
    ensures
        final(data)@.len() == old(data)@.len(),
        forall|k: int|
            0 <= k < old(data)@.len() ==> #[trigger] final(data)@[k] == scale_q31(
                old(data)@[k],
                scale,
                shift,
            ),
{
    let k_shift = shift + 1;
    let ghost o = data@;
    let mut k: usize = 0;
    while k < data.len()
        invariant
            shift <= 126,
            o.len() > 0 ==> -64 <= shift <= 62,
            k_shift == shift + 1,
            data@.len() == o.len(),
            0 <= k <= o.len(),
            forall|j: int|
                0 <= j < o.len() ==> #[trigger] data@[j] == if j < k {
                    scale_q31(o[j], scale, shift)
                } else {
                    o[j]
                },
        decreases o.len() - k,
    {
        proof {
            assert(-0x4000_0000_0000_0000 <= (data@[k as int] as i64) * (scale as i64)
                <= 0x4000_0000_0000_0000) by (nonlinear_arith);
        }
        let in_val = ((data[k] as i64) * (scale as i64)) >> 32;
        if k_shift >= 0 {
            data[k] = sat_i32(in_val << (k_shift as u32));
        } else {
            data[k] = sat_i32(in_val >> ((-k_shift) as u32));
        }
        k = k + 1;
    }
}

} // verus!
