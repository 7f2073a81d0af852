use crate::qmath::{clamp16, clamp32, sat_i16, sat_i32};
use vstd::prelude::*;

verus! {

/// One sample of the Q15 shift: left shifts saturate (a shift of 31 or more gives
/// the saturated value of the sample's sign), right shifts are arithmetic (15 or
/// more give -1 or 0).
pub open spec fn shift_q15(x: i16, shift: i8) -> i16 {
    if shift >= 0 {
        if shift >= 31 {
            if x >= 0 {
                i16::MAX
            } else {
                i16::MIN
            }
        } else {
            clamp16(((x as i32) << (shift as u32)) as int)
        }
    } else {
        if -shift >= 15 {
            if x < 0 {
                -1i16
            } else {
                0i16
            }
        } else {
            ((x as i32) >> ((-shift) as u32)) as i16
        }
    }
}

/// One sample of the Q31 shift: left shifts saturate (63 or more give the
/// saturated value of the sample's sign), right shifts are arithmetic (31 or more
/// give -1 or 0).
pub open spec fn shift_q31(x: i32, shift: i8) -> i32 {
    if shift >= 0 {
        if shift >= 63 {
            if x >= 0 {
                i32::MAX
            } else {
                i32::MIN
            }
        } else {
            clamp32(((x as i64) << (shift as u32)) as int)
        }
    } else {
        if -shift >= 31 {
            if x < 0 {
                -1i32
            } else {
                0i32
            }
        } else {
            x >> ((-shift) as u32)
        }
    }
}

/// Shifts every Q15 sample by `shift` bits (left when positive), in place.
pub fn shift_i16(data: &mut [i16], shift: i8)
    requires
        shift > i8::MIN,
    ensures
        final(data)@.len() == old(data)@.len(),
        forall|k: int|
            0 <= k < old(data)@.len() ==> #[trigger] final(data)@[k] == shift_q15(
                old(data)@[k],
                shift,
            ),
{
    let ghost o = data@;
    let mut k: usize = 0;
    while k < data.len()
        invariant
            shift > i8::MIN,
            data@.len() == o.len(),
            0 <= k <= o.len(),
            forall|j: int|
                0 <= j < o.len() ==> #[trigger] data@[j] == if j < k {
                    shift_q15(o[j], shift)
                } else {
                    o[j]
                },
        decreases o.len() - k,
    {
        let x = data[k];
        if shift >= 0 {
            let l = shift as u32;
            let shifted = if l >= 31 {
                if x >= 0 {
                    i32::MAX
                } else {
                    i32::MIN
                }
            } else {
                (x as i32).wrapping_shl(l)
            };
            data[k] = sat_i16(shifted);
        } else {
            let r = (-shift) as u32;
            data[k] = if r >= 15 {
                if x < 0 {
                    -1
                } else {
                    0
                }
            } else {
                #[verifier::truncate]
                (((x as i32) >> r) as i16)
            };
        }
        k = k + 1;
    }
}

/// Shifts every Q31 sample by `shift` bits (left when positive), in place.
pub fn shift_i32(data: &mut [i32], shift: i8)
    requires
        shift > i8::MIN,
    ensures
        final(data)@.len() == old(data)@.len(),
        forall|k: int|
            0 <= k < old(data)@.len() ==> #[trigger] final(data)@[k] == shift_q31(
                old(data)@[k],
                shift,
            ),
{
    let ghost o = data@;
    let mut k: usize = 0;
    while k < data.len()
        invariant
            shift > i8::MIN,
            data@.len() == o.len(),
            0 <= k <= o.len(),
            forall|j: int|
                0 <= j < o.len() ==> #[trigger] data@[j] == if j < k {
                    shift_q31(o[j], shift)
                } else {
                    o[j]
                },
        decreases o.len() - k,
    {
        let x = data[k];
        if shift >= 0 {
            let l = shift as u32;
            let in_val = x as i64;
            let shifted = if l >= 63 {
                if in_val >= 0 {
                    i64::MAX
                } else {
                    i64::MIN
                }
            } else {
                in_val.wrapping_shl(l)
            };
            data[k] = sat_i32(shifted);
        } else {
            let r = (-shift) as u32;
            data[k] = if r >= 31 {
                if x < 0 {
                    -1
                } else {
                    0
                }
            } else {
                x >> r
            };
        }
        k = k + 1;
    }
}

} // verus!
