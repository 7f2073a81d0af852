use crate::qmath::{clamp16, clamp32};
use vstd::prelude::*;

verus! {

/// Adds `offset` to every Q15 sample, saturating.
pub fn offset_i16(data: &mut [i16], offset: i16)
    ensures
        final(data)@.len() == old(data)@.len(),
        forall|k: int|
            0 <= k < old(data)@.len() ==> #[trigger] final(data)@[k] == clamp16(
                old(data)@[k] + offset,
            ),
{
    let ghost o = data@;
    let mut k: usize = 0;
    while k < data.len()
        invariant
            data@.len() == o.len(),
            0 <= k <= o.len(),
            forall|j: int|
                0 <= j < o.len() ==> #[trigger] data@[j] == if j < k {
                    clamp16(o[j] + offset)
                } else {
                    o[j]
                },
        decreases o.len() - k,
    {
        data[k] = crate::qmath::sat_i16(data[k] as i32 + offset as i32);
        k = k + 1;
    }
}

/// Adds `offset` to every Q31 sample, saturating.
pub fn offset_i32(data: &mut [i32], offset: i32)
    ensures
        final(data)@.len() == old(data)@.len(),
        forall|k: int|
            0 <= k < old(data)@.len() ==> #[trigger] final(data)@[k] == clamp32(
                old(data)@[k] + offset,
            ),
{
    let ghost o = data@;
    let mut k: usize = 0;
    while k < data.len()
        invariant
            data@.len() == o.len(),
            0 <= k <= o.len(),
            forall|j: int|
                0 <= j < o.len() ==> #[trigger] data@[j] == if j < k {
                    clamp32(o[j] + offset)
                } else {
                    o[j]
                },
        decreases o.len() - k,
    {
        data[k] = crate::qmath::sat_i32(data[k] as i64 + offset as i64);
        k = k + 1;
    }
}

} // verus!
