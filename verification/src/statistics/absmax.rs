use vstd::prelude::*;

verus! {

/// Saturating absolute value of a Q15 sample (`|-1.0|` saturates to `0x7FFF`).
pub open spec fn abs_q15(x: i16) -> i16 {
    if x == i16::MIN {
        i16::MAX
    } else if x < 0 {
        (-x) as i16
    } else {
        x
    }
}

/// Saturating absolute value of a Q31 sample.
pub open spec fn abs_q31(x: i32) -> i32 {
    if x == i32::MIN {
        i32::MAX
    } else if x < 0 {
        (-x) as i32
    } else {
        x
    }
}

/// Computes `abs_q15`.
pub fn saturating_abs_i16(x: i16) -> (r: i16)
    ensures
        r == abs_q15(x),
{
    if x == i16::MIN {
        i16::MAX
    } else if x < 0 {
        -x
    } else {
        x
    }
}

/// Computes `abs_q31`.
pub fn saturating_abs_i32(x: i32) -> (r: i32)
    ensures
        r == abs_q31(x),
{
    if x == i32::MIN {
        i32::MAX
    } else if x < 0 {
        -x
    } else {
        x
    }
}

/// Largest saturating magnitude among the first `n` Q15 samples (the first
/// sample alone when `n <= 1`).
pub open spec fn max_abs_q15(s: Seq<i16>, n: int) -> i16
    decreases n,
{
    if n <= 1 {
        abs_q15(s[0])
    } else {
        let m = max_abs_q15(s, n - 1);
        let v = abs_q15(s[n - 1]);
        if v > m {
            v
        } else {
            m
        }
    }
}

/// Largest saturating magnitude among the first `n` Q31 samples (the first
/// sample alone when `n <= 1`).
pub open spec fn max_abs_q31(s: Seq<i32>, n: int) -> i32
    decreases n,
{
    if n <= 1 {
        abs_q31(s[0])
    } else {
        let m = max_abs_q31(s, n - 1);
        let v = abs_q31(s[n - 1]);
        if v > m {
            v
        } else {
            m
        }
    }
}

proof fn lemma_max_abs_q15(s: Seq<i16>, n: int)
    ensures
        forall|k: int| 0 <= k < n ==> abs_q15(#[trigger] s[k]) <= max_abs_q15(s, n),
        abs_q15(s[0]) <= max_abs_q15(s, n),
        exists|k: int| 0 <= k < (if n <= 1 { 1 } else { n }) && abs_q15(#[trigger] s[k]) == max_abs_q15(s, n),
    decreases n,
{
    if n <= 1 {
        assert(abs_q15(s[0]) == max_abs_q15(s, n));
    } else {
        lemma_max_abs_q15(s, n - 1);
        let k0 = choose|k: int| 0 <= k < (if n - 1 <= 1 { 1 } else { n - 1 }) && abs_q15(#[trigger] s[k]) == max_abs_q15(s, n - 1);
        if abs_q15(s[n - 1]) > max_abs_q15(s, n - 1) {
            assert(abs_q15(s[n - 1]) == max_abs_q15(s, n));
        } else {
            assert(abs_q15(s[k0]) == max_abs_q15(s, n));
        }
    }
}

proof fn lemma_max_abs_q31(s: Seq<i32>, n: int)
    ensures
        forall|k: int| 0 <= k < n ==> abs_q31(#[trigger] s[k]) <= max_abs_q31(s, n),
        abs_q31(s[0]) <= max_abs_q31(s, n),
        exists|k: int| 0 <= k < (if n <= 1 { 1 } else { n }) && abs_q31(#[trigger] s[k]) == max_abs_q31(s, n),
    decreases n,
{
    if n <= 1 {
        assert(abs_q31(s[0]) == max_abs_q31(s, n));
    } else {
        lemma_max_abs_q31(s, n - 1);
        let k0 = choose|k: int| 0 <= k < (if n - 1 <= 1 { 1 } else { n - 1 }) && abs_q31(#[trigger] s[k]) == max_abs_q31(s, n - 1);
        if abs_q31(s[n - 1]) > max_abs_q31(s, n - 1) {
            assert(abs_q31(s[n - 1]) == max_abs_q31(s, n));
        } else {
            assert(abs_q31(s[k0]) == max_abs_q31(s, n));
        }
    }
}

/// Maximum absolute value and its index for a Q15 slice prefix.
///
/// Only the first `size` samples are processed (at least the first one),
/// matching CMSIS API style. Returns the first index when there are ties.
pub fn absmax_i16(input: &[i16], size: usize) -> (r: (i16, usize))
    requires
        size <= input.len(),
        input.len() >= 1,
    ensures
        r.1 < (if size == 0 { 1 } else { size }),
        r.0 == abs_q15(input@[r.1 as int]),
        forall|k: int|
            0 <= k < (if size == 0 { 1 } else { size }) ==> abs_q15(#[trigger] input@[k]) <= r.0,
        forall|k: int| 0 <= k < r.1 ==> abs_q15(#[trigger] input@[k]) < r.0,
        r.0 == max_abs_q15(input@, size as int),
{
    let mut out = saturating_abs_i16(input[0]);
    let mut out_index: usize = 0;
    let mut index: usize = 1;
    while index < size
        invariant
            size <= input.len(),
            1 <= index,
            index <= size || index == 1,
            out_index < index,
            out == abs_q15(input@[out_index as int]),
            forall|k: int| 0 <= k < index ==> abs_q15(#[trigger] input@[k]) <= out,
            forall|k: int| 0 <= k < out_index ==> abs_q15(#[trigger] input@[k]) < out,
        decreases size - index,
    {
        let candidate = saturating_abs_i16(input[index]);
        if candidate > out {
            out = candidate;
            out_index = index;
        }
        index = index + 1;
    }
    proof {
        lemma_max_abs_q15(input@, size as int);
    }
    (out, out_index)
}

/// Maximum absolute value and its index for a Q31 slice prefix.
///
/// Only the first `size` samples are processed (at least the first one),
/// matching CMSIS API style. Returns the first index when there are ties.
pub fn absmax_i32(input: &[i32], size: usize) -> (r: (i32, usize))
    requires
        size <= input.len(),
        input.len() >= 1,
    ensures
        r.1 < (if size == 0 { 1 } else { size }),
        r.0 == abs_q31(input@[r.1 as int]),
        forall|k: int|
            0 <= k < (if size == 0 { 1 } else { size }) ==> abs_q31(#[trigger] input@[k]) <= r.0,
        forall|k: int| 0 <= k < r.1 ==> abs_q31(#[trigger] input@[k]) < r.0,
        r.0 == max_abs_q31(input@, size as int),
{
    let mut out = saturating_abs_i32(input[0]);
    let mut out_index: usize = 0;
    let mut index: usize = 1;
    while index < size
        invariant
            size <= input.len(),
            1 <= index,
            index <= size || index == 1,
            out_index < index,
            out == abs_q31(input@[out_index as int]),
            forall|k: int| 0 <= k < index ==> abs_q31(#[trigger] input@[k]) <= out,
            forall|k: int| 0 <= k < out_index ==> abs_q31(#[trigger] input@[k]) < out,
        decreases size - index,
    {
        let candidate = saturating_abs_i32(input[index]);
        if candidate > out {
            out = candidate;
            out_index = index;
        }
        index = index + 1;
    }
    proof {
        lemma_max_abs_q31(input@, size as int);
    }
    (out, out_index)
}

} // verus!
