//! Real FFT on top of the half-size complex FFT (CMSIS `arm_rfft_q15` / `arm_rfft_q31`).
use crate::qmath::{cmul_im, cmul_re, lemma_mul_hi32_round_near, lemma_shr_floor, clamp16, mul_hi32_round, mul_hi32_round_exec, sat_i16, wadd32, wsub32};
use crate::transform::bitreversal::fft_len_ok;
use crate::transform::cfft::{cfft_i16, cfft_i32, CfftI16, CfftI32};
use vstd::prelude::*;

verus! {

/// Q15 coefficient `k` of a table stored as raw 16-bit words.
pub open spec fn coef16(t: Seq<u16>, k: int) -> int {
    (t[k] as i16) as int
}

/// Q31 coefficient `k` of a table stored as raw 32-bit words.
pub open spec fn coef32(t: Seq<u32>, k: int) -> i32 {
    t[k] as i32
}

/// `((p1 - p2) + p3) + p4` on 32 bits, wrapping, then shifted right by 16.
pub open spec fn sum4_hi16(p1: int, p2: int, p3: int, p4: int) -> i16 {
    (wadd32(wadd32(wsub32(p1 as i32, p2 as i32), p3 as i32), p4 as i32) >> 16i32) as i16
}

/// `((p1 - p2) - p3) - p4` on 32 bits, wrapping, then shifted right by 16.
pub open spec fn diff4_hi16(p1: int, p2: int, p3: int, p4: int) -> i16 {
    (wsub32(wsub32(wsub32(p1 as i32, p2 as i32), p3 as i32), p4 as i32) >> 16i32) as i16
}

/// Two's-complement 16-bit negation.
pub open spec fn wneg16(v: i16) -> i16 {
    vstd::wrapping::i16_specs::wrapping_sub(0, v)
}

/// Two's-complement 32-bit negation.
pub open spec fn wneg32(v: i32) -> i32 {
    wsub32(0, v)
}

/// Bin `i` (`0 < i < n`) of the forward Q15 split step, from the `n`-point complex
/// spectrum `x`, the coefficient tables `a` / `b` and their stride `m`.
pub open spec fn rfft_bin_i16(x: Seq<i16>, n: int, a: Seq<u16>, b: Seq<u16>, m: int, i: int) -> (
    i16,
    i16,
) {
    let c = 2 * i * m;
    let a0 = coef16(a, c);
    let a1 = coef16(a, c + 1);
    let b0 = coef16(b, c);
    let b1 = coef16(b, c + 1);
    let s1r = x[2 * i] as int;
    let s1i = x[2 * i + 1] as int;
    let s2r = x[2 * n - 2 * i] as int;
    let s2i = x[2 * n - 2 * i + 1] as int;
    (
        sum4_hi16(s1r * a0, s1i * a1, s2r * b0, s2i * b1),
        sum4_hi16(s2r * b1, s2i * b0, s1i * a0, s1r * a1),
    )
}

/// The forward Q15 split step: the `2n`-bin spectrum of a real signal from the
/// `n`-point complex spectrum of its even/odd samples.  Bins above `n` are the
/// complex conjugates of the bins below.
pub open spec fn split_rfft_i16(x: Seq<i16>, n: int, a: Seq<u16>, b: Seq<u16>, m: int) -> Seq<i16> {
    Seq::new(
        (4 * n) as nat,
        |e: int|
            {
                let p = e / 2;
                if p == 0 {
                    if e % 2 == 0 {
                        ((x[0] + x[1]) as i32 >> 1i32) as i16
                    } else {
                        0i16
                    }
                } else if p == n {
                    if e % 2 == 0 {
                        ((x[0] - x[1]) as i32 >> 1i32) as i16
                    } else {
                        0i16
                    }
                } else if p < n {
                    let v = rfft_bin_i16(x, n, a, b, m, p);
                    if e % 2 == 0 {
                        v.0
                    } else {
                        v.1
                    }
                } else {
                    let v = rfft_bin_i16(x, n, a, b, m, 2 * n - p);
                    if e % 2 == 0 {
                        v.0
                    } else {
                        wneg16(v.1)
                    }
                }
            },
    )
}

/// Bin `i` of the forward Q15 split step is the complex combination
/// `Z[i] * A + conj(Z[n - i]) * B` of two bins of the half-size spectrum `Z`
/// with the split coefficients `A`, `B` at `2 i m`, each part shifted down by
/// 16 bits, when those bins lie below `2^14` in magnitude (so that no 32-bit
/// sum wraps).
pub proof fn lemma_rfft_bin_i16_split(x: Seq<i16>, n: int, a: Seq<u16>, b: Seq<u16>, m: int, i: int)
    requires
        -0x4000 < x[2 * i] < 0x4000,
        -0x4000 < x[2 * i + 1] < 0x4000,
        -0x4000 < x[2 * n - 2 * i] < 0x4000,
        -0x4000 < x[2 * n - 2 * i + 1] < 0x4000,
    ensures
        ({
            let c = 2 * i * m;
            let y = rfft_bin_i16(x, n, a, b, m, i);
            let zr = x[2 * i] as int;
            let zi = x[2 * i + 1] as int;
            let wr = x[2 * n - 2 * i] as int;
            let wi = -(x[2 * n - 2 * i + 1] as int);
            let re = cmul_re(zr, zi, coef16(a, c), coef16(a, c + 1)) + cmul_re(
                wr,
                wi,
                coef16(b, c),
                coef16(b, c + 1),
            );
            let im = cmul_im(zr, zi, coef16(a, c), coef16(a, c + 1)) + cmul_im(
                wr,
                wi,
                coef16(b, c),
                coef16(b, c + 1),
            );
            &&& y.0 * 0x1_0000 <= re < y.0 * 0x1_0000 + 0x1_0000
            &&& y.1 * 0x1_0000 <= im < y.1 * 0x1_0000 + 0x1_0000
        }),
{
    let c = 2 * i * m;
    let a0 = coef16(a, c);
    let a1 = coef16(a, c + 1);
    let b0 = coef16(b, c);
    let b1 = coef16(b, c + 1);
    let s1r = x[2 * i] as int;
    let s1i = x[2 * i + 1] as int;
    let s2r = x[2 * n - 2 * i] as int;
    let s2i = x[2 * n - 2 * i + 1] as int;
    assert forall|u: int, v: int| -0x4000 < u < 0x4000 && -0x8000 <= v < 0x8000 implies -0x2000_0000
        < #[trigger] (u * v) < 0x2000_0000 by {
        assert(-0x2000_0000 < u * v < 0x2000_0000) by (nonlinear_arith)
            requires
                -0x4000 < u < 0x4000,
                -0x8000 <= v < 0x8000,
        ;
    }
    assert(-0x2000_0000 < s1r * a0 < 0x2000_0000);
    assert(-0x2000_0000 < s1i * a1 < 0x2000_0000);
    assert(-0x2000_0000 < s2r * b0 < 0x2000_0000);
    assert(-0x2000_0000 < s2i * b1 < 0x2000_0000);
    assert(-0x2000_0000 < s2r * b1 < 0x2000_0000);
    assert(-0x2000_0000 < s2i * b0 < 0x2000_0000);
    assert(-0x2000_0000 < s1i * a0 < 0x2000_0000);
    assert(-0x2000_0000 < s1r * a1 < 0x2000_0000);
    assert((-s2i) * b1 == -(s2i * b1)) by (nonlinear_arith);
    assert((-s2i) * b0 == -(s2i * b0)) by (nonlinear_arith);
    lemma_shr_floor();
}

/// Bin `i` (`0 <= i < n`) of the inverse Q15 split step.
pub open spec fn rifft_bin_i16(x: Seq<i16>, n: int, a: Seq<u16>, b: Seq<u16>, m: int, i: int) -> (
    i16,
    i16,
) {
    let c = 2 * i * m;
    let a0 = coef16(a, c);
    let a1 = coef16(a, c + 1);
    let b0 = coef16(b, c);
    let b1 = coef16(b, c + 1);
    let s1r = x[2 * i] as int;
    let s1i = x[2 * i + 1] as int;
    let s2r = x[2 * n - 2 * i] as int;
    let s2i = x[2 * n - 2 * i + 1] as int;
    (
        sum4_hi16(s2r * b0, s2i * b1, s1r * a0, s1i * a1),
        diff4_hi16(s1i * a0, s1r * a1, s2r * b1, s2i * b0),
    )
}

/// Bin `i` of the inverse Q15 split step is the complex combination
/// `Z[i] * conj(A) + conj(Z[n - i]) * conj(B)` of two bins of the spectrum `Z`
/// with the split coefficients `A`, `B` at `2 i m`, each part shifted down by
/// 16 bits, when those bins lie below `2^14` in magnitude (so that no 32-bit
/// sum wraps).
pub proof fn lemma_rifft_bin_i16_split(x: Seq<i16>, n: int, a: Seq<u16>, b: Seq<u16>, m: int, i: int)
    requires
        -0x4000 < x[2 * i] < 0x4000,
        -0x4000 < x[2 * i + 1] < 0x4000,
        -0x4000 < x[2 * n - 2 * i] < 0x4000,
        -0x4000 < x[2 * n - 2 * i + 1] < 0x4000,
    ensures
        ({
            let c = 2 * i * m;
            let y = rifft_bin_i16(x, n, a, b, m, i);
            let zr = x[2 * i] as int;
            let zi = x[2 * i + 1] as int;
            let wr = x[2 * n - 2 * i] as int;
            let wi = -(x[2 * n - 2 * i + 1] as int);
            let re = cmul_re(zr, zi, coef16(a, c), -coef16(a, c + 1)) + cmul_re(
                wr,
                wi,
                coef16(b, c),
                -coef16(b, c + 1),
            );
            let im = cmul_im(zr, zi, coef16(a, c), -coef16(a, c + 1)) + cmul_im(
                wr,
                wi,
                coef16(b, c),
                -coef16(b, c + 1),
            );
            &&& y.0 * 0x1_0000 <= re < y.0 * 0x1_0000 + 0x1_0000
            &&& y.1 * 0x1_0000 <= im < y.1 * 0x1_0000 + 0x1_0000
        }),
{
    let c = 2 * i * m;
    let a0 = coef16(a, c);
    let a1 = coef16(a, c + 1);
    let b0 = coef16(b, c);
    let b1 = coef16(b, c + 1);
    let s1r = x[2 * i] as int;
    let s1i = x[2 * i + 1] as int;
    let s2r = x[2 * n - 2 * i] as int;
    let s2i = x[2 * n - 2 * i + 1] as int;
    assert forall|u: int, v: int| -0x4000 < u < 0x4000 && -0x8000 <= v < 0x8000 implies -0x2000_0000
        < #[trigger] (u * v) < 0x2000_0000 by {
        assert(-0x2000_0000 < u * v < 0x2000_0000) by (nonlinear_arith)
            requires
                -0x4000 < u < 0x4000,
                -0x8000 <= v < 0x8000,
        ;
    }
    assert(-0x2000_0000 < s1r * a0 < 0x2000_0000);
    assert(-0x2000_0000 < s1i * a1 < 0x2000_0000);
    assert(-0x2000_0000 < s2r * b0 < 0x2000_0000);
    assert(-0x2000_0000 < s2i * b1 < 0x2000_0000);
    assert(-0x2000_0000 < s2r * b1 < 0x2000_0000);
    assert(-0x2000_0000 < s2i * b0 < 0x2000_0000);
    assert(-0x2000_0000 < s1i * a0 < 0x2000_0000);
    assert(-0x2000_0000 < s1r * a1 < 0x2000_0000);
    assert(cmul_re(s1r, s1i, a0, -a1) == s1r * a0 + s1i * a1) by (nonlinear_arith);
    assert(cmul_im(s1r, s1i, a0, -a1) == s1i * a0 - s1r * a1) by (nonlinear_arith);
    assert(cmul_re(s2r, -s2i, b0, -b1) == s2r * b0 - s2i * b1) by (nonlinear_arith);
    assert(cmul_im(s2r, -s2i, b0, -b1) == -(s2r * b1) - s2i * b0) by (nonlinear_arith);
    lemma_shr_floor();
}

/// The inverse Q15 split step: the `n`-point complex sequence whose inverse
/// transform gives the real signal of a `2n`-bin spectrum.
pub open spec fn split_rifft_i16(x: Seq<i16>, n: int, a: Seq<u16>, b: Seq<u16>, m: int) -> Seq<
    i16,
> {
    Seq::new(
        (2 * n) as nat,
        |e: int|
            {
                let v = rifft_bin_i16(x, n, a, b, m, e / 2);
                if e % 2 == 0 {
                    v.0
                } else {
                    v.1
                }
            },
    )
}

proof fn lemma_product_i16(s: i16, c: int)
    requires
        -32768 <= c <= 32767,
    ensures
        -0x4000_0000 <= s * c <= 0x4000_0000,
{
    assert(-0x4000_0000 <= s * c <= 0x4000_0000) by (nonlinear_arith)
        requires
            -32768 <= s <= 32767,
            -32768 <= c <= 32767,
    ;
}

fn rfft_bin_i16_exec(
    x: &[i16],
    n: usize,
    a: &[u16],
    b: &[u16],
    m: usize,
    i: usize,
    inverse: bool,
) -> (v: (i16, i16))
    requires
        i < n,
        0 < i || inverse,
        2 * n <= x.len(),
        inverse ==> 2 * n + 1 < x.len(),
        2 * i * m + 1 < a.len(),
        2 * i * m + 1 < b.len(),
    ensures
        !inverse ==> v == rfft_bin_i16(x@, n as int, a@, b@, m as int, i as int),
        inverse ==> v == rifft_bin_i16(x@, n as int, a@, b@, m as int, i as int),
{
    let c = 2 * i * m;
    let a0 = #[verifier::truncate] (a[c] as i16) as i32;
    let a1 = #[verifier::truncate] (a[c + 1] as i16) as i32;
    let b0 = #[verifier::truncate] (b[c] as i16) as i32;
    let b1 = #[verifier::truncate] (b[c + 1] as i16) as i32;
    let s1r = x[2 * i] as i32;
    let s1i = x[2 * i + 1] as i32;
    let s2r = x[2 * n - 2 * i] as i32;
    let s2i = x[2 * n - 2 * i + 1] as i32;
    proof {
        lemma_product_i16(x@[2 * i], a0 as int);
        lemma_product_i16(x@[2 * i], a1 as int);
        lemma_product_i16(x@[2 * i], b0 as int);
        lemma_product_i16(x@[2 * i], b1 as int);
        lemma_product_i16(x@[2 * i + 1], a0 as int);
        lemma_product_i16(x@[2 * i + 1], a1 as int);
        lemma_product_i16(x@[2 * i + 1], b0 as int);
        lemma_product_i16(x@[2 * i + 1], b1 as int);
        lemma_product_i16(x@[2 * n - 2 * i], a0 as int);
        lemma_product_i16(x@[2 * n - 2 * i], a1 as int);
        lemma_product_i16(x@[2 * n - 2 * i], b0 as int);
        lemma_product_i16(x@[2 * n - 2 * i], b1 as int);
        lemma_product_i16(x@[2 * n - 2 * i + 1], a0 as int);
        lemma_product_i16(x@[2 * n - 2 * i + 1], a1 as int);
        lemma_product_i16(x@[2 * n - 2 * i + 1], b0 as int);
        lemma_product_i16(x@[2 * n - 2 * i + 1], b1 as int);
    }
    if !inverse {
        let out_r = (s1r * a0).wrapping_sub(s1i * a1).wrapping_add(s2r * b0).wrapping_add(s2i * b1)
            >> 16;
        let out_i = (s2r * b1).wrapping_sub(s2i * b0).wrapping_add(s1i * a0).wrapping_add(s1r * a1)
            >> 16;
        (out_r as i16, out_i as i16)
    } else {
        let out_r = (s2r * b0).wrapping_sub(s2i * b1).wrapping_add(s1r * a0).wrapping_add(s1i * a1)
            >> 16;
        let out_i = (s1i * a0).wrapping_sub(s1r * a1).wrapping_sub(s2r * b1).wrapping_sub(s2i * b0)
            >> 16;
        (out_r as i16, out_i as i16)
    }
}

proof fn lemma_coef_index(i: int, n: int, m: int)
    requires
        0 <= i < n,
        n >= 1,
        m >= 0,
        n * m <= 4096,
    ensures
        2 * i * m + 1 < 8192,
{
    assert(i * m <= (n - 1) * m) by (nonlinear_arith)
        requires
            i <= n - 1,
            m >= 0,
    ;
    assert((n - 1) * m + m == n * m) by (nonlinear_arith);
    assert(2 * i * m == 2 * (i * m)) by (nonlinear_arith);
    if m == 0 {
        assert(i * m == 0);
    }
}

/// The table stride `8192 / n_real` fits the tables for every bin.
proof fn lemma_modifier(n_real: int)
    requires
        32 <= n_real <= 8192,
    ensures
        (n_real / 2) * (8192int / n_real) <= 4096,
{
    let m = 8192int / n_real;
    vstd::arithmetic::div_mod::lemma_fundamental_div_mod(8192, n_real);
    vstd::arithmetic::div_mod::lemma_fundamental_div_mod(n_real, 2);
    assert((n_real / 2) * m <= 4096) by (nonlinear_arith)
        requires
            8192 == n_real * m + 8192int % n_real,
            8192int % n_real >= 0,
            n_real == 2 * (n_real / 2) + n_real % 2,
            n_real % 2 >= 0,
            m >= 0,
    ;
}

fn split_rfft_i16_exec(
    input: &[i16],
    n_fft: usize,
    re_table: &[u16],
    im_table: &[u16],
    output: &mut [i16],
    modifier: usize,
)
    requires
        n_fft >= 2,
        input.len() == 2 * n_fft,
        old(output).len() == 4 * n_fft,
        n_fft * modifier <= 4096,
        re_table.len() >= 8192,
        im_table.len() >= 8192,
    ensures
        final(output)@ == split_rfft_i16(
            input@,
            n_fft as int,
            re_table@,
            im_table@,
            modifier as int,
        ),
{
    let ghost spec_out = split_rfft_i16(
        input@,
        n_fft as int,
        re_table@,
        im_table@,
        modifier as int,
    );
    let mut i: usize = 1;
    while i < n_fft
        invariant
            1 <= i <= n_fft,
            input.len() == 2 * n_fft,
            output@.len() == 4 * n_fft,
            n_fft * modifier <= 4096,
            re_table.len() >= 8192,
            im_table.len() >= 8192,
            spec_out == split_rfft_i16(input@, n_fft as int, re_table@, im_table@, modifier as int),
            forall|e: int|
                0 <= e < 4 * n_fft && ((1 <= e / 2 < i) || (2 * n_fft - i < e / 2 < 2 * n_fft))
                    ==> #[trigger] output@[e] == spec_out[e],
        decreases n_fft - i,
    {
        proof {
            lemma_coef_index(i as int, n_fft as int, modifier as int);
        }
        let v = rfft_bin_i16_exec(input, n_fft, re_table, im_table, modifier, i, false);
        output[2 * i] = v.0;
        output[2 * i + 1] = v.1;
        let conj = 4 * n_fft - 2 * i;
        output[conj] = v.0;
        output[conj + 1] = 0i16.wrapping_sub(v.1);
        proof {
            assert((conj as int) / 2 == 2 * n_fft - i);
            assert(2 * n_fft - (2 * n_fft - i) == i);
        }
        i = i + 1;
    }
    output[2 * n_fft] = #[verifier::truncate] (((input[0] as i32 - input[1] as i32) >> 1) as i16);
    output[2 * n_fft + 1] = 0;
    output[0] = #[verifier::truncate] (((input[0] as i32 + input[1] as i32) >> 1) as i16);
    output[1] = 0;
    proof {
        assert forall|e: int| 0 <= e < 4 * n_fft implies #[trigger] output@[e] == spec_out[e] by {
            let p = e / 2;
            if p != 0 && p != n_fft {
                assert((1 <= p < n_fft) || (n_fft < p < 2 * n_fft));
            }
        }
        assert(output@ =~= spec_out);
    }
}

fn split_rifft_i16_exec(
    input: &[i16],
    n_fft: usize,
    re_table: &[u16],
    im_table: &[u16],
    output: &mut [i16],
    modifier: usize,
)
    requires
        n_fft >= 2,
        input.len() == 4 * n_fft,
        old(output).len() == 2 * n_fft,
        n_fft * modifier <= 4096,
        re_table.len() >= 8192,
        im_table.len() >= 8192,
    ensures
        final(output)@ == split_rifft_i16(
            input@,
            n_fft as int,
            re_table@,
            im_table@,
            modifier as int,
        ),
{
    let ghost spec_out = split_rifft_i16(
        input@,
        n_fft as int,
        re_table@,
        im_table@,
        modifier as int,
    );
    let mut i: usize = 0;
    while i < n_fft
        invariant
            0 <= i <= n_fft,
            input.len() == 4 * n_fft,
            output@.len() == 2 * n_fft,
            n_fft * modifier <= 4096,
            re_table.len() >= 8192,
            im_table.len() >= 8192,
            spec_out == split_rifft_i16(input@, n_fft as int, re_table@, im_table@, modifier as int),
            forall|e: int| 0 <= e < 2 * i ==> #[trigger] output@[e] == spec_out[e],
        decreases n_fft - i,
    {
        proof {
            lemma_coef_index(i as int, n_fft as int, modifier as int);
        }
        let v = rfft_bin_i16_exec(input, n_fft, re_table, im_table, modifier, i, true);
        output[2 * i] = v.0;
        output[2 * i + 1] = v.1;
        i = i + 1;
    }
    assert(output@ =~= spec_out);
}

/// The Q15 real FFT of `n_real` samples: forward gives the `2 * n_real`-value
/// interleaved spectrum, inverse takes it back to `n_real` samples (doubled and
/// saturated after the inverse complex transform).
pub open spec fn rfft_i16(
    input: Seq<i16>,
    n_real: int,
    ifft: bool,
    bitrev: bool,
    a: Seq<u16>,
    b: Seq<u16>,
    tw: Seq<u16>,
) -> Seq<i16> {
    let n = n_real / 2;
    let m = 8192int / n_real;
    if ifft {
        let y = cfft_i16(split_rifft_i16(input, n, a, b, m), n, tw, true, bitrev);
        Seq::new(y.len(), |k: int| clamp16(2 * y[k]))
    } else {
        split_rfft_i16(cfft_i16(input, n, tw, false, bitrev), n, a, b, m)
    }
}

/// The forward Q15 real FFT is conjugate-symmetric: bin `2n - i` is the complex
/// conjugate of bin `i` (imaginary part negated with wrap-around), and bins `0`
/// and `n` are real.
pub proof fn lemma_rfft_i16_conjugate_symmetric(
    input: Seq<i16>,
    n_real: int,
    bitrev: bool,
    a: Seq<u16>,
    b: Seq<u16>,
    tw: Seq<u16>,
)
    requires
        n_real >= 4,
        n_real % 2 == 0,
    ensures
        ({
            let y = rfft_i16(input, n_real, false, bitrev, a, b, tw);
            let n = n_real / 2;
            &&& y.len() == 2 * n_real
            &&& y[1] == 0
            &&& y[2 * n + 1] == 0
            &&& forall|i: int|
                0 < i < n ==> #[trigger] y[4 * n - 2 * i] == y[2 * i] && y[4 * n - 2 * i + 1]
                    == wneg16(y[2 * i + 1])
        }),
{
    let y = rfft_i16(input, n_real, false, bitrev, a, b, tw);
    let n = n_real / 2;
    assert forall|i: int| 0 < i < n implies #[trigger] y[4 * n - 2 * i] == y[2 * i] && y[4 * n
        - 2 * i + 1] == wneg16(y[2 * i + 1]) by {
        assert((4 * n - 2 * i) / 2 == 2 * n - i);
        assert((4 * n - 2 * i + 1) / 2 == 2 * n - i);
        assert((2 * i) / 2 == i);
        assert((2 * i + 1) / 2 == i);
    }
    assert((2 * n + 1) / 2 == n);
}

/// Copies `src` over `dst`, which has the same length.
fn copy_prefix_i16(dst: &mut [i16], src: &[i16])
    requires
        old(dst).len() == src.len(),
    ensures
        final(dst)@ == src@,
{
    let mut k: usize = 0;
    while k < src.len()
        invariant
            dst@.len() == src@.len(),
            0 <= k <= src@.len(),
            forall|j: int| 0 <= j < k ==> #[trigger] dst@[j] == src@[j],
        decreases src@.len() - k,
    {
        dst[k] = src[k];
        k = k + 1;
    }
    assert(dst@ =~= src@);
}

/// Copies `src` over `dst`, which has the same length.
fn copy_prefix_i32(dst: &mut [i32], src: &[i32])
    requires
        old(dst).len() == src.len(),
    ensures
        final(dst)@ == src@,
{
    let mut k: usize = 0;
    while k < src.len()
        invariant
            dst@.len() == src@.len(),
            0 <= k <= src@.len(),
            forall|j: int| 0 <= j < k ==> #[trigger] dst@[j] == src@[j],
        decreases src@.len() - k,
    {
        dst[k] = src[k];
        k = k + 1;
    }
    assert(dst@ =~= src@);
}

/// Configuration of a Q15 real FFT: size, direction, output ordering, the split
/// coefficient tables (8192 entries each) and the twiddle table of the
/// half-size complex transform.
pub struct RfftI16<'a> {
    pub n_fft_real: usize,
    pub ifft_flag: bool,
    pub bit_reverse_flag: bool,
    pub re_table: &'a [u16],
    pub im_table: &'a [u16],
    pub twiddle: &'a [u16],
}

impl<'a> RfftI16<'a> {
    /// The configuration can run: a supported size and large enough tables.
    pub open spec fn well_formed(&self) -> bool {
        &&& fft_len_ok(self.n_fft_real as int)
        &&& self.n_fft_real >= 32
        &&& self.re_table.len() >= 8192
        &&& self.im_table.len() >= 8192
        &&& self.twiddle.len() >= 3 * (self.n_fft_real / 2) / 2
    }

    pub fn new(
        n_fft_real: usize,
        ifft_flag: bool,
        bit_reverse_flag: bool,
        re_table: &'a [u16],
        im_table: &'a [u16],
        twiddle: &'a [u16],
    ) -> (r: Self)
        requires
            fft_len_ok(n_fft_real as int),
            n_fft_real >= 32,
            re_table.len() >= 8192,
            im_table.len() >= 8192,
            twiddle.len() >= 3 * (n_fft_real / 2) / 2,
        ensures
            r.n_fft_real == n_fft_real,
            r.ifft_flag == ifft_flag,
            r.bit_reverse_flag == bit_reverse_flag,
            r.re_table@ == re_table@,
            r.im_table@ == im_table@,
            r.twiddle@ == twiddle@,
            r.well_formed(),
    {
        RfftI16 { n_fft_real, ifft_flag, bit_reverse_flag, re_table, im_table, twiddle }
    }

    /// Runs the configured transform; forward: `input` holds `n_fft_real` samples and
    /// `output` receives `2 * n_fft_real` values; inverse: the other way round.
    pub fn run(&self, input: &[i16], output: &mut [i16])
        requires
            self.well_formed(),
            self.ifft_flag ==> input.len() == 2 * self.n_fft_real && old(output).len()
                == self.n_fft_real,
            !self.ifft_flag ==> input.len() == self.n_fft_real && old(output).len() == 2
                * self.n_fft_real,
        ensures
            final(output)@ == rfft_i16(
                input@,
                self.n_fft_real as int,
                self.ifft_flag,
                self.bit_reverse_flag,
                self.re_table@,
                self.im_table@,
                self.twiddle@,
            ),
    {
        let n_real = self.n_fft_real;
        let n_fft = n_real >> 1;
        let modifier = 8192 / n_real;
        proof {
            assert(n_real >> 1 == n_real / 2) by (bit_vector);
            lemma_modifier(self.n_fft_real as int);
            crate::transform::cfft::lemma_fft_sizes(self.n_fft_real as int);
            assert(fft_len_ok(n_fft as int)) by {
                reveal_with_fuel(crate::transform::radix2::is_pow2, 13);
            }
        }
        let cfft = CfftI16::new(n_fft, self.ifft_flag, self.bit_reverse_flag, self.twiddle);
        if self.ifft_flag {
            split_rifft_i16_exec(input, n_fft, self.re_table, self.im_table, output, modifier);
            let ghost y0 = output@;
            cfft.run(output);
            let ghost y = output@;
            let mut k: usize = 0;
            while k < output.len()
                invariant
                    output@.len() == y.len(),
                    0 <= k <= y.len(),
                    forall|j: int|
                        0 <= j < y.len() ==> #[trigger] output@[j] == (if j < k {
                            clamp16(2 * y[j])
                        } else {
                            y[j]
                        }),
                decreases y.len() - k,
            {
                let v = (output[k] as i32) << 1;
                proof {
                    let w = output@[k as int] as i32;
                    assert(-32768 <= w <= 32767 ==> w << 1 == 2 * w) by (bit_vector);
                }
                output[k] = sat_i16(v);
                k = k + 1;
            }
            assert(output@ =~= Seq::new(y.len(), |j: int| clamp16(2 * y[j])));
        } else {
            // a fixed-capacity scratch for the intermediate complex transform
            let mut buf = [0i16; 4096];
            let (scratch, _) = buf.split_at_mut(n_real);
            copy_prefix_i16(scratch, input);
            cfft.run(scratch);
            split_rfft_i16_exec(
                scratch,
                n_fft,
                self.re_table,
                self.im_table,
                output,
                modifier,
            );
        }
    }
}

/// Bin `i` (`0 < i < n`) of the forward Q31 split step.
pub open spec fn rfft_bin_i32(x: Seq<i32>, n: int, a: Seq<u32>, b: Seq<u32>, m: int, i: int) -> (
    i32,
    i32,
) {
    let c = 2 * i * m;
    let a0 = coef32(a, c);
    let a1 = coef32(a, c + 1);
    let b0 = coef32(b, c);
    let b1 = coef32(b, c + 1);
    let s1r = x[2 * i];
    let s1i = x[2 * i + 1];
    let s2r = x[2 * n - 2 * i];
    let s2i = x[2 * n - 2 * i + 1];
    (
        wadd32(
            wadd32(
                wsub32(mul_hi32_round(s1r, a0), mul_hi32_round(s1i, a1)),
                mul_hi32_round(s2r, b0),
            ),
            mul_hi32_round(s2i, b1),
        ),
        wadd32(
            wadd32(
                wsub32(mul_hi32_round(s2r, b1), mul_hi32_round(s2i, b0)),
                mul_hi32_round(s1i, a0),
            ),
            mul_hi32_round(s1r, a1),
        ),
    )
}

/// Bin `i` of the forward Q31 split step is the complex combination
/// `Z[i] * A + conj(Z[n - i]) * B` of two bins of the half-size spectrum `Z`
/// with the split coefficients `A`, `B` at `2 i m`, divided by `2^32`, to within
/// two units, when those bins lie below `2^30` in magnitude (so that no 32-bit
/// sum wraps) and no coefficient is `i32::MIN`.
pub proof fn lemma_rfft_bin_i32_split(x: Seq<i32>, n: int, a: Seq<u32>, b: Seq<u32>, m: int, i: int)
    requires
        -0x4000_0000 < x[2 * i] < 0x4000_0000,
        -0x4000_0000 < x[2 * i + 1] < 0x4000_0000,
        -0x4000_0000 < x[2 * n - 2 * i] < 0x4000_0000,
        -0x4000_0000 < x[2 * n - 2 * i + 1] < 0x4000_0000,
        coef32(a, 2 * i * m) != i32::MIN,
        coef32(a, 2 * i * m + 1) != i32::MIN,
        coef32(b, 2 * i * m) != i32::MIN,
        coef32(b, 2 * i * m + 1) != i32::MIN,
    ensures
        ({
            let c = 2 * i * m;
            let y = rfft_bin_i32(x, n, a, b, m, i);
            let zr = x[2 * i] as int;
            let zi = x[2 * i + 1] as int;
            let wr = x[2 * n - 2 * i] as int;
            let wi = -(x[2 * n - 2 * i + 1] as int);
            let ar = coef32(a, c) as int;
            let ai = coef32(a, c + 1) as int;
            let br = coef32(b, c) as int;
            let bi = coef32(b, c + 1) as int;
            let re = cmul_re(zr, zi, ar, ai) + cmul_re(wr, wi, br, bi);
            let im = cmul_im(zr, zi, ar, ai) + cmul_im(wr, wi, br, bi);
            &&& y.0 * 0x1_0000_0000 - 0x2_0000_0000 <= re <= y.0 * 0x1_0000_0000 + 0x2_0000_0000
            &&& y.1 * 0x1_0000_0000 - 0x2_0000_0000 <= im <= y.1 * 0x1_0000_0000 + 0x2_0000_0000
        }),
{
    let c = 2 * i * m;
    let a0 = coef32(a, c);
    let a1 = coef32(a, c + 1);
    let b0 = coef32(b, c);
    let b1 = coef32(b, c + 1);
    let s1r = x[2 * i];
    let s1i = x[2 * i + 1];
    let s2r = x[2 * n - 2 * i];
    let s2i = x[2 * n - 2 * i + 1];
    lemma_mul_hi32_round_near(s1r, a0);
    lemma_mul_hi32_round_near(s1i, a1);
    lemma_mul_hi32_round_near(s2r, b0);
    lemma_mul_hi32_round_near(s2i, b1);
    lemma_mul_hi32_round_near(s2r, b1);
    lemma_mul_hi32_round_near(s2i, b0);
    lemma_mul_hi32_round_near(s1i, a0);
    lemma_mul_hi32_round_near(s1r, a1);
    assert(cmul_re(s2r as int, -(s2i as int), b0 as int, b1 as int) == s2r * b0 + s2i * b1)
        by (nonlinear_arith);
    assert(cmul_im(s2r as int, -(s2i as int), b0 as int, b1 as int) == s2r * b1 - s2i * b0)
        by (nonlinear_arith);
}

/// The forward Q31 split step (see `split_rfft_i16`); sums wrap on overflow.
pub open spec fn split_rfft_i32(x: Seq<i32>, n: int, a: Seq<u32>, b: Seq<u32>, m: int) -> Seq<i32> {
    Seq::new(
        (4 * n) as nat,
        |e: int|
            {
                let p = e / 2;
                if p == 0 {
                    if e % 2 == 0 {
                        wadd32(x[0], x[1]) >> 1i32
                    } else {
                        0i32
                    }
                } else if p == n {
                    if e % 2 == 0 {
                        wsub32(x[0], x[1]) >> 1i32
                    } else {
                        0i32
                    }
                } else if p < n {
                    let v = rfft_bin_i32(x, n, a, b, m, p);
                    if e % 2 == 0 {
                        v.0
                    } else {
                        v.1
                    }
                } else {
                    let v = rfft_bin_i32(x, n, a, b, m, 2 * n - p);
                    if e % 2 == 0 {
                        v.0
                    } else {
                        wneg32(v.1)
                    }
                }
            },
    )
}

/// Bin `i` (`0 <= i < n`) of the inverse Q31 split step.
pub open spec fn rifft_bin_i32(x: Seq<i32>, n: int, a: Seq<u32>, b: Seq<u32>, m: int, i: int) -> (
    i32,
    i32,
) {
    let c = 2 * i * m;
    let a0 = coef32(a, c);
    let a1 = coef32(a, c + 1);
    let b0 = coef32(b, c);
    let b1 = coef32(b, c + 1);
    let s1r = x[2 * i];
    let s1i = x[2 * i + 1];
    let s2r = x[2 * n - 2 * i];
    let s2i = x[2 * n - 2 * i + 1];
    (
        wadd32(
            wadd32(
                wsub32(mul_hi32_round(s2r, b0), mul_hi32_round(s2i, b1)),
                mul_hi32_round(s1r, a0),
            ),
            mul_hi32_round(s1i, a1),
        ),
        wsub32(
            wsub32(
                wsub32(mul_hi32_round(s1i, a0), mul_hi32_round(s1r, a1)),
                mul_hi32_round(s2r, b1),
            ),
            mul_hi32_round(s2i, b0),
        ),
    )
}

/// Bin `i` of the inverse Q31 split step is the complex combination
/// `Z[i] * conj(A) + conj(Z[n - i]) * conj(B)` of two bins of the spectrum `Z`
/// with the split coefficients `A`, `B` at `2 i m`, divided by `2^32`, to within
/// two units, when those bins lie below `2^30` in magnitude (so that no 32-bit
/// sum wraps) and no coefficient is `i32::MIN`.
pub proof fn lemma_rifft_bin_i32_split(x: Seq<i32>, n: int, a: Seq<u32>, b: Seq<u32>, m: int, i: int)
    requires
        -0x4000_0000 < x[2 * i] < 0x4000_0000,
        -0x4000_0000 < x[2 * i + 1] < 0x4000_0000,
        -0x4000_0000 < x[2 * n - 2 * i] < 0x4000_0000,
        -0x4000_0000 < x[2 * n - 2 * i + 1] < 0x4000_0000,
        coef32(a, 2 * i * m) != i32::MIN,
        coef32(a, 2 * i * m + 1) != i32::MIN,
        coef32(b, 2 * i * m) != i32::MIN,
        coef32(b, 2 * i * m + 1) != i32::MIN,
    ensures
        ({
            let c = 2 * i * m;
            let y = rifft_bin_i32(x, n, a, b, m, i);
            let zr = x[2 * i] as int;
            let zi = x[2 * i + 1] as int;
            let wr = x[2 * n - 2 * i] as int;
            let wi = -(x[2 * n - 2 * i + 1] as int);
            let ar = coef32(a, c) as int;
            let ai = coef32(a, c + 1) as int;
            let br = coef32(b, c) as int;
            let bi = coef32(b, c + 1) as int;
            let re = cmul_re(zr, zi, ar, -ai) + cmul_re(wr, wi, br, -bi);
            let im = cmul_im(zr, zi, ar, -ai) + cmul_im(wr, wi, br, -bi);
            &&& y.0 * 0x1_0000_0000 - 0x2_0000_0000 <= re <= y.0 * 0x1_0000_0000 + 0x2_0000_0000
            &&& y.1 * 0x1_0000_0000 - 0x2_0000_0000 <= im <= y.1 * 0x1_0000_0000 + 0x2_0000_0000
        }),
{
    let c = 2 * i * m;
    let a0 = coef32(a, c);
    let a1 = coef32(a, c + 1);
    let b0 = coef32(b, c);
    let b1 = coef32(b, c + 1);
    let s1r = x[2 * i];
    let s1i = x[2 * i + 1];
    let s2r = x[2 * n - 2 * i];
    let s2i = x[2 * n - 2 * i + 1];
    lemma_mul_hi32_round_near(s1r, a0);
    lemma_mul_hi32_round_near(s1i, a1);
    lemma_mul_hi32_round_near(s2r, b0);
    lemma_mul_hi32_round_near(s2i, b1);
    lemma_mul_hi32_round_near(s2r, b1);
    lemma_mul_hi32_round_near(s2i, b0);
    lemma_mul_hi32_round_near(s1i, a0);
    lemma_mul_hi32_round_near(s1r, a1);
    assert(cmul_re(s1r as int, s1i as int, a0 as int, -(a1 as int)) == s1r * a0 + s1i * a1)
        by (nonlinear_arith);
    assert(cmul_im(s1r as int, s1i as int, a0 as int, -(a1 as int)) == s1i * a0 - s1r * a1)
        by (nonlinear_arith);
    assert(cmul_re(s2r as int, -(s2i as int), b0 as int, -(b1 as int)) == s2r * b0 - s2i * b1)
        by (nonlinear_arith);
    assert(cmul_im(s2r as int, -(s2i as int), b0 as int, -(b1 as int)) == -(s2r * b1) - s2i * b0)
        by (nonlinear_arith);
}

/// The inverse Q31 split step.
pub open spec fn split_rifft_i32(x: Seq<i32>, n: int, a: Seq<u32>, b: Seq<u32>, m: int) -> Seq<
    i32,
> {
    Seq::new(
        (2 * n) as nat,
        |e: int|
            {
                let v = rifft_bin_i32(x, n, a, b, m, e / 2);
                if e % 2 == 0 {
                    v.0
                } else {
                    v.1
                }
            },
    )
}

fn rfft_bin_i32_exec(
    x: &[i32],
    n: usize,
    a: &[u32],
    b: &[u32],
    m: usize,
    i: usize,
    inverse: bool,
) -> (v: (i32, i32))
    requires
        i < n,
        0 < i || inverse,
        2 * n <= x.len(),
        inverse ==> 2 * n + 1 < x.len(),
        2 * i * m + 1 < a.len(),
        2 * i * m + 1 < b.len(),
    ensures
        !inverse ==> v == rfft_bin_i32(x@, n as int, a@, b@, m as int, i as int),
        inverse ==> v == rifft_bin_i32(x@, n as int, a@, b@, m as int, i as int),
{
    let c = 2 * i * m;
    let a0 = a[c] as i32;
    let a1 = a[c + 1] as i32;
    let b0 = b[c] as i32;
    let b1 = b[c + 1] as i32;
    let s1r = x[2 * i];
    let s1i = x[2 * i + 1];
    let s2r = x[2 * n - 2 * i];
    let s2i = x[2 * n - 2 * i + 1];
    if !inverse {
        let out_r = mul_hi32_round_exec(s1r, a0).wrapping_sub(mul_hi32_round_exec(s1i, a1)).wrapping_add(
            mul_hi32_round_exec(s2r, b0),
        ).wrapping_add(mul_hi32_round_exec(s2i, b1));
        let out_i = mul_hi32_round_exec(s2r, b1).wrapping_sub(mul_hi32_round_exec(s2i, b0)).wrapping_add(
            mul_hi32_round_exec(s1i, a0),
        ).wrapping_add(mul_hi32_round_exec(s1r, a1));
        (out_r, out_i)
    } else {
        let out_r = mul_hi32_round_exec(s2r, b0).wrapping_sub(mul_hi32_round_exec(s2i, b1)).wrapping_add(
            mul_hi32_round_exec(s1r, a0),
        ).wrapping_add(mul_hi32_round_exec(s1i, a1));
        let out_i = mul_hi32_round_exec(s1i, a0).wrapping_sub(mul_hi32_round_exec(s1r, a1)).wrapping_sub(
            mul_hi32_round_exec(s2r, b1),
        ).wrapping_sub(mul_hi32_round_exec(s2i, b0));
        (out_r, out_i)
    }
}

fn split_rfft_i32_exec(
    input: &[i32],
    n_fft: usize,
    re_table: &[u32],
    im_table: &[u32],
    output: &mut [i32],
    modifier: usize,
)
    requires
        n_fft >= 2,
        input.len() == 2 * n_fft,
        old(output).len() == 4 * n_fft,
        n_fft * modifier <= 4096,
        re_table.len() >= 8192,
        im_table.len() >= 8192,
    ensures
        final(output)@ == split_rfft_i32(
            input@,
            n_fft as int,
            re_table@,
            im_table@,
            modifier as int,
        ),
{
    let ghost spec_out = split_rfft_i32(
        input@,
        n_fft as int,
        re_table@,
        im_table@,
        modifier as int,
    );
    let mut i: usize = 1;
    while i < n_fft
        invariant
            1 <= i <= n_fft,
            input.len() == 2 * n_fft,
            output@.len() == 4 * n_fft,
            n_fft * modifier <= 4096,
            re_table.len() >= 8192,
            im_table.len() >= 8192,
            spec_out == split_rfft_i32(input@, n_fft as int, re_table@, im_table@, modifier as int),
            forall|e: int|
                0 <= e < 4 * n_fft && ((1 <= e / 2 < i) || (2 * n_fft - i < e / 2 < 2 * n_fft))
                    ==> #[trigger] output@[e] == spec_out[e],
        decreases n_fft - i,
    {
        proof {
            lemma_coef_index(i as int, n_fft as int, modifier as int);
        }
        let v = rfft_bin_i32_exec(input, n_fft, re_table, im_table, modifier, i, false);
        output[2 * i] = v.0;
        output[2 * i + 1] = v.1;
        let conj = 4 * n_fft - 2 * i;
        output[conj] = v.0;
        output[conj + 1] = 0i32.wrapping_sub(v.1);
        proof {
            assert((conj as int) / 2 == 2 * n_fft - i);
            assert(2 * n_fft - (2 * n_fft - i) == i);
        }
        i = i + 1;
    }
    output[2 * n_fft] = input[0].wrapping_sub(input[1]) >> 1;
    output[2 * n_fft + 1] = 0;
    output[0] = input[0].wrapping_add(input[1]) >> 1;
    output[1] = 0;
    proof {
        assert forall|e: int| 0 <= e < 4 * n_fft implies #[trigger] output@[e] == spec_out[e] by {
            let p = e / 2;
            if p != 0 && p != n_fft {
                assert((1 <= p < n_fft) || (n_fft < p < 2 * n_fft));
            }
        }
        assert(output@ =~= spec_out);
    }
}

fn split_rifft_i32_exec(
    input: &[i32],
    n_fft: usize,
    re_table: &[u32],
    im_table: &[u32],
    output: &mut [i32],
    modifier: usize,
)
    requires
        n_fft >= 2,
        input.len() == 4 * n_fft,
        old(output).len() == 2 * n_fft,
        n_fft * modifier <= 4096,
        re_table.len() >= 8192,
        im_table.len() >= 8192,
    ensures
        final(output)@ == split_rifft_i32(
            input@,
            n_fft as int,
            re_table@,
            im_table@,
            modifier as int,
        ),
{
    let ghost spec_out = split_rifft_i32(
        input@,
        n_fft as int,
        re_table@,
        im_table@,
        modifier as int,
    );
    let mut i: usize = 0;
    while i < n_fft
        invariant
            0 <= i <= n_fft,
            input.len() == 4 * n_fft,
            output@.len() == 2 * n_fft,
            n_fft * modifier <= 4096,
            re_table.len() >= 8192,
            im_table.len() >= 8192,
            spec_out == split_rifft_i32(input@, n_fft as int, re_table@, im_table@, modifier as int),
            forall|e: int| 0 <= e < 2 * i ==> #[trigger] output@[e] == spec_out[e],
        decreases n_fft - i,
    {
        proof {
            lemma_coef_index(i as int, n_fft as int, modifier as int);
        }
        let v = rfft_bin_i32_exec(input, n_fft, re_table, im_table, modifier, i, true);
        output[2 * i] = v.0;
        output[2 * i + 1] = v.1;
        i = i + 1;
    }
    assert(output@ =~= spec_out);
}

/// The Q31 real FFT of `n_real` samples (see `rfft_i16`); the inverse doubles
/// every sample, wrapping on overflow.
pub open spec fn rfft_i32(
    input: Seq<i32>,
    n_real: int,
    ifft: bool,
    bitrev: bool,
    a: Seq<u32>,
    b: Seq<u32>,
    tw: Seq<u32>,
) -> Seq<i32> {
    let n = n_real / 2;
    let m = 8192int / n_real;
    if ifft {
        let y = cfft_i32(split_rifft_i32(input, n, a, b, m), n, tw, true, bitrev);
        Seq::new(y.len(), |k: int| vstd::wrapping::i32_specs::wrapping_shl(y[k], 1))
    } else {
        split_rfft_i32(cfft_i32(input, n, tw, false, bitrev), n, a, b, m)
    }
}

/// The Q31 real transform sizes: powers of two from 32 to 8192.
pub open spec fn rfft_i32_len_ok(n: int) -> bool {
    crate::transform::radix2::is_pow2(n) && 32 <= n <= 8192
}

/// The forward Q31 real FFT is conjugate-symmetric: bin `2n - i` is the complex
/// conjugate of bin `i` (imaginary part negated with wrap-around), and bins `0`
/// and `n` are real.
pub proof fn lemma_rfft_i32_conjugate_symmetric(
    input: Seq<i32>,
    n_real: int,
    bitrev: bool,
    a: Seq<u32>,
    b: Seq<u32>,
    tw: Seq<u32>,
)
    requires
        n_real >= 4,
        n_real % 2 == 0,
    ensures
        ({
            let y = rfft_i32(input, n_real, false, bitrev, a, b, tw);
            let n = n_real / 2;
            &&& y.len() == 2 * n_real
            &&& y[1] == 0
            &&& y[2 * n + 1] == 0
            &&& forall|i: int|
                0 < i < n ==> #[trigger] y[4 * n - 2 * i] == y[2 * i] && y[4 * n - 2 * i + 1]
                    == wneg32(y[2 * i + 1])
        }),
{
    let y = rfft_i32(input, n_real, false, bitrev, a, b, tw);
    let n = n_real / 2;
    assert forall|i: int| 0 < i < n implies #[trigger] y[4 * n - 2 * i] == y[2 * i] && y[4 * n
        - 2 * i + 1] == wneg32(y[2 * i + 1]) by {
        assert((4 * n - 2 * i) / 2 == 2 * n - i);
        assert((4 * n - 2 * i + 1) / 2 == 2 * n - i);
        assert((2 * i) / 2 == i);
        assert((2 * i + 1) / 2 == i);
    }
    assert((2 * n + 1) / 2 == n);
}

/// Configuration of a Q31 real FFT (see `RfftI16`).
pub struct RfftI32<'a> {
    pub n_fft_real: usize,
    pub ifft_flag: bool,
    pub bit_reverse_flag: bool,
    pub re_table: &'a [u32],
    pub im_table: &'a [u32],
    pub twiddle: &'a [u32],
}

impl<'a> RfftI32<'a> {
    /// The configuration can run: a supported size and large enough tables.
    pub open spec fn well_formed(&self) -> bool {
        &&& rfft_i32_len_ok(self.n_fft_real as int)
        &&& self.re_table.len() >= 8192
        &&& self.im_table.len() >= 8192
        &&& self.twiddle.len() >= 3 * (self.n_fft_real / 2) / 2
    }

    pub fn new(
        n_fft_real: usize,
        ifft_flag: bool,
        bit_reverse_flag: bool,
        re_table: &'a [u32],
        im_table: &'a [u32],
        twiddle: &'a [u32],
    ) -> (r: Self)
        requires
            rfft_i32_len_ok(n_fft_real as int),
            re_table.len() >= 8192,
            im_table.len() >= 8192,
            twiddle.len() >= 3 * (n_fft_real / 2) / 2,
        ensures
            r.n_fft_real == n_fft_real,
            r.ifft_flag == ifft_flag,
            r.bit_reverse_flag == bit_reverse_flag,
            r.re_table@ == re_table@,
            r.im_table@ == im_table@,
            r.twiddle@ == twiddle@,
            r.well_formed(),
    {
        RfftI32 { n_fft_real, ifft_flag, bit_reverse_flag, re_table, im_table, twiddle }
    }

    /// Runs the configured transform; forward: `input` holds `n_fft_real` samples and
    /// `output` receives `2 * n_fft_real` values; inverse: the other way round.
    pub fn run(&self, input: &[i32], output: &mut [i32])
        requires
            self.well_formed(),
            self.ifft_flag ==> input.len() == 2 * self.n_fft_real && old(output).len()
                == self.n_fft_real,
            !self.ifft_flag ==> input.len() == self.n_fft_real && old(output).len() == 2
                * self.n_fft_real,
        ensures
            final(output)@ == rfft_i32(
                input@,
                self.n_fft_real as int,
                self.ifft_flag,
                self.bit_reverse_flag,
                self.re_table@,
                self.im_table@,
                self.twiddle@,
            ),
    {
        let n_real = self.n_fft_real;
        let n_fft = n_real >> 1;
        let modifier = 8192 / n_real;
        proof {
            assert(n_real >> 1 == n_real / 2) by (bit_vector);
            lemma_modifier(n_real as int);
            crate::transform::radix2::lemma_pow2_step(n_real as int);
            crate::transform::cfft::lemma_fft_sizes(n_real as int / 2);
            assert(fft_len_ok(n_fft as int)) by {
                reveal_with_fuel(crate::transform::radix2::is_pow2, 13);
            }
        }
        let cfft = CfftI32::new(n_fft, self.ifft_flag, self.bit_reverse_flag, self.twiddle);
        if self.ifft_flag {
            split_rifft_i32_exec(input, n_fft, self.re_table, self.im_table, output, modifier);
            cfft.run(output);
            let ghost y = output@;
            let mut k: usize = 0;
            while k < output.len()
                invariant
                    output@.len() == y.len(),
                    0 <= k <= y.len(),
                    forall|j: int|
                        0 <= j < y.len() ==> #[trigger] output@[j] == (if j < k {
                            vstd::wrapping::i32_specs::wrapping_shl(y[j], 1)
                        } else {
                            y[j]
                        }),
                decreases y.len() - k,
            {
                output[k] = output[k].wrapping_shl(1);
                k = k + 1;
            }
            assert(output@ =~= Seq::new(
                y.len(),
                |j: int| vstd::wrapping::i32_specs::wrapping_shl(y[j], 1),
            ));
        } else {
            // a fixed-capacity scratch for the intermediate complex transform
            let mut buf = [0i32; 8192];
            let (scratch, _) = buf.split_at_mut(n_real);
            copy_prefix_i32(scratch, input);
            cfft.run(scratch);
            split_rfft_i32_exec(
                scratch,
                n_fft,
                self.re_table,
                self.im_table,
                output,
                modifier,
            );
        }
    }
}

} // verus!
