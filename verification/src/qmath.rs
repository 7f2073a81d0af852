//! Saturation, arithmetic shifts and wrapping helpers shared by the kernels.
use vstd::prelude::*;

verus! {

/// `x` clamped into the Q15 (`i16`) range.
pub open spec fn clamp16(x: int) -> i16 {
    if x < i16::MIN {
        i16::MIN
    } else if x > i16::MAX {
        i16::MAX
    } else {
        x as i16
    }
}

/// `x` clamped into the Q31 (`i32`) range.
pub open spec fn clamp32(x: int) -> i32 {
    if x < i32::MIN {
        i32::MIN
    } else if x > i32::MAX {
        i32::MAX
    } else {
        x as i32
    }
}

/// Saturates a 32-bit intermediate to Q15.
pub fn sat_i16(x: i32) -> (r: i16)
    ensures
        r == clamp16(x as int),
{
    if x < -32768 {
        -32768
    } else if x > 32767 {
        32767
    } else {
        x as i16
    }
}

/// Saturates a 64-bit intermediate to Q31.
pub fn sat_i32(x: i64) -> (r: i32)
    ensures
        r == clamp32(x as int),
{
    if x < -2147483648 {
        -2147483648
    } else if x > 2147483647 {
        2147483647
    } else {
        x as i32
    }
}

/// Ranges of small arithmetic right shifts of a Q15 sample held in 32 bits.
pub proof fn lemma_shr_i16_range(v: i32)
    requires
        -32768 <= v <= 32767,
    ensures
        -16384 <= v >> 1 <= 16383,
        -8192 <= v >> 2 <= 4095 * 2 + 1,
        -2048 <= v >> 4 <= 2047,
{
    assert(-32768 <= v <= 32767 ==> -16384 <= v >> 1 <= 16383 && -8192 <= v >> 2 <= 8191 && -2048
        <= v >> 4 <= 2047) by (bit_vector);
}

/// `(a * b) + (c * d)` on 32 bits, wrapping on overflow, then shifted right by 16.
pub open spec fn mac_hi16(a: i32, b: i32, c: i32, d: i32) -> i16 {
    (vstd::wrapping::i32_specs::wrapping_add((a * b) as i32, (c * d) as i32) >> 16i32) as i16
}

/// `(a * b) - (c * d)` on 32 bits, wrapping on overflow, then shifted right by 16.
pub open spec fn msc_hi16(a: i32, b: i32, c: i32, d: i32) -> i16 {
    (vstd::wrapping::i32_specs::wrapping_sub((a * b) as i32, (c * d) as i32) >> 16i32) as i16
}

/// Computes `mac_hi16`.
pub fn mac_hi16_exec(a: i32, b: i32, c: i32, d: i32) -> (r: i16)
    requires
        -32768 <= a <= 32768,
        -32768 <= b <= 32768,
        -32768 <= c <= 32768,
        -32768 <= d <= 32768,
    ensures
        r == mac_hi16(a, b, c, d),
{
    assert(-0x4000_0000 <= a * b <= 0x4000_0000) by (nonlinear_arith)
        requires
            -32768 <= a <= 32768,
            -32768 <= b <= 32768,
    ;
    assert(-0x4000_0000 <= c * d <= 0x4000_0000) by (nonlinear_arith)
        requires
            -32768 <= c <= 32768,
            -32768 <= d <= 32768,
    ;
    ((a * b).wrapping_add(c * d) >> 16) as i16
}

/// Computes `msc_hi16`.
pub fn msc_hi16_exec(a: i32, b: i32, c: i32, d: i32) -> (r: i16)
    requires
        -32768 <= a <= 32768,
        -32768 <= b <= 32768,
        -32768 <= c <= 32768,
        -32768 <= d <= 32768,
    ensures
        r == msc_hi16(a, b, c, d),
{
    assert(-0x4000_0000 <= a * b <= 0x4000_0000) by (nonlinear_arith)
        requires
            -32768 <= a <= 32768,
            -32768 <= b <= 32768,
    ;
    assert(-0x4000_0000 <= c * d <= 0x4000_0000) by (nonlinear_arith)
        requires
            -32768 <= c <= 32768,
            -32768 <= d <= 32768,
    ;
    ((a * b).wrapping_sub(c * d) >> 16) as i16
}

/// Two's-complement 32-bit addition.
pub open spec fn wadd32(a: i32, b: i32) -> i32 {
    vstd::wrapping::i32_specs::wrapping_add(a, b)
}

/// Two's-complement 32-bit subtraction.
pub open spec fn wsub32(a: i32, b: i32) -> i32 {
    vstd::wrapping::i32_specs::wrapping_sub(a, b)
}

/// High word of the 64-bit product of two Q31 values: `(a * b) >> 32`.
pub open spec fn mul_hi32(a: i32, b: i32) -> i32 {
    (((a as i64) * (b as i64)) as i64 >> 32i64) as i32
}

/// Computes `mul_hi32`.
pub fn mul_hi32_exec(a: i32, b: i32) -> (r: i32)
    ensures
        r == mul_hi32(a, b),
        -0x4000_0000 <= r <= 0x4000_0000,
{
    proof {
        assert(-0x4000_0000_0000_0000 <= (a as int) * (b as int) <= 0x4000_0000_0000_0000)
            by (nonlinear_arith)
            requires
                -0x8000_0000 <= a <= 0x7fff_ffff,
                -0x8000_0000 <= b <= 0x7fff_ffff,
        ;
    }
    let p = (a as i64) * (b as i64);
    proof {
        assert(-0x4000_0000_0000_0000 <= p <= 0x4000_0000_0000_0000 ==> -0x4000_0000 <= p >> 32
            <= 0x4000_0000) by (bit_vector);
    }
    (p >> 32) as i32
}

/// A product high word of operands bounded by `2^k` is bounded by `2^(k - 1)`.
pub proof fn lemma_mul_hi32_small(a: i32, b: i32)
    requires
        -0x2000_0000 <= a <= 0x2000_0000,
    ensures
        -0x1000_0000 <= mul_hi32(a, b) <= 0x1000_0000,
{
    assert(-0x1000_0000_0000_0000 <= (a as int) * (b as int) <= 0x1000_0000_0000_0000)
        by (nonlinear_arith)
        requires
            -0x2000_0000 <= a <= 0x2000_0000,
            -0x8000_0000 <= b <= 0x7fff_ffff,
    ;
    let p = ((a as i64) * (b as i64)) as i64;
    assert(p == (a as int) * (b as int));
    assert(-0x1000_0000_0000_0000 <= p <= 0x1000_0000_0000_0000 ==> -0x1000_0000 <= p >> 32
        <= 0x1000_0000) by (bit_vector);
}

/// Range of `v >> 4` for a Q31 sample.
pub proof fn lemma_shr4_i32(v: i32)
    ensures
        -0x0800_0000 <= v >> 4 <= 0x07ff_ffff,
{
    assert(-0x0800_0000 <= v >> 4 <= 0x07ff_ffff) by (bit_vector);
}

/// Rounded high word of the 64-bit product of two Q31 values: `(a * b + 2^31) >> 32`.
pub open spec fn mul_hi32_round(a: i32, b: i32) -> i32 {
    (((a as i64) * (b as i64) + 0x8000_0000) as i64 >> 32i64) as i32
}

/// Computes `mul_hi32_round`.
pub fn mul_hi32_round_exec(a: i32, b: i32) -> (r: i32)
    ensures
        r == mul_hi32_round(a, b),
{
    proof {
        assert(-0x4000_0000_0000_0000 <= (a as int) * (b as int) <= 0x4000_0000_0000_0000)
            by (nonlinear_arith)
            requires
                -0x8000_0000 <= a <= 0x7fff_ffff,
                -0x8000_0000 <= b <= 0x7fff_ffff,
        ;
    }
    let p = (a as i64) * (b as i64) + 0x8000_0000;
    proof {
        assert(-0x4000_0000_0000_0000 <= p <= 0x4000_0000_8000_0000 ==> -0x4000_0000 <= p >> 32
            <= 0x4000_0000) by (bit_vector);
    }
    (p >> 32) as i32
}

/// `x` reduced modulo `2^64` into the `i64` range (two's-complement wrap).
pub open spec fn wrap64(x: int) -> i64 {
    vstd::wrapping::i64_specs::signed_crop(x)
}

pub proof fn lemma_wrap64_unique(x: int, v: int)
    requires
        i64::MIN <= v <= i64::MAX,
        v % 0x1_0000_0000_0000_0000int == x % 0x1_0000_0000_0000_0000int,
    ensures
        wrap64(x) == v,
{
    let r: int = 0x1_0000_0000_0000_0000;
    if v >= 0 {
        vstd::arithmetic::div_mod::lemma_small_mod(v as nat, r as nat);
    } else {
        vstd::arithmetic::div_mod::lemma_fundamental_div_mod_converse(v, r, -1, v + r);
    }
}

pub proof fn lemma_wrap64_mod(x: int)
    ensures
        (wrap64(x) as int) % 0x1_0000_0000_0000_0000int == x % 0x1_0000_0000_0000_0000int,
        i64::MIN <= wrap64(x) <= i64::MAX,
{
    let r: int = 0x1_0000_0000_0000_0000;
    let m = x % r;
    vstd::arithmetic::div_mod::lemma_mod_bound(x, r);
    vstd::arithmetic::div_mod::lemma_mod_twice(x, r);
    if m > i64::MAX {
        vstd::arithmetic::div_mod::lemma_fundamental_div_mod_converse(m - r, r, -1, m);
    } else {
        vstd::arithmetic::div_mod::lemma_small_mod(m as nat, r as nat);
    }
}

/// Accumulating with a wrapping 64-bit addition keeps the wrapped exact sum.
pub proof fn lemma_wrapping_add_wrap64(p: int, t: i64)
    ensures
        vstd::wrapping::i64_specs::wrapping_add(wrap64(p), t) == wrap64(p + t),
{
    let r: int = 0x1_0000_0000_0000_0000;
    let c = wrap64(p);
    lemma_wrap64_mod(p);
    let w = vstd::wrapping::i64_specs::wrapping_add(c, t);
    vstd::arithmetic::div_mod::lemma_add_mod_noop(c as int, t as int, r);
    vstd::arithmetic::div_mod::lemma_add_mod_noop(p, t as int, r);
    if c + t > i64::MAX {
        vstd::arithmetic::div_mod::lemma_mod_sub_multiples_vanish(c + t, r);
    } else if c + t < i64::MIN {
        vstd::arithmetic::div_mod::lemma_mod_add_multiples_vanish(c + t, r);
    }
    assert((w as int) % r == (c + t) % r);
    assert((c + t) % r == (p + t) % r) by {
        vstd::arithmetic::div_mod::lemma_mod_twice(c as int, r);
        vstd::arithmetic::div_mod::lemma_mod_twice(p, r);
    }
    lemma_wrap64_unique(p + t, w as int);
}

/// The integer sum of the first `n` elements of `v`.
pub open spec fn sum_int(v: Seq<int>, n: int) -> int
    decreases n,
{
    if n <= 0 {
        0
    } else {
        sum_int(v, n - 1) + v[n - 1]
    }
}

/// What the standard library's `u32::leading_zeros` gives, in shift form.
pub proof fn lemma_leading_zeros_u32(x: u32)
    ensures
        vstd::std_specs::bits::u32_leading_zeros(x) <= 32,
        vstd::std_specs::bits::u32_leading_zeros(x) < 32 ==> (x >> ((31
            - vstd::std_specs::bits::u32_leading_zeros(x)) as u32)) & 1u32 != 0u32,
        x >> ((32 - vstd::std_specs::bits::u32_leading_zeros(x)) as u32) == 0,
        x == 0 <==> vstd::std_specs::bits::u32_leading_zeros(x) == 32,
{
    vstd::std_specs::bits::axiom_u32_leading_zeros(x);
}

/// The arithmetic right shifts used by the kernels are floor divisions by the
/// matching power of two.
pub proof fn lemma_shr_floor()
    by (bit_vector)
    ensures
        forall|v: i32| #![trigger (v >> 1i32)] (v >> 1i32) * 2 <= v < (v >> 1i32) * 2 + 2,
        forall|v: i32| #![trigger (v >> 2i32)] (v >> 2i32) * 4 <= v < (v >> 2i32) * 4 + 4,
        forall|v: i32| #![trigger (v << 1u32)] -0x4000_0000 <= v < 0x4000_0000 ==> v << 1u32 == 2 * v,
        forall|v: i32| #![trigger (v << 1i32)] -0x4000_0000 <= v < 0x4000_0000 ==> v << 1i32 == 2 * v,
        forall|v: i32| #![trigger (v >> 4i32)] (v >> 4i32) * 16 <= v < (v >> 4i32) * 16 + 16,
        forall|v: i32| #![trigger (v >> 14i32)] (v >> 14i32) * 0x4000 <= v < (v >> 14i32) * 0x4000 + 0x4000,
        forall|v: i32| #![trigger (v >> 15i32)] (v >> 15i32) * 0x8000 <= v < (v >> 15i32) * 0x8000 + 0x8000,
        forall|v: i64| #![trigger (v >> 10i64)] (v >> 10i64) * 0x400 <= v < (v >> 10i64) * 0x400 + 0x400,
        forall|v: i64|
            #![trigger (v >> 28i64)]
            (v >> 28i64) * 0x1000_0000 <= v < (v >> 28i64) * 0x1000_0000 + 0x1000_0000,
        forall|v: i64| #![trigger (v >> 15i64)] (v >> 15i64) * 0x8000 <= v < (v >> 15i64) * 0x8000 + 0x8000,
        forall|v: i64|
            #![trigger (v >> 31i64)]
            (v >> 31i64) * 0x8000_0000 <= v < (v >> 31i64) * 0x8000_0000 + 0x8000_0000,
        forall|v: i64|
            #![trigger (v >> 33i64)]
            (v >> 33i64) * 0x2_0000_0000 <= v < (v >> 33i64) * 0x2_0000_0000 + 0x2_0000_0000,
        forall|v: i32| #![trigger (v >> 16i32)] (v >> 16i32) * 0x1_0000 <= v < (v >> 16i32) * 0x1_0000 + 0x1_0000,
        forall|v: i64|
            #![trigger (v >> 32i64)]
            (v >> 32i64) * 0x1_0000_0000 <= v < (v >> 32i64) * 0x1_0000_0000 + 0x1_0000_0000,
{
}

/// Real part of the complex product `(ar + i ai) * (br + i bi)`.
pub open spec fn cmul_re(ar: int, ai: int, br: int, bi: int) -> int {
    ar * br - ai * bi
}

/// Imaginary part of the complex product `(ar + i ai) * (br + i bi)`.
pub open spec fn cmul_im(ar: int, ai: int, br: int, bi: int) -> int {
    ar * bi + ai * br
}

/// `mac_hi16` is the floor of `(a b + c d) / 2^16` when the sum fits in 32 bits.
pub proof fn lemma_mac_hi16_floor(a: i32, b: i32, c: i32, d: i32)
    requires
        -0x4000_0000 <= a * b <= 0x4000_0000,
        -0x4000_0000 <= c * d <= 0x4000_0000,
        -0x8000_0000 <= a * b + c * d < 0x8000_0000,
    ensures
        mac_hi16(a, b, c, d) * 0x1_0000 <= a * b + c * d < mac_hi16(a, b, c, d) * 0x1_0000
            + 0x1_0000,
{
    lemma_shr_floor();
    let v = vstd::wrapping::i32_specs::wrapping_add((a * b) as i32, (c * d) as i32);
    assert(v == a * b + c * d);
    assert(-0x8000 <= v >> 16i32 < 0x8000);
}

/// `msc_hi16` is the floor of `(a b - c d) / 2^16` when the difference fits in
/// 32 bits.
pub proof fn lemma_msc_hi16_floor(a: i32, b: i32, c: i32, d: i32)
    requires
        -0x4000_0000 <= a * b <= 0x4000_0000,
        -0x4000_0000 <= c * d <= 0x4000_0000,
        -0x8000_0000 <= a * b - c * d < 0x8000_0000,
    ensures
        msc_hi16(a, b, c, d) * 0x1_0000 <= a * b - c * d < msc_hi16(a, b, c, d) * 0x1_0000
            + 0x1_0000,
{
    lemma_shr_floor();
    let v = vstd::wrapping::i32_specs::wrapping_sub((a * b) as i32, (c * d) as i32);
    assert(v == a * b - c * d);
    assert(-0x8000 <= v >> 16i32 < 0x8000);
}

/// A Q15 rotation computed on halved operands: if `b` is `u / 2` to within one
/// unit and `o` is the floor of `b * (c + i s) / 2^16`, then `o` is
/// `u * (c + i s) / 2^17` to within two units.
pub proof fn lemma_rot_q15(b0: int, b1: int, u0: int, u1: int, c: int, s: int, o0: int, o1: int)
    requires
        -2 <= 2 * b0 - u0 <= 2,
        -2 <= 2 * b1 - u1 <= 2,
        -0x8000 <= c <= 0x8000,
        -0x8000 <= s <= 0x8000,
        o0 * 0x1_0000 <= cmul_re(b0, b1, c, s) < o0 * 0x1_0000 + 0x1_0000,
        o1 * 0x1_0000 <= cmul_im(b0, b1, c, s) < o1 * 0x1_0000 + 0x1_0000,
    ensures
        o0 * 0x2_0000 - 0x4_0000 < cmul_re(u0, u1, c, s) < o0 * 0x2_0000 + 0x4_0000,
        o1 * 0x2_0000 - 0x4_0000 < cmul_im(u0, u1, c, s) < o1 * 0x2_0000 + 0x4_0000,
{
    assert(-0x1_0000 <= c * (2 * b0 - u0) <= 0x1_0000) by (nonlinear_arith)
        requires
            -2 <= 2 * b0 - u0 <= 2,
            -0x8000 <= c <= 0x8000,
    ;
    assert(-0x1_0000 <= s * (2 * b1 - u1) <= 0x1_0000) by (nonlinear_arith)
        requires
            -2 <= 2 * b1 - u1 <= 2,
            -0x8000 <= s <= 0x8000,
    ;
    assert(-0x1_0000 <= s * (2 * b0 - u0) <= 0x1_0000) by (nonlinear_arith)
        requires
            -2 <= 2 * b0 - u0 <= 2,
            -0x8000 <= s <= 0x8000,
    ;
    assert(-0x1_0000 <= c * (2 * b1 - u1) <= 0x1_0000) by (nonlinear_arith)
        requires
            -2 <= 2 * b1 - u1 <= 2,
            -0x8000 <= c <= 0x8000,
    ;
    assert(2 * cmul_re(b0, b1, c, s) - cmul_re(u0, u1, c, s) == c * (2 * b0 - u0) - s * (2 * b1
        - u1)) by (nonlinear_arith);
    assert(2 * cmul_im(b0, b1, c, s) - cmul_im(u0, u1, c, s) == s * (2 * b0 - u0) + c * (2 * b1
        - u1)) by (nonlinear_arith);
}

/// `mul_hi32_round(a, b)` is `a b / 2^32` rounded to nearest (ties up), for a
/// factor below `2^30` and one other than `i32::MIN`.
pub proof fn lemma_mul_hi32_round_near(a: i32, b: i32)
    requires
        -0x4000_0000 < a < 0x4000_0000,
        b != i32::MIN,
    ensures
        mul_hi32_round(a, b) * 0x1_0000_0000 - 0x8000_0000 <= a * b < mul_hi32_round(a, b)
            * 0x1_0000_0000 + 0x8000_0000,
        -0x2000_0000 < mul_hi32_round(a, b) < 0x2000_0000,
{
    lemma_shr_floor();
    assert(-(0x3fff_ffff * 0x7fff_ffff) <= a * b <= 0x3fff_ffff * 0x7fff_ffff) by (nonlinear_arith)
        requires
            -0x4000_0000 < a < 0x4000_0000,
            -0x7fff_ffff <= b <= 0x7fff_ffff,
    ;
    let p = ((a as i64) * (b as i64) + 0x8000_0000) as i64;
    assert(p == a * b + 0x8000_0000);
    let q = p >> 32i64;
    assert(q * 0x1_0000_0000 <= p < q * 0x1_0000_0000 + 0x1_0000_0000);
    assert(-0x2000_0000 < q < 0x2000_0000);
}

/// `mul_hi32(a, b)` is the floor of `a b / 2^32`, below `2^29` in magnitude
/// for a factor below `2^30`.
pub proof fn lemma_mul_hi32_floor(a: i32, b: i32)
    requires
        -0x4000_0000 < a < 0x4000_0000,
    ensures
        mul_hi32(a, b) * 0x1_0000_0000 <= a * b < mul_hi32(a, b) * 0x1_0000_0000 + 0x1_0000_0000,
        -0x2000_0000 <= mul_hi32(a, b) < 0x2000_0000,
{
    lemma_shr_floor();
    assert(-(0x4000_0000 * 0x8000_0000) < a * b < 0x4000_0000 * 0x8000_0000) by (nonlinear_arith)
        requires
            -0x4000_0000 < a < 0x4000_0000,
            -0x8000_0000 <= b <= 0x7fff_ffff,
    ;
    let p = ((a as i64) * (b as i64)) as i64;
    assert(p == a * b);
    let q = p >> 32i64;
    assert(q * 0x1_0000_0000 <= p < q * 0x1_0000_0000 + 0x1_0000_0000);
    assert(-0x2000_0000 <= q < 0x2000_0000);
}

/// A Q31 rotation on truncated high words, halved: the pair computed from
/// `u = (ur, ui)` and the twiddle `(c, s)` is `u * (c - i s)` forward or
/// `u * (c + i s)` inverse, divided by `2^33`, to within two units.
pub proof fn lemma_rot_q31_half(ur: i32, ui: i32, c: i32, s: i32, inverse: bool)
    requires
        -0x4000_0000 < ur < 0x4000_0000,
        -0x4000_0000 < ui < 0x4000_0000,
    ensures
        ({
            let sn: int = if inverse { s as int } else { -(s as int) };
            let o0 = if !inverse {
                wadd32(mul_hi32(ur, c), mul_hi32(ui, s)) >> 1i32
            } else {
                wsub32(mul_hi32(ur, c), mul_hi32(ui, s)) >> 1i32
            };
            let o1 = if !inverse {
                wsub32(mul_hi32(ui, c), mul_hi32(ur, s)) >> 1i32
            } else {
                wadd32(mul_hi32(ui, c), mul_hi32(ur, s)) >> 1i32
            };
            &&& o0 * 0x2_0000_0000 - 0x4_0000_0000 < cmul_re(ur as int, ui as int, c as int, sn) < o0
                * 0x2_0000_0000 + 0x4_0000_0000
            &&& o1 * 0x2_0000_0000 - 0x4_0000_0000 < cmul_im(ur as int, ui as int, c as int, sn) < o1
                * 0x2_0000_0000 + 0x4_0000_0000
        }),
{
    lemma_shr_floor();
    lemma_mul_hi32_floor(ur, c);
    lemma_mul_hi32_floor(ui, s);
    lemma_mul_hi32_floor(ui, c);
    lemma_mul_hi32_floor(ur, s);
    let m1 = mul_hi32(ur, c) as int;
    let m2 = mul_hi32(ui, s) as int;
    let m3 = mul_hi32(ui, c) as int;
    let m4 = mul_hi32(ur, s) as int;
    let sn: int = if inverse { s as int } else { -(s as int) };
    if inverse {
        assert(cmul_re(ur as int, ui as int, c as int, sn) == ur * c - ui * s);
        assert(cmul_im(ur as int, ui as int, c as int, sn) == ur * s + ui * c);
    } else {
        assert(cmul_re(ur as int, ui as int, c as int, sn) == ur * c + ui * s) by (nonlinear_arith)
            requires
                sn == -(s as int),
        ;
        assert(cmul_im(ur as int, ui as int, c as int, sn) == ui * c - ur * s) by (nonlinear_arith)
            requires
                sn == -(s as int),
        ;
    }
}

/// A Q31 rotation on truncated high words of sixteenth-scaled operands,
/// doubled: if `16 u_r`, `16 u_i` are `u0`, `u1` to within 32 units, the pair
/// computed from `(u_r, u_i)` and the twiddle `(c, s)` is `(u0, u1) * (c - i s)`
/// forward or `(u0, u1) * (c + i s)` inverse, divided by `2^35`, to within eight
/// units.
pub proof fn lemma_rot_q31_sixteenth(ur: i32, ui: i32, u0: int, u1: int, c: i32, s: i32, inverse: bool)
    requires
        -0x2000_0000 <= ur <= 0x2000_0000,
        -0x2000_0000 <= ui <= 0x2000_0000,
        -32 < 16 * ur - u0 < 32,
        -32 < 16 * ui - u1 < 32,
    ensures
        ({
            let sn: int = if inverse { s as int } else { -(s as int) };
            let o0 = if !inverse {
                ((mul_hi32(ur, c) + mul_hi32(ui, s)) as i32) << 1i32
            } else {
                ((mul_hi32(ur, c) - mul_hi32(ui, s)) as i32) << 1i32
            };
            let o1 = if !inverse {
                ((mul_hi32(ui, c) - mul_hi32(ur, s)) as i32) << 1i32
            } else {
                ((mul_hi32(ui, c) + mul_hi32(ur, s)) as i32) << 1i32
            };
            &&& o0 * 0x8_0000_0000 - 0x40_0000_0000 < cmul_re(u0, u1, c as int, sn) < o0 * 0x8_0000_0000
                + 0x40_0000_0000
            &&& o1 * 0x8_0000_0000 - 0x40_0000_0000 < cmul_im(u0, u1, c as int, sn) < o1 * 0x8_0000_0000
                + 0x40_0000_0000
        }),
{
    lemma_shr_floor();
    lemma_mul_hi32_floor(ur, c);
    lemma_mul_hi32_floor(ui, s);
    lemma_mul_hi32_floor(ui, c);
    lemma_mul_hi32_floor(ur, s);
    lemma_mul_hi32_small(ur, c);
    lemma_mul_hi32_small(ui, s);
    lemma_mul_hi32_small(ui, c);
    lemma_mul_hi32_small(ur, s);
    let sn: int = if inverse { s as int } else { -(s as int) };
    let cc = c as int;
    let e0 = 16 * ur - u0;
    let e1 = 16 * ui - u1;
    assert(-0x8000_0000 <= sn <= 0x8000_0000);
    assert(-0x10_0000_0000 < cc * e0 < 0x10_0000_0000) by (nonlinear_arith)
        requires
            -32 < e0 < 32,
            -0x8000_0000 <= cc <= 0x8000_0000,
    ;
    assert(-0x10_0000_0000 < cc * e1 < 0x10_0000_0000) by (nonlinear_arith)
        requires
            -32 < e1 < 32,
            -0x8000_0000 <= cc <= 0x8000_0000,
    ;
    assert(-0x10_0000_0000 < sn * e0 < 0x10_0000_0000) by (nonlinear_arith)
        requires
            -32 < e0 < 32,
            -0x8000_0000 <= sn <= 0x8000_0000,
    ;
    assert(-0x10_0000_0000 < sn * e1 < 0x10_0000_0000) by (nonlinear_arith)
        requires
            -32 < e1 < 32,
            -0x8000_0000 <= sn <= 0x8000_0000,
    ;
    assert(16 * cmul_re(ur as int, ui as int, cc, sn) - cmul_re(u0, u1, cc, sn) == cc * e0 - sn * e1)
        by (nonlinear_arith)
        requires
            e0 == 16 * ur - u0,
            e1 == 16 * ui - u1,
    ;
    assert(16 * cmul_im(ur as int, ui as int, cc, sn) - cmul_im(u0, u1, cc, sn) == sn * e0 + cc * e1)
        by (nonlinear_arith)
        requires
            e0 == 16 * ur - u0,
            e1 == 16 * ui - u1,
    ;
    if inverse {
        assert(cmul_re(ur as int, ui as int, cc, sn) == ur * c - ui * s);
        assert(cmul_im(ur as int, ui as int, cc, sn) == ur * s + ui * c);
    } else {
        assert(cmul_re(ur as int, ui as int, cc, sn) == ur * c + ui * s) by (nonlinear_arith)
            requires
                sn == -(s as int),
                cc == c as int,
        ;
        assert(cmul_im(ur as int, ui as int, cc, sn) == ui * c - ur * s) by (nonlinear_arith)
            requires
                sn == -(s as int),
                cc == c as int,
        ;
    }
}

/// A Q15 rotation computed on quartered operands: if `b` is `u / 4` to within
/// one and a half units and `o` is the floor of `b * (c + i s) / 2^16`, then `o`
/// is `u * (c + i s) / 2^18` to within four units.
pub proof fn lemma_rot_q15_quarter(b0: int, b1: int, u0: int, u1: int, c: int, s: int, o0: int, o1: int)
    requires
        -6 <= 4 * b0 - u0 <= 6,
        -6 <= 4 * b1 - u1 <= 6,
        -0x8000 <= c <= 0x8000,
        -0x8000 <= s <= 0x8000,
        o0 * 0x1_0000 <= cmul_re(b0, b1, c, s) < o0 * 0x1_0000 + 0x1_0000,
        o1 * 0x1_0000 <= cmul_im(b0, b1, c, s) < o1 * 0x1_0000 + 0x1_0000,
    ensures
        o0 * 0x4_0000 - 0x10_0000 < cmul_re(u0, u1, c, s) < o0 * 0x4_0000 + 0x10_0000,
        o1 * 0x4_0000 - 0x10_0000 < cmul_im(u0, u1, c, s) < o1 * 0x4_0000 + 0x10_0000,
{
    assert(-0x3_0000 <= c * (4 * b0 - u0) <= 0x3_0000) by (nonlinear_arith)
        requires
            -6 <= 4 * b0 - u0 <= 6,
            -0x8000 <= c <= 0x8000,
    ;
    assert(-0x3_0000 <= s * (4 * b1 - u1) <= 0x3_0000) by (nonlinear_arith)
        requires
            -6 <= 4 * b1 - u1 <= 6,
            -0x8000 <= s <= 0x8000,
    ;
    assert(-0x3_0000 <= s * (4 * b0 - u0) <= 0x3_0000) by (nonlinear_arith)
        requires
            -6 <= 4 * b0 - u0 <= 6,
            -0x8000 <= s <= 0x8000,
    ;
    assert(-0x3_0000 <= c * (4 * b1 - u1) <= 0x3_0000) by (nonlinear_arith)
        requires
            -6 <= 4 * b1 - u1 <= 6,
            -0x8000 <= c <= 0x8000,
    ;
    assert(4 * cmul_re(b0, b1, c, s) - cmul_re(u0, u1, c, s) == c * (4 * b0 - u0) - s * (4 * b1
        - u1)) by (nonlinear_arith);
    assert(4 * cmul_im(b0, b1, c, s) - cmul_im(u0, u1, c, s) == s * (4 * b0 - u0) + c * (4 * b1
        - u1)) by (nonlinear_arith);
}

} // verus!
