//! Radix-2 decimation-in-frequency butterflies (CMSIS `arm_radix2_butterfly_q15`).
use crate::qmath::{cmul_im, cmul_re, lemma_shr_floor, lemma_shr_i16_range};
use crate::transform::stage::{
    gather, lemma_group_walk, lemma_shape_facts, lemma_stage_end, lemma_stage_start,
    lemma_stage_step, load_group2, stage, stage_partial, stage_shape, store_group2,
};
use vstd::prelude::*;

verus! {

/// `((a * b) >> 16)` of two Q15 values, as a Q15 value.
pub open spec fn mul_hi16(a: i16, b: i16) -> i16 {
    (((a as i32) * (b as i32)) as i32 >> 16i32) as i16
}

/// Two's-complement 16-bit addition.
pub open spec fn wadd16(a: i16, b: i16) -> i16 {
    vstd::wrapping::i16_specs::wrapping_add(a, b)
}

/// Two's-complement 16-bit subtraction.
pub open spec fn wsub16(a: i16, b: i16) -> i16 {
    vstd::wrapping::i16_specs::wrapping_sub(a, b)
}

/// The twiddle rotation of a radix-2 butterfly: `(xt, yt)` times `cos - j sin`
/// (forward) or `cos + j sin` (inverse), each product taken to Q15 first.
pub open spec fn r2_rotate(xt: i16, yt: i16, c: i16, s: i16, inverse: bool) -> (i16, i16) {
    if !inverse {
        (wadd16(mul_hi16(xt, c), mul_hi16(yt, s)), wsub16(mul_hi16(yt, c), mul_hi16(xt, s)))
    } else {
        (wsub16(mul_hi16(xt, c), mul_hi16(yt, s)), wadd16(mul_hi16(yt, c), mul_hi16(xt, s)))
    }
}

/// The radix-2 butterfly on one group `[re_a, im_a, re_b, im_b]` by kind of stage:
/// 0 first (inputs halved), 1 middle, 2 last (no twiddle, no scaling).
/// `w` holds `[cos, sin]`.
#[verifier::opaque]
pub open spec fn r2_kernel_i16(x: Seq<i16>, w: Seq<i16>, kind: int, inverse: bool) -> Seq<i16> {
    let tr = if kind == 0 { (x[0] as i32) >> 1i32 } else { x[0] as i32 };
    let ti = if kind == 0 { (x[1] as i32) >> 1i32 } else { x[1] as i32 };
    let sr = if kind == 0 { (x[2] as i32) >> 1i32 } else { x[2] as i32 };
    let si = if kind == 0 { (x[3] as i32) >> 1i32 } else { x[3] as i32 };
    let xt = (tr - sr) as i16;
    let yt = (ti - si) as i16;
    if kind == 2 {
        seq![(tr + sr) as i16, (ti + si) as i16, xt, yt]
    } else {
        let rot = r2_rotate(xt, yt, w[0], w[1], inverse);
        seq![((tr + sr) as i32 >> 1i32) as i16, ((ti + si) as i32 >> 1i32) as i16, rot.0, rot.1]
    }
}

/// `mul_hi16(a, b)` is the floor of `a b / 2^16`, below `2^14` in magnitude when
/// `b` is not `i16::MIN`.
proof fn lemma_mul_hi16_floor(a: i16, b: i16)
    requires
        b != i16::MIN,
    ensures
        mul_hi16(a, b) * 0x1_0000 <= a * b < mul_hi16(a, b) * 0x1_0000 + 0x1_0000,
        -0x4000 <= mul_hi16(a, b) < 0x4000,
{
    lemma_shr_floor();
    assert(-0x8000 * 0x7fff <= a * b <= 0x8000 * 0x7fff) by (nonlinear_arith)
        requires
            -0x8000 <= a <= 0x7fff,
            -0x7fff <= b <= 0x7fff,
    ;
    let p = ((a as i32) * (b as i32)) as i32;
    assert(p == a * b);
}

/// The radix-2 twiddle rotation multiplies `xt + i yt` by `cos - i sin`
/// (forward) or `cos + i sin` (inverse), Q15, each part within two units of
/// the exact product shifted down by 16 bits.
pub proof fn lemma_r2_rotate_is_complex_product(xt: i16, yt: i16, c: i16, s: i16, inverse: bool)
    requires
        c != i16::MIN,
        s != i16::MIN,
    ensures
        ({
            let r = r2_rotate(xt, yt, c, s, inverse);
            let sn = if inverse { s as int } else { -(s as int) };
            &&& r.0 * 0x1_0000 - 0x2_0000 < cmul_re(xt as int, yt as int, c as int, sn) < r.0
                * 0x1_0000 + 0x2_0000
            &&& r.1 * 0x1_0000 - 0x2_0000 < cmul_im(xt as int, yt as int, c as int, sn) < r.1
                * 0x1_0000 + 0x2_0000
        }),
{
    lemma_mul_hi16_floor(xt, c);
    lemma_mul_hi16_floor(yt, s);
    lemma_mul_hi16_floor(yt, c);
    lemma_mul_hi16_floor(xt, s);
    let sn = if inverse { s as int } else { -(s as int) };
    assert((yt as int) * sn == if inverse { yt * s } else { -(yt * s) }) by (nonlinear_arith)
        requires
            sn == if inverse { s as int } else { -(s as int) },
    ;
    assert((xt as int) * sn == if inverse { xt * s } else { -(xt * s) }) by (nonlinear_arith)
        requires
            sn == if inverse { s as int } else { -(s as int) },
    ;
}

/// A radix-2 stage is a DFT butterfly on `A = (x0, x1)` and `B = (x2, x3)`: the
/// last stage (kind 2) gives `A + B` and `A - B` exactly; a middle stage
/// (kind 1) gives `(A + B) / 2` rounded down and `(A - B) * W / 2` within two
/// units; the first stage (kind 0) gives `(A + B) / 4` within two units and
/// `(A - B) * W / 4` within four, with `W = cos - i sin` forward and
/// `cos + i sin` inverse (Q15), on samples below `2^14` in magnitude.
pub proof fn lemma_r2_kernel_i16_butterfly(x: Seq<i16>, w: Seq<i16>, kind: int, inverse: bool)
    requires
        x.len() == 4,
        w.len() == 2,
        0 <= kind <= 2,
        w[0] != i16::MIN,
        w[1] != i16::MIN,
        forall|k: int| 0 <= k < 4 ==> -0x4000 < #[trigger] x[k] < 0x4000,
    ensures
        ({
            let y = r2_kernel_i16(x, w, kind, inverse);
            let c = w[0] as int;
            let sn = if inverse { w[1] as int } else { -(w[1] as int) };
            let ur = x[0] - x[2];
            let ui = x[1] - x[3];
            &&& kind == 2 ==> y[0] == x[0] + x[2] && y[1] == x[1] + x[3] && y[2] == ur && y[3] == ui
            &&& kind == 1 ==> {
                &&& y[0] * 2 <= x[0] + x[2] < y[0] * 2 + 2
                &&& y[1] * 2 <= x[1] + x[3] < y[1] * 2 + 2
                &&& y[2] * 0x1_0000 - 0x2_0000 < cmul_re(ur, ui, c, sn) < y[2] * 0x1_0000 + 0x2_0000
                &&& y[3] * 0x1_0000 - 0x2_0000 < cmul_im(ur, ui, c, sn) < y[3] * 0x1_0000 + 0x2_0000
            }
            &&& kind == 0 ==> {
                &&& y[0] * 4 <= x[0] + x[2] < y[0] * 4 + 8
                &&& y[1] * 4 <= x[1] + x[3] < y[1] * 4 + 8
                &&& y[2] * 0x2_0000 - 0x8_0000 < cmul_re(ur, ui, c, sn) < y[2] * 0x2_0000 + 0x8_0000
                &&& y[3] * 0x2_0000 - 0x8_0000 < cmul_im(ur, ui, c, sn) < y[3] * 0x2_0000 + 0x8_0000
            }
        }),
{
    reveal(r2_kernel_i16);
    lemma_shr_floor();
    assert(-0x4000 < x[0] < 0x4000 && -0x4000 < x[1] < 0x4000);
    assert(-0x4000 < x[2] < 0x4000 && -0x4000 < x[3] < 0x4000);
    let tr = if kind == 0 { (x[0] as i32) >> 1i32 } else { x[0] as i32 };
    let ti = if kind == 0 { (x[1] as i32) >> 1i32 } else { x[1] as i32 };
    let sr = if kind == 0 { (x[2] as i32) >> 1i32 } else { x[2] as i32 };
    let si = if kind == 0 { (x[3] as i32) >> 1i32 } else { x[3] as i32 };
    let xt = (tr - sr) as i16;
    let yt = (ti - si) as i16;
    assert(xt == tr - sr && yt == ti - si);
    if kind != 2 {
        lemma_r2_rotate_is_complex_product(xt, yt, w[0], w[1], inverse);
        let c = w[0] as int;
        let sn = if inverse { w[1] as int } else { -(w[1] as int) };
        let ur = x[0] - x[2];
        let ui = x[1] - x[3];
        let ex = 2 * xt - ur;
        let ey = 2 * yt - ui;
        if kind == 0 {
            assert(-2 < ex < 2 && -2 < ey < 2);
            assert(-0x8000 <= c <= 0x7fff && -0x8000 <= sn <= 0x8000);
            assert(2 * cmul_re(xt as int, yt as int, c, sn) - cmul_re(ur, ui, c, sn) == c * ex - sn
                * ey) by (nonlinear_arith)
                requires
                    ex == 2 * xt - ur,
                    ey == 2 * yt - ui,
            ;
            assert(2 * cmul_im(xt as int, yt as int, c, sn) - cmul_im(ur, ui, c, sn) == sn * ex + c
                * ey) by (nonlinear_arith)
                requires
                    ex == 2 * xt - ur,
                    ey == 2 * yt - ui,
            ;
            assert(-0x1_0000 <= c * ex <= 0x1_0000) by (nonlinear_arith)
                requires
                    -2 < ex < 2,
                    -0x8000 <= c <= 0x8000,
            ;
            assert(-0x1_0000 <= sn * ey <= 0x1_0000) by (nonlinear_arith)
                requires
                    -2 < ey < 2,
                    -0x8000 <= sn <= 0x8000,
            ;
            assert(-0x1_0000 <= sn * ex <= 0x1_0000) by (nonlinear_arith)
                requires
                    -2 < ex < 2,
                    -0x8000 <= sn <= 0x8000,
            ;
            assert(-0x1_0000 <= c * ey <= 0x1_0000) by (nonlinear_arith)
                requires
                    -2 < ey < 2,
                    -0x8000 <= c <= 0x8000,
            ;
        }
    }
}

/// Group function of one radix-2 stage whose twiddle stride is `tm`.
pub open spec fn r2_group_i16(tw: Seq<u16>, tm: int, kind: int, inverse: bool) -> spec_fn(
    Seq<i16>,
    int,
) -> Seq<i16> {
    |x: Seq<i16>, j: int|
        r2_kernel_i16(x, seq![tw[2 * (j * tm)] as i16, tw[2 * (j * tm) + 1] as i16], kind, inverse)
}

fn mul_hi16_exec(a: i16, b: i16) -> (r: i16)
    ensures
        r == mul_hi16(a, b),
{
    assert(-0x4000_0000 <= (a as i32) * (b as i32) <= 0x4000_0000) by (nonlinear_arith);
    #[verifier::truncate]
    ((((a as i32) * (b as i32)) >> 16) as i16)
}

pub(crate) fn r2_rotate_exec(xt: i16, yt: i16, c: i16, s: i16, inverse: bool) -> (r: (i16, i16))
    ensures
        r == r2_rotate(xt, yt, c, s, inverse),
{
    let mul1 = mul_hi16_exec(xt, c);
    let mul2 = mul_hi16_exec(yt, s);
    let mul3 = mul_hi16_exec(yt, c);
    let mul4 = mul_hi16_exec(xt, s);
    if !inverse {
        (mul1.wrapping_add(mul2), mul3.wrapping_sub(mul4))
    } else {
        (mul1.wrapping_sub(mul2), mul3.wrapping_add(mul4))
    }
}

pub(crate) fn r2_kernel_i16_exec(x: [i16; 4], w: [i16; 2], kind: u8, inverse: bool) -> (o: [i16; 4])
    ensures
        o@ == r2_kernel_i16(x@, w@, kind as int, inverse),
{
    reveal(r2_kernel_i16);
    proof {
        lemma_shr_i16_range(x[0] as i32);
        lemma_shr_i16_range(x[1] as i32);
        lemma_shr_i16_range(x[2] as i32);
        lemma_shr_i16_range(x[3] as i32);
    }
    let tr = if kind == 0 { (x[0] as i32) >> 1 } else { x[0] as i32 };
    let ti = if kind == 0 { (x[1] as i32) >> 1 } else { x[1] as i32 };
    let sr = if kind == 0 { (x[2] as i32) >> 1 } else { x[2] as i32 };
    let si = if kind == 0 { (x[3] as i32) >> 1 } else { x[3] as i32 };
    let xt = #[verifier::truncate] ((tr - sr) as i16);
    let yt = #[verifier::truncate] ((ti - si) as i16);
    let o = if kind == 2 {
        [#[verifier::truncate] ((tr + sr) as i16), #[verifier::truncate] ((ti + si) as i16), xt, yt]
    } else {
        let rot = r2_rotate_exec(xt, yt, w[0], w[1], inverse);
        [((tr + sr) >> 1) as i16, ((ti + si) >> 1) as i16, rot.0, rot.1]
    };
    assert(o@ =~= r2_kernel_i16(x@, w@, kind as int, inverse));
    o
}

/// One radix-2 stage of span `n1` over the first `n` complex samples.
pub(crate) fn r2_stage_i16(
    data: &mut [i16],
    n: usize,
    n1: usize,
    tw: &[u16],
    tm: usize,
    kind: u8,
    inverse: bool,
)
    requires
        stage_shape(n as int, n1 as int, 2),
        2 * n <= old(data).len(),
        kind <= 2,
        kind != 2 ==> 2 * ((n1 / 2 - 1) * tm) + 1 < tw.len(),
    ensures
        final(data)@ == stage(
            old(data)@,
            n as int,
            n1 as int,
            2,
            r2_group_i16(tw@, tm as int, kind as int, inverse),
        ),
{
    let n2 = n1 / 2;
    let ghost s = data@;
    let ghost f = r2_group_i16(tw@, tm as int, kind as int, inverse);
    let ghost b = n as int / n1 as int;
    proof {
        lemma_shape_facts(n as int, n1 as int, 2);
        lemma_stage_start(s, n as int, n1 as int, 2, f);
        assert(0 * b == 0);
    }
    let mut j: usize = 0;
    while j < n2
        invariant
            stage_shape(n as int, n1 as int, 2),
            n1 == 2 * n2,
            n2 > 0,
            n == n1 * b,
            b > 0,
            b == n as int / n1 as int,
            2 * n <= s.len(),
            2 * n <= usize::MAX,
            s.len() == data@.len(),
            f == r2_group_i16(tw@, tm as int, kind as int, inverse),
            kind <= 2,
            kind != 2 ==> 2 * ((n1 / 2 - 1) * tm) + 1 < tw.len(),
            0 <= j <= n2,
            data@ == stage_partial(s, n as int, n1 as int, 2, f, j * b),
        decreases n2 - j,
    {
        let mut w: [i16; 2] = [0; 2];
        if kind != 2 {
            proof {
                assert(j * tm <= (n2 - 1) * tm) by (nonlinear_arith)
                    requires
                        j <= n2 - 1,
                ;
            }
            let ia = j * tm;
            w = [
                #[verifier::truncate] (tw[2 * ia] as i16),
                #[verifier::truncate] (tw[2 * ia + 1] as i16),
            ];
        }
        let mut i0 = j;
        let mut t: usize = 0;
        while i0 < n
            invariant
                stage_shape(n as int, n1 as int, 2),
                n1 == 2 * n2,
                n2 > 0,
                n == n1 * b,
                b > 0,
                b == n as int / n1 as int,
                2 * n <= s.len(),
                2 * n <= usize::MAX,
                s.len() == data@.len(),
                f == r2_group_i16(tw@, tm as int, kind as int, inverse),
                kind <= 2,
                0 <= j < n2,
                kind != 2 ==> w@ == seq![tw@[2 * (j * tm)] as i16, tw@[2 * (j * tm) + 1] as i16],
                i0 == t * n1 + j,
                t <= b,
                data@ == stage_partial(s, n as int, n1 as int, 2, f, j * b + t),
            decreases b - t,
        {
            proof {
                lemma_group_walk(n as int, n1 as int, n2 as int, 2, b, t as int, j as int);
            }
            let x = load_group2(data, i0, n2);
            let y = r2_kernel_i16_exec(x, w, kind, inverse);
            proof {
                lemma_stage_step(s, n as int, n1 as int, 2, f, j as int, t as int);
                if kind == 2 {
                    reveal(r2_kernel_i16);
                } else {
                    assert(w@ =~= seq![tw@[2 * (j * tm)] as i16, tw@[2 * (j * tm) + 1] as i16]);
                }
                assert(y@ == f(gather(s, t * n1 + j, n2 as int, 2), j as int));
            }
            store_group2(data, i0, n2, y);
            i0 = i0 + n1;
            t = t + 1;
        }
        proof {
            lemma_group_walk(n as int, n1 as int, n2 as int, 2, b, t as int, j as int);
            assert(j * b + t == (j + 1) * b) by (nonlinear_arith)
                requires
                    t == b,
            ;
        }
        j = j + 1;
    }
    proof {
        lemma_stage_end(s, n as int, n1 as int, 2, f, n2 * b);
    }
}

/// `n` is a power of two.
pub open spec fn is_pow2(n: int) -> bool
    decreases n,
{
    if n <= 0 {
        false
    } else if n == 1 {
        true
    } else {
        n % 2 == 0 && is_pow2(n / 2)
    }
}

pub proof fn lemma_pow2_step(x: int)
    requires
        is_pow2(x),
        x > 1,
    ensures
        x % 2 == 0,
        is_pow2(x / 2),
        x >= 2,
        x > 2 ==> x >= 4 && x % 4 == 0 && x / 2 >= 2,
    decreases x,
{
    if x > 2 {
        lemma_pow2_step(x / 2);
    }
}

/// The middle stages of the radix-2 network, from span `n1` down to span 4.
pub open spec fn r2_mid_stages_i16(
    s: Seq<i16>,
    n: int,
    n1: int,
    tw: Seq<u16>,
    tm: int,
    inverse: bool,
) -> Seq<i16>
    decreases n1,
{
    if n1 > 2 {
        r2_mid_stages_i16(
            stage(s, n, n1, 2, r2_group_i16(tw, tm, 1, inverse)),
            n,
            n1 / 2,
            tw,
            (tm * 2) % 65536,
            inverse,
        )
    } else {
        s
    }
}

/// The whole Q15 radix-2 butterfly network over `n` complex samples, `tm` being
/// the stride through the twiddle table of the first stage; the output is left in
/// bit-reversed order.
pub open spec fn radix2_i16(s: Seq<i16>, n: int, tw: Seq<u16>, tm: int, inverse: bool) -> Seq<
    i16,
> {
    let first = stage(s, n, n, 2, r2_group_i16(tw, tm, 0, inverse));
    let mid = r2_mid_stages_i16(first, n, n / 2, tw, (tm * 2) % 65536, inverse);
    stage(mid, n, 2, 2, r2_group_i16(tw, 0, 2, inverse))
}

/// What a radix-2 network over `n` complex samples needs of its arguments.
pub open spec fn radix2_args_ok(data_len: int, n: int, tw_len: int, tm: int) -> bool {
    &&& is_pow2(n)
    &&& n >= 4
    &&& 2 * n <= data_len
    &&& 2 * ((n / 2 - 1) * tm) + 1 < tw_len
}

proof fn lemma_shl1_u16(x: u16)
    ensures
        (x << 1u16) as int == (x as int * 2) % 65536,
{
    assert((x << 1u16) as int == (x as int * 2) % 65536) by (bit_vector);
}

fn radix2_i16_run(data: &mut [i16], n: usize, tw: &[u16], tm0: u16, inverse: bool)
    requires
        radix2_args_ok(old(data).len() as int, n as int, tw.len() as int, tm0 as int),
    ensures
        final(data)@ == radix2_i16(old(data)@, n as int, tw@, tm0 as int, inverse),
        final(data)@.len() == old(data)@.len(),
{
    let ghost len0 = data@.len();
    let ghost bound = (n / 2 - 1) * tm0;
    proof {
        lemma_pow2_step(n as int);
        lemma_pow2_step(n as int / 2);
        assert(n % n == 0);
    }
    r2_stage_i16(data, n, n, tw, tm0 as usize, 0, inverse);
    let ghost first = data@;
    let mut n2 = n >> 1;
    let mut k = n >> 1;
    let mut tm: u16 = tm0 << 1;
    proof {
        lemma_shl1_u16(tm0);
        assert(n >> 1 == n / 2) by (bit_vector);
        assert(n % n2 == 0) by {
            vstd::arithmetic::div_mod::lemma_fundamental_div_mod(n as int, 2);
            vstd::arithmetic::div_mod::lemma_mod_multiples_basic(2, n2 as int);
        }
        assert((n2 / 2 - 1) * tm <= bound) by (nonlinear_arith)
            requires
                tm <= 2 * tm0,
                n2 == n / 2,
                n2 >= 2,
                n2 % 2 == 0,
                bound == (n / 2 - 1) * tm0,
        ;
    }
    while k > 2
        invariant
            radix2_args_ok(data@.len() as int, n as int, tw.len() as int, tm0 as int),
            data@.len() == len0,
            bound == (n / 2 - 1) * tm0,
            k == n2,
            is_pow2(n2 as int),
            n2 >= 2,
            n2 <= n / 2,
            n % n2 == 0,
            (n2 / 2 - 1) * tm <= bound,
            r2_mid_stages_i16(data@, n as int, n2 as int, tw@, tm as int, inverse)
                == r2_mid_stages_i16(first, n as int, n as int / 2, tw@, (tm0 * 2) % 65536, inverse),
        decreases k,
    {
        proof {
            lemma_pow2_step(n2 as int);
            lemma_pow2_step(n2 as int / 2);
        }
        let n1 = n2;
        let ghost k_old = k;
        n2 = n2 >> 1;
        r2_stage_i16(data, n, n1, tw, tm as usize, 1, inverse);
        let ghost tm_old = tm;
        tm = tm << 1;
        k = k >> 1;
        proof {
            lemma_shl1_u16(tm_old);
            assert(n1 >> 1 == n1 / 2) by (bit_vector);
            assert(k_old >> 1 == k_old / 2) by (bit_vector);
            assert(n % n2 == 0) by {
                vstd::arithmetic::div_mod::lemma_fundamental_div_mod(n as int, n1 as int);
                vstd::arithmetic::div_mod::lemma_fundamental_div_mod(n1 as int, 2);
                assert(n == (n / n1 * 2) * n2) by (nonlinear_arith)
                    requires
                        n == n1 * (n / n1),
                        n1 == 2 * n2,
                ;
                vstd::arithmetic::div_mod::lemma_mod_multiples_basic(n / n1 * 2, n2 as int);
            }
            assert((n2 / 2 - 1) * tm <= bound) by (nonlinear_arith)
                requires
                    tm <= 2 * tm_old,
                    n1 == 2 * n2,
                    (n1 / 2 - 1) * tm_old <= bound,
                    n2 >= 2,
                    n2 % 2 == 0,
            ;
        }
    }
    proof {
        lemma_pow2_step(n as int);
    }
    r2_stage_i16(data, n, 2, tw, 0, 2, inverse);
}

/// Radix-2 decimation-in-frequency butterflies of the forward Q15 transform
/// over `n_fft` interleaved complex samples, in place; the output is in
/// bit-reversed order.  `twiddle_modifier` is the stride of the first stage
/// through `twiddles`, each later stage using twice the previous one.
///
/// `n_fft` is a power of two, at least 4: for 2 the last stage would pair every
/// sample with itself and leave zeros, for 1 it would not terminate, and other
/// lengths make no radix-2 network.
pub fn radix2_butterfly_i16(
    data: &mut [i16],
    n_fft: usize,
    twiddles: &[u16],
    twiddle_modifier: u16,
)
    requires
        radix2_args_ok(
            old(data).len() as int,
            n_fft as int,
            twiddles.len() as int,
            twiddle_modifier as int,
        ),
    ensures
        final(data)@ == radix2_i16(
            old(data)@,
            n_fft as int,
            twiddles@,
            twiddle_modifier as int,
            false,
        ),
{
    radix2_i16_run(data, n_fft, twiddles, twiddle_modifier, false)
}

/// Radix-2 butterflies of the inverse Q15 transform (conjugate twiddles).
///
/// `n_fft` is a power of two, at least 4 (see `radix2_butterfly_i16`).
pub fn radix2_butterfly_inverse_i16(
    data: &mut [i16],
    n_fft: usize,
    twiddles: &[u16],
    twiddle_modifier: u16,
)
    requires
        radix2_args_ok(
            old(data).len() as int,
            n_fft as int,
            twiddles.len() as int,
            twiddle_modifier as int,
        ),
    ensures
        final(data)@ == radix2_i16(
            old(data)@,
            n_fft as int,
            twiddles@,
            twiddle_modifier as int,
            true,
        ),
{
    radix2_i16_run(data, n_fft, twiddles, twiddle_modifier, true)
}

} // verus!
