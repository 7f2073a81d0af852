//! Complex FFT entry points with the dispatch of CMSIS `arm_cfft_q15` / `arm_cfft_q31`.
use crate::qmath::{
    cmul_im, cmul_re, lemma_mul_hi32_round_near, lemma_shr_floor, mul_hi32_round, mul_hi32_round_exec,
    wadd32, wsub32,
};
use crate::transform::bitreversal::{
    bit_reversed, bitreversal_i16, bitreversal_i32, fft_len_ok, log2,
};
use crate::transform::radix2::{is_pow2, r2_group_i16, r2_stage_i16};
use crate::transform::radix4::{
    is_pow4, radix4_args_ok, radix4_i16, radix4_i16_run, radix4_i32, radix4_i32_run,
};
use crate::transform::stage::{
    gather, lemma_shape_facts, lemma_stage_end, lemma_stage_start, lemma_stage_step, load_group2,
    stage, stage_partial, stage_shape, store_group2,
};
use vstd::prelude::*;

verus! {

/// The transform sizes, one by one.
pub proof fn lemma_fft_sizes(n: int)
    requires
        is_pow2(n),
        n <= 4096,
    ensures
        n == 1 || n == 2 || n == 4 || n == 8 || n == 16 || n == 32 || n == 64 || n == 128 || n
            == 256 || n == 512 || n == 1024 || n == 2048 || n == 4096,
    decreases n,
{
    if n > 1 {
        lemma_fft_sizes(n / 2);
    }
}

/// The sizes run as one radix-2 pass followed by two radix-4 transforms of half size.
pub open spec fn uses_radix4by2(n: int) -> bool {
    n == 32 || n == 128 || n == 512 || n == 2048
}

proof fn lemma_radix4_sizes(n: int)
    requires
        fft_len_ok(n),
    ensures
        uses_radix4by2(n) ==> is_pow4(n / 2) && n / 2 >= 16,
        !uses_radix4by2(n) ==> is_pow4(n),
{
    lemma_fft_sizes(n);
    reveal_with_fuel(is_pow4, 8);
}

/// Every sample doubled, wrapping on overflow (only whole groups of four samples).
pub open spec fn upshift_quads_i16(s: Seq<i16>) -> Seq<i16> {
    Seq::new(
        s.len(),
        |i: int|
            if i < s.len() - s.len() % 4 {
                vstd::wrapping::i16_specs::wrapping_shl(s[i], 1)
            } else {
                s[i]
            },
    )
}

/// Radix-4-by-2 network: a radix-2 pass over `n` samples, then a radix-4 network
/// (twiddle stride `modifier`) over each half, then every sample doubled.
pub open spec fn radix4by2_i16(s: Seq<i16>, n: int, tw: Seq<u16>, modifier: int, inverse: bool) -> Seq<
    i16,
> {
    let a = stage(s, n, n, 2, r2_group_i16(tw, 1, 0, inverse));
    let lo = radix4_i16(a.subrange(0, n), n / 2, tw, modifier, inverse);
    let hi = radix4_i16(a.subrange(n, 2 * n), n / 2, tw, modifier, inverse);
    upshift_quads_i16(lo + hi)
}

/// The Q15 complex FFT (or inverse FFT) of `n` samples, optionally bit-reversed
/// back into natural order.
pub open spec fn cfft_i16(s: Seq<i16>, n: int, tw: Seq<u16>, ifft: bool, bitrev: bool) -> Seq<i16> {
    let core = if uses_radix4by2(n) {
        radix4by2_i16(s, n, tw, 2, ifft)
    } else {
        radix4_i16(s, n, tw, 1, ifft)
    };
    if bitrev {
        bit_reversed(core, n, log2(n))
    } else {
        core
    }
}

fn upshift_quads_i16_exec(data: &mut [i16])
    ensures
        final(data)@ == upshift_quads_i16(old(data)@),
        final(data)@.len() == old(data)@.len(),
{
    let ghost s = data@;
    let len = data.len();
    let mut q: usize = 0;
    while len - q >= 4
        invariant
            len == s.len(),
            data@.len() == len,
            q % 4 == 0,
            q <= len,
            forall|i: int|
                0 <= i < len ==> #[trigger] data@[i] == (if i < q {
                    vstd::wrapping::i16_specs::wrapping_shl(s[i], 1)
                } else {
                    s[i]
                }),
        decreases len - q,
    {
        data[q] = data[q].wrapping_shl(1);
        data[q + 1] = data[q + 1].wrapping_shl(1);
        data[q + 2] = data[q + 2].wrapping_shl(1);
        data[q + 3] = data[q + 3].wrapping_shl(1);
        q = q + 4;
    }
    assert(data@ =~= upshift_quads_i16(s));
}

/// Configuration of a Q15 complex FFT: size, direction, output ordering and the
/// `3 * n_fft / 2`-entry twiddle table of that size.
pub struct CfftI16<'a> {
    pub n_fft: usize,
    pub ifft_flag: bool,
    pub bit_reverse_flag: bool,
    pub twiddle: &'a [u16],
}

impl<'a> CfftI16<'a> {
    /// The configuration can run: a supported size and a large enough table.
    pub open spec fn well_formed(&self) -> bool {
        fft_len_ok(self.n_fft as int) && self.twiddle.len() >= 3 * self.n_fft / 2
    }

    pub fn new(n_fft: usize, ifft_flag: bool, bit_reverse_flag: bool, twiddle: &'a [u16]) -> (r:
        Self)
        requires
            fft_len_ok(n_fft as int),
            twiddle.len() >= 3 * n_fft / 2,
        ensures
            r.n_fft == n_fft,
            r.ifft_flag == ifft_flag,
            r.bit_reverse_flag == bit_reverse_flag,
            r.twiddle@ == twiddle@,
            r.well_formed(),
    {
        CfftI16 { n_fft, ifft_flag, bit_reverse_flag, twiddle }
    }

    fn radix4by2_butterfly_i16(
        data: &mut [i16],
        n_fft: usize,
        twiddle: &[u16],
        modifier: u16,
        inverse: bool,
    )
        requires
            old(data).len() == 2 * n_fft,
            fft_len_ok(n_fft as int),
            uses_radix4by2(n_fft as int),
            twiddle.len() >= 3 * n_fft / 2,
            modifier == 2,
        ensures
            final(data)@ == radix4by2_i16(
                old(data)@,
                n_fft as int,
                twiddle@,
                modifier as int,
                inverse,
            ),
            final(data)@.len() == old(data)@.len(),
    {
        proof {
            lemma_radix4_sizes(n_fft as int);
            assert(stage_shape(n_fft as int, n_fft as int, 2));
        }
        r2_stage_i16(data, n_fft, n_fft, twiddle, 1, 0, inverse);
        let ghost a = data@;
        {
            let (lo, hi) = data.split_at_mut(n_fft);
            radix4_i16_run(lo, n_fft / 2, twiddle, modifier, inverse);
            radix4_i16_run(hi, n_fft / 2, twiddle, modifier, inverse);
        }
        upshift_quads_i16_exec(data);
    }

    /// Runs the configured Q15 CFFT / CIFFT in place on `2 * n_fft` interleaved values.
    pub fn run(&self, data: &mut [i16])
        requires
            self.well_formed(),
            old(data).len() == 2 * self.n_fft,
        ensures
            final(data)@ == cfft_i16(
                old(data)@,
                self.n_fft as int,
                self.twiddle@,
                self.ifft_flag,
                self.bit_reverse_flag,
            ),
            final(data)@.len() == old(data)@.len(),
    {
        let n = self.n_fft;
        let use_radix4by2 = n == 32 || n == 128 || n == 512 || n == 2048;
        proof {
            lemma_radix4_sizes(n as int);
        }
        if use_radix4by2 {
            Self::radix4by2_butterfly_i16(data, n, self.twiddle, 2, self.ifft_flag);
        } else {
            radix4_i16_run(data, n, self.twiddle, 1, self.ifft_flag);
        }
        if self.bit_reverse_flag {
            bitreversal_i16(data, n);
        }
    }
}

/// The Q31 radix-2 butterfly of the radix-4-by-2 pass on `[re_a, im_a, re_b, im_b]`,
/// inputs scaled by 1/4, `w = [cos, sin]`.
#[verifier::opaque]
pub open spec fn r4by2_kernel_i32(x: Seq<i32>, w: Seq<i32>, inverse: bool) -> Seq<i32> {
    let a = (x[0] >> 2i32) as int;
    let b = (x[2] >> 2i32) as int;
    let c = (x[1] >> 2i32) as int;
    let d = (x[3] >> 2i32) as int;
    let xt = (a - b) as i32;
    let yt = (c - d) as i32;
    let re = if !inverse {
        wadd32(mul_hi32_round(xt, w[0]), mul_hi32_round(yt, w[1]))
    } else {
        wsub32(mul_hi32_round(xt, w[0]), mul_hi32_round(yt, w[1]))
    };
    let im = if !inverse {
        wsub32(mul_hi32_round(yt, w[0]), mul_hi32_round(xt, w[1]))
    } else {
        wadd32(mul_hi32_round(yt, w[0]), mul_hi32_round(xt, w[1]))
    };
    seq![
        (a + b) as i32,
        (d + c) as i32,
        vstd::wrapping::i32_specs::wrapping_shl(re, 1),
        vstd::wrapping::i32_specs::wrapping_shl(im, 1),
    ]
}

/// The radix-2 pass of the Q31 radix-4-by-2 transform is a DFT butterfly on two
/// complex samples `A = (x0, x1)` and `B = (x2, x3)`: the first output is
/// `(A + B) / 4` (rounded down, within two units) and the second is
/// `(A - B) * (cos - i sin) / 4` forward, `(A - B) * (cos + i sin) / 4` inverse,
/// with the twiddle in Q31, within four units.
pub proof fn lemma_r4by2_kernel_i32_butterfly(x: Seq<i32>, w: Seq<i32>, inverse: bool)
    requires
        x.len() == 4,
        w.len() == 2,
        w[0] != i32::MIN,
        w[1] != i32::MIN,
    ensures
        ({
            let y = r4by2_kernel_i32(x, w, inverse);
            let c = w[0] as int;
            let sn = if inverse { w[1] as int } else { -(w[1] as int) };
            let ur = x[0] - x[2];
            let ui = x[1] - x[3];
            &&& y[0] * 4 <= x[0] + x[2] < y[0] * 4 + 8
            &&& y[1] * 4 <= x[1] + x[3] < y[1] * 4 + 8
            &&& y[2] * 0x2_0000_0000 - 0x8_0000_0000 < cmul_re(ur, ui, c, sn) < y[2] * 0x2_0000_0000
                + 0x8_0000_0000
            &&& y[3] * 0x2_0000_0000 - 0x8_0000_0000 < cmul_im(ur, ui, c, sn) < y[3] * 0x2_0000_0000
                + 0x8_0000_0000
        }),
{
    reveal(r4by2_kernel_i32);
    lemma_shr_floor();
    let y = r4by2_kernel_i32(x, w, inverse);
    let c = w[0] as int;
    let s = w[1] as int;
    let sn = if inverse { s } else { -s };
    let ur = x[0] - x[2];
    let ui = x[1] - x[3];
    let a = (x[0] >> 2i32) as int;
    let b = (x[2] >> 2i32) as int;
    let cc = (x[1] >> 2i32) as int;
    let d = (x[3] >> 2i32) as int;
    let xt = (a - b) as i32;
    let yt = (cc - d) as i32;
    assert(xt == a - b && yt == cc - d);
    lemma_mul_hi32_round_near(xt, w[0]);
    lemma_mul_hi32_round_near(yt, w[1]);
    lemma_mul_hi32_round_near(yt, w[0]);
    lemma_mul_hi32_round_near(xt, w[1]);
    let m1 = mul_hi32_round(xt, w[0]) as int;
    let m2 = mul_hi32_round(yt, w[1]) as int;
    let m3 = mul_hi32_round(yt, w[0]) as int;
    let m4 = mul_hi32_round(xt, w[1]) as int;
    let re = if !inverse { m1 + m2 } else { m1 - m2 };
    let im = if !inverse { m3 - m4 } else { m3 + m4 };
    assert(y[2] == 2 * re && y[3] == 2 * im);
    let ex = 4 * xt - ur;
    let ey = 4 * yt - ui;
    assert(-4 < ex < 4 && -4 < ey < 4);
    assert(-0x7fff_ffff <= c <= 0x7fff_ffff && -0x7fff_ffff <= s <= 0x7fff_ffff);
    assert(-0x2_0000_0000 < c * ex < 0x2_0000_0000) by (nonlinear_arith)
        requires
            -4 < ex < 4,
            -0x7fff_ffff <= c <= 0x7fff_ffff,
    ;
    assert(-0x2_0000_0000 < s * ey < 0x2_0000_0000) by (nonlinear_arith)
        requires
            -4 < ey < 4,
            -0x7fff_ffff <= s <= 0x7fff_ffff,
    ;
    assert(-0x2_0000_0000 < s * ex < 0x2_0000_0000) by (nonlinear_arith)
        requires
            -4 < ex < 4,
            -0x7fff_ffff <= s <= 0x7fff_ffff,
    ;
    assert(-0x2_0000_0000 < c * ey < 0x2_0000_0000) by (nonlinear_arith)
        requires
            -4 < ey < 4,
            -0x7fff_ffff <= c <= 0x7fff_ffff,
    ;
    assert(4 * (xt * c) == ur * c + c * ex) by (nonlinear_arith)
        requires
            ex == 4 * xt - ur,
    ;
    assert(4 * (yt * s) == ui * s + s * ey) by (nonlinear_arith)
        requires
            ey == 4 * yt - ui,
    ;
    assert(4 * (yt * c) == ui * c + c * ey) by (nonlinear_arith)
        requires
            ey == 4 * yt - ui,
    ;
    assert(4 * (xt * s) == ur * s + s * ex) by (nonlinear_arith)
        requires
            ex == 4 * xt - ur,
    ;
    assert(cmul_re(ur, ui, c, sn) == ur * c - ui * sn);
    assert(cmul_im(ur, ui, c, sn) == ur * sn + ui * c);
    if inverse {
        assert(cmul_re(ur, ui, c, sn) == ur * c - ui * s);
        assert(cmul_im(ur, ui, c, sn) == ur * s + ui * c);
    } else {
        assert(ui * sn == -(ui * s)) by (nonlinear_arith)
            requires
                sn == -s,
        ;
        assert(ur * sn == -(ur * s)) by (nonlinear_arith)
            requires
                sn == -s,
        ;
    }
}

/// Group function of the Q31 radix-2 pass: twiddle `j` of the table.
pub open spec fn r4by2_group_i32(tw: Seq<u32>, inverse: bool) -> spec_fn(Seq<i32>, int) -> Seq<
    i32,
> {
    |x: Seq<i32>, j: int| r4by2_kernel_i32(x, seq![tw[2 * j] as i32, tw[2 * j + 1] as i32], inverse)
}

proof fn lemma_shr2_i32(v: i32)
    ensures
        -0x2000_0000 <= v >> 2 <= 0x1fff_ffff,
{
    assert(-0x2000_0000 <= v >> 2 <= 0x1fff_ffff) by (bit_vector);
}

fn r4by2_kernel_i32_exec(x: [i32; 4], w: [i32; 2], inverse: bool) -> (o: [i32; 4])
    ensures
        o@ == r4by2_kernel_i32(x@, w@, inverse),
{
    reveal(r4by2_kernel_i32);
    proof {
        lemma_shr2_i32(x[0]);
        lemma_shr2_i32(x[1]);
        lemma_shr2_i32(x[2]);
        lemma_shr2_i32(x[3]);
    }
    let xt = (x[0] >> 2) - (x[2] >> 2);
    let o0 = (x[0] >> 2) + (x[2] >> 2);
    let yt = (x[1] >> 2) - (x[3] >> 2);
    let o1 = (x[3] >> 2) + (x[1] >> 2);
    let mut out_re = mul_hi32_round_exec(xt, w[0]);
    let mut out_im = mul_hi32_round_exec(yt, w[0]);
    if !inverse {
        out_re = out_re.wrapping_add(mul_hi32_round_exec(yt, w[1]));
        out_im = out_im.wrapping_sub(mul_hi32_round_exec(xt, w[1]));
    } else {
        out_re = out_re.wrapping_sub(mul_hi32_round_exec(yt, w[1]));
        out_im = out_im.wrapping_add(mul_hi32_round_exec(xt, w[1]));
    }
    let o = [o0, o1, out_re.wrapping_shl(1), out_im.wrapping_shl(1)];
    assert(o@ =~= r4by2_kernel_i32(x@, w@, inverse));
    o
}

/// The Q31 radix-2 pass of span `n` that opens the radix-4-by-2 network.
fn r4by2_pass_i32(data: &mut [i32], n: usize, tw: &[u32], inverse: bool)
    requires
        stage_shape(n as int, n as int, 2),
        2 * n <= old(data).len(),
        n <= tw.len(),
    ensures
        final(data)@ == stage(old(data)@, n as int, n as int, 2, r4by2_group_i32(tw@, inverse)),
        final(data)@.len() == old(data)@.len(),
{
    let n2 = n / 2;
    let ghost s = data@;
    let ghost f = r4by2_group_i32(tw@, inverse);
    proof {
        lemma_shape_facts(n as int, n as int, 2);
        lemma_stage_start(s, n as int, n as int, 2, f);
        vstd::arithmetic::div_mod::lemma_div_by_self(n as int);
    }
    let mut j: usize = 0;
    while j < n2
        invariant
            stage_shape(n as int, n as int, 2),
            n == 2 * n2,
            n as int / n as int == 1,
            n <= tw.len(),
            2 * n <= s.len(),
            s.len() == data@.len(),
            f == r4by2_group_i32(tw@, inverse),
            0 <= j <= n2,
            data@ == stage_partial(s, n as int, n as int, 2, f, j as int),
        decreases n2 - j,
    {
        let w = [tw[2 * j] as i32, tw[2 * j + 1] as i32];
        let x = load_group2(data, j, n2);
        let y = r4by2_kernel_i32_exec(x, w, inverse);
        proof {
            lemma_stage_step(s, n as int, n as int, 2, f, j as int, 0);
            assert(w@ =~= seq![tw@[2 * j] as i32, tw@[2 * j + 1] as i32]);
            assert(y@ == f(gather(s, 0 * n + j, n2 as int, 2), j as int));
        }
        store_group2(data, j, n2, y);
        j = j + 1;
    }
    proof {
        lemma_stage_end(s, n as int, n as int, 2, f, n2 as int);
    }
}

/// Every sample doubled, wrapping on overflow (only whole groups of four samples).
pub open spec fn upshift_quads_i32(s: Seq<i32>) -> Seq<i32> {
    Seq::new(
        s.len(),
        |i: int|
            if i < s.len() - s.len() % 4 {
                vstd::wrapping::i32_specs::wrapping_shl(s[i], 1)
            } else {
                s[i]
            },
    )
}

fn upshift_quads_i32_exec(data: &mut [i32])
    ensures
        final(data)@ == upshift_quads_i32(old(data)@),
        final(data)@.len() == old(data)@.len(),
{
    let ghost s = data@;
    let len = data.len();
    let mut q: usize = 0;
    while len - q >= 4
        invariant
            len == s.len(),
            data@.len() == len,
            q % 4 == 0,
            q <= len,
            forall|i: int|
                0 <= i < len ==> #[trigger] data@[i] == (if i < q {
                    vstd::wrapping::i32_specs::wrapping_shl(s[i], 1)
                } else {
                    s[i]
                }),
        decreases len - q,
    {
        data[q] = data[q].wrapping_shl(1);
        data[q + 1] = data[q + 1].wrapping_shl(1);
        data[q + 2] = data[q + 2].wrapping_shl(1);
        data[q + 3] = data[q + 3].wrapping_shl(1);
        q = q + 4;
    }
    assert(data@ =~= upshift_quads_i32(s));
}

/// Q31 radix-4-by-2 network.
pub open spec fn radix4by2_i32(s: Seq<i32>, n: int, tw: Seq<u32>, modifier: int, inverse: bool) -> Seq<
    i32,
> {
    let a = stage(s, n, n, 2, r4by2_group_i32(tw, inverse));
    let lo = radix4_i32(a.subrange(0, n), n / 2, tw, modifier, inverse);
    let hi = radix4_i32(a.subrange(n, 2 * n), n / 2, tw, modifier, inverse);
    upshift_quads_i32(lo + hi)
}

/// The Q31 complex FFT (or inverse FFT) of `n` samples, optionally bit-reversed
/// back into natural order.
pub open spec fn cfft_i32(s: Seq<i32>, n: int, tw: Seq<u32>, ifft: bool, bitrev: bool) -> Seq<i32> {
    let core = if uses_radix4by2(n) {
        radix4by2_i32(s, n, tw, 2, ifft)
    } else {
        radix4_i32(s, n, tw, 1, ifft)
    };
    if bitrev {
        bit_reversed(core, n, log2(n))
    } else {
        core
    }
}

/// Configuration of a Q31 complex FFT: size, direction, output ordering and the
/// `3 * n_fft / 2`-entry twiddle table of that size.
pub struct CfftI32<'a> {
    pub n_fft: usize,
    pub ifft_flag: bool,
    pub bit_reverse_flag: bool,
    pub twiddle: &'a [u32],
}

impl<'a> CfftI32<'a> {
    /// The configuration can run: a supported size and a large enough table.
    pub open spec fn well_formed(&self) -> bool {
        fft_len_ok(self.n_fft as int) && self.twiddle.len() >= 3 * self.n_fft / 2
    }

    pub fn new(n_fft: usize, ifft_flag: bool, bit_reverse_flag: bool, twiddle: &'a [u32]) -> (r:
        Self)
        requires
            fft_len_ok(n_fft as int),
            twiddle.len() >= 3 * n_fft / 2,
        ensures
            r.n_fft == n_fft,
            r.ifft_flag == ifft_flag,
            r.bit_reverse_flag == bit_reverse_flag,
            r.twiddle@ == twiddle@,
            r.well_formed(),
    {
        CfftI32 { n_fft, ifft_flag, bit_reverse_flag, twiddle }
    }

    fn radix4by2_butterfly_i32(
        data: &mut [i32],
        n_fft: usize,
        twiddle: &[u32],
        radix4_modifier: u16,
        inverse: bool,
    )
        requires
            old(data).len() == 2 * n_fft,
            fft_len_ok(n_fft as int),
            uses_radix4by2(n_fft as int),
            twiddle.len() >= 3 * n_fft / 2,
            radix4_modifier == 2,
        ensures
            final(data)@ == radix4by2_i32(
                old(data)@,
                n_fft as int,
                twiddle@,
                radix4_modifier as int,
                inverse,
            ),
            final(data)@.len() == old(data)@.len(),
    {
        proof {
            lemma_radix4_sizes(n_fft as int);
            assert(stage_shape(n_fft as int, n_fft as int, 2));
        }
        r4by2_pass_i32(data, n_fft, twiddle, inverse);
        {
            let (lo, hi) = data.split_at_mut(n_fft);
            radix4_i32_run(lo, n_fft / 2, twiddle, radix4_modifier, inverse);
            radix4_i32_run(hi, n_fft / 2, twiddle, radix4_modifier, inverse);
        }
        upshift_quads_i32_exec(data);
    }

    /// Runs the configured Q31 CFFT / CIFFT in place on `2 * n_fft` interleaved values.
    pub fn run(&self, data: &mut [i32])
        requires
            self.well_formed(),
            old(data).len() == 2 * self.n_fft,
        ensures
            final(data)@ == cfft_i32(
                old(data)@,
                self.n_fft as int,
                self.twiddle@,
                self.ifft_flag,
                self.bit_reverse_flag,
            ),
            final(data)@.len() == old(data)@.len(),
    {
        let n = self.n_fft;
        let use_radix4by2 = n == 32 || n == 128 || n == 512 || n == 2048;
        proof {
            lemma_radix4_sizes(n as int);
        }
        if use_radix4by2 {
            Self::radix4by2_butterfly_i32(data, n, self.twiddle, 2, self.ifft_flag);
        } else {
            radix4_i32_run(data, n, self.twiddle, 1, self.ifft_flag);
        }
        if self.bit_reverse_flag {
            bitreversal_i32(data, n);
        }
    }
}

} // verus!
