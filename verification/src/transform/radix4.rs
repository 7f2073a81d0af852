//! Radix-4 decimation-in-frequency butterflies (CMSIS `arm_radix4_butterfly_*`).
use crate::qmath::{
    cmul_im, cmul_re, lemma_mac_hi16_floor, lemma_msc_hi16_floor, lemma_rot_q15, lemma_rot_q15_quarter,
    lemma_rot_q31_half, lemma_rot_q31_sixteenth, lemma_shr_floor,
    clamp16, lemma_mul_hi32_small, lemma_shr4_i32, lemma_shr_i16_range, mac_hi16, mac_hi16_exec,
    msc_hi16, msc_hi16_exec, mul_hi32, mul_hi32_exec, sat_i16, wadd32, wsub32,
};
use crate::transform::stage::{
    gather, lemma_group_walk, lemma_shape_facts, lemma_stage_end, lemma_stage_start, lemma_stage_step, load_group4, stage,
    stage_partial, stage_shape, store_group4,
};
use vstd::prelude::*;

verus! {

/// `v >> 1` for a Q15 sample.
pub open spec fn half16(v: i16) -> int {
    ((v as i32) >> 1i32) as int
}

/// `v >> 2` for a Q15 sample.
pub open spec fn quarter16(v: i16) -> int {
    ((v as i32) >> 2i32) as int
}

/// First radix-4 stage of the Q15 transform: inputs scaled by 1/4 with saturation.
/// `x` holds the four legs `[re0, im0, .., re3, im3]`, `w` the twiddles
/// `[cos1, sin1, cos2, sin2, cos3, sin3]`.
pub open spec fn r4_first_i16(x: Seq<i16>, w: Seq<i16>, inverse: bool) -> Seq<i16> {
    let t0 = quarter16(x[0]);
    let t1 = quarter16(x[1]);
    let a0 = quarter16(x[4]);
    let a1 = quarter16(x[5]);
    let r0 = clamp16(t0 + a0);
    let r1 = clamp16(t1 + a1);
    let s0 = clamp16(t0 - a0);
    let s1 = clamp16(t1 - a1);
    let b0 = quarter16(x[2]);
    let b1 = quarter16(x[3]);
    let u0 = quarter16(x[6]);
    let u1 = quarter16(x[7]);
    let p0 = clamp16(b0 + u0);
    let p1 = clamp16(b1 + u1);
    let o0r = (half16(r0) + half16(p0)) as i16;
    let o0i = (half16(r1) + half16(p1)) as i16;
    let q0 = clamp16(r0 - p0);
    let q1 = clamp16(r1 - p1);
    let d0 = clamp16(b0 - u0);
    let d1 = clamp16(b1 - u1);
    let co1 = w[0] as i32;
    let si1 = w[1] as i32;
    let co2 = w[2] as i32;
    let si2 = w[3] as i32;
    let co3 = w[4] as i32;
    let si3 = w[5] as i32;
    if !inverse {
        let rb0 = clamp16(s0 - d1);
        let rb1 = clamp16(s1 + d0);
        let sb0 = clamp16(s0 + d1);
        let sb1 = clamp16(s1 - d0);
        seq![
            o0r,
            o0i,
            mac_hi16(co2, q0 as i32, si2, q1 as i32),
            mac_hi16(-si2 as i32, q0 as i32, co2, q1 as i32),
            mac_hi16(si1, sb1 as i32, co1, sb0 as i32),
            mac_hi16(-si1 as i32, sb0 as i32, co1, sb1 as i32),
            mac_hi16(si3, rb1 as i32, co3, rb0 as i32),
            mac_hi16(-si3 as i32, rb0 as i32, co3, rb1 as i32),
        ]
    } else {
        let rb0 = clamp16(s0 + d1);
        let rb1 = clamp16(s1 - d0);
        let sb0 = clamp16(s0 - d1);
        let sb1 = clamp16(s1 + d0);
        seq![
            o0r,
            o0i,
            msc_hi16(co2, q0 as i32, si2, q1 as i32),
            mac_hi16(si2, q0 as i32, co2, q1 as i32),
            msc_hi16(co1, sb0 as i32, si1, sb1 as i32),
            mac_hi16(si1, sb0 as i32, co1, sb1 as i32),
            msc_hi16(co3, rb0 as i32, si3, rb1 as i32),
            mac_hi16(si3, rb0 as i32, co3, rb1 as i32),
        ]
    }
}

/// Middle radix-4 stage of the Q15 transform: outputs halved once more.
pub open spec fn r4_mid_i16(x: Seq<i16>, w: Seq<i16>, inverse: bool) -> Seq<i16> {
    let r0 = clamp16(x[0] + x[4]);
    let r1 = clamp16(x[1] + x[5]);
    let s0 = clamp16(x[0] - x[4]);
    let s1 = clamp16(x[1] - x[5]);
    let p0 = clamp16(x[2] + x[6]);
    let p1 = clamp16(x[3] + x[7]);
    let o0r = (((half16(r0) + half16(p0)) as i32) >> 1i32) as i16;
    let o0i = (((half16(r1) + half16(p1)) as i32) >> 1i32) as i16;
    let q0 = (half16(r0) - half16(p0)) as i16;
    let q1 = (half16(r1) - half16(p1)) as i16;
    let d0 = clamp16(x[2] - x[6]);
    let d1 = clamp16(x[3] - x[7]);
    let co1 = w[0] as i32;
    let si1 = w[1] as i32;
    let co2 = w[2] as i32;
    let si2 = w[3] as i32;
    let co3 = w[4] as i32;
    let si3 = w[5] as i32;
    if !inverse {
        let rb0 = (half16(s0) - half16(d1)) as i16;
        let rb1 = (half16(s1) + half16(d0)) as i16;
        let sb0 = (half16(s0) + half16(d1)) as i16;
        let sb1 = (half16(s1) - half16(d0)) as i16;
        seq![
            o0r,
            o0i,
            mac_hi16(co2, q0 as i32, si2, q1 as i32),
            mac_hi16(-si2 as i32, q0 as i32, co2, q1 as i32),
            mac_hi16(co1, sb0 as i32, si1, sb1 as i32),
            mac_hi16(-si1 as i32, sb0 as i32, co1, sb1 as i32),
            mac_hi16(co3, rb0 as i32, si3, rb1 as i32),
            mac_hi16(-si3 as i32, rb0 as i32, co3, rb1 as i32),
        ]
    } else {
        let rb0 = (half16(s0) + half16(d1)) as i16;
        let rb1 = (half16(s1) - half16(d0)) as i16;
        let sb0 = (half16(s0) - half16(d1)) as i16;
        let sb1 = (half16(s1) + half16(d0)) as i16;
        seq![
            o0r,
            o0i,
            msc_hi16(co2, q0 as i32, si2, q1 as i32),
            mac_hi16(si2, q0 as i32, co2, q1 as i32),
            msc_hi16(co1, sb0 as i32, si1, sb1 as i32),
            mac_hi16(si1, sb0 as i32, co1, sb1 as i32),
            msc_hi16(co3, rb0 as i32, si3, rb1 as i32),
            mac_hi16(si3, rb0 as i32, co3, rb1 as i32),
        ]
    }
}

/// Real and imaginary parts of the radix-4 DFT outputs of four complex legs
/// `L0 .. L3` held as `[re0, im0, .., re3, im3]`, with kernel `g i` (`g = -1`
/// forward, `g = 1` inverse): `X0 = L0 + L1 + L2 + L3`,
/// `X1 = L0 + g i L1 - L2 - g i L3`, `X2 = L0 - L1 + L2 - L3`,
/// `X3 = L0 - g i L1 - L2 + g i L3`.
pub open spec fn dft4(x: Seq<int>, g: int) -> Seq<int> {
    seq![
        x[0] + x[2] + x[4] + x[6],
        x[1] + x[3] + x[5] + x[7],
        x[0] - x[4] - g * (x[3] - x[7]),
        x[1] - x[5] + g * (x[2] - x[6]),
        x[0] - x[2] + x[4] - x[6],
        x[1] - x[3] + x[5] - x[7],
        x[0] - x[4] + g * (x[3] - x[7]),
        x[1] - x[5] - g * (x[2] - x[6]),
    ]
}

/// A middle radix-4 stage computes a radix-4 DFT butterfly: on legs below `2^13`
/// in magnitude, output 0 is `X0 / 4` (rounded down, within two units) and the
/// outputs in positions 1, 2, 3 are `X2`, `X1`, `X3` times the twiddles `W2`,
/// `W1`, `W3` (`cos - i sin` forward, `cos + i sin` inverse, Q15), divided by
/// `4`, to within two units.
pub proof fn lemma_r4_mid_i16_butterfly(x: Seq<i16>, w: Seq<i16>, inverse: bool)
    requires
        x.len() == 8,
        w.len() == 6,
        forall|k: int| 0 <= k < 8 ==> -0x2000 <= #[trigger] x[k] <= 0x2000,
    ensures
        ({
            let y = r4_mid_i16(x, w, inverse);
            let g: int = if inverse { 1 } else { -1 };
            let xs = Seq::new(8, |k: int| x[k] as int);
            let d = dft4(xs, g);
            &&& y[0] * 4 <= d[0] < y[0] * 4 + 8
            &&& y[1] * 4 <= d[1] < y[1] * 4 + 8
            &&& forall|p: int|
                1 <= p <= 3 ==> {
                    let leg = if p == 1 { 2int } else if p == 2 { 1int } else { 3int };
                    let c = w[2 * leg - 2] as int;
                    let sn = g * (w[2 * leg - 1] as int);
                    let ur = d[2 * leg];
                    let ui = d[2 * leg + 1];
                    &&& #[trigger] y[2 * p] * 0x2_0000 - 0x4_0000 < cmul_re(ur, ui, c, sn) < y[2 * p]
                        * 0x2_0000 + 0x4_0000
                    &&& y[2 * p + 1] * 0x2_0000 - 0x4_0000 < cmul_im(ur, ui, c, sn) < y[2 * p + 1]
                        * 0x2_0000 + 0x4_0000
                }
        }),
{
    lemma_shr_floor();
    let y = r4_mid_i16(x, w, inverse);
    let g: int = if inverse { 1 } else { -1 };
    let xs = Seq::new(8, |k: int| x[k] as int);
    let d = dft4(xs, g);
    assert(-0x2000 <= x[0] <= 0x2000 && -0x2000 <= x[1] <= 0x2000 && -0x2000 <= x[2] <= 0x2000);
    assert(-0x2000 <= x[3] <= 0x2000 && -0x2000 <= x[4] <= 0x2000 && -0x2000 <= x[5] <= 0x2000);
    assert(-0x2000 <= x[6] <= 0x2000 && -0x2000 <= x[7] <= 0x2000);
    let r0 = clamp16(x[0] + x[4]);
    let r1 = clamp16(x[1] + x[5]);
    let s0 = clamp16(x[0] - x[4]);
    let s1 = clamp16(x[1] - x[5]);
    let p0 = clamp16(x[2] + x[6]);
    let p1 = clamp16(x[3] + x[7]);
    let d0 = clamp16(x[2] - x[6]);
    let d1 = clamp16(x[3] - x[7]);
    let q0 = (half16(r0) - half16(p0)) as i16;
    let q1 = (half16(r1) - half16(p1)) as i16;
    let co1 = w[0] as i32;
    let si1 = w[1] as i32;
    let co2 = w[2] as i32;
    let si2 = w[3] as i32;
    let co3 = w[4] as i32;
    let si3 = w[5] as i32;
    let ga = (half16(s0) - half16(d1)) as i16;
    let gb = (half16(s1) + half16(d0)) as i16;
    let ha = (half16(s0) + half16(d1)) as i16;
    let hb = (half16(s1) - half16(d0)) as i16;
    assert forall|u: int, v: int| -0x4000 <= u <= 0x4000 && -0x8000 <= v <= 0x8000 implies -0x2000_0000
        <= #[trigger] (v * u) <= 0x2000_0000 by {
        assert(-0x2000_0000 <= v * u <= 0x2000_0000) by (nonlinear_arith)
            requires
                -0x4000 <= u <= 0x4000,
                -0x8000 <= v <= 0x8000,
        ;
    }
    assert forall|u: int, v: int| -0x4000 <= u <= 0x4000 && -0x8000 <= v <= 0x8000 implies #[trigger] ((
    -v) * u) == -(v * u) by {
        assert((-v) * u == -(v * u)) by (nonlinear_arith);
    }
    // leg 2 (X2) with W2 in position 1
    if inverse {
        lemma_msc_hi16_floor(co2, q0 as i32, si2, q1 as i32);
        lemma_mac_hi16_floor(si2, q0 as i32, co2, q1 as i32);
        lemma_msc_hi16_floor(co1, ga as i32, si1, gb as i32);
        lemma_mac_hi16_floor(si1, ga as i32, co1, gb as i32);
        lemma_msc_hi16_floor(co3, ha as i32, si3, hb as i32);
        lemma_mac_hi16_floor(si3, ha as i32, co3, hb as i32);
        lemma_rot_q15(q0 as int, q1 as int, d[4], d[5], co2 as int, si2 as int, y[2] as int, y[3] as int);
        lemma_rot_q15(ga as int, gb as int, d[2], d[3], co1 as int, si1 as int, y[4] as int, y[5] as int);
        lemma_rot_q15(ha as int, hb as int, d[6], d[7], co3 as int, si3 as int, y[6] as int, y[7] as int);
    } else {
        lemma_mac_hi16_floor(co2, q0 as i32, si2, q1 as i32);
        lemma_mac_hi16_floor(-si2 as i32, q0 as i32, co2, q1 as i32);
        lemma_mac_hi16_floor(co1, ha as i32, si1, hb as i32);
        lemma_mac_hi16_floor(-si1 as i32, ha as i32, co1, hb as i32);
        lemma_mac_hi16_floor(co3, ga as i32, si3, gb as i32);
        lemma_mac_hi16_floor(-si3 as i32, ga as i32, co3, gb as i32);
        assert forall|b0: int, b1: int, c: int, sn: int| #![trigger cmul_re(b0, b1, c, -sn)]
            cmul_re(b0, b1, c, -sn) == c * b0 + sn * b1 && cmul_im(b0, b1, c, -sn) == (-sn) * b0 + c
                * b1 by {
            assert(cmul_re(b0, b1, c, -sn) == c * b0 + sn * b1) by (nonlinear_arith);
            assert(cmul_im(b0, b1, c, -sn) == (-sn) * b0 + c * b1) by (nonlinear_arith);
        }
        lemma_rot_q15(q0 as int, q1 as int, d[4], d[5], co2 as int, -si2, y[2] as int, y[3] as int);
        lemma_rot_q15(ha as int, hb as int, d[2], d[3], co1 as int, -si1, y[4] as int, y[5] as int);
        lemma_rot_q15(ga as int, gb as int, d[6], d[7], co3 as int, -si3, y[6] as int, y[7] as int);
    }
}

/// Last radix-4 stage of the Q15 transform: no twiddle factors.
pub open spec fn r4_last_i16(x: Seq<i16>, inverse: bool) -> Seq<i16> {
    let r0 = clamp16(x[0] + x[4]);
    let r1 = clamp16(x[1] + x[5]);
    let s0 = clamp16(x[0] - x[4]);
    let s1 = clamp16(x[1] - x[5]);
    let p0 = clamp16(x[2] + x[6]);
    let p1 = clamp16(x[3] + x[7]);
    let d0 = clamp16(x[2] - x[6]);
    let d1 = clamp16(x[3] - x[7]);
    let o0r = (half16(r0) + half16(p0)) as i16;
    let o0i = (half16(r1) + half16(p1)) as i16;
    let o1r = (half16(r0) - half16(p0)) as i16;
    let o1i = (half16(r1) - half16(p1)) as i16;
    let plus0 = (half16(s0) + half16(d1)) as i16;
    let minus0 = (half16(s0) - half16(d1)) as i16;
    let plus1 = (half16(s1) + half16(d0)) as i16;
    let minus1 = (half16(s1) - half16(d0)) as i16;
    if !inverse {
        seq![o0r, o0i, o1r, o1i, plus0, minus1, minus0, plus1]
    } else {
        seq![o0r, o0i, o1r, o1i, minus0, plus1, plus0, minus1]
    }
}

/// The first radix-4 stage computes a radix-4 DFT butterfly on its inputs
/// quartered: on legs below `2^14` in magnitude, output 0 is `X0 / 8` (rounded
/// down, within three units) and the outputs in positions 1, 2, 3 are `X2`,
/// `X1`, `X3` times the twiddles `W2`, `W1`, `W3` (`cos - i sin` forward,
/// `cos + i sin` inverse, Q15), divided by `8`, to within four units.
#[verifier::rlimit(80)]
pub proof fn lemma_r4_first_i16_butterfly(x: Seq<i16>, w: Seq<i16>, inverse: bool)
    requires
        x.len() == 8,
        w.len() == 6,
        forall|k: int| 0 <= k < 8 ==> -0x4000 <= #[trigger] x[k] <= 0x4000,
    ensures
        ({
            let y = r4_first_i16(x, w, inverse);
            let g: int = if inverse { 1 } else { -1 };
            let xs = Seq::new(8, |k: int| x[k] as int);
            let d = dft4(xs, g);
            &&& y[0] * 8 <= d[0] < y[0] * 8 + 24
            &&& y[1] * 8 <= d[1] < y[1] * 8 + 24
            &&& forall|p: int|
                1 <= p <= 3 ==> {
                    let leg = if p == 1 { 2int } else if p == 2 { 1int } else { 3int };
                    let c = w[2 * leg - 2] as int;
                    let sn = g * (w[2 * leg - 1] as int);
                    let ur = d[2 * leg];
                    let ui = d[2 * leg + 1];
                    &&& #[trigger] y[2 * p] * 0x4_0000 - 0x10_0000 < cmul_re(ur, ui, c, sn) < y[2
                        * p] * 0x4_0000 + 0x10_0000
                    &&& y[2 * p + 1] * 0x4_0000 - 0x10_0000 < cmul_im(ur, ui, c, sn) < y[2 * p + 1]
                        * 0x4_0000 + 0x10_0000
                }
        }),
{
    lemma_shr_floor();
    let y = r4_first_i16(x, w, inverse);
    let g: int = if inverse { 1 } else { -1 };
    let xs = Seq::new(8, |k: int| x[k] as int);
    let d = dft4(xs, g);
    assert(-0x4000 <= x[0] <= 0x4000 && -0x4000 <= x[1] <= 0x4000 && -0x4000 <= x[2] <= 0x4000);
    assert(-0x4000 <= x[3] <= 0x4000 && -0x4000 <= x[4] <= 0x4000 && -0x4000 <= x[5] <= 0x4000);
    assert(-0x4000 <= x[6] <= 0x4000 && -0x4000 <= x[7] <= 0x4000);
    let t0 = quarter16(x[0]);
    let t1 = quarter16(x[1]);
    let a0 = quarter16(x[4]);
    let a1 = quarter16(x[5]);
    let r0 = clamp16(t0 + a0);
    let r1 = clamp16(t1 + a1);
    let s0 = clamp16(t0 - a0);
    let s1 = clamp16(t1 - a1);
    let b0 = quarter16(x[2]);
    let b1 = quarter16(x[3]);
    let u0 = quarter16(x[6]);
    let u1 = quarter16(x[7]);
    let p0 = clamp16(b0 + u0);
    let p1 = clamp16(b1 + u1);
    let q0 = clamp16(r0 - p0);
    let q1 = clamp16(r1 - p1);
    let d0 = clamp16(b0 - u0);
    let d1 = clamp16(b1 - u1);
    let co1 = w[0] as i32;
    let si1 = w[1] as i32;
    let co2 = w[2] as i32;
    let si2 = w[3] as i32;
    let co3 = w[4] as i32;
    let si3 = w[5] as i32;
    let pa = clamp16(s0 + d1);
    let pb = clamp16(s1 - d0);
    let ma = clamp16(s0 - d1);
    let mb = clamp16(s1 + d0);
    assert(-0x1000 <= t0 <= 0x1000 && -0x1000 <= t1 <= 0x1000 && -0x1000 <= a0 <= 0x1000 && -0x1000
        <= a1 <= 0x1000);
    assert(-0x1000 <= b0 <= 0x1000 && -0x1000 <= b1 <= 0x1000 && -0x1000 <= u0 <= 0x1000 && -0x1000
        <= u1 <= 0x1000);
    assert(r0 == t0 + a0 && r1 == t1 + a1 && s0 == t0 - a0 && s1 == t1 - a1);
    assert(p0 == b0 + u0 && p1 == b1 + u1 && d0 == b0 - u0 && d1 == b1 - u1);
    assert(q0 == r0 - p0 && q1 == r1 - p1);
    assert(pa == s0 + d1 && pb == s1 - d0 && ma == s0 - d1 && mb == s1 + d0);
    assert(d[0] == x[0] + x[2] + x[4] + x[6] && d[1] == x[1] + x[3] + x[5] + x[7]);
    assert(d[4] == x[0] - x[2] + x[4] - x[6] && d[5] == x[1] - x[3] + x[5] - x[7]);
    assert(-6 <= 4 * q0 - d[4] <= 6 && -6 <= 4 * q1 - d[5] <= 6);
    if inverse {
        assert(d[2] == x[0] - x[4] - (x[3] - x[7]) && d[3] == x[1] - x[5] + (x[2] - x[6]));
        assert(d[6] == x[0] - x[4] + (x[3] - x[7]) && d[7] == x[1] - x[5] - (x[2] - x[6]));
        assert(-6 <= 4 * ma - d[2] <= 6 && -6 <= 4 * mb - d[3] <= 6);
        assert(-6 <= 4 * pa - d[6] <= 6 && -6 <= 4 * pb - d[7] <= 6);
        lemma_first_leg(q0, q1, d[4], d[5], co2, si2, true, y[2], y[3]);
        lemma_first_leg(ma, mb, d[2], d[3], co1, si1, true, y[4], y[5]);
        lemma_first_leg(pa, pb, d[6], d[7], co3, si3, true, y[6], y[7]);
    } else {
        let e3 = x[3] - x[7];
        let e2 = x[2] - x[6];
        assert(g * e3 == -e3 && g * e2 == -e2) by (nonlinear_arith)
            requires
                g == -1,
        ;
        assert(d[2] == x[0] - x[4] + (x[3] - x[7]) && d[3] == x[1] - x[5] - (x[2] - x[6]));
        assert(d[6] == x[0] - x[4] - (x[3] - x[7]) && d[7] == x[1] - x[5] + (x[2] - x[6]));
        assert(-6 <= 4 * pa - d[2] <= 6 && -6 <= 4 * pb - d[3] <= 6);
        assert(-6 <= 4 * ma - d[6] <= 6 && -6 <= 4 * mb - d[7] <= 6);
        assert(y[4] == mac_hi16(co1, pa as i32, si1, pb as i32));
        assert(y[6] == mac_hi16(co3, ma as i32, si3, mb as i32));
        lemma_first_leg(q0, q1, d[4], d[5], co2, si2, false, y[2], y[3]);
        lemma_first_leg(pa, pb, d[2], d[3], co1, si1, false, y[4], y[5]);
        lemma_first_leg(ma, mb, d[6], d[7], co3, si3, false, y[6], y[7]);
    }
}

/// One twiddled leg of the first stage: the exact leg `u`, a quartered copy `b`
/// within one and a half units, and its rotation `o` by `c -/+ i s`.
proof fn lemma_first_leg(b0: i16, b1: i16, u0: int, u1: int, c: i32, s: i32, inverse: bool, o0: i16, o1: i16)
    requires
        -6 <= 4 * b0 - u0 <= 6,
        -6 <= 4 * b1 - u1 <= 6,
        -0x4000 <= b0 <= 0x4000,
        -0x4000 <= b1 <= 0x4000,
        -0x8000 <= c <= 0x7fff,
        -0x8000 <= s <= 0x7fff,
        inverse ==> o0 == msc_hi16(c, b0 as i32, s, b1 as i32) && o1 == mac_hi16(s, b0 as i32, c, b1 as i32),
        !inverse ==> o0 == mac_hi16(c, b0 as i32, s, b1 as i32) && o1 == mac_hi16(-s as i32, b0 as i32, c, b1 as i32),
    ensures
        ({
            let sn = if inverse { s as int } else { -(s as int) };
            &&& o0 * 0x4_0000 - 0x10_0000 < cmul_re(u0, u1, c as int, sn) < o0 * 0x4_0000 + 0x10_0000
            &&& o1 * 0x4_0000 - 0x10_0000 < cmul_im(u0, u1, c as int, sn) < o1 * 0x4_0000 + 0x10_0000
        }),
{
    assert(-0x2000_0000 <= c * b0 <= 0x2000_0000) by (nonlinear_arith)
        requires
            -0x4000 <= b0 <= 0x4000,
            -0x8000 <= c <= 0x7fff,
    ;
    assert(-0x2000_0000 <= c * b1 <= 0x2000_0000) by (nonlinear_arith)
        requires
            -0x4000 <= b1 <= 0x4000,
            -0x8000 <= c <= 0x7fff,
    ;
    assert(-0x2000_0000 <= s * b0 <= 0x2000_0000) by (nonlinear_arith)
        requires
            -0x4000 <= b0 <= 0x4000,
            -0x8000 <= s <= 0x7fff,
    ;
    assert(-0x2000_0000 <= s * b1 <= 0x2000_0000) by (nonlinear_arith)
        requires
            -0x4000 <= b1 <= 0x4000,
            -0x8000 <= s <= 0x7fff,
    ;
    assert((-s) * b0 == -(s * b0)) by (nonlinear_arith);
    if inverse {
        lemma_msc_hi16_floor(c, b0 as i32, s, b1 as i32);
        lemma_mac_hi16_floor(s, b0 as i32, c, b1 as i32);
        lemma_rot_q15_quarter(b0 as int, b1 as int, u0, u1, c as int, s as int, o0 as int, o1 as int);
    } else {
        lemma_mac_hi16_floor(c, b0 as i32, s, b1 as i32);
        lemma_mac_hi16_floor(-s as i32, b0 as i32, c, b1 as i32);
        assert(cmul_re(b0 as int, b1 as int, c as int, -s) == c * b0 + s * b1) by (nonlinear_arith);
        assert(cmul_im(b0 as int, b1 as int, c as int, -s) == (-s) * b0 + c * b1) by (nonlinear_arith);
        lemma_rot_q15_quarter(b0 as int, b1 as int, u0, u1, c as int, -s, o0 as int, o1 as int);
    }
}

/// The last radix-4 stage computes a radix-4 DFT butterfly without twiddles:
/// on legs below `2^13` in magnitude, the outputs in positions 0, 1, 2, 3 are
/// `X0`, `X2`, `X1`, `X3` halved, each part within one unit.
pub proof fn lemma_r4_last_i16_butterfly(x: Seq<i16>, inverse: bool)
    requires
        x.len() == 8,
        forall|k: int| 0 <= k < 8 ==> -0x2000 <= #[trigger] x[k] <= 0x2000,
    ensures
        ({
            let y = r4_last_i16(x, inverse);
            let g: int = if inverse { 1 } else { -1 };
            let xs = Seq::new(8, |k: int| x[k] as int);
            let d = dft4(xs, g);
            forall|p: int, h: int|
                0 <= p <= 3 && 0 <= h <= 1 ==> {
                    let leg = if p == 1 { 2int } else if p == 2 { 1int } else if p == 3 { 3int } else { 0int };
                    d[2 * leg + h] - 2 <= 2 * #[trigger] y[2 * p + h] <= d[2 * leg + h] + 2
                }
        }),
{
    lemma_shr_floor();
    assert(-0x2000 <= x[0] <= 0x2000 && -0x2000 <= x[1] <= 0x2000 && -0x2000 <= x[2] <= 0x2000);
    assert(-0x2000 <= x[3] <= 0x2000 && -0x2000 <= x[4] <= 0x2000 && -0x2000 <= x[5] <= 0x2000);
    assert(-0x2000 <= x[6] <= 0x2000 && -0x2000 <= x[7] <= 0x2000);
}

/// The butterfly applied to one group, by kind of stage (0 first, 1 middle, 2 last).
#[verifier::opaque]
pub open spec fn r4_kernel_i16(x: Seq<i16>, w: Seq<i16>, kind: int, inverse: bool) -> Seq<i16> {
    if kind == 0 {
        r4_first_i16(x, w, inverse)
    } else if kind == 1 {
        r4_mid_i16(x, w, inverse)
    } else {
        r4_last_i16(x, inverse)
    }
}

/// The three Q15 twiddle factors of twiddle index `ic`: `W^ic`, `W^2ic`, `W^3ic`.
pub open spec fn twiddle3_i16(tw: Seq<u16>, ic: int) -> Seq<i16> {
    seq![
        tw[2 * ic] as i16,
        tw[2 * ic + 1] as i16,
        tw[4 * ic] as i16,
        tw[4 * ic + 1] as i16,
        tw[6 * ic] as i16,
        tw[6 * ic + 1] as i16,
    ]
}

/// Group function of one Q15 radix-4 stage whose twiddle stride is `tm`.
pub open spec fn r4_group_i16(tw: Seq<u16>, tm: int, kind: int, inverse: bool) -> spec_fn(
    Seq<i16>,
    int,
) -> Seq<i16> {
    |x: Seq<i16>, j: int| r4_kernel_i16(x, twiddle3_i16(tw, j * tm), kind, inverse)
}

fn r4_first_i16_exec(x: [i16; 8], w: [i16; 6], inverse: bool) -> (o: [i16; 8])
    ensures
        o@ == r4_first_i16(x@, w@, inverse),
{
    proof {
        lemma_shr_i16_range(x[0] as i32);
        lemma_shr_i16_range(x[1] as i32);
        lemma_shr_i16_range(x[2] as i32);
        lemma_shr_i16_range(x[3] as i32);
        lemma_shr_i16_range(x[4] as i32);
        lemma_shr_i16_range(x[5] as i32);
        lemma_shr_i16_range(x[6] as i32);
        lemma_shr_i16_range(x[7] as i32);
    }
    let t0 = (x[0] as i32) >> 2;
    let t1 = (x[1] as i32) >> 2;
    let a0 = (x[4] as i32) >> 2;
    let a1 = (x[5] as i32) >> 2;
    let r0 = sat_i16(t0 + a0);
    let r1 = sat_i16(t1 + a1);
    let s0 = sat_i16(t0 - a0);
    let s1 = sat_i16(t1 - a1);
    let b0 = (x[2] as i32) >> 2;
    let b1 = (x[3] as i32) >> 2;
    let u0 = (x[6] as i32) >> 2;
    let u1 = (x[7] as i32) >> 2;
    let p0 = sat_i16(b0 + u0);
    let p1 = sat_i16(b1 + u1);
    proof {
        lemma_shr_i16_range(r0 as i32);
        lemma_shr_i16_range(r1 as i32);
        lemma_shr_i16_range(p0 as i32);
        lemma_shr_i16_range(p1 as i32);
    }
    let o0r = (((r0 as i32) >> 1) + ((p0 as i32) >> 1)) as i16;
    let o0i = (((r1 as i32) >> 1) + ((p1 as i32) >> 1)) as i16;
    let q0 = sat_i16(r0 as i32 - p0 as i32);
    let q1 = sat_i16(r1 as i32 - p1 as i32);
    let d0 = sat_i16(b0 - u0);
    let d1 = sat_i16(b1 - u1);
    let co1 = w[0] as i32;
    let si1 = w[1] as i32;
    let co2 = w[2] as i32;
    let si2 = w[3] as i32;
    let co3 = w[4] as i32;
    let si3 = w[5] as i32;
    let o = if !inverse {
        let rb0 = sat_i16(s0 as i32 - d1 as i32);
        let rb1 = sat_i16(s1 as i32 + d0 as i32);
        let sb0 = sat_i16(s0 as i32 + d1 as i32);
        let sb1 = sat_i16(s1 as i32 - d0 as i32);
        [
            o0r,
            o0i,
            mac_hi16_exec(co2, q0 as i32, si2, q1 as i32),
            mac_hi16_exec(-si2, q0 as i32, co2, q1 as i32),
            mac_hi16_exec(si1, sb1 as i32, co1, sb0 as i32),
            mac_hi16_exec(-si1, sb0 as i32, co1, sb1 as i32),
            mac_hi16_exec(si3, rb1 as i32, co3, rb0 as i32),
            mac_hi16_exec(-si3, rb0 as i32, co3, rb1 as i32),
        ]
    } else {
        let rb0 = sat_i16(s0 as i32 + d1 as i32);
        let rb1 = sat_i16(s1 as i32 - d0 as i32);
        let sb0 = sat_i16(s0 as i32 - d1 as i32);
        let sb1 = sat_i16(s1 as i32 + d0 as i32);
        [
            o0r,
            o0i,
            msc_hi16_exec(co2, q0 as i32, si2, q1 as i32),
            mac_hi16_exec(si2, q0 as i32, co2, q1 as i32),
            msc_hi16_exec(co1, sb0 as i32, si1, sb1 as i32),
            mac_hi16_exec(si1, sb0 as i32, co1, sb1 as i32),
            msc_hi16_exec(co3, rb0 as i32, si3, rb1 as i32),
            mac_hi16_exec(si3, rb0 as i32, co3, rb1 as i32),
        ]
    };
    assert(o@ =~= r4_first_i16(x@, w@, inverse));
    o
}

fn r4_mid_i16_exec(x: [i16; 8], w: [i16; 6], inverse: bool) -> (o: [i16; 8])
    ensures
        o@ == r4_mid_i16(x@, w@, inverse),
{
    let r0 = sat_i16(x[0] as i32 + x[4] as i32);
    let r1 = sat_i16(x[1] as i32 + x[5] as i32);
    let s0 = sat_i16(x[0] as i32 - x[4] as i32);
    let s1 = sat_i16(x[1] as i32 - x[5] as i32);
    let p0 = sat_i16(x[2] as i32 + x[6] as i32);
    let p1 = sat_i16(x[3] as i32 + x[7] as i32);
    let d0 = sat_i16(x[2] as i32 - x[6] as i32);
    let d1 = sat_i16(x[3] as i32 - x[7] as i32);
    proof {
        lemma_shr_i16_range(r0 as i32);
        lemma_shr_i16_range(r1 as i32);
        lemma_shr_i16_range(s0 as i32);
        lemma_shr_i16_range(s1 as i32);
        lemma_shr_i16_range(p0 as i32);
        lemma_shr_i16_range(p1 as i32);
        lemma_shr_i16_range(d0 as i32);
        lemma_shr_i16_range(d1 as i32);
    }
    let o0r = ((((r0 as i32) >> 1) + ((p0 as i32) >> 1)) >> 1) as i16;
    let o0i = ((((r1 as i32) >> 1) + ((p1 as i32) >> 1)) >> 1) as i16;
    let q0 = (((r0 as i32) >> 1) - ((p0 as i32) >> 1)) as i16;
    let q1 = (((r1 as i32) >> 1) - ((p1 as i32) >> 1)) as i16;
    let co1 = w[0] as i32;
    let si1 = w[1] as i32;
    let co2 = w[2] as i32;
    let si2 = w[3] as i32;
    let co3 = w[4] as i32;
    let si3 = w[5] as i32;
    let o = if !inverse {
        let rb0 = (((s0 as i32) >> 1) - ((d1 as i32) >> 1)) as i16;
        let rb1 = (((s1 as i32) >> 1) + ((d0 as i32) >> 1)) as i16;
        let sb0 = (((s0 as i32) >> 1) + ((d1 as i32) >> 1)) as i16;
        let sb1 = (((s1 as i32) >> 1) - ((d0 as i32) >> 1)) as i16;
        [
            o0r,
            o0i,
            mac_hi16_exec(co2, q0 as i32, si2, q1 as i32),
            mac_hi16_exec(-si2, q0 as i32, co2, q1 as i32),
            mac_hi16_exec(co1, sb0 as i32, si1, sb1 as i32),
            mac_hi16_exec(-si1, sb0 as i32, co1, sb1 as i32),
            mac_hi16_exec(co3, rb0 as i32, si3, rb1 as i32),
            mac_hi16_exec(-si3, rb0 as i32, co3, rb1 as i32),
        ]
    } else {
        let rb0 = (((s0 as i32) >> 1) + ((d1 as i32) >> 1)) as i16;
        let rb1 = (((s1 as i32) >> 1) - ((d0 as i32) >> 1)) as i16;
        let sb0 = (((s0 as i32) >> 1) - ((d1 as i32) >> 1)) as i16;
        let sb1 = (((s1 as i32) >> 1) + ((d0 as i32) >> 1)) as i16;
        [
            o0r,
            o0i,
            msc_hi16_exec(co2, q0 as i32, si2, q1 as i32),
            mac_hi16_exec(si2, q0 as i32, co2, q1 as i32),
            msc_hi16_exec(co1, sb0 as i32, si1, sb1 as i32),
            mac_hi16_exec(si1, sb0 as i32, co1, sb1 as i32),
            msc_hi16_exec(co3, rb0 as i32, si3, rb1 as i32),
            mac_hi16_exec(si3, rb0 as i32, co3, rb1 as i32),
        ]
    };
    assert(o@ =~= r4_mid_i16(x@, w@, inverse));
    o
}

fn r4_last_i16_exec(x: [i16; 8], inverse: bool) -> (o: [i16; 8])
    ensures
        o@ == r4_last_i16(x@, inverse),
{
    let r0 = sat_i16(x[0] as i32 + x[4] as i32);
    let r1 = sat_i16(x[1] as i32 + x[5] as i32);
    let s0 = sat_i16(x[0] as i32 - x[4] as i32);
    let s1 = sat_i16(x[1] as i32 - x[5] as i32);
    let p0 = sat_i16(x[2] as i32 + x[6] as i32);
    let p1 = sat_i16(x[3] as i32 + x[7] as i32);
    let d0 = sat_i16(x[2] as i32 - x[6] as i32);
    let d1 = sat_i16(x[3] as i32 - x[7] as i32);
    proof {
        lemma_shr_i16_range(r0 as i32);
        lemma_shr_i16_range(r1 as i32);
        lemma_shr_i16_range(s0 as i32);
        lemma_shr_i16_range(s1 as i32);
        lemma_shr_i16_range(p0 as i32);
        lemma_shr_i16_range(p1 as i32);
        lemma_shr_i16_range(d0 as i32);
        lemma_shr_i16_range(d1 as i32);
    }
    let o0r = (((r0 as i32) >> 1) + ((p0 as i32) >> 1)) as i16;
    let o0i = (((r1 as i32) >> 1) + ((p1 as i32) >> 1)) as i16;
    let o1r = (((r0 as i32) >> 1) - ((p0 as i32) >> 1)) as i16;
    let o1i = (((r1 as i32) >> 1) - ((p1 as i32) >> 1)) as i16;
    let plus0 = (((s0 as i32) >> 1) + ((d1 as i32) >> 1)) as i16;
    let minus0 = (((s0 as i32) >> 1) - ((d1 as i32) >> 1)) as i16;
    let plus1 = (((s1 as i32) >> 1) + ((d0 as i32) >> 1)) as i16;
    let minus1 = (((s1 as i32) >> 1) - ((d0 as i32) >> 1)) as i16;
    let o = if !inverse {
        [o0r, o0i, o1r, o1i, plus0, minus1, minus0, plus1]
    } else {
        [o0r, o0i, o1r, o1i, minus0, plus1, plus0, minus1]
    };
    assert(o@ =~= r4_last_i16(x@, inverse));
    o
}

fn r4_kernel_i16_exec(x: [i16; 8], w: [i16; 6], kind: u8, inverse: bool) -> (o: [i16; 8])
    ensures
        o@ == r4_kernel_i16(x@, w@, kind as int, inverse),
{
    reveal(r4_kernel_i16);
    if kind == 0 {
        r4_first_i16_exec(x, w, inverse)
    } else if kind == 1 {
        r4_mid_i16_exec(x, w, inverse)
    } else {
        r4_last_i16_exec(x, inverse)
    }
}

/// One Q15 radix-4 stage of span `n1` over the first `n` complex samples.
fn r4_stage_i16(
    data: &mut [i16],
    n: usize,
    n1: usize,
    tw: &[u16],
    tm: u16,
    kind: u8,
    inverse: bool,
)
    requires
        stage_shape(n as int, n1 as int, 4),
        2 * n <= old(data).len(),
        kind <= 2,
        kind != 2 ==> 6 * ((n1 / 4 - 1) * tm) + 1 < tw.len(),
    ensures
        final(data)@ == stage(
            old(data)@,
            n as int,
            n1 as int,
            4,
            r4_group_i16(tw@, tm as int, kind as int, inverse),
        ),
{
    let n2 = n1 / 4;
    let ghost s = data@;
    let ghost f = r4_group_i16(tw@, tm as int, kind as int, inverse);
    let ghost b = n as int / n1 as int;
    proof {
        lemma_shape_facts(n as int, n1 as int, 4);
        lemma_stage_start(s, n as int, n1 as int, 4, f);
        assert(0 * b == 0);
    }
    let mut j: usize = 0;
    while j < n2
        invariant
            stage_shape(n as int, n1 as int, 4),
            n1 == 4 * n2,
            n2 > 0,
            n == n1 * b,
            b > 0,
            b == n as int / n1 as int,
            2 * n <= s.len(),
            2 * n <= usize::MAX,
            s.len() == data@.len(),
            f == r4_group_i16(tw@, tm as int, kind as int, inverse),
            kind <= 2,
            kind != 2 ==> 6 * ((n1 / 4 - 1) * tm) + 1 < tw.len(),
            0 <= j <= n2,
            data@ == stage_partial(s, n as int, n1 as int, 4, f, j * b),
        decreases n2 - j,
    {
        let mut w: [i16; 6] = [0; 6];
        if kind != 2 {
            proof {
                assert(j * tm <= (n2 - 1) * tm) by (nonlinear_arith)
                    requires
                        j <= n2 - 1,
                ;
            }
            let ic = j * (tm as usize);
            w = [
                #[verifier::truncate] (tw[2 * ic] as i16),
                #[verifier::truncate] (tw[2 * ic + 1] as i16),
                #[verifier::truncate] (tw[4 * ic] as i16),
                #[verifier::truncate] (tw[4 * ic + 1] as i16),
                #[verifier::truncate] (tw[6 * ic] as i16),
                #[verifier::truncate] (tw[6 * ic + 1] as i16),
            ];
            assert(w@ =~= twiddle3_i16(tw@, j * tm));
        }
        let mut i0 = j;
        let mut t: usize = 0;
        while i0 < n
            invariant
                stage_shape(n as int, n1 as int, 4),
                n1 == 4 * n2,
                n2 > 0,
                n == n1 * b,
                b > 0,
                b == n as int / n1 as int,
                2 * n <= s.len(),
                2 * n <= usize::MAX,
                s.len() == data@.len(),
                f == r4_group_i16(tw@, tm as int, kind as int, inverse),
                kind <= 2,
                0 <= j < n2,
                kind != 2 ==> w@ == twiddle3_i16(tw@, j * tm),
                i0 == t * n1 + j,
                t <= b,
                data@ == stage_partial(s, n as int, n1 as int, 4, f, j * b + t),
            decreases b - t,
        {
            proof {
                lemma_group_walk(n as int, n1 as int, n2 as int, 4, b, t as int, j as int);
            }
            let x = load_group4(data, i0, n2);
            let y = r4_kernel_i16_exec(x, w, kind, inverse);
            proof {
                lemma_stage_step(s, n as int, n1 as int, 4, f, j as int, t as int);
                if kind == 2 {
                    reveal(r4_kernel_i16);
                }
                assert(y@ == f(gather(s, t * n1 + j, n2 as int, 4), j as int));
            }
            store_group4(data, i0, n2, y);
            i0 = i0 + n1;
            t = t + 1;
        }
        proof {
            lemma_group_walk(n as int, n1 as int, n2 as int, 4, b, t as int, j as int);
            assert(j * b + t == (j + 1) * b) by (nonlinear_arith)
                requires
                    t == b,
            ;
        }
        j = j + 1;
    }
    proof {
        lemma_stage_end(s, n as int, n1 as int, 4, f, n2 * b);
    }
}

/// `n` is a power of four.
pub open spec fn is_pow4(n: int) -> bool
    decreases n,
{
    if n <= 0 {
        false
    } else if n == 1 {
        true
    } else {
        n % 4 == 0 && is_pow4(n / 4)
    }
}

proof fn lemma_pow4_step(x: int)
    requires
        is_pow4(x),
        x > 1,
    ensures
        x % 4 == 0,
        is_pow4(x / 4),
        x >= 4,
        x / 4 >= 1,
        x > 4 ==> x >= 16 && x % 16 == 0 && x / 4 >= 4,
    decreases x,
{
    if x > 4 {
        let y = x / 4;
        assert(y > 1);
        lemma_pow4_step(y);
    }
}

/// The middle stages of the Q15 network, from span `n1` down to span 16.
pub open spec fn r4_mid_stages_i16(
    s: Seq<i16>,
    n: int,
    n1: int,
    tw: Seq<u16>,
    tm: int,
    inverse: bool,
) -> Seq<i16>
    decreases n1,
{
    if n1 > 4 {
        r4_mid_stages_i16(
            stage(s, n, n1, 4, r4_group_i16(tw, tm, 1, inverse)),
            n,
            n1 / 4,
            tw,
            (tm * 4) % 65536,
            inverse,
        )
    } else {
        s
    }
}

/// The whole Q15 radix-4 butterfly network over `n` complex samples, `tm` being the
/// stride through the twiddle table of the first stage; the output is left in
/// bit-reversed order.
pub open spec fn radix4_i16(s: Seq<i16>, n: int, tw: Seq<u16>, tm: int, inverse: bool) -> Seq<
    i16,
> {
    let first = stage(s, n, n, 4, r4_group_i16(tw, tm, 0, inverse));
    let mid = r4_mid_stages_i16(first, n, n / 4, tw, (tm * 4) % 65536, inverse);
    stage(mid, n, 4, 4, r4_group_i16(tw, 0, 2, inverse))
}

/// What a radix-4 network over `n` complex samples needs of its arguments.
pub open spec fn radix4_args_ok(data_len: int, n: int, tw_len: int, tm: int) -> bool {
    &&& is_pow4(n)
    &&& n >= 16
    &&& 2 * n <= data_len
    &&& 6 * ((n / 4 - 1) * tm) + 1 < tw_len
}

proof fn lemma_shl2_u16(x: u16)
    ensures
        (x << 2u16) as int == (x as int * 4) % 65536,
{
    assert((x << 2u16) as int == (x as int * 4) % 65536) by (bit_vector);
}

pub(crate) fn radix4_i16_run(data: &mut [i16], n: usize, tw: &[u16], tm0: u16, inverse: bool)
    requires
        radix4_args_ok(old(data).len() as int, n as int, tw.len() as int, tm0 as int),
    ensures
        final(data)@ == radix4_i16(old(data)@, n as int, tw@, tm0 as int, inverse),
        final(data)@.len() == old(data)@.len(),
{
    let ghost len0 = data@.len();
    let ghost bound = (n / 4 - 1) * tm0;
    proof {
        lemma_pow4_step(n as int);
        lemma_pow4_step(n as int / 4);
        assert(n % n == 0);
    }
    r4_stage_i16(data, n, n, tw, tm0, 0, inverse);
    let ghost first = data@;
    let mut n2 = n >> 2;
    let mut k = n / 4;
    let mut tm: u16 = tm0 << 2;
    proof {
        lemma_shl2_u16(tm0);
        assert(n >> 2 == n / 4) by (bit_vector);
        assert(n % n2 == 0) by {
            vstd::arithmetic::div_mod::lemma_fundamental_div_mod(n as int, 4);
            vstd::arithmetic::div_mod::lemma_mod_multiples_basic(4, n2 as int);
        }
        assert((n2 / 4 - 1) * tm <= bound) by (nonlinear_arith)
            requires
                tm <= 4 * tm0,
                n2 == n / 4,
                n2 >= 4,
                n2 % 4 == 0,
                bound == (n / 4 - 1) * tm0,
        ;
    }
    while k > 4
        invariant
            radix4_args_ok(data@.len() as int, n as int, tw.len() as int, tm0 as int),
            data@.len() == len0,
            bound == (n / 4 - 1) * tm0,
            k == n2,
            is_pow4(n2 as int),
            n2 >= 4,
            n2 <= n / 4,
            n % n2 == 0,
            (n2 / 4 - 1) * tm <= bound,
            r4_mid_stages_i16(data@, n as int, n2 as int, tw@, tm as int, inverse)
                == r4_mid_stages_i16(first, n as int, n as int / 4, tw@, (tm0 * 4) % 65536, inverse),
        decreases k,
    {
        proof {
            lemma_pow4_step(n2 as int);
            lemma_pow4_step(n2 as int / 4);
        }
        let n1 = n2;
        let ghost k_old = k;
        n2 = n2 >> 2;
        r4_stage_i16(data, n, n1, tw, tm, 1, inverse);
        let ghost tm_old = tm;
        tm = tm << 2;
        k = k >> 2;
        proof {
            lemma_shl2_u16(tm_old);
            assert(n1 >> 2 == n1 / 4) by (bit_vector);
            assert(k_old >> 2 == k_old / 4) by (bit_vector);
            assert(n % n2 == 0) by {
                vstd::arithmetic::div_mod::lemma_fundamental_div_mod(n as int, n1 as int);
                vstd::arithmetic::div_mod::lemma_fundamental_div_mod(n1 as int, 4);
                assert(n == (n / n1 * 4) * n2) by (nonlinear_arith)
                    requires
                        n == n1 * (n / n1),
                        n1 == 4 * n2,
                ;
                vstd::arithmetic::div_mod::lemma_mod_multiples_basic(n / n1 * 4, n2 as int);
            }
            assert((n2 / 4 - 1) * tm <= bound) by (nonlinear_arith)
                requires
                    tm <= 4 * tm_old,
                    n1 == 4 * n2,
                    (n1 / 4 - 1) * tm_old <= bound,
                    n2 >= 4,
                    n2 % 4 == 0,
            ;
        }
    }
    proof {
        lemma_pow4_step(n as int);
    }
    r4_stage_i16(data, n, 4, tw, 0, 2, inverse);
}

/// Radix-4 decimation-in-frequency butterflies of the forward Q15 transform
/// over `n_fft` interleaved complex samples, in place; the output is in
/// bit-reversed order.  `twiddle_modifier` is the stride of the first stage
/// through `twiddles`, each later stage using four times the previous one.
///
/// `n_fft` is a power of four, at least 16: for 4 the last stage would pair
/// every sample with itself and leave zeros, below 4 it would not terminate,
/// and other lengths make no radix-4 network.
pub fn radix4_butterfly_i16(
    data: &mut [i16],
    n_fft: usize,
    twiddles: &[u16],
    twiddle_modifier: u16,
)
    requires
        radix4_args_ok(
            old(data).len() as int,
            n_fft as int,
            twiddles.len() as int,
            twiddle_modifier as int,
        ),
    ensures
        final(data)@ == radix4_i16(
            old(data)@,
            n_fft as int,
            twiddles@,
            twiddle_modifier as int,
            false,
        ),
{
    radix4_i16_run(data, n_fft, twiddles, twiddle_modifier, false)
}

/// Radix-4 butterflies of the inverse Q15 transform (conjugate twiddles).
///
/// `n_fft` is a power of four, at least 16 (see `radix4_butterfly_i16`).
pub fn radix4_butterfly_inverse_i16(
    data: &mut [i16],
    n_fft: usize,
    twiddles: &[u16],
    twiddle_modifier: u16,
)
    requires
        radix4_args_ok(
            old(data).len() as int,
            n_fft as int,
            twiddles.len() as int,
            twiddle_modifier as int,
        ),
    ensures
        final(data)@ == radix4_i16(
            old(data)@,
            n_fft as int,
            twiddles@,
            twiddle_modifier as int,
            true,
        ),
{
    radix4_i16_run(data, n_fft, twiddles, twiddle_modifier, true)
}

/// `v >> 4` for a Q31 sample.
pub open spec fn sixteenth32(v: i32) -> i32 {
    v >> 4i32
}

/// First radix-4 stage of the Q31 transform: inputs scaled by 1/16, outputs doubled
/// after the twiddle products.
pub open spec fn r4_first_i32(x: Seq<i32>, w: Seq<i32>, inverse: bool) -> Seq<i32> {
    let r1 = sixteenth32(x[0]) + sixteenth32(x[4]);
    let r2 = sixteenth32(x[0]) - sixteenth32(x[4]);
    let t1 = sixteenth32(x[2]) + sixteenth32(x[6]);
    let s1 = sixteenth32(x[1]) + sixteenth32(x[5]);
    let s2 = sixteenth32(x[1]) - sixteenth32(x[5]);
    let t2 = sixteenth32(x[3]) + sixteenth32(x[7]);
    let o0r = (r1 + t1) as i32;
    let o0i = (s1 + t2) as i32;
    let a = (r1 - t1) as i32;
    let c = (s1 - t2) as i32;
    let u1 = sixteenth32(x[3]) - sixteenth32(x[7]);
    let u2 = sixteenth32(x[2]) - sixteenth32(x[6]);
    let co1 = w[0];
    let si1 = w[1];
    let co2 = w[2];
    let si2 = w[3];
    let co3 = w[4];
    let si3 = w[5];
    if !inverse {
        let b1 = (r2 + u1) as i32;
        let b2 = (r2 - u1) as i32;
        let d1 = (s2 - u2) as i32;
        let d2 = (s2 + u2) as i32;
        seq![
            o0r,
            o0i,
            ((mul_hi32(a, co2) + mul_hi32(c, si2)) as i32) << 1i32,
            ((mul_hi32(c, co2) - mul_hi32(a, si2)) as i32) << 1i32,
            ((mul_hi32(b1, co1) + mul_hi32(d1, si1)) as i32) << 1i32,
            ((mul_hi32(d1, co1) - mul_hi32(b1, si1)) as i32) << 1i32,
            ((mul_hi32(b2, co3) + mul_hi32(d2, si3)) as i32) << 1i32,
            ((mul_hi32(d2, co3) - mul_hi32(b2, si3)) as i32) << 1i32,
        ]
    } else {
        let b1 = (r2 - u1) as i32;
        let b2 = (r2 + u1) as i32;
        let d1 = (s2 + u2) as i32;
        let d2 = (s2 - u2) as i32;
        seq![
            o0r,
            o0i,
            ((mul_hi32(a, co2) - mul_hi32(c, si2)) as i32) << 1i32,
            ((mul_hi32(c, co2) + mul_hi32(a, si2)) as i32) << 1i32,
            ((mul_hi32(b1, co1) - mul_hi32(d1, si1)) as i32) << 1i32,
            ((mul_hi32(d1, co1) + mul_hi32(b1, si1)) as i32) << 1i32,
            ((mul_hi32(b2, co3) - mul_hi32(d2, si3)) as i32) << 1i32,
            ((mul_hi32(d2, co3) + mul_hi32(b2, si3)) as i32) << 1i32,
        ]
    }
}

/// Middle radix-4 stage of the Q31 transform; sums wrap on overflow.
pub open spec fn r4_mid_i32(x: Seq<i32>, w: Seq<i32>, inverse: bool) -> Seq<i32> {
    let r1 = wadd32(x[0], x[4]);
    let r2 = wsub32(x[0], x[4]);
    let s1 = wadd32(x[1], x[5]);
    let s2 = wsub32(x[1], x[5]);
    let t1 = wadd32(x[2], x[6]);
    let t2 = wadd32(x[3], x[7]);
    let o0r = wadd32(r1, t1) >> 2i32;
    let o0i = wadd32(s1, t2) >> 2i32;
    let a = wsub32(r1, t1);
    let c = wsub32(s1, t2);
    let u1 = wsub32(x[3], x[7]);
    let u2 = wsub32(x[2], x[6]);
    let co1 = w[0];
    let si1 = w[1];
    let co2 = w[2];
    let si2 = w[3];
    let co3 = w[4];
    let si3 = w[5];
    if !inverse {
        let b1 = wadd32(r2, u1);
        let b2 = wsub32(r2, u1);
        let d1 = wsub32(s2, u2);
        let d2 = wadd32(s2, u2);
        seq![
            o0r,
            o0i,
            wadd32(mul_hi32(a, co2), mul_hi32(c, si2)) >> 1i32,
            wsub32(mul_hi32(c, co2), mul_hi32(a, si2)) >> 1i32,
            wadd32(mul_hi32(b1, co1), mul_hi32(d1, si1)) >> 1i32,
            wsub32(mul_hi32(d1, co1), mul_hi32(b1, si1)) >> 1i32,
            wadd32(mul_hi32(b2, co3), mul_hi32(d2, si3)) >> 1i32,
            wsub32(mul_hi32(d2, co3), mul_hi32(b2, si3)) >> 1i32,
        ]
    } else {
        let b1 = wsub32(r2, u1);
        let b2 = wadd32(r2, u1);
        let d1 = wadd32(s2, u2);
        let d2 = wsub32(s2, u2);
        seq![
            o0r,
            o0i,
            wsub32(mul_hi32(a, co2), mul_hi32(c, si2)) >> 1i32,
            wadd32(mul_hi32(c, co2), mul_hi32(a, si2)) >> 1i32,
            wsub32(mul_hi32(b1, co1), mul_hi32(d1, si1)) >> 1i32,
            wadd32(mul_hi32(d1, co1), mul_hi32(b1, si1)) >> 1i32,
            wsub32(mul_hi32(b2, co3), mul_hi32(d2, si3)) >> 1i32,
            wadd32(mul_hi32(d2, co3), mul_hi32(b2, si3)) >> 1i32,
        ]
    }
}

/// Last radix-4 stage of the Q31 transform: a plain 4-point transform, sums wrapping.
pub open spec fn r4_last_i32(x: Seq<i32>, inverse: bool) -> Seq<i32> {
    let xa = x[0];
    let ya = x[1];
    let xb = x[2];
    let yb = x[3];
    let xc = x[4];
    let yc = x[5];
    let xd = x[6];
    let yd = x[7];
    let p = wsub32(wsub32(wadd32(xa, yb), xc), yd);
    let q = wadd32(wsub32(wsub32(ya, xb), yc), xd);
    let m = wadd32(wsub32(wsub32(xa, yb), xc), yd);
    let z = wsub32(wsub32(wadd32(ya, xb), yc), xd);
    let o0 = wadd32(wadd32(wadd32(xa, xb), xc), xd);
    let o1 = wadd32(wadd32(wadd32(ya, yb), yc), yd);
    let o2 = wsub32(wadd32(wsub32(xa, xb), xc), xd);
    let o3 = wsub32(wadd32(wsub32(ya, yb), yc), yd);
    if !inverse {
        seq![o0, o1, o2, o3, p, q, m, z]
    } else {
        seq![o0, o1, o2, o3, m, z, p, q]
    }
}

/// The first Q31 radix-4 stage computes a radix-4 DFT butterfly on its inputs
/// scaled by `1/16`: output 0 is `X0 / 16` (rounded down, within four units)
/// and the outputs in positions 1, 2, 3 are `X2`, `X1`, `X3` times the twiddles
/// `W2`, `W1`, `W3` (`cos - i sin` forward, `cos + i sin` inverse, Q31),
/// divided by `16`, to within eight units; for every input.
pub proof fn lemma_r4_first_i32_butterfly(x: Seq<i32>, w: Seq<i32>, inverse: bool)
    requires
        x.len() == 8,
        w.len() == 6,
    ensures
        ({
            let y = r4_first_i32(x, w, inverse);
            let g: int = if inverse { 1 } else { -1 };
            let xs = Seq::new(8, |k: int| x[k] as int);
            let d = dft4(xs, g);
            &&& y[0] * 16 <= d[0] < y[0] * 16 + 64
            &&& y[1] * 16 <= d[1] < y[1] * 16 + 64
            &&& forall|p: int|
                1 <= p <= 3 ==> {
                    let leg = if p == 1 { 2int } else if p == 2 { 1int } else { 3int };
                    let c = w[2 * leg - 2] as int;
                    let sn = g * (w[2 * leg - 1] as int);
                    let ur = d[2 * leg];
                    let ui = d[2 * leg + 1];
                    &&& #[trigger] y[2 * p] * 0x8_0000_0000 - 0x40_0000_0000 < cmul_re(ur, ui, c, sn)
                        < y[2 * p] * 0x8_0000_0000 + 0x40_0000_0000
                    &&& y[2 * p + 1] * 0x8_0000_0000 - 0x40_0000_0000 < cmul_im(ur, ui, c, sn) < y[2
                        * p + 1] * 0x8_0000_0000 + 0x40_0000_0000
                }
        }),
{
    lemma_shr_floor();
    let y = r4_first_i32(x, w, inverse);
    let g: int = if inverse { 1 } else { -1 };
    let xs = Seq::new(8, |k: int| x[k] as int);
    let d = dft4(xs, g);
    lemma_shr4_i32(x[0]);
    lemma_shr4_i32(x[1]);
    lemma_shr4_i32(x[2]);
    lemma_shr4_i32(x[3]);
    lemma_shr4_i32(x[4]);
    lemma_shr4_i32(x[5]);
    lemma_shr4_i32(x[6]);
    lemma_shr4_i32(x[7]);
    let h0 = sixteenth32(x[0]) as int;
    let h1 = sixteenth32(x[1]) as int;
    let h2 = sixteenth32(x[2]) as int;
    let h3 = sixteenth32(x[3]) as int;
    let h4 = sixteenth32(x[4]) as int;
    let h5 = sixteenth32(x[5]) as int;
    let h6 = sixteenth32(x[6]) as int;
    let h7 = sixteenth32(x[7]) as int;
    assert(h0 * 16 <= x[0] < h0 * 16 + 16 && h1 * 16 <= x[1] < h1 * 16 + 16);
    assert(h2 * 16 <= x[2] < h2 * 16 + 16 && h3 * 16 <= x[3] < h3 * 16 + 16);
    assert(h4 * 16 <= x[4] < h4 * 16 + 16 && h5 * 16 <= x[5] < h5 * 16 + 16);
    assert(h6 * 16 <= x[6] < h6 * 16 + 16 && h7 * 16 <= x[7] < h7 * 16 + 16);
    let a = (h0 + h4 - (h2 + h6)) as i32;
    let c = (h1 + h5 - (h3 + h7)) as i32;
    assert(-32 < 16 * a - d[4] < 32 && -32 < 16 * c - d[5] < 32);
    let e1 = x[3] - x[7];
    let e2 = x[2] - x[6];
    if !inverse {
        assert(g * e1 == -e1 && g * e2 == -e2) by (nonlinear_arith)
            requires
                g == -1,
        ;
        let b1 = (h0 - h4 + (h3 - h7)) as i32;
        let b2 = (h0 - h4 - (h3 - h7)) as i32;
        let d1 = (h1 - h5 - (h2 - h6)) as i32;
        let d2 = (h1 - h5 + (h2 - h6)) as i32;
        assert(-32 < 16 * b1 - d[2] < 32 && -32 < 16 * d1 - d[3] < 32);
        assert(-32 < 16 * b2 - d[6] < 32 && -32 < 16 * d2 - d[7] < 32);
        lemma_rot_q31_sixteenth(a, c, d[4], d[5], w[2], w[3], inverse);
        lemma_rot_q31_sixteenth(b1, d1, d[2], d[3], w[0], w[1], inverse);
        lemma_rot_q31_sixteenth(b2, d2, d[6], d[7], w[4], w[5], inverse);
    } else {
        let b1 = (h0 - h4 - (h3 - h7)) as i32;
        let b2 = (h0 - h4 + (h3 - h7)) as i32;
        let d1 = (h1 - h5 + (h2 - h6)) as i32;
        let d2 = (h1 - h5 - (h2 - h6)) as i32;
        assert(-32 < 16 * b1 - d[2] < 32 && -32 < 16 * d1 - d[3] < 32);
        assert(-32 < 16 * b2 - d[6] < 32 && -32 < 16 * d2 - d[7] < 32);
        lemma_rot_q31_sixteenth(a, c, d[4], d[5], w[2], w[3], inverse);
        lemma_rot_q31_sixteenth(b1, d1, d[2], d[3], w[0], w[1], inverse);
        lemma_rot_q31_sixteenth(b2, d2, d[6], d[7], w[4], w[5], inverse);
    }
}

/// A middle Q31 radix-4 stage computes a radix-4 DFT butterfly: on legs below
/// `2^28` in magnitude, output 0 is `X0 / 4` (rounded down) and the outputs in
/// positions 1, 2, 3 are `X2`, `X1`, `X3` times the twiddles `W2`, `W1`, `W3`
/// (`cos - i sin` forward, `cos + i sin` inverse, Q31), divided by `4`, to
/// within two units.
pub proof fn lemma_r4_mid_i32_butterfly(x: Seq<i32>, w: Seq<i32>, inverse: bool)
    requires
        x.len() == 8,
        w.len() == 6,
        forall|k: int| 0 <= k < 8 ==> -0x1000_0000 < #[trigger] x[k] < 0x1000_0000,
    ensures
        ({
            let y = r4_mid_i32(x, w, inverse);
            let g: int = if inverse { 1 } else { -1 };
            let xs = Seq::new(8, |k: int| x[k] as int);
            let d = dft4(xs, g);
            &&& y[0] * 4 <= d[0] < y[0] * 4 + 4
            &&& y[1] * 4 <= d[1] < y[1] * 4 + 4
            &&& forall|p: int|
                1 <= p <= 3 ==> {
                    let leg = if p == 1 { 2int } else if p == 2 { 1int } else { 3int };
                    let c = w[2 * leg - 2] as int;
                    let sn = g * (w[2 * leg - 1] as int);
                    let ur = d[2 * leg];
                    let ui = d[2 * leg + 1];
                    &&& #[trigger] y[2 * p] * 0x2_0000_0000 - 0x4_0000_0000 < cmul_re(ur, ui, c, sn)
                        < y[2 * p] * 0x2_0000_0000 + 0x4_0000_0000
                    &&& y[2 * p + 1] * 0x2_0000_0000 - 0x4_0000_0000 < cmul_im(ur, ui, c, sn) < y[2
                        * p + 1] * 0x2_0000_0000 + 0x4_0000_0000
                }
        }),
{
    lemma_shr_floor();
    let y = r4_mid_i32(x, w, inverse);
    let g: int = if inverse { 1 } else { -1 };
    let xs = Seq::new(8, |k: int| x[k] as int);
    let d = dft4(xs, g);
    assert(-0x1000_0000 < x[0] < 0x1000_0000 && -0x1000_0000 < x[1] < 0x1000_0000);
    assert(-0x1000_0000 < x[2] < 0x1000_0000 && -0x1000_0000 < x[3] < 0x1000_0000);
    assert(-0x1000_0000 < x[4] < 0x1000_0000 && -0x1000_0000 < x[5] < 0x1000_0000);
    assert(-0x1000_0000 < x[6] < 0x1000_0000 && -0x1000_0000 < x[7] < 0x1000_0000);
    let r1 = wadd32(x[0], x[4]);
    let r2 = wsub32(x[0], x[4]);
    let s1 = wadd32(x[1], x[5]);
    let s2 = wsub32(x[1], x[5]);
    let t1 = wadd32(x[2], x[6]);
    let t2 = wadd32(x[3], x[7]);
    let a = wsub32(r1, t1);
    let c = wsub32(s1, t2);
    let u1 = wsub32(x[3], x[7]);
    let u2 = wsub32(x[2], x[6]);
    assert(a == d[4] && c == d[5]);
    assert(wadd32(r1, t1) == d[0] && wadd32(s1, t2) == d[1]);
    if !inverse {
        let b1 = wadd32(r2, u1);
        let b2 = wsub32(r2, u1);
        let d1 = wsub32(s2, u2);
        let d2 = wadd32(s2, u2);
        let e1 = x[3] - x[7];
        let e2 = x[2] - x[6];
        assert(g * e1 == -e1 && g * e2 == -e2) by (nonlinear_arith)
            requires
                g == -1,
        ;
        assert(b1 == d[2] && d1 == d[3] && b2 == d[6] && d2 == d[7]);
        lemma_rot_q31_half(a, c, w[2], w[3], inverse);
        lemma_rot_q31_half(b1, d1, w[0], w[1], inverse);
        lemma_rot_q31_half(b2, d2, w[4], w[5], inverse);
    } else {
        let b1 = wsub32(r2, u1);
        let b2 = wadd32(r2, u1);
        let d1 = wadd32(s2, u2);
        let d2 = wsub32(s2, u2);
        assert(b1 == d[2] && d1 == d[3] && b2 == d[6] && d2 == d[7]);
        lemma_rot_q31_half(a, c, w[2], w[3], inverse);
        lemma_rot_q31_half(b1, d1, w[0], w[1], inverse);
        lemma_rot_q31_half(b2, d2, w[4], w[5], inverse);
    }
    assert(y[0] == wadd32(r1, t1) >> 2i32 && y[1] == wadd32(s1, t2) >> 2i32);
}

/// The last Q31 radix-4 stage is an exact radix-4 DFT butterfly without
/// twiddles: on legs below `2^29` in magnitude, the outputs in positions 0, 1,
/// 2, 3 are `X0`, `X2`, `X1`, `X3`.
pub proof fn lemma_r4_last_i32_butterfly(x: Seq<i32>, inverse: bool)
    requires
        x.len() == 8,
        forall|k: int| 0 <= k < 8 ==> -0x2000_0000 < #[trigger] x[k] < 0x2000_0000,
    ensures
        ({
            let y = r4_last_i32(x, inverse);
            let g: int = if inverse { 1 } else { -1 };
            let xs = Seq::new(8, |k: int| x[k] as int);
            let d = dft4(xs, g);
            forall|p: int, h: int|
                0 <= p <= 3 && 0 <= h <= 1 ==> {
                    let leg = if p == 1 { 2int } else if p == 2 { 1int } else if p == 3 { 3int } else { 0int };
                    #[trigger] y[2 * p + h] == d[2 * leg + h]
                }
        }),
{
    assert(-0x2000_0000 < x[0] < 0x2000_0000 && -0x2000_0000 < x[1] < 0x2000_0000);
    assert(-0x2000_0000 < x[2] < 0x2000_0000 && -0x2000_0000 < x[3] < 0x2000_0000);
    assert(-0x2000_0000 < x[4] < 0x2000_0000 && -0x2000_0000 < x[5] < 0x2000_0000);
    assert(-0x2000_0000 < x[6] < 0x2000_0000 && -0x2000_0000 < x[7] < 0x2000_0000);
}

/// The Q31 butterfly applied to one group, by kind of stage (0 first, 1 middle, 2 last).
#[verifier::opaque]
pub open spec fn r4_kernel_i32(x: Seq<i32>, w: Seq<i32>, kind: int, inverse: bool) -> Seq<i32> {
    if kind == 0 {
        r4_first_i32(x, w, inverse)
    } else if kind == 1 {
        r4_mid_i32(x, w, inverse)
    } else {
        r4_last_i32(x, inverse)
    }
}

/// The three Q31 twiddle factors of twiddle index `ic`.
pub open spec fn twiddle3_i32(tw: Seq<u32>, ic: int) -> Seq<i32> {
    seq![
        tw[2 * ic] as i32,
        tw[2 * ic + 1] as i32,
        tw[4 * ic] as i32,
        tw[4 * ic + 1] as i32,
        tw[6 * ic] as i32,
        tw[6 * ic + 1] as i32,
    ]
}

/// Group function of one Q31 radix-4 stage whose twiddle stride is `tm`.
pub open spec fn r4_group_i32(tw: Seq<u32>, tm: int, kind: int, inverse: bool) -> spec_fn(
    Seq<i32>,
    int,
) -> Seq<i32> {
    |x: Seq<i32>, j: int| r4_kernel_i32(x, twiddle3_i32(tw, j * tm), kind, inverse)
}

fn r4_first_i32_exec(x: [i32; 8], w: [i32; 6], inverse: bool) -> (o: [i32; 8])
    ensures
        o@ == r4_first_i32(x@, w@, inverse),
{
    proof {
        lemma_shr4_i32(x[0]);
        lemma_shr4_i32(x[1]);
        lemma_shr4_i32(x[2]);
        lemma_shr4_i32(x[3]);
        lemma_shr4_i32(x[4]);
        lemma_shr4_i32(x[5]);
        lemma_shr4_i32(x[6]);
        lemma_shr4_i32(x[7]);
    }
    let r1 = (x[0] >> 4) + (x[4] >> 4);
    let r2 = (x[0] >> 4) - (x[4] >> 4);
    let t1 = (x[2] >> 4) + (x[6] >> 4);
    let s1 = (x[1] >> 4) + (x[5] >> 4);
    let s2 = (x[1] >> 4) - (x[5] >> 4);
    let t2 = (x[3] >> 4) + (x[7] >> 4);
    let o0r = r1 + t1;
    let o0i = s1 + t2;
    let a = r1 - t1;
    let c = s1 - t2;
    let u1 = (x[3] >> 4) - (x[7] >> 4);
    let u2 = (x[2] >> 4) - (x[6] >> 4);
    let co1 = w[0];
    let si1 = w[1];
    let co2 = w[2];
    let si2 = w[3];
    let co3 = w[4];
    let si3 = w[5];
    proof {
        lemma_mul_hi32_small(a, co2);
        lemma_mul_hi32_small(c, si2);
        lemma_mul_hi32_small(c, co2);
        lemma_mul_hi32_small(a, si2);
    }
    let o = if !inverse {
        let b1 = r2 + u1;
        let b2 = r2 - u1;
        let d1 = s2 - u2;
        let d2 = s2 + u2;
        proof {
            lemma_mul_hi32_small(b1, co1);
            lemma_mul_hi32_small(d1, si1);
            lemma_mul_hi32_small(d1, co1);
            lemma_mul_hi32_small(b1, si1);
            lemma_mul_hi32_small(b2, co3);
            lemma_mul_hi32_small(d2, si3);
            lemma_mul_hi32_small(d2, co3);
            lemma_mul_hi32_small(b2, si3);
        }
        [
            o0r,
            o0i,
            (mul_hi32_exec(a, co2) + mul_hi32_exec(c, si2)) << 1,
            (mul_hi32_exec(c, co2) - mul_hi32_exec(a, si2)) << 1,
            (mul_hi32_exec(b1, co1) + mul_hi32_exec(d1, si1)) << 1,
            (mul_hi32_exec(d1, co1) - mul_hi32_exec(b1, si1)) << 1,
            (mul_hi32_exec(b2, co3) + mul_hi32_exec(d2, si3)) << 1,
            (mul_hi32_exec(d2, co3) - mul_hi32_exec(b2, si3)) << 1,
        ]
    } else {
        let b1 = r2 - u1;
        let b2 = r2 + u1;
        let d1 = s2 + u2;
        let d2 = s2 - u2;
        proof {
            lemma_mul_hi32_small(b1, co1);
            lemma_mul_hi32_small(d1, si1);
            lemma_mul_hi32_small(d1, co1);
            lemma_mul_hi32_small(b1, si1);
            lemma_mul_hi32_small(b2, co3);
            lemma_mul_hi32_small(d2, si3);
            lemma_mul_hi32_small(d2, co3);
            lemma_mul_hi32_small(b2, si3);
        }
        [
            o0r,
            o0i,
            (mul_hi32_exec(a, co2) - mul_hi32_exec(c, si2)) << 1,
            (mul_hi32_exec(c, co2) + mul_hi32_exec(a, si2)) << 1,
            (mul_hi32_exec(b1, co1) - mul_hi32_exec(d1, si1)) << 1,
            (mul_hi32_exec(d1, co1) + mul_hi32_exec(b1, si1)) << 1,
            (mul_hi32_exec(b2, co3) - mul_hi32_exec(d2, si3)) << 1,
            (mul_hi32_exec(d2, co3) + mul_hi32_exec(b2, si3)) << 1,
        ]
    };
    assert(o@ =~= r4_first_i32(x@, w@, inverse));
    o
}

fn r4_mid_i32_exec(x: [i32; 8], w: [i32; 6], inverse: bool) -> (o: [i32; 8])
    ensures
        o@ == r4_mid_i32(x@, w@, inverse),
{
    let r1 = x[0].wrapping_add(x[4]);
    let r2 = x[0].wrapping_sub(x[4]);
    let s1 = x[1].wrapping_add(x[5]);
    let s2 = x[1].wrapping_sub(x[5]);
    let t1 = x[2].wrapping_add(x[6]);
    let t2 = x[3].wrapping_add(x[7]);
    let o0r = r1.wrapping_add(t1) >> 2;
    let o0i = s1.wrapping_add(t2) >> 2;
    let a = r1.wrapping_sub(t1);
    let c = s1.wrapping_sub(t2);
    let u1 = x[3].wrapping_sub(x[7]);
    let u2 = x[2].wrapping_sub(x[6]);
    let co1 = w[0];
    let si1 = w[1];
    let co2 = w[2];
    let si2 = w[3];
    let co3 = w[4];
    let si3 = w[5];
    let o = if !inverse {
        let b1 = r2.wrapping_add(u1);
        let b2 = r2.wrapping_sub(u1);
        let d1 = s2.wrapping_sub(u2);
        let d2 = s2.wrapping_add(u2);
        [
            o0r,
            o0i,
            mul_hi32_exec(a, co2).wrapping_add(mul_hi32_exec(c, si2)) >> 1,
            mul_hi32_exec(c, co2).wrapping_sub(mul_hi32_exec(a, si2)) >> 1,
            mul_hi32_exec(b1, co1).wrapping_add(mul_hi32_exec(d1, si1)) >> 1,
            mul_hi32_exec(d1, co1).wrapping_sub(mul_hi32_exec(b1, si1)) >> 1,
            mul_hi32_exec(b2, co3).wrapping_add(mul_hi32_exec(d2, si3)) >> 1,
            mul_hi32_exec(d2, co3).wrapping_sub(mul_hi32_exec(b2, si3)) >> 1,
        ]
    } else {
        let b1 = r2.wrapping_sub(u1);
        let b2 = r2.wrapping_add(u1);
        let d1 = s2.wrapping_add(u2);
        let d2 = s2.wrapping_sub(u2);
        [
            o0r,
            o0i,
            mul_hi32_exec(a, co2).wrapping_sub(mul_hi32_exec(c, si2)) >> 1,
            mul_hi32_exec(c, co2).wrapping_add(mul_hi32_exec(a, si2)) >> 1,
            mul_hi32_exec(b1, co1).wrapping_sub(mul_hi32_exec(d1, si1)) >> 1,
            mul_hi32_exec(d1, co1).wrapping_add(mul_hi32_exec(b1, si1)) >> 1,
            mul_hi32_exec(b2, co3).wrapping_sub(mul_hi32_exec(d2, si3)) >> 1,
            mul_hi32_exec(d2, co3).wrapping_add(mul_hi32_exec(b2, si3)) >> 1,
        ]
    };
    assert(o@ =~= r4_mid_i32(x@, w@, inverse));
    o
}

fn r4_last_i32_exec(x: [i32; 8], inverse: bool) -> (o: [i32; 8])
    ensures
        o@ == r4_last_i32(x@, inverse),
{
    let xa = x[0];
    let ya = x[1];
    let xb = x[2];
    let yb = x[3];
    let xc = x[4];
    let yc = x[5];
    let xd = x[6];
    let yd = x[7];
    let p = xa.wrapping_add(yb).wrapping_sub(xc).wrapping_sub(yd);
    let q = ya.wrapping_sub(xb).wrapping_sub(yc).wrapping_add(xd);
    let m = xa.wrapping_sub(yb).wrapping_sub(xc).wrapping_add(yd);
    let z = ya.wrapping_add(xb).wrapping_sub(yc).wrapping_sub(xd);
    let o0 = xa.wrapping_add(xb).wrapping_add(xc).wrapping_add(xd);
    let o1 = ya.wrapping_add(yb).wrapping_add(yc).wrapping_add(yd);
    let o2 = xa.wrapping_sub(xb).wrapping_add(xc).wrapping_sub(xd);
    let o3 = ya.wrapping_sub(yb).wrapping_add(yc).wrapping_sub(yd);
    let o = if !inverse {
        [o0, o1, o2, o3, p, q, m, z]
    } else {
        [o0, o1, o2, o3, m, z, p, q]
    };
    assert(o@ =~= r4_last_i32(x@, inverse));
    o
}

fn r4_kernel_i32_exec(x: [i32; 8], w: [i32; 6], kind: u8, inverse: bool) -> (o: [i32; 8])
    ensures
        o@ == r4_kernel_i32(x@, w@, kind as int, inverse),
{
    reveal(r4_kernel_i32);
    if kind == 0 {
        r4_first_i32_exec(x, w, inverse)
    } else if kind == 1 {
        r4_mid_i32_exec(x, w, inverse)
    } else {
        r4_last_i32_exec(x, inverse)
    }
}

/// One Q31 radix-4 stage of span `n1` over the first `n` complex samples.
fn r4_stage_i32(
    data: &mut [i32],
    n: usize,
    n1: usize,
    tw: &[u32],
    tm: u16,
    kind: u8,
    inverse: bool,
)
    requires
        stage_shape(n as int, n1 as int, 4),
        2 * n <= old(data).len(),
        kind <= 2,
        kind != 2 ==> 6 * ((n1 / 4 - 1) * tm) + 1 < tw.len(),
    ensures
        final(data)@ == stage(
            old(data)@,
            n as int,
            n1 as int,
            4,
            r4_group_i32(tw@, tm as int, kind as int, inverse),
        ),
{
    let n2 = n1 / 4;
    let ghost s = data@;
    let ghost f = r4_group_i32(tw@, tm as int, kind as int, inverse);
    let ghost b = n as int / n1 as int;
    proof {
        lemma_shape_facts(n as int, n1 as int, 4);
        lemma_stage_start(s, n as int, n1 as int, 4, f);
        assert(0 * b == 0);
    }
    let mut j: usize = 0;
    while j < n2
        invariant
            stage_shape(n as int, n1 as int, 4),
            n1 == 4 * n2,
            n2 > 0,
            n == n1 * b,
            b > 0,
            b == n as int / n1 as int,
            2 * n <= s.len(),
            2 * n <= usize::MAX,
            s.len() == data@.len(),
            f == r4_group_i32(tw@, tm as int, kind as int, inverse),
            kind <= 2,
            kind != 2 ==> 6 * ((n1 / 4 - 1) * tm) + 1 < tw.len(),
            0 <= j <= n2,
            data@ == stage_partial(s, n as int, n1 as int, 4, f, j * b),
        decreases n2 - j,
    {
        let mut w: [i32; 6] = [0; 6];
        if kind != 2 {
            proof {
                assert(j * tm <= (n2 - 1) * tm) by (nonlinear_arith)
                    requires
                        j <= n2 - 1,
                ;
            }
            let ic = j * (tm as usize);
            w = [
                #[verifier::truncate] (tw[2 * ic] as i32),
                #[verifier::truncate] (tw[2 * ic + 1] as i32),
                #[verifier::truncate] (tw[4 * ic] as i32),
                #[verifier::truncate] (tw[4 * ic + 1] as i32),
                #[verifier::truncate] (tw[6 * ic] as i32),
                #[verifier::truncate] (tw[6 * ic + 1] as i32),
            ];
            assert(w@ =~= twiddle3_i32(tw@, j * tm));
        }
        let mut i0 = j;
        let mut t: usize = 0;
        while i0 < n
            invariant
                stage_shape(n as int, n1 as int, 4),
                n1 == 4 * n2,
                n2 > 0,
                n == n1 * b,
                b > 0,
                b == n as int / n1 as int,
                2 * n <= s.len(),
                2 * n <= usize::MAX,
                s.len() == data@.len(),
                f == r4_group_i32(tw@, tm as int, kind as int, inverse),
                kind <= 2,
                0 <= j < n2,
                kind != 2 ==> w@ == twiddle3_i32(tw@, j * tm),
                i0 == t * n1 + j,
                t <= b,
                data@ == stage_partial(s, n as int, n1 as int, 4, f, j * b + t),
            decreases b - t,
        {
            proof {
                lemma_group_walk(n as int, n1 as int, n2 as int, 4, b, t as int, j as int);
            }
            let x = load_group4(data, i0, n2);
            let y = r4_kernel_i32_exec(x, w, kind, inverse);
            proof {
                lemma_stage_step(s, n as int, n1 as int, 4, f, j as int, t as int);
                if kind == 2 {
                    reveal(r4_kernel_i32);
                }
                assert(y@ == f(gather(s, t * n1 + j, n2 as int, 4), j as int));
            }
            store_group4(data, i0, n2, y);
            i0 = i0 + n1;
            t = t + 1;
        }
        proof {
            lemma_group_walk(n as int, n1 as int, n2 as int, 4, b, t as int, j as int);
            assert(j * b + t == (j + 1) * b) by (nonlinear_arith)
                requires
                    t == b,
            ;
        }
        j = j + 1;
    }
    proof {
        lemma_stage_end(s, n as int, n1 as int, 4, f, n2 * b);
    }
}

/// The middle stages of the Q31 network, from span `n1` down to span 16.
pub open spec fn r4_mid_stages_i32(
    s: Seq<i32>,
    n: int,
    n1: int,
    tw: Seq<u32>,
    tm: int,
    inverse: bool,
) -> Seq<i32>
    decreases n1,
{
    if n1 > 4 {
        r4_mid_stages_i32(
            stage(s, n, n1, 4, r4_group_i32(tw, tm, 1, inverse)),
            n,
            n1 / 4,
            tw,
            (tm * 4) % 65536,
            inverse,
        )
    } else {
        s
    }
}

/// The whole Q31 radix-4 butterfly network over `n` complex samples, `tm` being the
/// stride through the twiddle table of the first stage; the output is left in
/// bit-reversed order.
pub open spec fn radix4_i32(s: Seq<i32>, n: int, tw: Seq<u32>, tm: int, inverse: bool) -> Seq<
    i32,
> {
    let first = stage(s, n, n, 4, r4_group_i32(tw, tm, 0, inverse));
    let mid = r4_mid_stages_i32(first, n, n / 4, tw, (tm * 4) % 65536, inverse);
    stage(mid, n, 4, 4, r4_group_i32(tw, 0, 2, inverse))
}

pub(crate) fn radix4_i32_run(data: &mut [i32], n: usize, tw: &[u32], tm0: u16, inverse: bool)
    requires
        radix4_args_ok(old(data).len() as int, n as int, tw.len() as int, tm0 as int),
    ensures
        final(data)@ == radix4_i32(old(data)@, n as int, tw@, tm0 as int, inverse),
        final(data)@.len() == old(data)@.len(),
{
    let ghost len0 = data@.len();
    let ghost bound = (n / 4 - 1) * tm0;
    proof {
        lemma_pow4_step(n as int);
        lemma_pow4_step(n as int / 4);
        assert(n % n == 0);
    }
    r4_stage_i32(data, n, n, tw, tm0, 0, inverse);
    let ghost first = data@;
    let mut n2 = n >> 2;
    let mut k = n / 4;
    let mut tm: u16 = tm0 << 2;
    proof {
        lemma_shl2_u16(tm0);
        assert(n >> 2 == n / 4) by (bit_vector);
        assert(n % n2 == 0) by {
            vstd::arithmetic::div_mod::lemma_fundamental_div_mod(n as int, 4);
            vstd::arithmetic::div_mod::lemma_mod_multiples_basic(4, n2 as int);
        }
        assert((n2 / 4 - 1) * tm <= bound) by (nonlinear_arith)
            requires
                tm <= 4 * tm0,
                n2 == n / 4,
                n2 >= 4,
                n2 % 4 == 0,
                bound == (n / 4 - 1) * tm0,
        ;
    }
    while k > 4
        invariant
            radix4_args_ok(data@.len() as int, n as int, tw.len() as int, tm0 as int),
            data@.len() == len0,
            bound == (n / 4 - 1) * tm0,
            k == n2,
            is_pow4(n2 as int),
            n2 >= 4,
            n2 <= n / 4,
            n % n2 == 0,
            (n2 / 4 - 1) * tm <= bound,
            r4_mid_stages_i32(data@, n as int, n2 as int, tw@, tm as int, inverse)
                == r4_mid_stages_i32(first, n as int, n as int / 4, tw@, (tm0 * 4) % 65536, inverse),
        decreases k,
    {
        proof {
            lemma_pow4_step(n2 as int);
            lemma_pow4_step(n2 as int / 4);
        }
        let n1 = n2;
        let ghost k_old = k;
        n2 = n2 >> 2;
        r4_stage_i32(data, n, n1, tw, tm, 1, inverse);
        let ghost tm_old = tm;
        tm = tm << 2;
        k = k >> 2;
        proof {
            lemma_shl2_u16(tm_old);
            assert(n1 >> 2 == n1 / 4) by (bit_vector);
            assert(k_old >> 2 == k_old / 4) by (bit_vector);
            assert(n % n2 == 0) by {
                vstd::arithmetic::div_mod::lemma_fundamental_div_mod(n as int, n1 as int);
                vstd::arithmetic::div_mod::lemma_fundamental_div_mod(n1 as int, 4);
                assert(n == (n / n1 * 4) * n2) by (nonlinear_arith)
                    requires
                        n == n1 * (n / n1),
                        n1 == 4 * n2,
                ;
                vstd::arithmetic::div_mod::lemma_mod_multiples_basic(n / n1 * 4, n2 as int);
            }
            assert((n2 / 4 - 1) * tm <= bound) by (nonlinear_arith)
                requires
                    tm <= 4 * tm_old,
                    n1 == 4 * n2,
                    (n1 / 4 - 1) * tm_old <= bound,
                    n2 >= 4,
                    n2 % 4 == 0,
            ;
        }
    }
    proof {
        lemma_pow4_step(n as int);
    }
    r4_stage_i32(data, n, 4, tw, 0, 2, inverse);
}

/// Radix-4 decimation-in-frequency butterflies of the forward Q31 transform
/// over `n_fft` interleaved complex samples, in place; the output is in
/// bit-reversed order.  `twiddle_modifier` is the stride of the first stage
/// through `twiddles`, each later stage using four times the previous one.
///
/// `n_fft` is a power of four, at least 16 (see `radix4_butterfly_i16`).
pub fn radix4_butterfly_i32(
    data: &mut [i32],
    n_fft: usize,
    twiddles: &[u32],
    twiddle_modifier: u16,
)
    requires
        radix4_args_ok(
            old(data).len() as int,
            n_fft as int,
            twiddles.len() as int,
            twiddle_modifier as int,
        ),
    ensures
        final(data)@ == radix4_i32(
            old(data)@,
            n_fft as int,
            twiddles@,
            twiddle_modifier as int,
            false,
        ),
{
    radix4_i32_run(data, n_fft, twiddles, twiddle_modifier, false)
}

/// Radix-4 butterflies of the inverse Q31 transform (conjugate twiddles).
///
/// `n_fft` is a power of four, at least 16 (see `radix4_butterfly_i16`).
pub fn radix4_butterfly_inverse_i32(
    data: &mut [i32],
    n_fft: usize,
    twiddles: &[u32],
    twiddle_modifier: u16,
)
    requires
        radix4_args_ok(
            old(data).len() as int,
            n_fft as int,
            twiddles.len() as int,
            twiddle_modifier as int,
        ),
    ensures
        final(data)@ == radix4_i32(
            old(data)@,
            n_fft as int,
            twiddles@,
            twiddle_modifier as int,
            true,
        ),
{
    radix4_i32_run(data, n_fft, twiddles, twiddle_modifier, true)
}

} // verus!
