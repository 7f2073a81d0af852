//! Mel-frequency cepstral coefficients of one frame (CMSIS `arm_mfcc_q15` /
//! `arm_mfcc_q31`), built from the library's own kernels.
use crate::basic::div::{div_i16, div_i32, div_q15, div_q31};
use crate::basic::dot::{dot_q15, dot_q31, products_q15, products_q31};
use crate::basic::offset::offset_i32;
use crate::basic::scale::{scale_i16, scale_i32, scale_q15, scale_q31};
use crate::basic::shift::{shift_i32, shift_q31};
use crate::basic::vlog::{log_q31, vlog_i32_in_place};
use crate::complex::cmplx_mag::{cmplx_mag_i16, cmplx_mag_i32, mag_q15, mag_q31};
use crate::matrix::mat_vec_mul::sat_i16_wide;
use crate::qmath::{
    clamp16, clamp32, lemma_shr_floor, lemma_wrap64_unique, lemma_wrapping_add_wrap64, sat_i16, sat_i32,
    sum_int, wrap64,
};
use crate::statistics::absmax::{absmax_i16, absmax_i32, max_abs_q15, max_abs_q31};
use crate::transform::bitreversal::{fft_len_ok, log2, log2_exec};
use crate::transform::rfft::{rfft_i16, rfft_i32, rfft_i32_len_ok, RfftI16, RfftI32};
use vstd::prelude::*;

verus! {

/// Where filter `i` starts in a packed coefficient table: the sum of the lengths
/// of the filters before it.
pub open spec fn packed_start(lens: Seq<u16>, i: int) -> int
    decreases i,
{
    if i <= 0 {
        0
    } else {
        packed_start(lens, i - 1) + lens[i - 1]
    }
}

proof fn lemma_packed_start_mono(lens: Seq<u16>, i: int, j: int)
    requires
        0 <= i <= j,
    ensures
        0 <= packed_start(lens, i) <= packed_start(lens, j),
    decreases j,
{
    if i < j {
        lemma_packed_start_mono(lens, i, j - 1);
    } else if i > 0 {
        lemma_packed_start_mono(lens, i - 1, i - 1);
    }
}

/// The frame brought to full scale: when its peak magnitude is neither zero nor
/// full scale, every sample is scaled by the normalized quotient `MAX / peak`.
pub open spec fn mfcc_normalize_q15(x: Seq<i16>, peak: i16) -> Seq<i16> {
    if peak != 0 && peak != i16::MAX {
        let qs = div_q15(i16::MAX, peak);
        Seq::new(x.len(), |k: int| scale_q15(x[k], qs.0, qs.1 as i8))
    } else {
        x
    }
}

/// The frame multiplied by the window (weights read as unsigned Q1.15), rounded
/// down to Q15 and saturated.
pub open spec fn mfcc_window_q15(x: Seq<i16>, w: Seq<u16>) -> Seq<i16> {
    Seq::new(x.len(), |k: int| clamp16((x[k] * w[k]) / 0x8000))
}

/// The first `1 + n / 2` samples replaced by the magnitudes of the matching
/// spectrum bins.
pub open spec fn mfcc_mags_q15(spectrum: Seq<i16>, frame: Seq<i16>, n: int, lut: Seq<u32>) -> Seq<i16> {
    Seq::new(
        frame.len(),
        |k: int|
            if k < 1 + n / 2 {
                mag_q15(spectrum[2 * k], spectrum[2 * k + 1], lut)
            } else {
                frame[k]
            },
    )
}

/// Raw 16-bit words read as Q15 values.
pub open spec fn words_q15(w: Seq<u16>) -> Seq<i16> {
    Seq::new(w.len(), |k: int| w[k] as i16)
}

/// Energy of mel filter `i`: the dot product of the filter's span of magnitudes
/// with its packed coefficients, rounded and shifted down by ten bits, saturated.
pub open spec fn mel_energy_q15(
    mags: Seq<i16>,
    filter: Seq<u16>,
    pos: Seq<u16>,
    lens: Seq<u16>,
    i: int,
) -> i32 {
    let p = pos[i] as int;
    let l = lens[i] as int;
    let st = packed_start(lens, i);
    let acc = dot_q15(mags.subrange(p, p + l), words_q15(filter.subrange(st, st + l)));
    clamp32(wrap64(acc + 0x219) as int / 0x400)
}

/// A Q15 mel filter sees only its own bins: two magnitude frames that agree on
/// bins `pos[i] .. pos[i] + lens[i]` give filter `i` the same energy, whatever
/// they hold elsewhere.
pub proof fn lemma_mel_energy_q15_local(
    m1: Seq<i16>,
    m2: Seq<i16>,
    filter: Seq<u16>,
    pos: Seq<u16>,
    lens: Seq<u16>,
    i: int,
)
    requires
        0 <= i < pos.len(),
        i < lens.len(),
        pos[i] + lens[i] <= m1.len(),
        m1.len() == m2.len(),
        forall|k: int| pos[i] <= k < pos[i] + lens[i] ==> m1[k] == m2[k],
    ensures
        mel_energy_q15(m1, filter, pos, lens, i) == mel_energy_q15(m2, filter, pos, lens, i),
{
    let p = pos[i] as int;
    let l = lens[i] as int;
    assert(m1.subrange(p, p + l) =~= m2.subrange(p, p + l));
}

/// Moving a Q15 mel filter moves the bins it reads: filter `i` at bin `pos[i]`
/// of a frame has the energy the same filter has at bin 0 of the frame with its
/// first `pos[i]` bins dropped.
pub proof fn lemma_mel_energy_q15_shift(
    m: Seq<i16>,
    filter: Seq<u16>,
    pos: Seq<u16>,
    lens: Seq<u16>,
    i: int,
)
    requires
        0 <= i < pos.len(),
        i < lens.len(),
        pos[i] + lens[i] <= m.len(),
    ensures
        mel_energy_q15(m, filter, pos, lens, i) == mel_energy_q15(
            m.subrange(pos[i] as int, m.len() as int),
            filter,
            pos.update(i, 0),
            lens,
            i,
        ),
{
    let p = pos[i] as int;
    let l = lens[i] as int;
    assert(m.subrange(p, m.len() as int).subrange(0, l) =~= m.subrange(p, p + l));
}

/// Two Q15 values packed into one 32-bit word, `lo` in the low half and `hi` in
/// the high half: the layout of a pair of 16-bit samples stored in a 32-bit
/// word of a little-endian target.
pub open spec fn pack_q15(lo: i16, hi: i16) -> i32 {
    (hi * 0x1_0000 + (lo as u16) as int) as i32
}

/// Row `r` of the `m`-column DCT matrix `dct` (raw Q15 words) applied to `v`:
/// the 64-bit dot product shifted down to Q15 and saturated.
pub open spec fn dct_row_q15(dct: Seq<u16>, v: Seq<i16>, m: int, r: int) -> i16 {
    clamp16(dot_q15(v, words_q15(dct.subrange(r * m, r * m + m))) as int / 0x8000)
}

/// The mel energies scaled back by the peak taken out at normalization (as a
/// Q31 factor `peak << 16`), their logarithms, offset by `log(n_fft) + 12` in
/// Q5.26 units of `ln 2`, and shifted down by 19 bits.
pub open spec fn mfcc_log_mels_q15(mel: Seq<i32>, peak: i16, n_fft: int) -> Seq<i32> {
    let le = ((log2(n_fft) + 12) * 0x02C5_C860) as i32;
    Seq::new(
        mel.len(),
        |k: int|
            {
                let e = if peak != 0 && peak != i16::MAX {
                    scale_q31(mel[k], (peak * 0x1_0000) as i32, 0)
                } else {
                    mel[k]
                };
                shift_q31(clamp32(log_q31(e) + le), -19i8)
            },
    )
}

/// Configuration of a Q15 MFCC: sizes, the DCT matrix (`n_mfcc x n_mels`, raw
/// Q15 words), the packed mel filter coefficients with each filter's first bin
/// and length, the window, the forward real FFT of `n_fft` samples, and the
/// table of the square root behind the magnitudes.
pub struct MfccI16<'a> {
    pub n_fft: usize,
    pub n_mels: usize,
    pub n_mfcc: usize,
    pub dct: &'a [u16],
    pub filter: &'a [u16],
    pub filter_pos: &'a [u16],
    pub filter_len: &'a [u16],
    pub window: &'a [u16],
    pub rfft: RfftI16<'a>,
    pub sqrt_lut: &'a [u32],
}

impl<'a> MfccI16<'a> {
    /// The tables fit the sizes and the real FFT is the forward transform of
    /// `n_fft` samples with bit-reversed reordering.
    pub open spec fn well_formed(&self) -> bool {
        &&& self.dct.len() == self.n_mfcc * self.n_mels
        &&& self.filter_pos.len() == self.n_mels
        &&& self.filter_len.len() == self.n_mels
        &&& self.window.len() == self.n_fft
        &&& self.rfft.well_formed()
        &&& self.rfft.n_fft_real == self.n_fft
        &&& !self.rfft.ifft_flag
        &&& self.rfft.bit_reverse_flag
        &&& self.sqrt_lut.len() >= 24
    }

    /// The filters stay inside the frame and the packed table.
    pub open spec fn filters_fit(&self) -> bool {
        &&& forall|i: int|
            0 <= i < self.n_mels ==> self.filter_pos@[i] + self.filter_len@[i] <= self.n_fft
        &&& packed_start(self.filter_len@, self.n_mels as int) <= self.filter.len()
    }

    /// The peak magnitude of the frame.
    pub open spec fn peak(&self, input: Seq<i16>) -> i16 {
        max_abs_q15(input, self.n_fft as int)
    }

    /// The frame, normalized and windowed.
    pub open spec fn frame(&self, input: Seq<i16>) -> Seq<i16> {
        mfcc_window_q15(mfcc_normalize_q15(input, self.peak(input)), self.window@)
    }

    /// The interleaved spectrum of a windowed frame.
    pub open spec fn spectrum(&self, fr: Seq<i16>) -> Seq<i16> {
        rfft_i16(
            fr,
            self.n_fft as int,
            false,
            true,
            self.rfft.re_table@,
            self.rfft.im_table@,
            self.rfft.twiddle@,
        )
    }

    /// A windowed frame with its first `1 + n_fft / 2` samples replaced by the
    /// magnitudes of its spectrum.
    pub open spec fn spectrum_mags(&self, fr: Seq<i16>) -> Seq<i16> {
        mfcc_mags_q15(self.spectrum(fr), fr, self.n_fft as int, self.sqrt_lut@)
    }

    /// The energies of the mel filters over a magnitude frame.
    pub open spec fn mel_energies(&self, m: Seq<i16>) -> Seq<i32> {
        Seq::new(
            self.n_mels as nat,
            |i: int| mel_energy_q15(m, self.filter@, self.filter_pos@, self.filter_len@, i),
        )
    }

    /// The magnitude frame of an input frame.
    pub open spec fn mags(&self, input: Seq<i16>) -> Seq<i16> {
        self.spectrum_mags(self.frame(input))
    }

    /// The log mel energies of an input frame, offset and shifted.
    pub open spec fn log_mels(&self, input: Seq<i16>) -> Seq<i32> {
        mfcc_log_mels_q15(self.mel_energies(self.mags(input)), self.peak(input), self.n_fft as int)
    }

    /// What `run` leaves in `input`: the log mel energies saturated to Q15, then
    /// the rest of the magnitude frame.
    pub open spec fn final_input(&self, input: Seq<i16>) -> Seq<i16> {
        let lm = self.log_mels(input);
        let m = self.mags(input);
        Seq::new(m.len(), |k: int| if k < self.n_mels { clamp16(lm[k] as int) } else { m[k] })
    }

    /// What `run` leaves in `output`: the DCT of the saturated log mel energies
    /// in its first `n_mfcc` samples, when it has room for them.
    pub open spec fn final_output(&self, input: Seq<i16>, output: Seq<i16>) -> Seq<i16> {
        if output.len() < self.n_mfcc {
            output
        } else {
            let v = self.final_input(input).subrange(0, self.n_mels as int);
            Seq::new(
                output.len(),
                |r: int|
                    if r < self.n_mfcc {
                        dct_row_q15(self.dct@, v, self.n_mels as int, r)
                    } else {
                        output[r]
                    },
            )
        }
    }

    /// What `run` leaves in `tmp`: the log mel energies, then the rest of the
    /// spectrum packed two values per word (the buffer serves as the spectrum's
    /// scratch), then what was there.
    pub open spec fn final_tmp(&self, input: Seq<i16>, tmp: Seq<i32>) -> Seq<i32> {
        let lm = self.log_mels(input);
        let sp = self.spectrum(self.frame(input));
        Seq::new(
            tmp.len(),
            |k: int|
                if k < self.n_mels {
                    lm[k]
                } else if k < self.n_fft {
                    pack_q15(sp[2 * k], sp[2 * k + 1])
                } else {
                    tmp[k]
                },
        )
    }

    pub fn new(
        n_fft: usize,
        n_mels: usize,
        n_mfcc: usize,
        dct: &'a [u16],
        filter: &'a [u16],
        filter_pos: &'a [u16],
        filter_len: &'a [u16],
        window: &'a [u16],
        re_table: &'a [u16],
        im_table: &'a [u16],
        twiddle: &'a [u16],
        sqrt_lut: &'a [u32],
    ) -> (r: Self)
        requires
            dct.len() == n_mfcc * n_mels,
            filter_pos.len() == n_mels,
            filter_len.len() == n_mels,
            window.len() == n_fft,
            fft_len_ok(n_fft as int),
            n_fft >= 32,
            re_table.len() >= 8192,
            im_table.len() >= 8192,
            twiddle.len() >= 3 * (n_fft / 2) / 2,
            sqrt_lut.len() >= 24,
        ensures
            r.n_fft == n_fft,
            r.n_mels == n_mels,
            r.n_mfcc == n_mfcc,
            r.dct@ == dct@,
            r.filter@ == filter@,
            r.filter_pos@ == filter_pos@,
            r.filter_len@ == filter_len@,
            r.window@ == window@,
            r.rfft.re_table@ == re_table@,
            r.rfft.im_table@ == im_table@,
            r.rfft.twiddle@ == twiddle@,
            r.sqrt_lut@ == sqrt_lut@,
            r.well_formed(),
    {
        MfccI16 {
            n_fft,
            n_mels,
            n_mfcc,
            dct,
            filter,
            filter_pos,
            filter_len,
            window,
            rfft: RfftI16::new(n_fft, false, true, re_table, im_table, twiddle),
            sqrt_lut,
        }
    }
}

/// Dot product of Q15 samples with Q15 coefficients stored as raw words.
fn dot_words_q15(a: &[i16], w: &[u16]) -> (r: i64)
    requires
        a.len() == w.len(),
    ensures
        r == dot_q15(a@, words_q15(w@)),
{
    let ghost b = words_q15(w@);
    let ghost p = products_q15(a@, b);
    let mut sum: i64 = 0;
    proof {
        lemma_wrap64_unique(0, 0);
    }
    let mut k: usize = 0;
    while k < a.len()
        invariant
            a.len() == w.len(),
            b == words_q15(w@),
            0 <= k <= a.len(),
            p == products_q15(a@, b),
            sum == wrap64(sum_int(p, k as int)),
        decreases a.len() - k,
    {
        let x = a[k] as i64;
        let y = #[verifier::truncate] (w[k] as i16) as i64;
        proof {
            assert(-0x4000_0000 <= x * y <= 0x4000_0000) by (nonlinear_arith)
                requires
                    -0x8000 <= x <= 0x7fff,
                    -0x8000 <= y <= 0x7fff,
            ;
        }
        let t = x * y;
        proof {
            lemma_wrapping_add_wrap64(sum_int(p, k as int), t);
            assert(sum_int(p, k + 1) == sum_int(p, k as int) + p[k as int]);
        }
        sum = sum.wrapping_add(t);
        k = k + 1;
    }
    sum
}

/// The magnitudes of the interleaved complex samples of `spectrum` into `mags`.
fn magnitudes_q15(spectrum: &[i16], mags: &mut [i16], lut: &[u32])
    requires
        spectrum.len() == 2 * old(mags).len(),
        lut.len() >= 24,
    ensures
        final(mags)@.len() == old(mags)@.len(),
        forall|k: int|
            0 <= k < old(mags)@.len() ==> #[trigger] final(mags)@[k] == mag_q15(
                spectrum@[2 * k],
                spectrum@[2 * k + 1],
                lut@,
            ),
{
    cmplx_mag_i16(spectrum, mags, lut);
}

/// Q15 log stage of the mel energies: scaled back by the peak (when the frame
/// was normalized), logarithm, offset by `log2(n_fft) + 12`, shift down by 19.
fn log_mels_stage_q15(mel: &mut [i32], peak: i16, n_fft: usize)
    requires
        fft_len_ok(n_fft as int),
        0 <= peak,
    ensures
        final(mel)@ == mfcc_log_mels_q15(old(mel)@, peak, n_fft as int),
{
    let ghost m0 = mel@;
    let ghost scaled = Seq::new(
        m0.len(),
        |k: int|
            if peak != 0 && peak != i16::MAX {
                scale_q31(m0[k], (peak * 0x1_0000) as i32, 0)
            } else {
                m0[k]
            },
    );
    if peak != 0 && peak != i16::MAX {
        scale_i32(mel, peak as i32 * 0x1_0000, 0);
    }
    assert(mel@ =~= scaled);
    vlog_i32_in_place(mel);
    let fft_shift = log2_exec(n_fft) as i32;
    let log_exponent = (fft_shift + 12) * 0x02C5_C860;
    offset_i32(mel, log_exponent);
    shift_i32(mel, -19);
    assert(mel@ =~= mfcc_log_mels_q15(m0, peak, n_fft as int));
}

impl<'a> MfccI16<'a> {
    /// Normalizes the frame to full scale and applies the window; returns the
    /// peak magnitude it found.
    fn prepare_frame(&self, input: &mut [i16]) -> (peak: i16)
        requires
            self.well_formed(),
            old(input).len() == self.n_fft,
        ensures
            peak == self.peak(old(input)@),
            0 <= peak,
            final(input)@ == self.frame(old(input)@),
    {
        let ghost x0 = input@;
        let (max_abs, _) = absmax_i16(input, self.n_fft);
        if max_abs != 0 && max_abs != i16::MAX {
            match div_i16(i16::MAX, max_abs) {
                Ok((quotient, shift)) => {
                    scale_i16(input, quotient, shift as i8);
                },
                Err(_) => {},
            }
        }
        let ghost normed = mfcc_normalize_q15(x0, max_abs);
        assert(input@ =~= normed);
        let n = self.n_fft;
        let mut k: usize = 0;
        while k < n
            invariant
                n == self.n_fft,
                self.window@.len() == n,
                input@.len() == n,
                normed.len() == n,
                0 <= k <= n,
                forall|j: int| 0 <= j < k ==> #[trigger] input@[j] == clamp16((normed[j] * self.window@[j]) / 0x8000),
                forall|j: int| k <= j < n ==> #[trigger] input@[j] == normed[j],
            decreases n - k,
        {
            let x = input[k] as i32;
            let w = self.window[k] as i32;
            proof {
                assert(-0x7fff_8000 <= x * w <= 0x7fff_8000) by (nonlinear_arith)
                    requires
                        -0x8000 <= x <= 0x7fff,
                        0 <= w <= 0xffff,
                ;
                lemma_shr_floor();
            }
            input[k] = sat_i16((x * w) >> 15);
            k = k + 1;
        }
        assert(input@ =~= self.frame(x0));
        max_abs
    }

    /// Writes the energies of the mel filters over the magnitude frame `mags`
    /// into the first `n_mels` entries of `tmp`.
    fn mel_energies_into(&self, mags: &[i16], tmp: &mut [i32])
        requires
            self.well_formed(),
            self.filters_fit(),
            mags.len() == self.n_fft,
            old(tmp).len() >= self.n_mels,
        ensures
            final(tmp)@.len() == old(tmp)@.len(),
            forall|j: int| 0 <= j < self.n_mels ==> #[trigger] final(tmp)@[j] == self.mel_energies(mags@)[j],
            forall|j: int| self.n_mels <= j < old(tmp)@.len() ==> #[trigger] final(tmp)@[j] == old(tmp)@[j],
    {
        let ghost t0 = tmp@;
        let mut packed: usize = 0;
        let mut index: usize = 0;
        proof {
            lemma_packed_start_mono(self.filter_len@, 0, self.n_mels as int);
        }
        while index < self.n_mels
            invariant
                self.well_formed(),
                self.filters_fit(),
                mags.len() == self.n_fft,
                tmp@.len() == t0.len(),
                t0.len() >= self.n_mels,
                0 <= index <= self.n_mels,
                packed == packed_start(self.filter_len@, index as int),
                forall|j: int| 0 <= j < index ==> #[trigger] tmp@[j] == mel_energy_q15(
                    mags@,
                    self.filter@,
                    self.filter_pos@,
                    self.filter_len@,
                    j,
                ),
                forall|j: int| index <= j < t0.len() ==> #[trigger] tmp@[j] == t0[j],
            decreases self.n_mels - index,
        {
            let pos = self.filter_pos[index] as usize;
            let len = self.filter_len[index] as usize;
            proof {
                lemma_packed_start_mono(self.filter_len@, index + 1, self.n_mels as int);
                assert(self.filter_pos@[index as int] + self.filter_len@[index as int] <= self.n_fft);
            }
            let end = packed + len;
            let acc = dot_words_q15(&mags[pos..pos + len], &self.filter[packed..end]);
            proof {
                lemma_wrap64_unique(acc as int, acc as int);
                lemma_wrapping_add_wrap64(acc as int, 0x219);
                lemma_shr_floor();
            }
            tmp[index] = sat_i32(acc.wrapping_add(0x219) >> 10);
            packed = end;
            index = index + 1;
        }
    }

    /// MFCC of one frame of `n_fft` samples held in `input`, into the first
    /// `n_mfcc` samples of `output` (left as it was when shorter). `input` is
    /// used as scratch: it ends with the log mel energies saturated to Q15,
    /// followed by the magnitude frame. `tmp` holds the spectrum, two values per
    /// word, while it is used, then receives the log mel energies in its first
    /// `n_mels` entries.
    pub fn run(&self, input: &mut [i16], output: &mut [i16], tmp: &mut [i32])
        requires
            self.well_formed(),
            self.filters_fit(),
            old(input).len() == self.n_fft,
            self.n_mels <= self.n_fft,
            old(tmp).len() >= self.n_fft,
        ensures
            final(input)@ == self.final_input(old(input)@),
            final(output)@ == self.final_output(old(input)@, old(output)@),
            final(tmp)@ == self.final_tmp(old(input)@, old(tmp)@),
    {
        let ghost x0 = input@;
        let ghost t0 = tmp@;
        let n = self.n_fft;
        let peak = self.prepare_frame(input);
        let ghost fr = input@;
        // a fixed-capacity scratch for the spectrum of at most 4096 samples
        let mut buf = [0i16; 8192];
        let (spectrum, _) = buf.split_at_mut(2 * n);
        self.rfft.run(input, spectrum);
        let ghost sp = spectrum@;
        assert(sp == self.spectrum(fr));
        let mut k: usize = 0;
        while k < n
            invariant
                n == self.n_fft,
                spectrum@ == sp,
                sp.len() == 2 * n,
                tmp@.len() == t0.len(),
                t0.len() >= n,
                0 <= k <= n,
                forall|j: int| 0 <= j < k ==> #[trigger] tmp@[j] == pack_q15(sp[2 * j], sp[2 * j + 1]),
                forall|j: int| k <= j < t0.len() ==> #[trigger] tmp@[j] == t0[j],
            decreases n - k,
        {
            let lo = spectrum[2 * k];
            let hi = spectrum[2 * k + 1];
            tmp[k] = hi as i32 * 0x1_0000 + #[verifier::truncate] (lo as u16) as i32;
            k = k + 1;
        }
        let ghost t1 = tmp@;
        let fl = 1 + n / 2;
        {
            let (head, _) = input.split_at_mut(fl);
            magnitudes_q15(&spectrum[0..2 * fl], head, self.sqrt_lut);
        }
        let ghost m = input@;
        assert(m =~= self.spectrum_mags(fr));
        self.mel_energies_into(input, tmp);
        let ghost t2 = tmp@;
        {
            let (mel, _) = tmp.split_at_mut(self.n_mels);
            log_mels_stage_q15(mel, peak, n);
        }
        let ghost lm = self.log_mels(x0);
        assert(tmp@.subrange(0, self.n_mels as int) =~= lm);
        assert(tmp@ =~= self.final_tmp(x0, t0));
        let mut k: usize = 0;
        while k < self.n_mels
            invariant
                self.n_mels <= self.n_fft,
                input@.len() == self.n_fft,
                tmp@.len() == t0.len(),
                t0.len() >= self.n_fft,
                lm.len() == self.n_mels,
                forall|j: int| 0 <= j < self.n_mels ==> #[trigger] tmp@[j] == lm[j],
                m.len() == self.n_fft,
                0 <= k <= self.n_mels,
                forall|j: int| 0 <= j < k ==> #[trigger] input@[j] == clamp16(lm[j] as int),
                forall|j: int| k <= j < self.n_fft ==> #[trigger] input@[j] == m[j],
            decreases self.n_mels - k,
        {
            input[k] = sat_i16(tmp[k]);
            k = k + 1;
        }
        assert(input@ =~= self.final_input(x0));
        if output.len() >= self.n_mfcc {
            let cols = self.n_mels;
            let v = &input[0..cols];
            let ghost out0 = output@;
            let mut r: usize = 0;
            while r < self.n_mfcc
                invariant
                    self.well_formed(),
                    cols == self.n_mels,
                    v@ == self.final_input(x0).subrange(0, cols as int),
                    v@.len() == cols,
                    output@.len() == out0.len(),
                    out0.len() >= self.n_mfcc,
                    0 <= r <= self.n_mfcc,
                    forall|j: int| 0 <= j < r ==> #[trigger] output@[j] == dct_row_q15(self.dct@, v@, cols as int, j),
                    forall|j: int| r <= j < out0.len() ==> #[trigger] output@[j] == out0[j],
                decreases self.n_mfcc - r,
            {
                proof {
                    assert((r + 1) * cols <= self.n_mfcc * cols) by (nonlinear_arith)
                        requires
                            r < self.n_mfcc,
                            0 <= cols,
                    ;
                    assert((r + 1) * cols == r * cols + cols) by (nonlinear_arith);
                    assert(r * cols >= 0) by (nonlinear_arith);
                    lemma_shr_floor();
                }
                let start = r * cols;
                let acc = dot_words_q15(v, &self.dct[start..start + cols]);
                output[r] = sat_i16_wide(acc >> 15);
                r = r + 1;
            }
            assert(output@ =~= self.final_output(x0, out0));
        }
    }
}

/// The Q31 frame brought to full scale (see `mfcc_normalize_q15`).
pub open spec fn mfcc_normalize_q31(x: Seq<i32>, peak: i32) -> Seq<i32> {
    if peak != 0 && peak != i32::MAX {
        let qs = div_q31(i32::MAX, peak);
        Seq::new(x.len(), |k: int| scale_q31(x[k], qs.0, qs.1 as i8))
    } else {
        x
    }
}

/// The Q31 frame multiplied by the window (weights read as unsigned Q1.31): the
/// high word of each product, doubled and saturated.
pub open spec fn mfcc_window_q31(x: Seq<i32>, w: Seq<u32>) -> Seq<i32> {
    Seq::new(x.len(), |k: int| clamp32(((x[k] * w[k]) / 0x1_0000_0000) * 2))
}

/// The first `1 + n / 2` samples replaced by the magnitudes of the matching
/// spectrum bins.
pub open spec fn mfcc_mags_q31(spectrum: Seq<i32>, frame: Seq<i32>, n: int, lut: Seq<u32>) -> Seq<i32> {
    Seq::new(
        frame.len(),
        |k: int|
            if k < 1 + n / 2 {
                mag_q31(spectrum[2 * k], spectrum[2 * k + 1], lut)
            } else {
                frame[k]
            },
    )
}

/// Raw 32-bit words read as Q31 values.
pub open spec fn words_q31(w: Seq<u32>) -> Seq<i32> {
    Seq::new(w.len(), |k: int| w[k] as i32)
}

/// Energy of Q31 mel filter `i`: the 16.48 dot product of the filter's span of
/// magnitudes with its packed coefficients, plus a small rounding constant,
/// shifted down by 28 bits and saturated (the addition wraps on overflow).
pub open spec fn mel_energy_q31(
    mags: Seq<i32>,
    filter: Seq<u32>,
    pos: Seq<u16>,
    lens: Seq<u16>,
    i: int,
) -> i32 {
    let p = pos[i] as int;
    let l = lens[i] as int;
    let st = packed_start(lens, i);
    let acc = dot_q31(mags.subrange(p, p + l), words_q31(filter.subrange(st, st + l)));
    clamp32(wrap64(acc + 0x0863_7BD0) as int / 0x1000_0000)
}

/// A Q31 mel filter sees only its own bins: two magnitude frames that agree on
/// bins `pos[i] .. pos[i] + lens[i]` give filter `i` the same energy, whatever
/// they hold elsewhere.
pub proof fn lemma_mel_energy_q31_local(
    m1: Seq<i32>,
    m2: Seq<i32>,
    filter: Seq<u32>,
    pos: Seq<u16>,
    lens: Seq<u16>,
    i: int,
)
    requires
        0 <= i < pos.len(),
        i < lens.len(),
        pos[i] + lens[i] <= m1.len(),
        m1.len() == m2.len(),
        forall|k: int| pos[i] <= k < pos[i] + lens[i] ==> m1[k] == m2[k],
    ensures
        mel_energy_q31(m1, filter, pos, lens, i) == mel_energy_q31(m2, filter, pos, lens, i),
{
    let p = pos[i] as int;
    let l = lens[i] as int;
    assert(m1.subrange(p, p + l) =~= m2.subrange(p, p + l));
}

/// Moving a Q31 mel filter moves the bins it reads: filter `i` at bin `pos[i]`
/// of a frame has the energy the same filter has at bin 0 of the frame with its
/// first `pos[i]` bins dropped.
pub proof fn lemma_mel_energy_q31_shift(
    m: Seq<i32>,
    filter: Seq<u32>,
    pos: Seq<u16>,
    lens: Seq<u16>,
    i: int,
)
    requires
        0 <= i < pos.len(),
        i < lens.len(),
        pos[i] + lens[i] <= m.len(),
    ensures
        mel_energy_q31(m, filter, pos, lens, i) == mel_energy_q31(
            m.subrange(pos[i] as int, m.len() as int),
            filter,
            pos.update(i, 0),
            lens,
            i,
        ),
{
    let p = pos[i] as int;
    let l = lens[i] as int;
    assert(m.subrange(p, m.len() as int).subrange(0, l) =~= m.subrange(p, p + l));
}

/// The exact products `a[k] * b[k]` of two Q31 vectors.
pub open spec fn full_products_q31(a: Seq<i32>, b: Seq<i32>) -> Seq<int> {
    Seq::new(a.len(), |k: int| a[k] * b[k])
}

/// Row `r` of the `m`-column DCT matrix `dct` (raw Q31 words) applied to `v`:
/// the exact products summed in a wrapping 64-bit accumulator, shifted down to
/// Q31 and cut to 32 bits.
pub open spec fn dct_row_q31(dct: Seq<u32>, v: Seq<i32>, m: int, r: int) -> i32 {
    let w = words_q31(dct.subrange(r * m, r * m + m));
    (wrap64(sum_int(full_products_q31(v, w), v.len() as int)) as int / 0x8000_0000) as i32
}

/// The Q31 mel energies scaled back by the peak, their logarithms, offset by
/// `log2(n_fft) + 12` in Q5.26 units of `ln 2`, and shifted down by 3 bits.
pub open spec fn mfcc_log_mels_q31(mel: Seq<i32>, peak: i32, n_fft: int) -> Seq<i32> {
    let le = ((log2(n_fft) + 12) * 0x02C5_C860) as i32;
    Seq::new(
        mel.len(),
        |k: int|
            {
                let e = if peak != 0 && peak != i32::MAX {
                    scale_q31(mel[k], peak, 0)
                } else {
                    mel[k]
                };
                shift_q31(clamp32(log_q31(e) + le), -3i8)
            },
    )
}

/// Configuration of a Q31 MFCC (see `MfccI16`), with Q31 DCT, filter and
/// window tables.
pub struct MfccI32<'a> {
    pub n_fft: usize,
    pub n_mels: usize,
    pub n_mfcc: usize,
    pub dct: &'a [u32],
    pub filter: &'a [u32],
    pub filter_pos: &'a [u16],
    pub filter_len: &'a [u16],
    pub window: &'a [u32],
    pub rfft: RfftI32<'a>,
    pub sqrt_lut: &'a [u32],
}

impl<'a> MfccI32<'a> {
    /// The tables fit the sizes and the real FFT is the forward transform of
    /// `n_fft` samples with bit-reversed reordering.
    pub open spec fn well_formed(&self) -> bool {
        &&& self.dct.len() == self.n_mfcc * self.n_mels
        &&& self.filter_pos.len() == self.n_mels
        &&& self.filter_len.len() == self.n_mels
        &&& self.window.len() == self.n_fft
        &&& self.rfft.well_formed()
        &&& self.rfft.n_fft_real == self.n_fft
        &&& !self.rfft.ifft_flag
        &&& self.rfft.bit_reverse_flag
        &&& self.sqrt_lut.len() >= 24
    }

    /// The filters stay inside the frame and the packed table.
    pub open spec fn filters_fit(&self) -> bool {
        &&& forall|i: int|
            0 <= i < self.n_mels ==> self.filter_pos@[i] + self.filter_len@[i] <= self.n_fft
        &&& packed_start(self.filter_len@, self.n_mels as int) <= self.filter.len()
    }

    /// The peak magnitude of the frame.
    pub open spec fn peak(&self, input: Seq<i32>) -> i32 {
        max_abs_q31(input, self.n_fft as int)
    }

    /// The frame, normalized and windowed.
    pub open spec fn frame(&self, input: Seq<i32>) -> Seq<i32> {
        mfcc_window_q31(mfcc_normalize_q31(input, self.peak(input)), self.window@)
    }

    /// The interleaved spectrum of a windowed frame.
    pub open spec fn spectrum(&self, fr: Seq<i32>) -> Seq<i32> {
        rfft_i32(
            fr,
            self.n_fft as int,
            false,
            true,
            self.rfft.re_table@,
            self.rfft.im_table@,
            self.rfft.twiddle@,
        )
    }

    /// A windowed frame with its first `1 + n_fft / 2` samples replaced by the
    /// magnitudes of its spectrum.
    pub open spec fn spectrum_mags(&self, fr: Seq<i32>) -> Seq<i32> {
        mfcc_mags_q31(self.spectrum(fr), fr, self.n_fft as int, self.sqrt_lut@)
    }

    /// The energies of the mel filters over a magnitude frame.
    pub open spec fn mel_energies(&self, m: Seq<i32>) -> Seq<i32> {
        Seq::new(
            self.n_mels as nat,
            |i: int| mel_energy_q31(m, self.filter@, self.filter_pos@, self.filter_len@, i),
        )
    }

    /// The magnitude frame of an input frame.
    pub open spec fn mags(&self, input: Seq<i32>) -> Seq<i32> {
        self.spectrum_mags(self.frame(input))
    }

    /// The log mel energies of an input frame, offset and shifted.
    pub open spec fn log_mels(&self, input: Seq<i32>) -> Seq<i32> {
        mfcc_log_mels_q31(self.mel_energies(self.mags(input)), self.peak(input), self.n_fft as int)
    }

    /// What `run` leaves in `tmp`: the log mel energies, then the rest of the
    /// spectrum, then what was there.
    pub open spec fn final_tmp(&self, input: Seq<i32>, tmp: Seq<i32>) -> Seq<i32> {
        let lm = self.log_mels(input);
        let sp = self.spectrum(self.frame(input));
        Seq::new(
            tmp.len(),
            |k: int|
                if k < self.n_mels {
                    lm[k]
                } else if k < 2 * self.n_fft {
                    sp[k]
                } else {
                    tmp[k]
                },
        )
    }

    /// What `run` leaves in `output`: the DCT of the log mel energies in its
    /// first `n_mfcc` samples, when it has room for them.
    pub open spec fn final_output(&self, input: Seq<i32>, output: Seq<i32>) -> Seq<i32> {
        if output.len() < self.n_mfcc {
            output
        } else {
            let v = self.log_mels(input);
            Seq::new(
                output.len(),
                |r: int|
                    if r < self.n_mfcc {
                        dct_row_q31(self.dct@, v, self.n_mels as int, r)
                    } else {
                        output[r]
                    },
            )
        }
    }

    pub fn new(
        n_fft: usize,
        n_mels: usize,
        n_mfcc: usize,
        dct: &'a [u32],
        filter: &'a [u32],
        filter_pos: &'a [u16],
        filter_len: &'a [u16],
        window: &'a [u32],
        re_table: &'a [u32],
        im_table: &'a [u32],
        twiddle: &'a [u32],
        sqrt_lut: &'a [u32],
    ) -> (r: Self)
        requires
            dct.len() == n_mfcc * n_mels,
            filter_pos.len() == n_mels,
            filter_len.len() == n_mels,
            window.len() == n_fft,
            rfft_i32_len_ok(n_fft as int),
            re_table.len() >= 8192,
            im_table.len() >= 8192,
            twiddle.len() >= 3 * (n_fft / 2) / 2,
            sqrt_lut.len() >= 24,
        ensures
            r.n_fft == n_fft,
            r.n_mels == n_mels,
            r.n_mfcc == n_mfcc,
            r.dct@ == dct@,
            r.filter@ == filter@,
            r.filter_pos@ == filter_pos@,
            r.filter_len@ == filter_len@,
            r.window@ == window@,
            r.rfft.re_table@ == re_table@,
            r.rfft.im_table@ == im_table@,
            r.rfft.twiddle@ == twiddle@,
            r.sqrt_lut@ == sqrt_lut@,
            r.well_formed(),
    {
        MfccI32 {
            n_fft,
            n_mels,
            n_mfcc,
            dct,
            filter,
            filter_pos,
            filter_len,
            window,
            rfft: RfftI32::new(n_fft, false, true, re_table, im_table, twiddle),
            sqrt_lut,
        }
    }
}

/// Dot product of Q31 samples with Q31 coefficients stored as raw words, each
/// product truncated to 2.48 (see `dot_q31`).
fn dot_words_q31(a: &[i32], w: &[u32]) -> (r: i64)
    requires
        a.len() == w.len(),
    ensures
        r == dot_q31(a@, words_q31(w@)),
{
    let ghost b = words_q31(w@);
    let ghost p = products_q31(a@, b);
    let mut sum: i64 = 0;
    proof {
        lemma_wrap64_unique(0, 0);
    }
    let mut k: usize = 0;
    while k < a.len()
        invariant
            a.len() == w.len(),
            b == words_q31(w@),
            0 <= k <= a.len(),
            p == products_q31(a@, b),
            sum == wrap64(sum_int(p, k as int)),
        decreases a.len() - k,
    {
        let x = a[k] as i64;
        let y = #[verifier::truncate] (w[k] as i32) as i64;
        proof {
            assert(-0x4000_0000_0000_0000 <= x * y <= 0x4000_0000_0000_0000) by (nonlinear_arith)
                requires
                    -0x8000_0000 <= x <= 0x7fff_ffff,
                    -0x8000_0000 <= y <= 0x7fff_ffff,
            ;
        }
        let t = (x * y) >> 14;
        proof {
            lemma_wrapping_add_wrap64(sum_int(p, k as int), t);
            assert(sum_int(p, k + 1) == sum_int(p, k as int) + p[k as int]);
        }
        sum = sum.wrapping_add(t);
        k = k + 1;
    }
    sum
}

/// Exact products of Q31 samples with Q31 coefficients stored as raw words,
/// summed in a wrapping 64-bit accumulator.
fn mac_words_q31(a: &[i32], w: &[u32]) -> (r: i64)
    requires
        a.len() == w.len(),
    ensures
        r == wrap64(sum_int(full_products_q31(a@, words_q31(w@)), a@.len() as int)),
{
    let ghost b = words_q31(w@);
    let ghost p = full_products_q31(a@, b);
    let mut sum: i64 = 0;
    proof {
        lemma_wrap64_unique(0, 0);
    }
    let mut k: usize = 0;
    while k < a.len()
        invariant
            a.len() == w.len(),
            b == words_q31(w@),
            0 <= k <= a.len(),
            p == full_products_q31(a@, b),
            sum == wrap64(sum_int(p, k as int)),
        decreases a.len() - k,
    {
        let x = a[k] as i64;
        let y = #[verifier::truncate] (w[k] as i32) as i64;
        proof {
            assert(-0x4000_0000_0000_0000 <= x * y <= 0x4000_0000_0000_0000) by (nonlinear_arith)
                requires
                    -0x8000_0000 <= x <= 0x7fff_ffff,
                    -0x8000_0000 <= y <= 0x7fff_ffff,
            ;
        }
        let t = x * y;
        proof {
            lemma_wrapping_add_wrap64(sum_int(p, k as int), t);
            assert(sum_int(p, k + 1) == sum_int(p, k as int) + p[k as int]);
        }
        sum = sum.wrapping_add(t);
        k = k + 1;
    }
    sum
}

/// The magnitudes of the interleaved complex samples of `spectrum` into `mags`.
fn magnitudes_q31(spectrum: &[i32], mags: &mut [i32], lut: &[u32])
    requires
        spectrum.len() == 2 * old(mags).len(),
        lut.len() >= 24,
    ensures
        final(mags)@.len() == old(mags)@.len(),
        forall|k: int|
            0 <= k < old(mags)@.len() ==> #[trigger] final(mags)@[k] == mag_q31(
                spectrum@[2 * k],
                spectrum@[2 * k + 1],
                lut@,
            ),
{
    cmplx_mag_i32(spectrum, mags, lut);
}

/// Q31 log stage of the mel energies: scaled back by the peak (when the frame
/// was normalized), logarithm, offset by `log2(n_fft) + 12`, shift down by 3.
fn log_mels_stage_q31(mel: &mut [i32], peak: i32, n_fft: usize)
    requires
        rfft_i32_len_ok(n_fft as int),
    ensures
        final(mel)@ == mfcc_log_mels_q31(old(mel)@, peak, n_fft as int),
{
    let ghost m0 = mel@;
    let ghost scaled = Seq::new(
        m0.len(),
        |k: int|
            if peak != 0 && peak != i32::MAX {
                scale_q31(m0[k], peak, 0)
            } else {
                m0[k]
            },
    );
    if peak != 0 && peak != i32::MAX {
        scale_i32(mel, peak, 0);
    }
    assert(mel@ =~= scaled);
    vlog_i32_in_place(mel);
    let fft_shift = log2_exec(n_fft) as i32;
    let log_exponent = (fft_shift + 12) * 0x02C5_C860;
    offset_i32(mel, log_exponent);
    shift_i32(mel, -3);
    assert(mel@ =~= mfcc_log_mels_q31(m0, peak, n_fft as int));
}

impl<'a> MfccI32<'a> {
    /// Normalizes the frame to full scale and applies the window; returns the
    /// peak magnitude it found.
    fn prepare_frame(&self, input: &mut [i32]) -> (peak: i32)
        requires
            self.well_formed(),
            old(input).len() == self.n_fft,
        ensures
            peak == self.peak(old(input)@),
            final(input)@ == self.frame(old(input)@),
    {
        let ghost x0 = input@;
        let (max_abs, _) = absmax_i32(input, self.n_fft);
        if max_abs != 0 && max_abs != i32::MAX {
            match div_i32(i32::MAX, max_abs) {
                Ok((quotient, shift)) => {
                    scale_i32(input, quotient, shift as i8);
                },
                Err(_) => {},
            }
        }
        let ghost normed = mfcc_normalize_q31(x0, max_abs);
        assert(input@ =~= normed);
        let n = self.n_fft;
        let mut k: usize = 0;
        while k < n
            invariant
                n == self.n_fft,
                self.window@.len() == n,
                input@.len() == n,
                normed.len() == n,
                0 <= k <= n,
                forall|j: int|
                    0 <= j < k ==> #[trigger] input@[j] == clamp32(
                        ((normed[j] * self.window@[j]) / 0x1_0000_0000) * 2,
                    ),
                forall|j: int| k <= j < n ==> #[trigger] input@[j] == normed[j],
            decreases n - k,
        {
            let x = input[k] as i64;
            let w = self.window[k] as i64;
            proof {
                assert(-0x7fff_ffff_8000_0000 <= x * w <= 0x7fff_fffe_8000_0001) by (nonlinear_arith)
                    requires
                        -0x8000_0000 <= x <= 0x7fff_ffff,
                        0 <= w <= 0xffff_ffff,
                ;
                lemma_shr_floor();
            }
            let hi = (x * w) >> 32;
            input[k] = sat_i32(hi * 2);
            k = k + 1;
        }
        assert(input@ =~= self.frame(x0));
        max_abs
    }

    /// Writes the energies of the mel filters over the magnitude frame `mags`
    /// into the first `n_mels` entries of `tmp`.
    fn mel_energies_into(&self, mags: &[i32], tmp: &mut [i32])
        requires
            self.well_formed(),
            self.filters_fit(),
            mags.len() == self.n_fft,
            old(tmp).len() >= self.n_mels,
        ensures
            final(tmp)@.len() == old(tmp)@.len(),
            forall|j: int| 0 <= j < self.n_mels ==> #[trigger] final(tmp)@[j] == self.mel_energies(mags@)[j],
            forall|j: int| self.n_mels <= j < old(tmp)@.len() ==> #[trigger] final(tmp)@[j] == old(tmp)@[j],
    {
        let ghost t0 = tmp@;
        let mut packed: usize = 0;
        let mut index: usize = 0;
        proof {
            lemma_packed_start_mono(self.filter_len@, 0, self.n_mels as int);
        }
        while index < self.n_mels
            invariant
                self.well_formed(),
                self.filters_fit(),
                mags.len() == self.n_fft,
                tmp@.len() == t0.len(),
                t0.len() >= self.n_mels,
                0 <= index <= self.n_mels,
                packed == packed_start(self.filter_len@, index as int),
                forall|j: int| 0 <= j < index ==> #[trigger] tmp@[j] == mel_energy_q31(
                    mags@,
                    self.filter@,
                    self.filter_pos@,
                    self.filter_len@,
                    j,
                ),
                forall|j: int| index <= j < t0.len() ==> #[trigger] tmp@[j] == t0[j],
            decreases self.n_mels - index,
        {
            let pos = self.filter_pos[index] as usize;
            let len = self.filter_len[index] as usize;
            proof {
                lemma_packed_start_mono(self.filter_len@, index + 1, self.n_mels as int);
                assert(self.filter_pos@[index as int] + self.filter_len@[index as int] <= self.n_fft);
            }
            let end = packed + len;
            let acc = dot_words_q31(&mags[pos..pos + len], &self.filter[packed..end]);
            proof {
                lemma_wrap64_unique(acc as int, acc as int);
                lemma_wrapping_add_wrap64(acc as int, 0x0863_7BD0);
                lemma_shr_floor();
            }
            tmp[index] = sat_i32(acc.wrapping_add(0x0863_7BD0) >> 28);
            packed = end;
            index = index + 1;
        }
    }

    /// MFCC of one frame of `n_fft` samples held in `input`, into the first
    /// `n_mfcc` samples of `output` (left as it was when shorter). `input` ends
    /// with the magnitude frame; `tmp` receives the spectrum in its first
    /// `2 * n_fft` entries, of which the first `n_mels` are then replaced by the
    /// log mel energies.
    pub fn run(&self, input: &mut [i32], output: &mut [i32], tmp: &mut [i32])
        requires
            self.well_formed(),
            self.filters_fit(),
            old(input).len() == self.n_fft,
            old(tmp).len() >= 2 * self.n_fft,
            old(tmp).len() >= self.n_mels,
        ensures
            final(input)@ == self.mags(old(input)@),
            final(tmp)@ == self.final_tmp(old(input)@, old(tmp)@),
            final(output)@ == self.final_output(old(input)@, old(output)@),
    {
        let ghost x0 = input@;
        let ghost t0 = tmp@;
        let n = self.n_fft;
        let peak = self.prepare_frame(input);
        let ghost fr = input@;
        {
            let (spectrum, _) = tmp.split_at_mut(2 * n);
            self.rfft.run(input, spectrum);
        }
        let ghost t1 = tmp@;
        assert(t1.subrange(0, 2 * n as int) =~= self.spectrum(fr));
        let fl = 1 + n / 2;
        {
            let (head, _) = input.split_at_mut(fl);
            magnitudes_q31(&tmp[0..2 * fl], head, self.sqrt_lut);
        }
        assert(input@ =~= self.spectrum_mags(fr));
        self.mel_energies_into(input, tmp);
        {
            let (mel, _) = tmp.split_at_mut(self.n_mels);
            log_mels_stage_q31(mel, peak, n);
        }
        let ghost lm = self.log_mels(x0);
        assert(tmp@.subrange(0, self.n_mels as int) =~= lm);
        assert(tmp@ =~= self.final_tmp(x0, t0));
        if output.len() >= self.n_mfcc {
            let cols = self.n_mels;
            let v = &tmp[0..cols];
            let ghost out0 = output@;
            let mut r: usize = 0;
            while r < self.n_mfcc
                invariant
                    self.well_formed(),
                    cols == self.n_mels,
                    v@ == lm,
                    v@.len() == cols,
                    output@.len() == out0.len(),
                    out0.len() >= self.n_mfcc,
                    0 <= r <= self.n_mfcc,
                    forall|j: int| 0 <= j < r ==> #[trigger] output@[j] == dct_row_q31(self.dct@, v@, cols as int, j),
                    forall|j: int| r <= j < out0.len() ==> #[trigger] output@[j] == out0[j],
                decreases self.n_mfcc - r,
            {
                proof {
                    assert((r + 1) * cols <= self.n_mfcc * cols) by (nonlinear_arith)
                        requires
                            r < self.n_mfcc,
                            0 <= cols,
                    ;
                    assert((r + 1) * cols == r * cols + cols) by (nonlinear_arith);
                    assert(r * cols >= 0) by (nonlinear_arith);
                    lemma_shr_floor();
                }
                let start = r * cols;
                let acc = mac_words_q31(v, &self.dct[start..start + cols]);
                output[r] = #[verifier::truncate] ((acc >> 31) as i32);
                r = r + 1;
            }
            assert(output@ =~= self.final_output(x0, out0));
        }
    }
}

} // verus!
