//! The detectors and what they share: the range of bins that they search and
//! the two capabilities that each of them offers.

pub mod autocorrelation;
pub mod cepstrum;

use vstd::prelude::*;
use crate::constants::{MAX_FREQ, MIN_FREQ};
use crate::fft_space::FftSpace;
use crate::ratio::Ratio;
use crate::utils::FftPoint;

verus! {

/// `a / b` rounded to the nearest integer, a half rounded up.
pub open spec fn nearest(a: u32, b: u32) -> int {
    (2 * a + b) / (2 * b)
}

/// Divides `a` by `b` and rounds to the nearest integer, a half up.
pub fn round_div(a: u32, b: u32) -> (r: usize)
    requires
        b > 0,
    ensures
        r == nearest(a, b),
        (2 * r - 1) * b <= 2 * a < (2 * r + 1) * b,
        r <= a,
{
    proof {
        lemma_nearest(a, b);
    }
    let n: u64 = 2 * (a as u64) + b as u64;
    let m: u64 = 2 * (b as u64);
    let q: u64 = n / m;
    q as usize
}

/// `nearest(a, b)` is the integer nearest to `a / b`, the greater one where
/// two are as near, and lies between 0 and `a`.
pub proof fn lemma_nearest(a: u32, b: u32)
    requires
        b > 0,
    ensures
        (2 * nearest(a, b) - 1) * b <= 2 * a < (2 * nearest(a, b) + 1) * b,
        0 <= nearest(a, b) <= a,
{
    let n = 2 * a + b;
    let m = 2 * b;
    let q = n / m;
    assert(q * m <= n < (q + 1) * m && 0 <= q <= a) by (nonlinear_arith)
        requires
            q == n / m,
            m == 2 * b,
            n == 2 * a + b,
            b > 0,
            a >= 0,
    ;
    assert((2 * q - 1) * b == q * m - b && (2 * q + 1) * b == (q + 1) * m - b) by (nonlinear_arith)
        requires
            m == 2 * b,
    ;
}

/// The first bin that a detector searches at the sample rate `sample_rate`:
/// the period of `MAX_FREQ`, in samples.
pub open spec fn lower_bin(sample_rate: u32) -> int {
    nearest(sample_rate, MAX_FREQ)
}

/// The bin at which the search ends at the sample rate `sample_rate`: the
/// period of `MIN_FREQ`, in samples.
pub open spec fn upper_bin(sample_rate: u32) -> int {
    nearest(sample_rate, MIN_FREQ)
}

/// The searched bins begin no later than they end, and end no later than
/// the sample rate.
pub proof fn lemma_relevant_range(sample_rate: u32)
    ensures
        0 <= lower_bin(sample_rate) <= upper_bin(sample_rate) <= sample_rate,
{
    lemma_nearest(sample_rate, MAX_FREQ);
    lemma_nearest(sample_rate, MIN_FREQ);
    let lower = lower_bin(sample_rate);
    let upper = upper_bin(sample_rate);
    assert(lower <= upper) by (nonlinear_arith)
        requires
            (2 * lower - 1) * MAX_FREQ <= 2 * sample_rate,
            2 * sample_rate < (2 * upper + 1) * MIN_FREQ,
            0 < MIN_FREQ <= MAX_FREQ,
    ;
}

/// The bins between the periods of `MAX_FREQ` and `MIN_FREQ`: the first bin
/// that is searched and the first that is not.
pub fn relevant_fft_range(sample_rate: u32) -> (r: (usize, usize))
    ensures
        r.0 == lower_bin(sample_rate),
        r.1 == upper_bin(sample_rate),
        r.0 <= r.1,
        r.1 <= sample_rate,
{
    proof {
        lemma_relevant_range(sample_rate);
    }
    let lower_limit: usize = round_div(sample_rate, MAX_FREQ);
    let upper_limit: usize = round_div(sample_rate, MIN_FREQ);
    (lower_limit, upper_limit)
}

/// The amplitudes of `s` in the bins from `lower` up to, but without,
/// `upper`, as far as `s` has them.
pub open spec fn window(s: Seq<i32>, lower: int, upper: int) -> Seq<i32> {
    let from = if lower <= s.len() { lower } else { s.len() as int };
    let to = if upper <= s.len() { upper } else { s.len() as int };
    s.subrange(from, to)
}

/// The bin of the first amplitude of `window(s, lower, ..)`.
pub open spec fn window_start(s: Seq<i32>, lower: int) -> int {
    if lower <= s.len() { lower } else { s.len() as int }
}

/// Copies the amplitudes of the bins from `lower` up to, but without,
/// `upper`, as far as `space` has them.
pub fn fft_window(space: &Vec<i32>, lower: usize, upper: usize) -> (r: Vec<i32>)
    requires
        lower <= upper,
    ensures
        r@ == window(space@, lower as int, upper as int),
{
    let n: usize = space.len();
    let from: usize = if lower <= n { lower } else { n };
    let to: usize = if upper <= n { upper } else { n };
    let mut out: Vec<i32> = Vec::new();
    let mut k: usize = from;
    while k < to
        invariant
            from <= k <= to <= n,
            n == space@.len(),
            out@ == space@.subrange(from as int, k as int),
        decreases to - k,
    {
        out.push(space[k]);
        k += 1;
        assert(out@ =~= space@.subrange(from as int, k as int));
    }
    out
}

/// What every detector offers: finding the frequency of a signal window.
///
/// The window is handed over as the real parts of its transform, one `i32`
/// for each bin. The frequency is an exact fraction, in Hertz.
pub trait FrequencyDetector {
    /// The frequency that the detector finds in `signal` at the sample rate
    /// `sample_rate`, if any. It depends on nothing else.
    spec fn frequency_of(signal: Seq<i32>, sample_rate: u32) -> Option<Ratio>;

    /// Detects the frequency of `signal` in a buffer of the caller, which is
    /// overwritten with `signal` first and must have its length.
    fn detect_frequency_with_fft_space(
        &mut self,
        signal: &Vec<i32>,
        sample_rate: u32,
        fft_space: &mut FftSpace,
    ) -> (r: Option<Ratio>)
        requires
            signal@.len() == old(fft_space)@.len(),
        ensures
            r == Self::frequency_of(signal@, sample_rate),
            final(fft_space)@ == signal@,
    ;

    /// Detects the frequency of `signal`, which is not empty, in a buffer
    /// made for this one call.
    fn detect_frequency(&mut self, signal: &Vec<i32>, sample_rate: u32) -> (r: Option<Ratio>)
        requires
            signal@.len() > 0,
        ensures
            r == Self::frequency_of(signal@, sample_rate),
    {
        let mut fft_space = FftSpace::new(signal.len());
        self.detect_frequency_with_fft_space(signal, sample_rate, &mut fft_space)
    }
}

/// Each amplitude of `w` as a fraction over `den`.
pub open spec fn fractions_of(w: Seq<i32>, den: int) -> Seq<Ratio> {
    Seq::new(w.len(), |k: int| Ratio { num: w[k] as i128, den: den as i128 })
}

/// Writes each amplitude as a fraction over `den`.
pub fn fractions(amplitudes: &Vec<i32>, den: i32) -> (r: Vec<Ratio>)
    ensures
        r@ == fractions_of(amplitudes@, den as int),
{
    let mut out: Vec<Ratio> = Vec::new();
    let mut k: usize = 0;
    while k < amplitudes.len()
        invariant
            k <= amplitudes@.len(),
            out@ == fractions_of(amplitudes@.subrange(0, k as int), den as int),
        decreases amplitudes@.len() - k,
    {
        out.push(Ratio { num: amplitudes[k] as i128, den: den as i128 });
        k += 1;
        assert(out@ =~= fractions_of(amplitudes@.subrange(0, k as int), den as int));
    }
    assert(amplitudes@.subrange(0, k as int) =~= amplitudes@);
    out
}

/// Each value of `w` with its bin, the first one in the bin `first_bin`.
pub open spec fn with_bins<T>(w: Seq<T>, first_bin: int) -> Seq<(usize, T)> {
    Seq::new(w.len(), |k: int| ((first_bin + k) as usize, w[k]))
}

/// Pairs each value with its bin, the first one with `first_bin`.
pub fn enumerate_from<T: Copy>(values: &Vec<T>, first_bin: usize) -> (r: Vec<(usize, T)>)
    requires
        first_bin + values@.len() <= usize::MAX,
    ensures
        r@ == with_bins(values@, first_bin as int),
{
    let mut out: Vec<(usize, T)> = Vec::new();
    let mut k: usize = 0;
    while k < values.len()
        invariant
            k <= values@.len(),
            first_bin + values@.len() <= usize::MAX,
            out@ == with_bins(values@.subrange(0, k as int), first_bin as int),
        decreases values@.len() - k,
    {
        out.push((first_bin + k, values[k]));
        k += 1;
        assert(out@ =~= with_bins(values@.subrange(0, k as int), first_bin as int));
    }
    assert(values@.subrange(0, k as int) =~= values@);
    out
}

/// A peak at `x` bins, within half a bin of the bin `bin`, has the period of
/// `offset + x` samples. The frequency of that period, `sample_rate *
/// x.den / (offset * x.den + x.num)`, is positive and lies between the
/// frequencies of the periods half a sample beside `offset + bin`; the
/// numbers that it is made of are far from the limits of an `i128`.
pub proof fn lemma_frequency_of_period(sample_rate: u32, offset: int, bin: int, x: Ratio)
    requires
        0 < sample_rate,
        0 <= offset <= u32::MAX,
        0 < bin <= usize::MAX,
        0 < x.den <= 0x4_0000_0000,
        (2 * bin - 1) * x.den <= 2 * x.num <= (2 * bin + 1) * x.den,
    ensures
        0 < sample_rate * x.den <= 0x1_0000_0000 * 0x4_0000_0000,
        0 <= offset * x.den <= 0x1_0000_0000 * 0x4_0000_0000,
        0 < 2 * x.num <= 0x2_0000_0000_0000_0000 * 0x4_0000_0000,
        2 * sample_rate * (offset * x.den + x.num) <= (2 * (offset + bin) + 1) * (sample_rate * x.den),
        (2 * (offset + bin) - 1) * (sample_rate * x.den) <= 2 * sample_rate * (offset * x.den + x.num),
{
    let xd = x.den as int;
    let xn = x.num as int;
    assert(0 < sample_rate * xd <= 0x1_0000_0000 * 0x4_0000_0000) by (nonlinear_arith)
        requires
            0 < xd <= 0x4_0000_0000,
            0 < sample_rate <= 0x1_0000_0000,
    ;
    assert(0 <= offset * xd <= 0x1_0000_0000 * 0x4_0000_0000) by (nonlinear_arith)
        requires
            0 < xd <= 0x4_0000_0000,
            0 <= offset <= 0x1_0000_0000,
    ;
    assert(0 < 2 * xn <= 0x2_0000_0000_0000_0000 * 0x4_0000_0000) by (nonlinear_arith)
        requires
            0 < xd <= 0x4_0000_0000,
            0 < bin <= 0xffff_ffff_ffff_ffff,
            (2 * bin - 1) * xd <= 2 * xn <= (2 * bin + 1) * xd,
    ;
    let num = sample_rate * xd;
    let den = offset * xd + xn;
    let at = offset + bin;
    assert(2 * sample_rate * den <= (2 * at + 1) * num && (2 * at - 1) * num <= 2 * sample_rate * den)
        by (nonlinear_arith)
        requires
            num == sample_rate * xd,
            den == offset * xd + xn,
            at == offset + bin,
            sample_rate > 0,
            (2 * bin - 1) * xd <= 2 * xn <= (2 * bin + 1) * xd,
    ;
}

/// What a detector offers to tools that look into it: the steps of a
/// detection one by one. Detecting a frequency needs none of this.
pub trait FrequencyDetectorTest {
    /// The peak that the detector finds in `signal` within the bins from
    /// `lower` up to `upper`, if any.
    spec fn peak_in(signal: Seq<i32>, lower: int, upper: int) -> Option<FftPoint>;

    /// The values that the detector searches in `signal` within the bins from
    /// `lower` up to `upper`, one for each of these bins that `signal` has.
    spec fn spectrum_in(signal: Seq<i32>, lower: int, upper: int) -> Seq<Ratio>;

    /// The name of the algorithm.
    spec fn algorithm_name() -> Seq<char>;

    /// The values that the detector searches in the bins of `fft_range`.
    fn unscaled_spectrum(&self, signal: &Vec<i32>, fft_range: (usize, usize)) -> (r: Vec<Ratio>)
        requires
            signal@.len() > 0,
            fft_range.0 <= fft_range.1,
        ensures
            r@ == Self::spectrum_in(signal@, fft_range.0 as int, fft_range.1 as int),
            r@.len() == window(signal@, fft_range.0 as int, fft_range.1 as int).len(),
    ;

    /// The bins that the detector searches at the sample rate `sample_rate`,
    /// whatever the length of the buffer.
    fn relevant_fft_range(&self, fft_space_len: usize, sample_rate: u32) -> (r: (usize, usize))
        ensures
            r.0 == lower_bin(sample_rate),
            r.1 == upper_bin(sample_rate),
            r.0 <= r.1,
    ;

    /// Finds the peak of `signal` within the bins of `fft_range`, in a buffer
    /// of the caller that is overwritten with `signal` first.
    fn detect_unscaled_freq_with_space(
        &mut self,
        signal: &Vec<i32>,
        fft_range: (usize, usize),
        fft_space: &mut FftSpace,
    ) -> (r: Option<FftPoint>)
        requires
            signal@.len() == old(fft_space)@.len(),
            fft_range.0 <= fft_range.1,
        ensures
            r == Self::peak_in(signal@, fft_range.0 as int, fft_range.1 as int),
            final(fft_space)@ == signal@,
    ;

    /// The name of the algorithm.
    fn name(&self) -> (r: &'static str)
        ensures
            r@ == Self::algorithm_name(),
    ;

    /// The values that the detector searches at the sample rate
    /// `sample_rate`, each with its bin.
    fn spectrum(&self, signal: &Vec<i32>, sample_rate: u32) -> (r: Vec<(usize, Ratio)>)
        requires
            signal@.len() > 0,
        ensures
            r@ == with_bins(
                Self::spectrum_in(signal@, lower_bin(sample_rate), upper_bin(sample_rate)),
                window_start(signal@, lower_bin(sample_rate)),
            ),
    {
        let fft_range = self.relevant_fft_range(signal.len(), sample_rate);
        let values: Vec<Ratio> = self.unscaled_spectrum(signal, fft_range);
        let first_bin: usize = if fft_range.0 <= signal.len() { fft_range.0 } else { signal.len() };
        enumerate_from(&values, first_bin)
    }
}

} // verus!
