//! Pitch detection by the power cepstrum.

use vstd::prelude::*;
use crate::constants::{MIN_PEAK_DISTANCE, MIN_PEAK_PROMINENCE};
use crate::fft_space::FftSpace;
use crate::frequency::{
    enumerate_from, fft_window, fractions, fractions_of, lemma_frequency_of_period,
    lemma_relevant_range, lower_bin, relevant_fft_range, upper_bin, window, window_start,
    with_bins, FrequencyDetector, FrequencyDetectorTest,
};
use crate::peak_iter::{
    candidates, fft_peaks, highest_of, highest_peak, is_candidate, is_highest_peak,
    is_prominent_peak, lemma_highest_reported_peak, lemma_peaks_are_prominent_and_spaced,
    peak_of, peaks_of, Peak,
};
use crate::ratio::Ratio;
use crate::utils::{
    interpolated_peak_at, lemma_peak_bounds, lemma_peak_within_half_bin, peak_at, FftPoint,
};

verus! {

/// Finds the period at which the harmonics of a signal repeat.
///
/// It reads the power cepstrum of the signal window: the real parts of the
/// inverse transform of the logarithm of its power spectrum, with
/// `AMPLITUDE_UNIT` integer steps to one unit of amplitude. It needs a series
/// of harmonics, so a pure sine wave is beyond it.
pub struct PowerCepstrum;

/// The cepstrum `s` within the bins from `lower` up to `upper`: each
/// amplitude as it is, written as a fraction over one.
pub open spec fn cepstrum_spectrum(s: Seq<i32>, lower: int, upper: int) -> Seq<Ratio> {
    fractions_of(window(s, lower, upper), 1)
}

/// The peaks that the power cepstrum chooses from: the prominent local maxima
/// of `s` within the bins from `lower` up to `upper`, each under its bin in
/// `s`.
pub open spec fn cepstrum_peaks(s: Seq<i32>, lower: int, upper: int) -> Seq<Peak> {
    peaks_of(
        window(s, lower, upper),
        window_start(s, lower) as usize,
        MIN_PEAK_DISTANCE,
        MIN_PEAK_PROMINENCE,
    )
}

/// The highest of `cepstrum_peaks`, the first one among equals, interpolated
/// between its neighbours in `s`. Its position is a bin of `s`, not counted
/// from `lower`.
pub open spec fn cepstrum_peak(s: Seq<i32>, lower: int, upper: int) -> Option<FftPoint> {
    let q = cepstrum_peaks(s, lower, upper);
    if q.len() == 0 {
        None
    } else {
        peak_at(s, highest_of(q).index as int)
    }
}

/// The frequency that belongs to a peak at `x` samples: the sample rate
/// divided by that period. Nothing is added to `x`, which is a bin of the
/// whole buffer already.
pub open spec fn cepstrum_frequency(sample_rate: u32, x: Ratio) -> Ratio {
    Ratio { num: (sample_rate * x.den) as i128, den: x.num }
}

/// A peak of `cepstrum_peaks` is a local maximum of `s` itself, so the
/// parabola through it and its neighbours has a vertex, within half a bin of
/// it.
proof fn lemma_cepstrum_peak_interpolates(s: Seq<i32>, lower: int, upper: int, p: Peak)
    requires
        0 <= lower <= upper,
        s.len() <= usize::MAX,
        cepstrum_peaks(s, lower, upper).contains(p),
    ensures
        0 < p.index < s.len() - 1,
        lower <= p.index < upper,
        s[p.index as int] == p.amplitude,
        s[p.index - 1] < s[p.index as int],
        s[p.index + 1] <= s[p.index as int],
        peak_at(s, p.index as int) is Some,
        ({
            let v = peak_at(s, p.index as int).unwrap();
            &&& v.wf()
            &&& (2 * p.index - 1) * v.x.den <= 2 * v.x.num <= (2 * p.index + 1) * v.x.den
            &&& v.x.num > 0
        }),
{
    let w = window(s, lower, upper);
    let fb = window_start(s, lower);
    let q = cepstrum_peaks(s, lower, upper);
    lemma_peaks_are_prominent_and_spaced(w, fb as usize, MIN_PEAK_DISTANCE, MIN_PEAK_PROMINENCE);
    let k = choose|k: int| 0 <= k < q.len() && q[k] == p;
    assert(is_candidate(w, w.len() as int, fb as usize, MIN_PEAK_PROMINENCE, q[k]));
    let i = p.index - fb;
    assert(w[i - 1] == s[p.index - 1]);
    assert(w[i] == s[p.index as int]);
    assert(w[i + 1] == s[p.index + 1]);
    lemma_peak_within_half_bin(s, p.index as int);
    lemma_peak_bounds(s, p.index as int);
    let v = peak_at(s, p.index as int).unwrap();
    assert(v.x.num > 0) by (nonlinear_arith)
        requires
            (2 * p.index - 1) * v.x.den <= 2 * v.x.num,
            v.x.den > 0,
            p.index >= 1,
    ;
}

impl PowerCepstrum {
    /// The bins that are searched at the sample rate `sample_rate`.
    pub fn relevant_fft_range(sample_rate: u32) -> (r: (usize, usize))
        ensures
            r.0 == lower_bin(sample_rate),
            r.1 == upper_bin(sample_rate),
            r.0 <= r.1,
            r.1 <= sample_rate,
    {
        relevant_fft_range(sample_rate)
    }

    /// The amplitudes of the bins in `fft_range`, each with its bin.
    pub fn spectrum(fft_space: &FftSpace, fft_range: (usize, usize)) -> (r: Vec<(usize, i32)>)
        requires
            fft_range.0 <= fft_range.1,
        ensures
            r@ == with_bins(
                window(fft_space@, fft_range.0 as int, fft_range.1 as int),
                window_start(fft_space@, fft_range.0 as int),
            ),
    {
        let amplitudes: Vec<i32> = fft_window(fft_space.space(), fft_range.0, fft_range.1);
        let first_bin: usize = if fft_range.0 <= fft_space.len() {
            fft_range.0
        } else {
            fft_space.len()
        };
        enumerate_from(&amplitudes, first_bin)
    }

    /// Overwrites `fft_space` with `signal`, lists the prominent peaks of the
    /// bins in `fft_range` that lie far enough apart, and interpolates the
    /// highest of them. There is a result exactly when there is such a peak.
    pub fn detect_unscaled_freq(
        signal: &Vec<i32>,
        fft_range: (usize, usize),
        fft_space: &mut FftSpace,
    ) -> (r: Option<FftPoint>)
        requires
            signal@.len() == old(fft_space)@.len(),
            fft_range.0 <= fft_range.1,
        ensures
            final(fft_space)@ == signal@,
            r == cepstrum_peak(signal@, fft_range.0 as int, fft_range.1 as int),
            r is Some <==> cepstrum_peaks(signal@, fft_range.0 as int, fft_range.1 as int).len() > 0,
            r is Some ==> r.unwrap().wf() && r.unwrap().x.num > 0,
    {
        fft_space.init_fft_space(signal);
        let amplitudes: Vec<i32> = fft_window(fft_space.space(), fft_range.0, fft_range.1);
        let first_bin: usize = if fft_range.0 <= fft_space.len() {
            fft_range.0
        } else {
            fft_space.len()
        };
        let peaks: Vec<Peak> = fft_peaks(&amplitudes, first_bin, MIN_PEAK_DISTANCE, MIN_PEAK_PROMINENCE);
        match highest_peak(&peaks) {
            None => None,
            Some(best) => {
                proof {
                    lemma_cepstrum_peak_interpolates(
                        signal@,
                        fft_range.0 as int,
                        fft_range.1 as int,
                        best,
                    );
                }
                interpolated_peak_at(fft_space.space(), best.index)
            },
        }
    }
}

impl FrequencyDetector for PowerCepstrum {
    /// The sample rate divided by the period of the highest prominent peak of
    /// the cepstrum within the bins of `relevant_fft_range`.
    open spec fn frequency_of(signal: Seq<i32>, sample_rate: u32) -> Option<Ratio> {
        match cepstrum_peak(signal, lower_bin(sample_rate), upper_bin(sample_rate)) {
            None => None,
            Some(p) => Some(cepstrum_frequency(sample_rate, p.x)),
        }
    }

    fn detect_frequency_with_fft_space(
        &mut self,
        signal: &Vec<i32>,
        sample_rate: u32,
        fft_space: &mut FftSpace,
    ) -> (r: Option<Ratio>)
        ensures
            r is Some <==> cepstrum_peaks(signal@, lower_bin(sample_rate), upper_bin(sample_rate)).len()
                > 0,
            r is Some ==> r.unwrap().num > 0 && r.unwrap().den > 0,
    {
        let fft_range = Self::relevant_fft_range(sample_rate);
        match Self::detect_unscaled_freq(signal, fft_range, fft_space) {
            None => None,
            Some(point) => {
                assert(sample_rate > 0) by {
                    if sample_rate == 0 {
                        assert(window(signal@, fft_range.0 as int, fft_range.1 as int).len() == 0);
                        assert(candidates(
                            window(signal@, fft_range.0 as int, fft_range.1 as int),
                            0,
                            window_start(signal@, fft_range.0 as int) as usize,
                            MIN_PEAK_PROMINENCE,
                        ).len() == 0);
                    }
                }
                assert(0 < sample_rate * point.x.den <= 0x1_0000_0000 * 0x4_0000_0000) by (nonlinear_arith)
                    requires
                        0 < point.x.den <= 0x4_0000_0000,
                        0 < sample_rate <= 0x1_0000_0000,
                ;
                Some(Ratio { num: (sample_rate as i128) * point.x.den, den: point.x.num })
            },
        }
    }
}

impl FrequencyDetectorTest for PowerCepstrum {
    open spec fn peak_in(signal: Seq<i32>, lower: int, upper: int) -> Option<FftPoint> {
        cepstrum_peak(signal, lower, upper)
    }

    open spec fn algorithm_name() -> Seq<char> {
        "power_cepstrum"@
    }

    open spec fn spectrum_in(signal: Seq<i32>, lower: int, upper: int) -> Seq<Ratio> {
        cepstrum_spectrum(signal, lower, upper)
    }

    fn unscaled_spectrum(&self, signal: &Vec<i32>, fft_range: (usize, usize)) -> (r: Vec<Ratio>) {
        let mut fft_space = FftSpace::new(signal.len());
        fft_space.init_fft_space(signal);
        let amplitudes: Vec<i32> = fft_window(fft_space.space(), fft_range.0, fft_range.1);
        fractions(&amplitudes, 1)
    }

    fn relevant_fft_range(&self, _fft_space_len: usize, sample_rate: u32) -> (r: (usize, usize)) {
        Self::relevant_fft_range(sample_rate)
    }

    fn detect_unscaled_freq_with_space(
        &mut self,
        signal: &Vec<i32>,
        fft_range: (usize, usize),
        fft_space: &mut FftSpace,
    ) -> (r: Option<FftPoint>) {
        Self::detect_unscaled_freq(signal, fft_range, fft_space)
    }

    fn name(&self) -> (r: &'static str) {
        "power_cepstrum"
    }
}

/// Where `i` is the first of the highest prominent peaks of the searched
/// bins, the detector finds a frequency, and it is the one of that peak: it
/// belongs to a period within half a sample of the bin of `i`. The least
/// distance between peaks has no part in it.
pub proof fn lemma_cepstrum_detects_highest_peak(signal: Seq<i32>, sample_rate: u32, i: int)
    requires
        signal.len() <= usize::MAX,
        is_highest_peak(
            window(signal, lower_bin(sample_rate), upper_bin(sample_rate)),
            i,
            MIN_PEAK_PROMINENCE,
        ),
    ensures
        highest_of(cepstrum_peaks(signal, lower_bin(sample_rate), upper_bin(sample_rate))).index
            == window_start(signal, lower_bin(sample_rate)) + i,
        PowerCepstrum::frequency_of(signal, sample_rate) is Some,
        ({
            let f = PowerCepstrum::frequency_of(signal, sample_rate).unwrap();
            let bin = window_start(signal, lower_bin(sample_rate)) + i;
            &&& f.num > 0
            &&& f.den > 0
            &&& 2 * sample_rate * f.den <= (2 * bin + 1) * f.num
            &&& (2 * bin - 1) * f.num <= 2 * sample_rate * f.den
        }),
{
    let lo = lower_bin(sample_rate);
    let hi = upper_bin(sample_rate);
    lemma_relevant_range(sample_rate);
    let w = window(signal, lo, hi);
    let fb = window_start(signal, lo) as usize;
    let n = w.len() as int;
    let q = cepstrum_peaks(signal, lo, hi);
    let p = peak_of(w, i, fb);
    lemma_highest_reported_peak(w, fb, MIN_PEAK_DISTANCE, MIN_PEAK_PROMINENCE, i);
    lemma_cepstrum_peak_interpolates(signal, lo, hi, p);
    let v = peak_at(signal, p.index as int).unwrap();
    lemma_frequency_of_period(sample_rate, 0, p.index as int, v.x);
}

/// Where the searched bins hold no prominent peak, the detector finds no
/// frequency.
pub proof fn lemma_cepstrum_needs_prominent_peak(signal: Seq<i32>, sample_rate: u32)
    requires
        signal.len() <= usize::MAX,
        forall|i: int|
            !#[trigger] is_prominent_peak(
                window(signal, lower_bin(sample_rate), upper_bin(sample_rate)),
                i,
                MIN_PEAK_PROMINENCE,
            ),
    ensures
        PowerCepstrum::frequency_of(signal, sample_rate) is None,
{
    let lo = lower_bin(sample_rate);
    let hi = upper_bin(sample_rate);
    let w = window(signal, lo, hi);
    let fb = window_start(signal, lo) as usize;
    let q = cepstrum_peaks(signal, lo, hi);
    lemma_relevant_range(sample_rate);
    lemma_peaks_are_prominent_and_spaced(w, fb, MIN_PEAK_DISTANCE, MIN_PEAK_PROMINENCE);
    if q.len() > 0 {
        assert(is_candidate(w, w.len() as int, fb, MIN_PEAK_PROMINENCE, q[0]));
        assert(is_prominent_peak(w, q[0].index - fb, MIN_PEAK_PROMINENCE));
    }
}

} // verus!
