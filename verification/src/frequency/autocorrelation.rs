//! Pitch detection by autocorrelation.

use vstd::prelude::*;
use crate::fft_space::FftSpace;
use crate::frequency::{
    fft_window, fractions, fractions_of, lemma_frequency_of_period, lemma_relevant_range,
    lower_bin, relevant_fft_range, upper_bin, window, FrequencyDetector, FrequencyDetectorTest,
};
use crate::ratio::Ratio;
use crate::utils::{
    first_max, first_min, is_interior, lemma_first_max_exists, lemma_first_min_exists,
    lemma_peak_bounds, lemma_peak_within_half_bin, lemma_valley_within_half_bin, max_peak,
    min_peak, peak_at, FftPoint,
};

verus! {

/// Finds the lag at which a signal is most like itself.
///
/// It reads the autocorrelation of the signal window: the real parts of the
/// inverse transform of its power spectrum. The amplitude at lag zero is the
/// energy of the window, and every other amplitude counts as a fraction of it.
pub struct AutocorrelationDetector;

/// The autocorrelation `s` within the bins from `lower` up to `upper`, each
/// amplitude as a fraction of the energy `s[0]`: the amplitude over the
/// energy, as the two are.
pub open spec fn autocorrelation_spectrum(s: Seq<i32>, lower: int, upper: int) -> Seq<Ratio> {
    fractions_of(window(s, lower, upper), s[0] as int)
}

/// The place, counted from the first searched bin, of the greatest fraction
/// of `autocorrelation_spectrum`, the first one among equals. Over a positive
/// energy that is the greatest amplitude, over a negative one the least.
pub open spec fn greatest_fraction(s: Seq<i32>, lower: int, upper: int) -> int {
    if s[0] > 0 {
        first_max(window(s, lower, upper))
    } else {
        first_min(window(s, lower, upper))
    }
}

/// The energy of `s` is not zero, and the greatest fraction of the searched
/// bins has a neighbour on either side within them.
pub open spec fn has_interior_maximum(s: Seq<i32>, lower: int, upper: int) -> bool {
    &&& s.len() > 0
    &&& s[0] != 0
    &&& window(s, lower, upper).len() > 0
    &&& is_interior(window(s, lower, upper), greatest_fraction(s, lower, upper))
}

/// The height `y` of a point of the autocorrelation as a fraction of the
/// energy, with a positive denominator.
pub open spec fn over_energy(y: Ratio, energy: int) -> Ratio {
    if energy > 0 {
        Ratio { num: y.num, den: (y.den * energy) as i128 }
    } else {
        Ratio { num: (-y.num) as i128, den: (y.den * -energy) as i128 }
    }
}

/// The highest point of the autocorrelation `s` within the bins from `lower`
/// up to `upper`: the vertex of the parabola through the greatest fraction of
/// `autocorrelation_spectrum` and its two neighbours. Its position is counted
/// from `lower`, its height is a fraction of the energy. There is none where
/// the energy is zero or that greatest fraction is the first or last of the
/// range.
pub open spec fn autocorrelation_peak(s: Seq<i32>, lower: int, upper: int) -> Option<FftPoint> {
    if s.len() == 0 || s[0] == 0 || window(s, lower, upper).len() == 0 {
        None
    } else {
        match peak_at(window(s, lower, upper), greatest_fraction(s, lower, upper)) {
            None => None,
            Some(p) => Some(FftPoint { x: p.x, y: over_energy(p.y, s[0] as int) }),
        }
    }
}

/// The frequency that belongs to a peak at `lower + x` samples: the sample
/// rate divided by that period.
pub open spec fn autocorrelation_frequency(sample_rate: u32, lower: int, x: Ratio) -> Ratio {
    Ratio { num: (sample_rate * x.den) as i128, den: (lower * x.den + x.num) as i128 }
}

impl AutocorrelationDetector {
    /// The bins that are searched at the sample rate `sample_rate`.
    pub fn relevant_fft_range(sample_rate: u32) -> (r: (usize, usize))
        ensures
            r.0 == lower_bin(sample_rate),
            r.1 == upper_bin(sample_rate),
            r.0 <= r.1,
            r.1 <= sample_rate,
    {
        relevant_fft_range(sample_rate)
    }

    /// The amplitudes of the bins in `fft_range`, each divided by the
    /// energy, which is the amplitude of bin 0: the k-th fraction has the
    /// amplitude of the k-th of these bins as its numerator and the energy as
    /// its denominator, also where the energy is zero or negative.
    pub fn unscaled_spectrum(fft_space: &FftSpace, fft_range: (usize, usize)) -> (r: Vec<Ratio>)
        requires
            fft_range.0 <= fft_range.1,
        ensures
            r@ == autocorrelation_spectrum(fft_space@, fft_range.0 as int, fft_range.1 as int),
            r@.len() == window(fft_space@, fft_range.0 as int, fft_range.1 as int).len(),
            forall|k: int|
                0 <= k < r@.len() ==> (#[trigger] r@[k]).num == window(
                    fft_space@,
                    fft_range.0 as int,
                    fft_range.1 as int,
                )[k] && r@[k].den == fft_space@[0],
    {
        let amplitudes: Vec<i32> = fft_window(fft_space.space(), fft_range.0, fft_range.1);
        if fft_space.len() == 0 {
            let none: Vec<Ratio> = Vec::new();
            assert(none@ =~= autocorrelation_spectrum(
                fft_space@,
                fft_range.0 as int,
                fft_range.1 as int,
            ));
            return none;
        }
        let energy: i32 = fft_space.space()[0];
        fractions(&amplitudes, energy)
    }

    /// Overwrites `fft_space` with `signal` and interpolates the highest point
    /// of the bins in `fft_range`. The fractions of `unscaled_spectrum` have
    /// one denominator, so the amplitudes are searched in their place: for the
    /// greatest where the energy is positive, for the least where it is
    /// negative. The energy then divides the height that was found.
    pub fn detect_unscaled_freq(
        signal: &Vec<i32>,
        fft_range: (usize, usize),
        fft_space: &mut FftSpace,
    ) -> (r: Option<FftPoint>)
        requires
            signal@.len() == old(fft_space)@.len(),
            fft_range.0 <= fft_range.1,
        ensures
            final(fft_space)@ == signal@,
            r == autocorrelation_peak(signal@, fft_range.0 as int, fft_range.1 as int),
            r is Some <==> has_interior_maximum(signal@, fft_range.0 as int, fft_range.1 as int),
            r is Some ==> {
                let p = r.unwrap();
                let i = greatest_fraction(signal@, fft_range.0 as int, fft_range.1 as int);
                &&& 0 < p.x.den <= 0x4_0000_0000
                &&& 0 < p.y.den
                &&& (2 * i - 1) * p.x.den <= 2 * p.x.num <= (2 * i + 1) * p.x.den
                &&& 0 < i < signal@.len()
            },
    {
        fft_space.init_fft_space(signal);
        if fft_space.len() == 0 {
            return None;
        }
        let energy: i32 = fft_space.space()[0];
        if energy == 0 {
            return None;
        }
        let amplitudes: Vec<i32> = fft_window(fft_space.space(), fft_range.0, fft_range.1);
        let found = if energy > 0 {
            max_peak(&amplitudes)
        } else {
            min_peak(&amplitudes)
        };
        match found {
            None => None,
            Some(p) => {
                if energy > 0 {
                    assert(0 < p.y.den * energy <= 0x10_0000_0000 * 0x8000_0000) by (nonlinear_arith)
                        requires
                            0 < p.y.den <= 0x10_0000_0000,
                            0 < energy <= 0x8000_0000,
                    ;
                    Some(FftPoint { x: p.x, y: Ratio { num: p.y.num, den: p.y.den * (energy as i128) } })
                } else {
                    assert(0 < p.y.den * -energy <= 0x10_0000_0000 * 0x8000_0000) by (nonlinear_arith)
                        requires
                            0 < p.y.den <= 0x10_0000_0000,
                            0 < -energy <= 0x8000_0000,
                    ;
                    Some(FftPoint { x: p.x, y: Ratio { num: -p.y.num, den: p.y.den * -(energy as i128) } })
                }
            },
        }
    }
}

impl FrequencyDetector for AutocorrelationDetector {
    /// The sample rate divided by the period at which the autocorrelation is
    /// highest within the bins of `relevant_fft_range`.
    open spec fn frequency_of(signal: Seq<i32>, sample_rate: u32) -> Option<Ratio> {
        match autocorrelation_peak(signal, lower_bin(sample_rate), upper_bin(sample_rate)) {
            None => None,
            Some(p) => Some(autocorrelation_frequency(sample_rate, lower_bin(sample_rate), p.x)),
        }
    }

    fn detect_frequency_with_fft_space(
        &mut self,
        signal: &Vec<i32>,
        sample_rate: u32,
        fft_space: &mut FftSpace,
    ) -> (r: Option<Ratio>)
        ensures
            r is Some <==> has_interior_maximum(signal@, lower_bin(sample_rate), upper_bin(sample_rate)),
            r is Some ==> r.unwrap().num > 0 && r.unwrap().den > 0,
    {
        let (lower_limit, upper_limit) = Self::relevant_fft_range(sample_rate);
        match Self::detect_unscaled_freq(signal, (lower_limit, upper_limit), fft_space) {
            None => None,
            Some(point) => {
                proof {
                    let i = greatest_fraction(signal@, lower_limit as int, upper_limit as int);
                    if sample_rate == 0 {
                        assert(window(signal@, lower_limit as int, upper_limit as int).len() == 0);
                    }
                    lemma_frequency_of_period(sample_rate, lower_limit as int, i, point.x);
                }
                Some(
                    Ratio {
                        num: (sample_rate as i128) * point.x.den,
                        den: (lower_limit as i128) * point.x.den + point.x.num,
                    },
                )
            },
        }
    }
}

impl FrequencyDetectorTest for AutocorrelationDetector {
    open spec fn peak_in(signal: Seq<i32>, lower: int, upper: int) -> Option<FftPoint> {
        autocorrelation_peak(signal, lower, upper)
    }

    open spec fn spectrum_in(signal: Seq<i32>, lower: int, upper: int) -> Seq<Ratio> {
        autocorrelation_spectrum(signal, lower, upper)
    }

    open spec fn algorithm_name() -> Seq<char> {
        "autocorrelation"@
    }

    fn unscaled_spectrum(&self, signal: &Vec<i32>, fft_range: (usize, usize)) -> (r: Vec<Ratio>) {
        let mut fft_space = FftSpace::new(signal.len());
        fft_space.init_fft_space(signal);
        Self::unscaled_spectrum(&fft_space, fft_range)
    }

    fn relevant_fft_range(&self, _fft_space_len: usize, sample_rate: u32) -> (r: (usize, usize)) {
        Self::relevant_fft_range(sample_rate)
    }

    fn detect_unscaled_freq_with_space(
        &mut self,
        signal: &Vec<i32>,
        fft_range: (usize, usize),
        fft_space: &mut FftSpace,
    ) -> (r: Option<FftPoint>) {
        Self::detect_unscaled_freq(signal, fft_range, fft_space)
    }

    fn name(&self) -> (r: &'static str) {
        "autocorrelation"
    }
}

/// Where the energy is not zero and bins are searched, `greatest_fraction`
/// is the place of the greatest fraction of `autocorrelation_spectrum`, and
/// of the first one among equals: it is greater than every fraction before
/// it, and none after it is greater.
pub proof fn lemma_greatest_fraction(s: Seq<i32>, lower: int, upper: int)
    requires
        s.len() > 0,
        s[0] != 0,
        window(s, lower, upper).len() > 0,
    ensures
        0 <= greatest_fraction(s, lower, upper) < autocorrelation_spectrum(s, lower, upper).len(),
        forall|j: int|
            0 <= j < greatest_fraction(s, lower, upper) ==> autocorrelation_spectrum(
                s,
                lower,
                upper,
            )[greatest_fraction(s, lower, upper)].greater_than(
                #[trigger] autocorrelation_spectrum(s, lower, upper)[j],
            ),
        forall|j: int|
            greatest_fraction(s, lower, upper) <= j < autocorrelation_spectrum(s, lower, upper).len()
                ==> !(#[trigger] autocorrelation_spectrum(s, lower, upper)[j]).greater_than(
                autocorrelation_spectrum(s, lower, upper)[greatest_fraction(s, lower, upper)],
            ),
{
    let w = window(s, lower, upper);
    let f = autocorrelation_spectrum(s, lower, upper);
    let e = s[0] as int;
    let i = greatest_fraction(s, lower, upper);
    if e > 0 {
        lemma_first_max_exists(w);
    } else {
        lemma_first_min_exists(w);
    }
    assert forall|j: int| 0 <= j < f.len() implies (j < i ==> f[i].greater_than(#[trigger] f[j]))
        && !f[j].greater_than(f[i]) by {
        let x = w[i] as int;
        let y = w[j] as int;
        assert(((x * e > y * e) <==> (if e > 0 { x > y } else { x < y })) && ((y * e > x * e) <==> (if e
            > 0 { y > x } else { y < x }))) by (nonlinear_arith)
            requires
                e != 0,
        ;
    }
}

/// The detector finds a frequency exactly when the energy is not zero and
/// the greatest fraction of the searched bins has a neighbour on either side
/// within them: a maximum on the first or last of these bins gives no result.
/// A frequency that is found belongs to a period within half a sample of the
/// bin of that greatest fraction.
pub proof fn lemma_autocorrelation_detects_interior_maximum(signal: Seq<i32>, sample_rate: u32)
    requires
        signal.len() <= usize::MAX,
    ensures
        AutocorrelationDetector::frequency_of(signal, sample_rate) is Some <==> has_interior_maximum(
            signal,
            lower_bin(sample_rate),
            upper_bin(sample_rate),
        ),
        AutocorrelationDetector::frequency_of(signal, sample_rate) is Some ==> {
            let f = AutocorrelationDetector::frequency_of(signal, sample_rate).unwrap();
            let bin = lower_bin(sample_rate) + greatest_fraction(
                signal,
                lower_bin(sample_rate),
                upper_bin(sample_rate),
            );
            &&& f.num > 0
            &&& f.den > 0
            &&& 2 * sample_rate * f.den <= (2 * bin + 1) * f.num
            &&& (2 * bin - 1) * f.num <= 2 * sample_rate * f.den
        },
{
    let lo = lower_bin(sample_rate);
    let hi = upper_bin(sample_rate);
    let w = window(signal, lo, hi);
    if has_interior_maximum(signal, lo, hi) {
        let i = greatest_fraction(signal, lo, hi);
        if signal[0] > 0 {
            lemma_first_max_exists(w);
            lemma_peak_within_half_bin(w, i);
        } else {
            lemma_first_min_exists(w);
            lemma_valley_within_half_bin(w, i);
        }
        lemma_peak_bounds(w, i);
        let p = peak_at(w, i).unwrap();
        lemma_relevant_range(sample_rate);
        lemma_frequency_of_period(sample_rate, lo, i, p.x);
    }
}

} // verus!
