use float_cmp::ApproxEqRatio;
use pitch_detector::constants::{AMPLITUDE_UNIT, MAX_FREQ, MIN_FREQ};
use pitch_detector::fft_space::FftSpace;
use pitch_detector::frequency::autocorrelation::AutocorrelationDetector;
use pitch_detector::frequency::cepstrum::PowerCepstrum;
use pitch_detector::frequency::{
    fft_window, relevant_fft_range, round_div, FrequencyDetector, FrequencyDetectorTest,
};
use pitch_detector::ratio::Ratio;
use pitch_detector::utils::FftPoint;
use rustfft::num_complex::Complex;
use rustfft::FftPlanner;

fn hertz(f: Ratio) -> f64 {
    f.num as f64 / f.den as f64
}

fn sine_wave_signal(num_samples: usize, freq: f64, sample_rate: f64) -> Vec<f64> {
    (0..num_samples)
        .map(|r| (2.0 * std::f64::consts::PI * r as f64 * freq / sample_rate).sin())
        .collect()
}

/// A tone of the given pitch with eleven overtones, each weaker than the one
/// before.
fn harmonic_signal(num_samples: usize, freq: f64, sample_rate: f64) -> Vec<f64> {
    (0..num_samples)
        .map(|r| {
            (1..=12)
                .map(|h| {
                    (2.0 * std::f64::consts::PI * r as f64 * freq * h as f64 / sample_rate).sin()
                        / h as f64
                })
                .sum()
        })
        .collect()
}

fn forward(signal: &[f64]) -> Vec<Complex<f64>> {
    let mut planner = FftPlanner::new();
    let fft = planner.plan_fft_forward(signal.len());
    let mut space: Vec<Complex<f64>> = signal.iter().map(|&x| Complex::new(x, 0.0)).collect();
    fft.process(&mut space);
    space
}

fn inverse(mut space: Vec<Complex<f64>>) -> Vec<f64> {
    let mut planner = FftPlanner::new();
    let fft = planner.plan_fft_inverse(space.len());
    fft.process(&mut space);
    space.iter().map(|c| c.re).collect()
}

/// The autocorrelation of `signal` as fractions of its energy, which becomes
/// two to the power of thirty.
fn autocorrelation(signal: &[f64]) -> Vec<i32> {
    let power: Vec<Complex<f64>> = forward(signal).iter().map(|f| f * f.conj()).collect();
    let lags = inverse(power);
    let energy = lags[0];
    lags.iter().map(|v| (v / energy * 1073741824.0).round() as i32).collect()
}

/// The power cepstrum of `signal` in steps of one in `AMPLITUDE_UNIT`.
fn power_cepstrum(signal: &[f64]) -> Vec<i32> {
    let log_power: Vec<Complex<f64>> =
        forward(signal).iter().map(|f| Complex::new(f.norm_sqr().ln(), 0.0)).collect();
    inverse(log_power).iter().map(|v| (v * AMPLITUDE_UNIT as f64).round() as i32).collect()
}

#[test]
fn test_autocorrelation_sine() {
    let mut detector = AutocorrelationDetector;
    let sample_rate = 44100.0;
    let signal = autocorrelation(&sine_wave_signal(8192, 440.0, sample_rate));
    let actual_freq = hertz(detector.detect_frequency(&signal, 44100).expect("Did not get pitch"));
    assert!(
        actual_freq.approx_eq_ratio(&440.0, 0.1),
        "Expected freq: {}, Actual freq: {}",
        440.0,
        actual_freq
    );
    // the greatest lag is 100 samples, and the peak lies within half a sample of it
    assert!(actual_freq > 44100.0 / 100.5 && actual_freq < 44100.0 / 99.5);
}

#[test]
fn autocorrelation_follows_the_pitch_of_a_sine_wave() {
    let mut detector = AutocorrelationDetector;
    let mut fft_space = FftSpace::new(4096);
    for &freq in [220.0, 330.0, 523.25, 880.0].iter() {
        let signal = autocorrelation(&sine_wave_signal(4096, freq, 44100.0));
        let found = detector
            .detect_frequency_with_fft_space(&signal, 44100, &mut fft_space)
            .expect("Did not get pitch");
        assert!(hertz(found).approx_eq_ratio(&freq, 0.02), "{} for {}", hertz(found), freq);
    }
}

#[test]
fn autocorrelation_that_is_greatest_on_a_boundary_gives_nothing() {
    let mut detector = AutocorrelationDetector;
    // at 110 Hz the first searched lag, 22 samples, is still more like lag
    // zero than the period of 401 samples is
    let low = autocorrelation(&sine_wave_signal(4096, 110.0, 44100.0));
    assert_eq!(detector.detect_frequency(&low, 44100), None);
    // a buffer that ends within the searched lags is greatest at its end,
    // where the lags come back to lag zero
    let short = autocorrelation(&sine_wave_signal(2048, 300.0, 44100.0));
    assert_eq!(detector.detect_frequency(&short, 44100), None);
}

#[test]
fn power_cepstrum_finds_the_pitch_of_a_tone_with_overtones() {
    let mut detector = PowerCepstrum;
    for &freq in [146.8, 220.0, 523.0].iter() {
        let signal = power_cepstrum(&harmonic_signal(8192, freq, 44100.0));
        let found = detector.detect_frequency(&signal, 44100).expect("Did not get pitch");
        assert!(hertz(found).approx_eq_ratio(&freq, 0.02), "{} for {}", hertz(found), freq);
    }
}

#[test]
fn relevant_range_is_the_rounded_period_of_the_bounds() {
    assert_eq!(MIN_FREQ, 20);
    assert_eq!(MAX_FREQ, 2000);
    assert_eq!(relevant_fft_range(44100), (22, 2205));
    assert_eq!(relevant_fft_range(44000), (22, 2200));
    assert_eq!(relevant_fft_range(48000), (24, 2400));
    assert_eq!(relevant_fft_range(0), (0, 0));
    assert_eq!(relevant_fft_range(u32::MAX), (2147484, 214748365));
    assert_eq!(AutocorrelationDetector::relevant_fft_range(44100), (22, 2205));
    assert_eq!(PowerCepstrum::relevant_fft_range(44100), (22, 2205));
    assert_eq!(FrequencyDetectorTest::relevant_fft_range(&AutocorrelationDetector, 8192, 44100), (22, 2205));
    assert_eq!(FrequencyDetectorTest::relevant_fft_range(&PowerCepstrum, 1, 44000), (22, 2200));
}

#[test]
fn round_div_rounds_a_half_up() {
    assert_eq!(round_div(0, 7), 0);
    assert_eq!(round_div(3, 7), 0);
    assert_eq!(round_div(4, 7), 1);
    assert_eq!(round_div(999, 2000), 0);
    assert_eq!(round_div(1000, 2000), 1);
    assert_eq!(round_div(2999, 2000), 1);
    assert_eq!(round_div(3000, 2000), 2);
    assert_eq!(round_div(u32::MAX, 1), u32::MAX as usize);
    assert_eq!(round_div(u32::MAX, u32::MAX), 1);
    assert_eq!(round_div(u32::MAX, 2), 2147483648);
}

#[test]
fn window_is_cut_to_what_the_buffer_has() {
    let s = vec![10, 11, 12, 13, 14, 15];
    assert_eq!(fft_window(&s, 2, 4), vec![12, 13]);
    assert_eq!(fft_window(&s, 0, 6), s);
    assert_eq!(fft_window(&s, 4, 100), vec![14, 15]);
    assert_eq!(fft_window(&s, 3, 3), Vec::new());
    assert_eq!(fft_window(&s, 6, 9), Vec::new());
    assert_eq!(fft_window(&s, 50, 100), Vec::new());
}

/// Sixteen lags at 4000 samples a second: the bins from 2 on are searched.
fn small_autocorrelation() -> Vec<i32> {
    vec![1000, 0, 10, 50, 90, 70, 20, 0, 0, 0, 0, 0, 0, 0, 0, 0]
}

#[test]
fn autocorrelation_frequency_is_the_rate_over_the_period() {
    let mut detector = AutocorrelationDetector;
    let signal = small_autocorrelation();
    // the peak lies a sixth of a bin after bin 4: 2 + 260 / 120
    assert_eq!(
        detector.detect_frequency(&signal, 4000),
        Some(Ratio { num: 4000 * 120, den: 2 * 120 + 260 })
    );
    assert_eq!(hertz(detector.detect_frequency(&signal, 4000).unwrap()), 960.0);
}

#[test]
fn autocorrelation_peak_is_a_fraction_of_the_energy() {
    let signal = small_autocorrelation();
    let mut fft_space = FftSpace::new(16);
    let found = AutocorrelationDetector::detect_unscaled_freq(&signal, (2, 200), &mut fft_space);
    // height 90 + 400 / 480 over the energy 1000
    assert_eq!(
        found,
        Some(FftPoint {
            x: Ratio { num: 260, den: 120 },
            y: Ratio { num: 8 * 60 * 90 + 400, den: 480 * 1000 },
        })
    );
    let mut detector = AutocorrelationDetector;
    assert_eq!(detector.detect_unscaled_freq_with_space(&signal, (2, 200), &mut fft_space), found);
}

#[test]
fn autocorrelation_without_energy_gives_nothing() {
    let mut detector = AutocorrelationDetector;
    let mut signal = small_autocorrelation();
    signal[0] = 0;
    assert_eq!(detector.detect_frequency(&signal, 4000), None);
    assert_eq!(detector.detect_frequency(&vec![0; 64], 4000), None);
    let mut fft_space = FftSpace::new(16);
    assert_eq!(AutocorrelationDetector::detect_unscaled_freq(&signal, (2, 200), &mut fft_space), None);
}

#[test]
fn negative_energy_turns_the_order_of_the_fractions() {
    let mut detector = AutocorrelationDetector;
    // over -1000 the greatest fraction is the least amplitude: the first 0,
    // at bin 7, with the peak half a bin after it
    let mut signal = small_autocorrelation();
    signal[0] = -1000;
    assert_eq!(
        detector.detect_frequency(&signal, 4000),
        Some(Ratio { num: 4000 * 40, den: 2 * 40 + 220 })
    );
    let mut fft_space = FftSpace::new(16);
    assert_eq!(
        AutocorrelationDetector::detect_unscaled_freq(&signal, (2, 200), &mut fft_space),
        Some(FftPoint { x: Ratio { num: 220, den: 40 }, y: Ratio { num: 400, den: 160 * 1000 } })
    );
    // every amplitude negated together with the energy leaves all fractions
    // as they are, and so the frequency
    let negated: Vec<i32> = small_autocorrelation().iter().map(|v| -v).collect();
    assert_eq!(
        detector.detect_frequency(&negated, 4000),
        detector.detect_frequency(&small_autocorrelation(), 4000)
    );
    assert_eq!(
        AutocorrelationDetector::detect_unscaled_freq(&negated, (2, 200), &mut fft_space),
        Some(FftPoint {
            x: Ratio { num: 260, den: 120 },
            y: Ratio { num: 8 * 60 * 90 + 400, den: 480 * 1000 },
        })
    );
    // of two equal least amplitudes the earlier one is taken
    assert_eq!(
        detector.detect_frequency(&vec![-5, 0, 3, 1, 1, 3, 9], 4000),
        Some(Ratio { num: 4000 * 4, den: 2 * 4 + 6 })
    );
    // the least amplitude on the first searched bin gives nothing
    assert_eq!(detector.detect_frequency(&vec![-5, 0, 1, 3, 3, 9, 9], 4000), None);
}

#[test]
fn maximum_on_the_boundary_of_the_range_gives_nothing() {
    let mut detector = AutocorrelationDetector;
    // greatest on the first searched bin
    let first = vec![1000, 0, 90, 50, 10, 0, 0, 0];
    assert_eq!(detector.detect_frequency(&first, 4000), None);
    // greatest on the last bin of the buffer
    let last = vec![1000, 0, 0, 0, 10, 20, 50, 90];
    assert_eq!(detector.detect_frequency(&last, 4000), None);
    // the earliest of two equal maxima is the first searched bin
    let tie = vec![1000, 0, 90, 50, 90, 20, 0, 0];
    assert_eq!(detector.detect_frequency(&tie, 4000), None);
    // at rates below half of the highest frequency the energy itself is searched
    assert_eq!(detector.detect_frequency(&small_autocorrelation(), 999), None);
    // nothing is searched in a buffer that ends before the range
    assert_eq!(detector.detect_frequency(&vec![1000, 3], 4000), None);
    assert_eq!(detector.detect_frequency(&small_autocorrelation(), 0), None);
}

#[test]
fn earliest_of_equal_maxima_wins() {
    let mut detector = AutocorrelationDetector;
    let signal = vec![1000, 0, 10, 90, 40, 0, 30, 90, 20, 0];
    // bin 3 wins over bin 7: window index 1, offset (10 - 40) / (2 * (10 - 180 + 40))
    assert_eq!(
        detector.detect_frequency(&signal, 4000),
        Some(Ratio { num: 4000 * 260, den: 2 * 260 + (260 + 30) })
    );
}

#[test]
fn detection_is_a_function_of_signal_and_rate() {
    let signal = autocorrelation(&sine_wave_signal(4096, 330.0, 44100.0));
    let mut detector = AutocorrelationDetector;
    let mut first_space = FftSpace::new(4096);
    let mut second_space = FftSpace::new(4096);
    let first = detector.detect_frequency_with_fft_space(&signal, 44100, &mut first_space);
    let second = detector.detect_frequency_with_fft_space(&signal, 44100, &mut second_space);
    let again = detector.detect_frequency_with_fft_space(&signal, 44100, &mut first_space);
    assert!(first.is_some());
    assert_eq!(first, second);
    assert_eq!(first, again);
    assert_eq!(first, detector.detect_frequency(&signal, 44100));

    let cepstrum = power_cepstrum(&harmonic_signal(4096, 300.0, 44100.0));
    let mut detector = PowerCepstrum;
    let first = detector.detect_frequency_with_fft_space(&cepstrum, 44100, &mut first_space);
    let second = detector.detect_frequency_with_fft_space(&cepstrum, 44100, &mut second_space);
    assert!(first.is_some());
    assert_eq!(first, second);
    assert_eq!(first, detector.detect_frequency(&cepstrum, 44100));
}

#[test]
fn earlier_signal_leaves_no_trace_in_the_workspace() {
    let a = autocorrelation(&sine_wave_signal(4096, 330.0, 44100.0));
    let b = autocorrelation(&sine_wave_signal(4096, 700.0, 44100.0));
    let mut detector = AutocorrelationDetector;
    let mut used = FftSpace::new(4096);
    let mut fresh = FftSpace::new(4096);
    let of_a = detector.detect_frequency_with_fft_space(&a, 44100, &mut used);
    let of_b = detector.detect_frequency_with_fft_space(&b, 44100, &mut used);
    assert_eq!(used.space(), &b);
    assert_eq!(of_b, detector.detect_frequency_with_fft_space(&b, 44100, &mut fresh));
    assert!(of_a.is_some() && of_b.is_some());
    assert_ne!(of_a, of_b);
}

/// Thirty-two bins of a cepstrum with one peak at bin 10.
fn small_cepstrum() -> Vec<i32> {
    let mut s = vec![0; 32];
    s[9] = 5000;
    s[10] = 20000;
    s[11] = 8000;
    s
}

#[test]
fn cepstrum_frequency_is_the_rate_over_the_bin_in_the_buffer() {
    let mut detector = PowerCepstrum;
    // the peak lies at bin 10 + 3000 / 54000 of the buffer; the first
    // searched bin, 2, is not added
    assert_eq!(
        detector.detect_frequency(&small_cepstrum(), 4000),
        Some(Ratio { num: 4000 * 54000, den: 543000 })
    );
    let mut fft_space = FftSpace::new(32);
    assert_eq!(
        PowerCepstrum::detect_unscaled_freq(&small_cepstrum(), (2, 200), &mut fft_space),
        Some(FftPoint {
            x: Ratio { num: 543000, den: 54000 },
            y: Ratio { num: 8 * 27000 * 20000 + 9000000, den: 8 * 27000 },
        })
    );
    assert_eq!(
        detector.detect_unscaled_freq_with_space(&small_cepstrum(), (2, 200), &mut fft_space),
        PowerCepstrum::detect_unscaled_freq(&small_cepstrum(), (2, 200), &mut fft_space)
    );
}

#[test]
fn cepstrum_takes_the_highest_prominent_peak() {
    let mut detector = PowerCepstrum;
    let mut s = vec![0; 256];
    // a lower peak first, a higher one 100 bins later, and the highest
    // amplitude of all on a flank without prominence
    s[50] = 30000;
    s[150] = 40000;
    s[149] = 10000;
    s[151] = 10000;
    s[180] = 45000;
    s[181] = 50000;
    s[182] = 50000 + 10 * AMPLITUDE_UNIT - 1;
    s[183] = 50000;
    s[184] = 50001;
    let found = detector.detect_frequency(&s, 4000).unwrap();
    assert_eq!(found, Ratio { num: 4000 * 120000, den: 120000 * 150 });
}

#[test]
fn cepstrum_without_a_prominent_peak_gives_nothing() {
    let mut detector = PowerCepstrum;
    assert_eq!(detector.detect_frequency(&vec![0; 64], 4000), None);
    // a peak that rises ten units less one step above the valley at bin 12
    let mut s = small_cepstrum();
    s[12] = 3000;
    s[13] = 9000;
    s[10] = 3000 + 10 * AMPLITUDE_UNIT - 1;
    assert_eq!(detector.detect_frequency(&s, 4000), None);
    s[10] = 3000 + 10 * AMPLITUDE_UNIT;
    assert!(detector.detect_frequency(&s, 4000).is_some());
    // a peak before the first searched bin does not count
    let mut early = vec![0; 64];
    early[1] = 20000;
    assert_eq!(detector.detect_frequency(&early, 4000), None);
    // nor one whose neighbour lies before it
    early[1] = 0;
    early[2] = 20000;
    assert_eq!(detector.detect_frequency(&early, 4000), None);
}

#[test]
fn cepstrum_of_a_sine_wave_is_not_relied_upon() {
    let mut detector = PowerCepstrum;
    let signal = power_cepstrum(&sine_wave_signal(8192, 440.0, 44100.0));
    let found = detector.detect_frequency(&signal, 44100);
    assert_eq!(found, detector.detect_frequency(&signal, 44100));
}

fn fraction(num: i128, den: i128) -> Ratio {
    Ratio { num, den }
}

#[test]
fn autocorrelation_spectrum_is_divided_by_the_energy() {
    let mut fft_space = FftSpace::new(2);
    fft_space.init_fft_space(&vec![2, 4]);
    // 4 over the energy 2
    assert_eq!(AutocorrelationDetector::unscaled_spectrum(&fft_space, (1, 2)), vec![fraction(4, 2)]);
    assert_eq!(fft_space.space(), &vec![2, 4]);

    let signal = small_autocorrelation();
    let mut fft_space = FftSpace::new(16);
    fft_space.init_fft_space(&signal);
    assert_eq!(
        AutocorrelationDetector::unscaled_spectrum(&fft_space, (3, 6)),
        vec![fraction(50, 1000), fraction(90, 1000), fraction(70, 1000)]
    );
    // the energy itself is one whole
    assert_eq!(
        AutocorrelationDetector::unscaled_spectrum(&fft_space, (0, 2)),
        vec![fraction(1000, 1000), fraction(0, 1000)]
    );
    // as many fractions as the buffer has bins in the range
    assert_eq!(AutocorrelationDetector::unscaled_spectrum(&fft_space, (14, 40)).len(), 2);
    assert_eq!(AutocorrelationDetector::unscaled_spectrum(&fft_space, (16, 40)), Vec::new());
    assert_eq!(AutocorrelationDetector::unscaled_spectrum(&fft_space, (5, 5)), Vec::new());
    assert_eq!(fft_space.space(), &signal);
    assert_eq!(
        FrequencyDetectorTest::unscaled_spectrum(&AutocorrelationDetector, &signal, (3, 6)),
        AutocorrelationDetector::unscaled_spectrum(&fft_space, (3, 6))
    );
}

#[test]
fn autocorrelation_spectrum_keeps_the_energy_as_it_is() {
    let mut fft_space = FftSpace::new(3);
    fft_space.init_fft_space(&vec![-8, 4, -2]);
    assert_eq!(
        AutocorrelationDetector::unscaled_spectrum(&fft_space, (1, 3)),
        vec![fraction(4, -8), fraction(-2, -8)]
    );
    fft_space.init_fft_space(&vec![0, 4, -2]);
    assert_eq!(
        AutocorrelationDetector::unscaled_spectrum(&fft_space, (1, 3)),
        vec![fraction(4, 0), fraction(-2, 0)]
    );
}

#[test]
fn spectrum_pairs_each_searched_value_with_its_bin() {
    let signal = small_autocorrelation();
    let detector = AutocorrelationDetector;
    let spectrum = detector.spectrum(&signal, 4000);
    assert_eq!(spectrum.len(), 14);
    assert_eq!(spectrum[0], (2, fraction(10, 1000)));
    assert_eq!(spectrum[2], (4, fraction(90, 1000)));
    assert_eq!(spectrum[13], (15, fraction(0, 1000)));
    let cepstrum = PowerCepstrum;
    assert_eq!(cepstrum.spectrum(&small_cepstrum(), 4000).len(), 30);
    assert_eq!(cepstrum.spectrum(&small_cepstrum(), 4000)[8], (10, fraction(20000, 1)));
    assert_eq!(
        FrequencyDetectorTest::unscaled_spectrum(&cepstrum, &small_cepstrum(), (9, 12)),
        vec![fraction(5000, 1), fraction(20000, 1), fraction(8000, 1)]
    );
    let mut fft_space = FftSpace::new(32);
    fft_space.init_fft_space(&small_cepstrum());
    assert_eq!(PowerCepstrum::spectrum(&fft_space, (9, 12)), vec![(9, 5000), (10, 20000), (11, 8000)]);
    assert_eq!(PowerCepstrum::spectrum(&fft_space, (30, 40)), vec![(30, 0), (31, 0)]);
}

#[test]
fn detectors_have_names() {
    assert_eq!(AutocorrelationDetector.name(), "autocorrelation");
    assert_eq!(PowerCepstrum.name(), "power_cepstrum");
}
