use pitch_detector::ratio::Ratio;
use pitch_detector::utils::{
    interpolated_peak_at, max_bin, max_peak, min_bin, min_peak, FftPoint,
};

fn point(x_num: i128, x_den: i128, y_num: i128, y_den: i128) -> FftPoint {
    FftPoint { x: Ratio { num: x_num, den: x_den }, y: Ratio { num: y_num, den: y_den } }
}

#[test]
fn symmetric_peak_stays_on_its_bin() {
    let s = vec![0, 10, 0];
    assert_eq!(interpolated_peak_at(&s, 1), Some(point(40, 40, 1600, 160)));
}

#[test]
fn skewed_peak_moves_towards_the_higher_neighbour() {
    // offset 1/6 to the right, height 5 + 1/12
    let s = vec![1, 5, 3];
    assert_eq!(interpolated_peak_at(&s, 1), Some(point(14, 12, 244, 48)));
    let s = vec![3, 5, 1];
    assert_eq!(interpolated_peak_at(&s, 1), Some(point(10, 12, 244, 48)));
}

#[test]
fn valley_is_interpolated_with_positive_denominators() {
    let s = vec![5, 1, 3];
    assert_eq!(interpolated_peak_at(&s, 1), Some(point(14, 12, 44, 48)));
}

#[test]
fn peak_position_counts_from_the_start_of_the_sequence() {
    let s = vec![0, 0, 0, 1, 5, 3, 0];
    // bin 4 and a sixth
    assert_eq!(interpolated_peak_at(&s, 4), Some(point(50, 12, 244, 48)));
}

#[test]
fn no_peak_at_either_boundary() {
    let s = vec![9, 4, 1, 4, 9];
    assert_eq!(interpolated_peak_at(&s, 0), None);
    assert_eq!(interpolated_peak_at(&s, 4), None);
    assert_eq!(interpolated_peak_at(&s, 5), None);
    assert_eq!(interpolated_peak_at(&s, usize::MAX), None);
}

#[test]
fn no_peak_in_short_sequences() {
    assert_eq!(interpolated_peak_at(&Vec::new(), 0), None);
    assert_eq!(interpolated_peak_at(&vec![7], 0), None);
    assert_eq!(interpolated_peak_at(&vec![7, 8], 0), None);
    assert_eq!(interpolated_peak_at(&vec![7, 8], 1), None);
}

#[test]
fn no_peak_where_the_three_points_lie_on_a_line() {
    assert_eq!(interpolated_peak_at(&vec![1, 2, 3], 1), None);
    assert_eq!(interpolated_peak_at(&vec![4, 4, 4], 1), None);
    assert_eq!(interpolated_peak_at(&vec![6, 4, 2], 1), None);
}

#[test]
fn extreme_amplitudes_do_not_overflow() {
    let s = vec![i32::MAX, i32::MIN, i32::MAX];
    let d: i128 = 2 * (i32::MAX as i128) - 2 * (i32::MIN as i128);
    assert_eq!(
        interpolated_peak_at(&s, 1),
        Some(point(2 * d, 2 * d, 8 * d * (i32::MIN as i128), 8 * d))
    );
    let s = vec![i32::MIN, i32::MAX, i32::MIN + 1];
    let d: i128 = (i32::MIN as i128) - 2 * (i32::MAX as i128) + (i32::MIN as i128) + 1;
    let e: i128 = -1;
    assert_eq!(
        interpolated_peak_at(&s, 1),
        Some(point(-(2 * d + e), -2 * d, -(8 * d * (i32::MAX as i128) - 1), -8 * d))
    );
}

#[test]
fn max_bin_takes_the_earliest_of_equal_maxima() {
    assert_eq!(max_bin(&vec![1, 7, 3, 7]), Some(1));
    assert_eq!(max_bin(&vec![7, 7, 7]), Some(0));
    assert_eq!(max_bin(&vec![-3, -2, -2]), Some(1));
    assert_eq!(max_bin(&vec![5]), Some(0));
}

#[test]
fn max_bin_of_nothing_is_nothing() {
    assert_eq!(max_bin(&Vec::new()), None);
}

#[test]
fn max_peak_interpolates_at_the_maximum() {
    let s = vec![0, 1, 5, 3, 0];
    assert_eq!(max_peak(&s), Some(point(26, 12, 244, 48)));
}

#[test]
fn max_peak_lies_within_half_a_bin_of_the_maximum() {
    let s = vec![0, 1, 100, 100, 3, 0];
    let p = max_peak(&s).unwrap();
    // the maximum is bin 2; the peak is at 2.5 exactly
    assert_eq!(p.x, Ratio { num: 495, den: 198 });
    assert!(2 * p.x.num >= 3 * p.x.den && 2 * p.x.num <= 5 * p.x.den);
}

#[test]
fn max_peak_fails_where_the_maximum_is_first_or_last() {
    assert_eq!(max_peak(&vec![9, 1, 2]), None);
    assert_eq!(max_peak(&vec![1, 2, 9]), None);
    assert_eq!(max_peak(&vec![9, 1, 9]), None);
    assert_eq!(max_peak(&vec![3, 3, 3]), None);
    assert_eq!(max_peak(&vec![3]), None);
    assert_eq!(max_peak(&Vec::new()), None);
}

#[test]
fn min_bin_takes_the_earliest_of_equal_minima() {
    assert_eq!(min_bin(&vec![7, 1, 3, 1]), Some(1));
    assert_eq!(min_bin(&vec![7, 7, 7]), Some(0));
    assert_eq!(min_bin(&vec![3, 2, 2]), Some(1));
    assert_eq!(min_bin(&vec![i32::MAX, i32::MIN, i32::MIN]), Some(1));
    assert_eq!(min_bin(&vec![5]), Some(0));
    assert_eq!(min_bin(&Vec::new()), None);
}

#[test]
fn min_peak_interpolates_at_the_minimum() {
    // the parabola through 5, 1, 3 is lowest a sixth of a bin after bin 2, at 1 - 1/12
    let s = vec![9, 5, 1, 3, 9];
    assert_eq!(min_peak(&s), Some(point(26, 12, 44, 48)));
}

#[test]
fn min_peak_fails_where_the_minimum_is_first_or_last() {
    assert_eq!(min_peak(&vec![1, 9, 2]), None);
    assert_eq!(min_peak(&vec![9, 2, 1]), None);
    assert_eq!(min_peak(&vec![1, 9, 1]), None);
    assert_eq!(min_peak(&vec![3, 3, 3]), None);
    assert_eq!(min_peak(&vec![3]), None);
    assert_eq!(min_peak(&Vec::new()), None);
}
