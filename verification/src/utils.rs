//! Searching a sequence of amplitudes for its maximum and refining a peak to
//! sub-bin resolution.

use vstd::prelude::*;
use crate::ratio::Ratio;

verus! {

/// A peak between bins: `x` is its position, `y` its amplitude.
#[derive(Clone, Copy, Debug, PartialEq, Eq, Structural)]
pub struct FftPoint {
    pub x: Ratio,
    pub y: Ratio,
}

impl FftPoint {
    /// Both denominators are positive, and the four numbers are small enough
    /// for the detectors to scale them without overflow.
    pub open spec fn wf(self) -> bool {
        &&& 0 < self.x.den <= 0x4_0000_0000
        &&& -0x20_0000_0000_0000_0000_0000_0000 <= self.x.num <= 0x20_0000_0000_0000_0000_0000_0000
        &&& 0 < self.y.den <= 0x10_0000_0000
        &&& -0x20_0000_0000_0000_0000 <= self.y.num <= 0x20_0000_0000_0000_0000
    }
}

/// `i` has a neighbour on either side within `s`.
pub open spec fn is_interior(s: Seq<i32>, i: int) -> bool {
    0 < i < s.len() - 1
}

/// Twice the leading coefficient of the parabola through the three points
/// at `i - 1`, `i` and `i + 1`.
pub open spec fn curvature(s: Seq<i32>, i: int) -> int {
    s[i - 1] - 2 * s[i] + s[i + 1]
}

/// How much the left neighbour of `i` exceeds the right one.
pub open spec fn tilt(s: Seq<i32>, i: int) -> int {
    s[i - 1] - s[i + 1]
}

/// `v` with its sign changed where `d` is negative, so that a fraction over
/// `d` gets a positive denominator.
pub open spec fn orient(d: int, v: int) -> int {
    if d < 0 { -v } else { v }
}

/// The vertex of the parabola through the three points at `i - 1`, `i` and
/// `i + 1`: it lies at `i + tilt / (2 * curvature)` and has the height
/// `s[i] - tilt * tilt / (8 * curvature)`. There is none where `i` lacks a
/// neighbour or the three points lie on a line.
pub open spec fn peak_at(s: Seq<i32>, i: int) -> Option<FftPoint> {
    if !is_interior(s, i) || curvature(s, i) == 0 {
        None
    } else {
        let d = curvature(s, i);
        let e = tilt(s, i);
        Some(
            FftPoint {
                x: Ratio {
                    num: orient(d, 2 * d * i + e) as i128,
                    den: orient(d, 2 * d) as i128,
                },
                y: Ratio {
                    num: orient(d, 8 * d * s[i] - e * e) as i128,
                    den: orient(d, 8 * d) as i128,
                },
            },
        )
    }
}

/// Fits a parabola through `spectrum[idx]` and its two neighbours and returns
/// its vertex. Returns `None` exactly when `idx` is the first or last index (or
/// beyond), or when the three amplitudes lie on a line.
pub fn interpolated_peak_at(spectrum: &Vec<i32>, idx: usize) -> (r: Option<FftPoint>)
    ensures
        r == peak_at(spectrum@, idx as int),
        r is Some <==> is_interior(spectrum@, idx as int) && curvature(spectrum@, idx as int) != 0,
        r is Some ==> r.unwrap().wf(),
{
    if idx == 0 || spectrum.len() < 2 || idx >= spectrum.len() - 1 {
        return None;
    }
    let y0: i128 = spectrum[idx - 1] as i128;
    let y1: i128 = spectrum[idx] as i128;
    let y2: i128 = spectrum[idx + 1] as i128;
    let d: i128 = y0 - 2 * y1 + y2;
    if d == 0 {
        return None;
    }
    let e: i128 = y0 - y2;
    let i: i128 = idx as i128;
    proof {
        lemma_peak_bounds(spectrum@, idx as int);
    }
    let x_num: i128 = 2 * d * i + e;
    let y_num: i128 = 8 * d * y1 - e * e;
    if d < 0 {
        Some(FftPoint { x: Ratio { num: -x_num, den: -(2 * d) }, y: Ratio { num: -y_num, den: -(8 * d) } })
    } else {
        Some(FftPoint { x: Ratio { num: x_num, den: 2 * d }, y: Ratio { num: y_num, den: 8 * d } })
    }
}

/// The numbers that `peak_at` is made of are far from the limits of an `i128`.
pub proof fn lemma_peak_bounds(s: Seq<i32>, i: int)
    requires
        is_interior(s, i),
        i <= usize::MAX,
    ensures
        -0x2_0000_0000 <= curvature(s, i) <= 0x2_0000_0000,
        -0x1_0000_0000 <= tilt(s, i) <= 0x1_0000_0000,
        -0x10_0000_0000_0000_0000_0000_0000 <= 2 * curvature(s, i) * i <= 0x10_0000_0000_0000_0000_0000_0000,
        -0x10_0000_0000_0000_0000 <= 8 * curvature(s, i) * s[i] <= 0x10_0000_0000_0000_0000,
        0 <= tilt(s, i) * tilt(s, i) <= 0x1_0000_0000_0000_0000,
{
    let d = curvature(s, i);
    let e = tilt(s, i);
    let y = s[i] as int;
    assert(-0x2_0000_0000 <= d <= 0x2_0000_0000);
    assert(-0x1_0000_0000 <= e <= 0x1_0000_0000);
    assert(-0x10_0000_0000_0000_0000_0000_0000 <= 2 * d * i <= 0x10_0000_0000_0000_0000_0000_0000)
        by (nonlinear_arith)
        requires -0x2_0000_0000 <= d <= 0x2_0000_0000, 0 <= i <= 0xffff_ffff_ffff_ffff;
    assert(-0x10_0000_0000_0000_0000 <= 8 * d * y <= 0x10_0000_0000_0000_0000)
        by (nonlinear_arith)
        requires -0x2_0000_0000 <= d <= 0x2_0000_0000, -0x8000_0000 <= y <= 0x8000_0000;
    assert(0 <= e * e <= 0x1_0000_0000_0000_0000) by (nonlinear_arith)
        requires -0x1_0000_0000 <= e <= 0x1_0000_0000;
}

/// At the first and at the last index of `s`, and beyond, `peak_at` gives
/// nothing: no amplitude outside `s` is read.
pub proof fn lemma_no_peak_at_boundary(s: Seq<i32>, i: int)
    requires
        i <= 0 || i >= s.len() - 1,
    ensures
        peak_at(s, i) is None,
{
}

/// Twice the height, scaled by `den * den`, of the parabola through the three
/// points around `i` at the distance `num / den` to the right of `i`.
pub open spec fn parabola(s: Seq<i32>, i: int, num: int, den: int) -> int {
    curvature(s, i) * num * num - tilt(s, i) * num * den + 2 * s[i] * den * den
}

/// The parabola that `peak_at` speaks of passes through the three points.
pub proof fn lemma_parabola_through_points(s: Seq<i32>, i: int)
    requires
        is_interior(s, i),
    ensures
        parabola(s, i, -1, 1) == 2 * s[i - 1],
        parabola(s, i, 0, 1) == 2 * s[i],
        parabola(s, i, 1, 1) == 2 * s[i + 1],
{
}

/// The point that `peak_at` gives is the vertex of that parabola: there its
/// slope is zero, and `y` is its height.
pub proof fn lemma_peak_is_vertex(s: Seq<i32>, i: int)
    requires
        is_interior(s, i),
        i <= usize::MAX,
        curvature(s, i) != 0,
    ensures
        peak_at(s, i) is Some,
        peak_at(s, i).unwrap().x.wf(),
        peak_at(s, i).unwrap().y.wf(),
        ({
            let p = peak_at(s, i).unwrap();
            let num = p.x.num - i * p.x.den;
            &&& 2 * curvature(s, i) * num == tilt(s, i) * p.x.den
            &&& p.y.num * (2 * p.x.den * p.x.den) == p.y.den * parabola(s, i, num, p.x.den as int)
        }),
{
    lemma_peak_bounds(s, i);
    let p = peak_at(s, i).unwrap();
    let d = curvature(s, i);
    let e = tilt(s, i);
    let y = s[i] as int;
    let num = p.x.num - i * p.x.den;
    let den = p.x.den as int;
    if d < 0 {
        assert(den == -(2 * d));
        assert(num == -e) by (nonlinear_arith)
            requires num == -(2 * d * i + e) - i * den, den == -(2 * d);
        assert(2 * d * num == e * den) by (nonlinear_arith)
            requires num == -e, den == -(2 * d);
        assert(num * den == 2 * (d * e) && num * num == e * e && den * den == 4 * (d * d))
            by (nonlinear_arith)
            requires num == -e, den == -(2 * d);
    } else {
        assert(den == 2 * d);
        assert(num == e) by (nonlinear_arith)
            requires num == (2 * d * i + e) - i * den, den == 2 * d;
        assert(2 * d * num == e * den) by (nonlinear_arith)
            requires num == e, den == 2 * d;
        assert(num * den == 2 * (d * e) && num * num == e * e && den * den == 4 * (d * d))
            by (nonlinear_arith)
            requires num == e, den == 2 * d;
    }
    let t = 8 * d * y - e * e;
    let ee = e * e;
    assert(d * num * num == d * ee) by (nonlinear_arith)
        requires num * num == ee;
    assert(e * num * den == 2 * (d * ee)) by (nonlinear_arith)
        requires num * den == 2 * (d * e), ee == e * e;
    assert(2 * y * den * den == 8 * (y * (d * d))) by (nonlinear_arith)
        requires den * den == 4 * (d * d);
    assert(d * t == 8 * (y * (d * d)) - d * ee) by (nonlinear_arith)
        requires t == 8 * d * y - ee;
    assert(parabola(s, i, num, den) == d * t);
    assert(t * (2 * den * den) == (8 * d) * (d * t) && (-t) * (2 * den * den) == (-(8 * d)) * (d * t))
        by (nonlinear_arith)
        requires den * den == 4 * (d * d);
}

/// At a bin that is no lower than its two neighbours and higher than one of
/// them, `peak_at` gives a point: it lies within half a bin of that bin and
/// is at least as high.
pub proof fn lemma_peak_within_half_bin(s: Seq<i32>, i: int)
    requires
        is_interior(s, i),
        i <= usize::MAX,
        s[i - 1] <= s[i],
        s[i + 1] <= s[i],
        s[i - 1] < s[i] || s[i + 1] < s[i],
    ensures
        peak_at(s, i) is Some,
        ({
            let p = peak_at(s, i).unwrap();
            &&& p.x.den > 0
            &&& p.y.den > 0
            &&& (2 * i - 1) * p.x.den <= 2 * p.x.num <= (2 * i + 1) * p.x.den
            &&& p.y.num >= s[i] * p.y.den
        }),
{
    lemma_peak_bounds(s, i);
    let p = peak_at(s, i).unwrap();
    let d = curvature(s, i);
    let e = tilt(s, i);
    let y = s[i] as int;
    assert(d < 0);
    assert(p.x.den == -(2 * d));
    assert(p.x.num == -(2 * d * i + e));
    assert(-(2 * d) * i == -(2 * d * i)) by (nonlinear_arith);
    assert((2 * i - 1) * (-(2 * d)) == 2 * (-(2 * d * i)) + 2 * d) by (nonlinear_arith);
    assert((2 * i + 1) * (-(2 * d)) == 2 * (-(2 * d * i)) - 2 * d) by (nonlinear_arith);
    assert(d <= e <= -d);
    assert(y * (-(8 * d)) == -(8 * d * y)) by (nonlinear_arith);
    assert(e * e >= 0) by (nonlinear_arith);
}

/// `i` is the first index at which `s` takes its greatest value.
pub open spec fn is_first_max(s: Seq<i32>, i: int) -> bool {
    &&& 0 <= i < s.len()
    &&& forall|j: int| 0 <= j < i ==> s[j] < s[i]
    &&& forall|j: int| i <= j < s.len() ==> s[j] <= s[i]
}

/// The first index at which a sequence that is not empty takes its greatest
/// value.
pub open spec fn first_max(s: Seq<i32>) -> int {
    choose|i: int| is_first_max(s, i)
}

/// A sequence that is not empty has a first maximum.
pub proof fn lemma_first_max_exists(s: Seq<i32>)
    requires
        s.len() > 0,
    ensures
        is_first_max(s, first_max(s)),
    decreases s.len(),
{
    if s.len() == 1 {
        assert(is_first_max(s, 0));
    } else {
        let t = s.drop_last();
        lemma_first_max_exists(t);
        let k = first_max(t);
        if s.last() > t[k] {
            let top = s.last();
            assert forall|j: int| 0 <= j < s.len() - 1 implies #[trigger] s[j] < top by {
                assert(s[j] == t[j]);
                if j < k {
                    assert(t[j] < t[k]);
                } else {
                    assert(t[j] <= t[k]);
                }
            }
            assert(is_first_max(s, s.len() - 1));
        } else {
            assert forall|j: int| 0 <= j < k implies s[j] < s[k] by {
                assert(s[j] == t[j] && t[j] < t[k]);
            }
            assert forall|j: int| k <= j < s.len() implies s[j] <= s[k] by {
                if j < s.len() - 1 {
                    assert(s[j] == t[j] && t[j] <= t[k]);
                }
            }
            assert(is_first_max(s, k));
        }
    }
}

/// There is one first maximum at most.
pub proof fn lemma_first_max_unique(s: Seq<i32>, i: int, j: int)
    requires
        is_first_max(s, i),
        is_first_max(s, j),
    ensures
        i == j,
        first_max(s) == i,
{
    if i < j {
        assert(s[i] < s[j]);
    }
    if j < i {
        assert(s[j] < s[i]);
    }
    let k = first_max(s);
    if i < k {
        assert(s[i] < s[k]);
    }
    if k < i {
        assert(s[k] < s[i]);
    }
}

/// Finds the greatest amplitude by scanning from the left and moving on only
/// for a strictly greater one, so that of equal amplitudes the earliest wins.
/// Returns `None` exactly when `spectrum` is empty.
pub fn max_bin(spectrum: &Vec<i32>) -> (r: Option<usize>)
    ensures
        r is None <==> spectrum@.len() == 0,
        r is Some ==> is_first_max(spectrum@, r.unwrap() as int) && r.unwrap() == first_max(spectrum@),
{
    if spectrum.len() == 0 {
        return None;
    }
    let mut best: usize = 0;
    let mut k: usize = 1;
    while k < spectrum.len()
        invariant
            1 <= k <= spectrum.len(),
            best < k,
            forall|j: int| 0 <= j < best ==> spectrum@[j] < spectrum@[best as int],
            forall|j: int| best <= j < k ==> spectrum@[j] <= spectrum@[best as int],
        decreases spectrum.len() - k,
    {
        if spectrum[k] > spectrum[best] {
            best = k;
        }
        k += 1;
    }
    proof {
        lemma_first_max_unique(spectrum@, best as int, best as int);
    }
    Some(best)
}

/// What `max_peak` returns: the interpolated peak at the first maximum.
pub open spec fn max_peak_of(s: Seq<i32>) -> Option<FftPoint> {
    if s.len() == 0 {
        None
    } else {
        peak_at(s, first_max(s))
    }
}

/// The first maximum of `s` has a neighbour on either side.
pub open spec fn max_is_interior(s: Seq<i32>) -> bool {
    s.len() > 0 && is_interior(s, first_max(s))
}

/// Where the greatest amplitude of `s`, the first one among equals, is the
/// first or the last amplitude of `s`, there is no peak; otherwise there is
/// one.
pub proof fn lemma_max_peak_needs_interior_maximum(s: Seq<i32>)
    requires
        s.len() <= usize::MAX,
    ensures
        max_peak_of(s) is Some <==> max_is_interior(s),
{
    if s.len() > 0 {
        lemma_first_max_exists(s);
        if is_interior(s, first_max(s)) {
            lemma_peak_within_half_bin(s, first_max(s));
        }
    }
}

/// Interpolates the peak at the greatest amplitude of `spectrum`, the earliest
/// one among equals. There is a result exactly when that amplitude is neither
/// the first nor the last of `spectrum`; the peak then lies within half a bin
/// of it.
pub fn max_peak(spectrum: &Vec<i32>) -> (r: Option<FftPoint>)
    ensures
        r == max_peak_of(spectrum@),
        r is Some <==> max_is_interior(spectrum@),
        r is Some ==> {
            let p = r.unwrap();
            let i = first_max(spectrum@);
            &&& p.wf()
            &&& (2 * i - 1) * p.x.den <= 2 * p.x.num <= (2 * i + 1) * p.x.den
        },
{
    match max_bin(spectrum) {
        None => None,
        Some(i) => {
            proof {
                if is_interior(spectrum@, i as int) {
                    lemma_peak_within_half_bin(spectrum@, i as int);
                }
            }
            interpolated_peak_at(spectrum, i)
        },
    }
}

/// At a bin that is no higher than its two neighbours and lower than one of
/// them, `peak_at` gives a point: it lies within half a bin of that bin and
/// is at most as high.
pub proof fn lemma_valley_within_half_bin(s: Seq<i32>, i: int)
    requires
        is_interior(s, i),
        i <= usize::MAX,
        s[i - 1] >= s[i],
        s[i + 1] >= s[i],
        s[i - 1] > s[i] || s[i + 1] > s[i],
    ensures
        peak_at(s, i) is Some,
        ({
            let p = peak_at(s, i).unwrap();
            &&& p.x.den > 0
            &&& p.y.den > 0
            &&& (2 * i - 1) * p.x.den <= 2 * p.x.num <= (2 * i + 1) * p.x.den
            &&& p.y.num <= s[i] * p.y.den
        }),
{
    lemma_peak_bounds(s, i);
    let p = peak_at(s, i).unwrap();
    let d = curvature(s, i);
    let e = tilt(s, i);
    let y = s[i] as int;
    assert(d > 0);
    assert(p.x.den == 2 * d);
    assert(p.x.num == 2 * d * i + e);
    assert((2 * d) * i == 2 * d * i) by (nonlinear_arith);
    assert((2 * i - 1) * (2 * d) == 2 * (2 * d * i) - 2 * d) by (nonlinear_arith);
    assert((2 * i + 1) * (2 * d) == 2 * (2 * d * i) + 2 * d) by (nonlinear_arith);
    assert(-d <= e <= d);
    assert(y * (8 * d) == 8 * d * y) by (nonlinear_arith);
    assert(e * e >= 0) by (nonlinear_arith);
}

/// `i` is the first index at which `s` takes its least value.
pub open spec fn is_first_min(s: Seq<i32>, i: int) -> bool {
    &&& 0 <= i < s.len()
    &&& forall|j: int| 0 <= j < i ==> s[j] > s[i]
    &&& forall|j: int| i <= j < s.len() ==> s[j] >= s[i]
}

/// The first index at which a sequence that is not empty takes its least
/// value.
pub open spec fn first_min(s: Seq<i32>) -> int {
    choose|i: int| is_first_min(s, i)
}

/// A sequence that is not empty has a first minimum.
pub proof fn lemma_first_min_exists(s: Seq<i32>)
    requires
        s.len() > 0,
    ensures
        is_first_min(s, first_min(s)),
    decreases s.len(),
{
    if s.len() == 1 {
        assert(is_first_min(s, 0));
    } else {
        let t = s.drop_last();
        lemma_first_min_exists(t);
        let k = first_min(t);
        if s.last() < t[k] {
            let bottom = s.last();
            assert forall|j: int| 0 <= j < s.len() - 1 implies #[trigger] s[j] > bottom by {
                assert(s[j] == t[j]);
                if j < k {
                    assert(t[j] > t[k]);
                } else {
                    assert(t[j] >= t[k]);
                }
            }
            assert(is_first_min(s, s.len() - 1));
        } else {
            assert forall|j: int| 0 <= j < k implies s[j] > s[k] by {
                assert(s[j] == t[j] && t[j] > t[k]);
            }
            assert forall|j: int| k <= j < s.len() implies s[j] >= s[k] by {
                if j < s.len() - 1 {
                    assert(s[j] == t[j] && t[j] >= t[k]);
                }
            }
            assert(is_first_min(s, k));
        }
    }
}

/// There is one first minimum at most.
pub proof fn lemma_first_min_unique(s: Seq<i32>, i: int, j: int)
    requires
        is_first_min(s, i),
        is_first_min(s, j),
    ensures
        i == j,
        first_min(s) == i,
{
    if i < j {
        assert(s[i] > s[j]);
    }
    if j < i {
        assert(s[j] > s[i]);
    }
    let k = first_min(s);
    if i < k {
        assert(s[i] > s[k]);
    }
    if k < i {
        assert(s[k] > s[i]);
    }
}

/// Finds the least amplitude by scanning from the left and moving on only for
/// a strictly lesser one, so that of equal amplitudes the earliest wins.
/// Returns `None` exactly when `spectrum` is empty.
pub fn min_bin(spectrum: &Vec<i32>) -> (r: Option<usize>)
    ensures
        r is None <==> spectrum@.len() == 0,
        r is Some ==> is_first_min(spectrum@, r.unwrap() as int) && r.unwrap() == first_min(spectrum@),
{
    if spectrum.len() == 0 {
        return None;
    }
    let mut best: usize = 0;
    let mut k: usize = 1;
    while k < spectrum.len()
        invariant
            1 <= k <= spectrum.len(),
            best < k,
            forall|j: int| 0 <= j < best ==> spectrum@[j] > spectrum@[best as int],
            forall|j: int| best <= j < k ==> spectrum@[j] >= spectrum@[best as int],
        decreases spectrum.len() - k,
    {
        if spectrum[k] < spectrum[best] {
            best = k;
        }
        k += 1;
    }
    proof {
        lemma_first_min_unique(spectrum@, best as int, best as int);
    }
    Some(best)
}

/// What `min_peak` returns: the interpolated point at the first minimum.
pub open spec fn min_peak_of(s: Seq<i32>) -> Option<FftPoint> {
    if s.len() == 0 {
        None
    } else {
        peak_at(s, first_min(s))
    }
}

/// The first minimum of `s` has a neighbour on either side.
pub open spec fn min_is_interior(s: Seq<i32>) -> bool {
    s.len() > 0 && is_interior(s, first_min(s))
}

/// Interpolates the point at the least amplitude of `spectrum`, the earliest
/// one among equals. There is a result exactly when that amplitude is neither
/// the first nor the last of `spectrum`; the point then lies within half a bin
/// of it.
pub fn min_peak(spectrum: &Vec<i32>) -> (r: Option<FftPoint>)
    ensures
        r == min_peak_of(spectrum@),
        r is Some <==> min_is_interior(spectrum@),
        r is Some ==> {
            let p = r.unwrap();
            let i = first_min(spectrum@);
            &&& p.wf()
            &&& (2 * i - 1) * p.x.den <= 2 * p.x.num <= (2 * i + 1) * p.x.den
        },
{
    match min_bin(spectrum) {
        None => None,
        Some(i) => {
            proof {
                if is_interior(spectrum@, i as int) {
                    lemma_valley_within_half_bin(spectrum@, i as int);
                }
            }
            interpolated_peak_at(spectrum, i)
        },
    }
}

} // verus!
