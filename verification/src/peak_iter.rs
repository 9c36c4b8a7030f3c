//! Finding the local maxima of a sequence of amplitudes that stand out enough
//! and lie far enough apart.

use vstd::prelude::*;

verus! {

/// A local maximum: the bin it was found at and the amplitude there.
#[derive(Clone, Copy, Debug, PartialEq, Eq, Structural)]
pub struct Peak {
    pub index: usize,
    pub amplitude: i32,
}

/// `s` rises into `i` and does not rise out of it. Of a run of equal
/// amplitudes only the first index can be a local maximum, and the first and
/// last index of `s` never are.
pub open spec fn is_local_max(s: Seq<i32>, i: int) -> bool {
    &&& 0 < i < s.len() - 1
    &&& s[i - 1] < s[i]
    &&& s[i] >= s[i + 1]
}

/// The amplitude at which `s` stops falling when followed from `i` to the
/// left.
pub open spec fn left_valley(s: Seq<i32>, i: int) -> int
    decreases i,
{
    if 0 < i < s.len() && s[i - 1] <= s[i] {
        left_valley(s, i - 1)
    } else {
        s[i] as int
    }
}

/// The amplitude at which `s` stops falling when followed from `i` to the
/// right.
pub open spec fn right_valley(s: Seq<i32>, i: int) -> int
    decreases s.len() - i,
{
    if 0 <= i < s.len() - 1 && s[i + 1] <= s[i] {
        right_valley(s, i + 1)
    } else {
        s[i] as int
    }
}

/// `l` is where `s` stops falling when followed from `i` to the left: from
/// `l` to `i` it never falls, and `l` is the first bin or lower than the bin
/// before it.
pub open spec fn is_left_valley(s: Seq<i32>, i: int, l: int) -> bool {
    &&& 0 <= l <= i < s.len()
    &&& forall|a: int, b: int| l <= a <= b <= i ==> #[trigger] s[a] <= #[trigger] s[b]
    &&& l == 0 || s[l - 1] > s[l]
}

/// `r` is where `s` stops falling when followed from `i` to the right: from
/// `i` to `r` it never rises, and `r` is the last bin or lower than the bin
/// after it.
pub open spec fn is_right_valley(s: Seq<i32>, i: int, r: int) -> bool {
    &&& 0 <= i <= r < s.len()
    &&& forall|a: int, b: int| i <= a <= b <= r ==> #[trigger] s[a] >= #[trigger] s[b]
    &&& r == s.len() - 1 || s[r + 1] > s[r]
}

/// `left_valley` is the amplitude of the bin where `s` stops falling to the
/// left of `i`.
pub proof fn lemma_left_valley(s: Seq<i32>, i: int)
    requires
        0 <= i < s.len(),
    ensures
        exists|l: int| #[trigger] is_left_valley(s, i, l) && s[l] == left_valley(s, i),
    decreases i,
{
    if 0 < i && s[i - 1] <= s[i] {
        lemma_left_valley(s, i - 1);
        let l = choose|l: int| #[trigger] is_left_valley(s, i - 1, l) && s[l] == left_valley(s, i - 1);
        assert forall|a: int, b: int| l <= a <= b <= i implies #[trigger] s[a] <= #[trigger] s[b] by {
            if a < i {
                assert(s[a] <= s[i - 1]);
            }
        }
        assert(is_left_valley(s, i, l));
    } else {
        assert(is_left_valley(s, i, i));
    }
}

/// `right_valley` is the amplitude of the bin where `s` stops falling to
/// the right of `i`.
pub proof fn lemma_right_valley(s: Seq<i32>, i: int)
    requires
        0 <= i < s.len(),
    ensures
        exists|r: int| #[trigger] is_right_valley(s, i, r) && s[r] == right_valley(s, i),
    decreases s.len() - i,
{
    if i < s.len() - 1 && s[i + 1] <= s[i] {
        lemma_right_valley(s, i + 1);
        let r = choose|r: int| #[trigger] is_right_valley(s, i + 1, r) && s[r] == right_valley(s, i + 1);
        assert forall|a: int, b: int| i <= a <= b <= r implies #[trigger] s[a] >= #[trigger] s[b] by {
            if i < b {
                assert(s[i + 1] >= s[b]);
            }
        }
        assert(is_right_valley(s, i, r));
    } else {
        assert(is_right_valley(s, i, i));
    }
}

/// How far `s[i]` rises above the higher of the two valleys next to it.
pub open spec fn prominence(s: Seq<i32>, i: int) -> int {
    let l = left_valley(s, i);
    let r = right_valley(s, i);
    if l >= r { s[i] - l } else { s[i] - r }
}

/// `i` is a local maximum of `s` that rises at least `min_prominence` above
/// the higher of its two valleys.
pub open spec fn is_prominent_peak(s: Seq<i32>, i: int, min_prominence: i32) -> bool {
    is_local_max(s, i) && prominence(s, i) >= min_prominence
}

/// The peak that stands for the local maximum at `i`, where the first
/// amplitude of `s` belongs to the bin `first_bin`.
pub open spec fn peak_of(s: Seq<i32>, i: int, first_bin: usize) -> Peak {
    Peak { index: (first_bin + i) as usize, amplitude: s[i] }
}

/// The prominent peaks among the first `n` amplitudes of `s`, from left to
/// right.
pub open spec fn candidates(s: Seq<i32>, n: int, first_bin: usize, min_prominence: i32) -> Seq<Peak>
    decreases n,
{
    if n <= 0 {
        Seq::empty()
    } else {
        let before = candidates(s, n - 1, first_bin, min_prominence);
        if is_prominent_peak(s, n - 1, min_prominence) {
            before.push(peak_of(s, n - 1, first_bin))
        } else {
            before
        }
    }
}

/// What is left of the peaks `c` when they are taken from left to right and
/// each one that lies within `min_peak_dist` bins of the last peak kept so far
/// competes with it: the higher of the two is kept, the earlier one if they
/// are equal.
pub open spec fn suppress(c: Seq<Peak>, min_peak_dist: usize) -> Seq<Peak>
    decreases c.len(),
{
    if c.len() == 0 {
        Seq::empty()
    } else {
        let kept = suppress(c.drop_last(), min_peak_dist);
        let p = c.last();
        if kept.len() == 0 || p.index - kept.last().index > min_peak_dist {
            kept.push(p)
        } else if p.amplitude > kept.last().amplitude {
            kept.drop_last().push(p)
        } else {
            kept
        }
    }
}

/// What `fft_peaks` returns.
pub open spec fn peaks_of(
    s: Seq<i32>,
    first_bin: usize,
    min_peak_dist: usize,
    min_prominence: i32,
) -> Seq<Peak> {
    suppress(candidates(s, s.len() as int, first_bin, min_prominence), min_peak_dist)
}

/// The amplitude of the valley to the left of `i`.
fn valley_to_left(spectrum: &Vec<i32>, i: usize) -> (r: i32)
    requires
        i < spectrum@.len(),
    ensures
        r == left_valley(spectrum@, i as int),
{
    let mut j: usize = i;
    while j > 0 && spectrum[j - 1] <= spectrum[j]
        invariant
            j <= i,
            i < spectrum@.len(),
            left_valley(spectrum@, i as int) == left_valley(spectrum@, j as int),
        decreases j,
    {
        j -= 1;
    }
    spectrum[j]
}

/// The amplitude of the valley to the right of `i`.
fn valley_to_right(spectrum: &Vec<i32>, i: usize) -> (r: i32)
    requires
        i < spectrum@.len(),
    ensures
        r == right_valley(spectrum@, i as int),
{
    let mut j: usize = i;
    while j < spectrum.len() - 1 && spectrum[j + 1] <= spectrum[j]
        invariant
            i <= j < spectrum@.len(),
            right_valley(spectrum@, i as int) == right_valley(spectrum@, j as int),
        decreases spectrum@.len() - j,
    {
        j += 1;
    }
    spectrum[j]
}

/// Whether `i` is a local maximum of `spectrum` with a prominence of at least
/// `min_prominence`.
pub fn is_peak(spectrum: &Vec<i32>, i: usize, min_prominence: i32) -> (r: bool)
    ensures
        r == is_prominent_peak(spectrum@, i as int, min_prominence),
{
    if i == 0 || spectrum.len() < 2 || i >= spectrum.len() - 1 {
        return false;
    }
    if !(spectrum[i - 1] < spectrum[i] && spectrum[i] >= spectrum[i + 1]) {
        return false;
    }
    let l: i32 = valley_to_left(spectrum, i);
    let r: i32 = valley_to_right(spectrum, i);
    let valley: i64 = if l >= r { l as i64 } else { r as i64 };
    spectrum[i] as i64 - valley >= min_prominence as i64
}

/// Every peak of `q` lies below the bin `bound`.
pub open spec fn all_below(q: Seq<Peak>, bound: int) -> bool {
    forall|k: int| 0 <= k < q.len() ==> (#[trigger] q[k]).index < bound
}

/// Every peak in `suppress(candidates(s, n, ..), ..)` lies below the bin
/// `first_bin + n`.
proof fn lemma_kept_below(s: Seq<i32>, n: int, first_bin: usize, d: usize, m: i32)
    requires
        0 <= n <= s.len(),
        first_bin + s.len() <= usize::MAX,
    ensures
        all_below(suppress(candidates(s, n, first_bin, m), d), first_bin + n),
    decreases n,
{
    if n > 0 {
        lemma_kept_below(s, n - 1, first_bin, d, m);
        let before = candidates(s, n - 1, first_bin, m);
        let kept = suppress(before, d);
        assert(all_below(kept, first_bin + n - 1));
        if is_prominent_peak(s, n - 1, m) {
            let p = peak_of(s, n - 1, first_bin);
            let c = before.push(p);
            assert(c.drop_last() =~= before);
            assert(c.last() == p);
            assert(candidates(s, n, first_bin, m) == c);
            let q = suppress(c, d);
            assert forall|k: int| 0 <= k < q.len() implies (#[trigger] q[k]).index < first_bin + n by {
                if k < kept.len() && q[k] == kept[k] {
                    assert(kept[k].index < first_bin + n - 1);
                }
            }
        } else {
            assert(candidates(s, n, first_bin, m) == before);
            assert forall|k: int| 0 <= k < kept.len() implies (#[trigger] kept[k]).index < first_bin + n by {
                assert(kept[k].index < first_bin + n - 1);
            }
        }
    }
}

/// Lists the prominent local maxima of `spectrum` from left to right, keeping
/// of any two that compete within `min_peak_dist` bins the higher one. The
/// first amplitude belongs to the bin `first_bin`, and each peak is reported
/// under its own bin.
pub fn fft_peaks(
    spectrum: &Vec<i32>,
    first_bin: usize,
    min_peak_dist: usize,
    min_prominence: i32,
) -> (r: Vec<Peak>)
    requires
        first_bin + spectrum@.len() <= usize::MAX,
    ensures
        r@ == peaks_of(spectrum@, first_bin, min_peak_dist, min_prominence),
{
    let mut kept: Vec<Peak> = Vec::new();
    let n: usize = spectrum.len();
    let mut i: usize = 0;
    while i < n
        invariant
            i <= n,
            n == spectrum@.len(),
            first_bin + n <= usize::MAX,
            kept@ == suppress(candidates(spectrum@, i as int, first_bin, min_prominence), min_peak_dist),
        decreases n - i,
    {
        proof {
            lemma_kept_below(spectrum@, i as int, first_bin, min_peak_dist, min_prominence);
        }
        let ghost before = candidates(spectrum@, i as int, first_bin, min_prominence);
        if is_peak(spectrum, i, min_prominence) {
            let p = Peak { index: first_bin + i, amplitude: spectrum[i] };
            proof {
                let c = before.push(p);
                assert(c.drop_last() =~= before);
                assert(c.last() == p);
                assert(candidates(spectrum@, i + 1, first_bin, min_prominence) == c);
            }
            let len: usize = kept.len();
            if len == 0 {
                kept.push(p);
            } else {
                let last = kept[len - 1];
                if p.index - last.index > min_peak_dist {
                    kept.push(p);
                } else if p.amplitude > last.amplitude {
                    kept.set(len - 1, p);
                    assert(kept@ =~= suppress(before, min_peak_dist).drop_last().push(p));
                }
            }
        }
        i += 1;
    }
    kept
}

/// The bins of `c` grow from left to right.
pub open spec fn ascending(c: Seq<Peak>) -> bool {
    forall|a: int, b: int| 0 <= a < b < c.len() ==> (#[trigger] c[a]).index < (#[trigger] c[b]).index
}

/// Any two neighbours in `q` lie more than `min_peak_dist` bins apart.
pub open spec fn spaced(q: Seq<Peak>, min_peak_dist: usize) -> bool {
    forall|k: int| 0 <= k < q.len() - 1 ==> (#[trigger] q[k + 1]).index - q[k].index > min_peak_dist
}

/// Every peak of `q` is one of `c`.
pub open spec fn drawn_from(q: Seq<Peak>, c: Seq<Peak>) -> bool {
    forall|k: int| 0 <= k < q.len() ==> c.contains(#[trigger] q[k])
}

/// `c[j]` is the first of the highest peaks of `c`.
pub open spec fn is_highest(c: Seq<Peak>, j: int) -> bool {
    &&& 0 <= j < c.len()
    &&& forall|l: int| 0 <= l < j ==> (#[trigger] c[l]).amplitude < c[j].amplitude
    &&& forall|l: int| j < l < c.len() ==> (#[trigger] c[l]).amplitude <= c[j].amplitude
}

/// `c[l]` is a peak other than `c[j]` within `min_peak_dist` bins of it that
/// wins against it: it is higher, or as high and earlier.
pub open spec fn is_rival(c: Seq<Peak>, j: int, l: int, min_peak_dist: usize) -> bool {
    &&& 0 <= l < c.len()
    &&& l != j
    &&& c[l].index - c[j].index <= min_peak_dist
    &&& c[j].index - c[l].index <= min_peak_dist
    &&& c[l].amplitude >= c[j].amplitude
    &&& l > j ==> c[l].amplitude > c[j].amplitude
}

/// What `suppress` keeps is drawn from `c`, in the same order, with
/// neighbours more than `d` bins apart, and ends no later than `c`.
pub proof fn lemma_suppress_spaced(c: Seq<Peak>, d: usize)
    requires
        ascending(c),
    ensures
        ascending(suppress(c, d)),
        drawn_from(suppress(c, d), c),
        spaced(suppress(c, d), d),
        c.len() > 0 ==> suppress(c, d).len() > 0 && c.contains(suppress(c, d).last()),
        suppress(c, d).len() <= c.len(),
    decreases c.len(),
{
    if c.len() > 0 {
        let c0 = c.drop_last();
        let p = c.last();
        let k0 = suppress(c0, d);
        let k = suppress(c, d);
        assert(ascending(c0)) by {
            assert forall|a: int, b: int| 0 <= a < b < c0.len() implies (#[trigger] c0[a]).index < (#[trigger] c0[b]).index by {
                assert(c0[a] == c[a] && c0[b] == c[b]);
            }
        }
        lemma_suppress_spaced(c0, d);
        assert forall|x: Peak| c0.contains(x) implies c.contains(x) && x.index < p.index by {
            let a = choose|a: int| 0 <= a < c0.len() && c0[a] == x;
            assert(c[a] == x);
            assert(c[a].index < c[c.len() - 1].index);
        }
        assert(c[c.len() - 1] == p);
        assert forall|a: int| 0 <= a < k0.len() implies (#[trigger] k0[a]).index < p.index && c.contains(k0[a]) by {
            assert(c0.contains(k0[a]));
        }
        if k0.len() == 0 || p.index - k0.last().index > d {
            assert(k == k0.push(p));
            assert forall|a: int| 0 <= a < k.len() implies c.contains(#[trigger] k[a]) by {
                if a < k0.len() {
                    assert(k[a] == k0[a]);
                }
            }
            assert forall|a: int| 0 <= a < k.len() - 1 implies (#[trigger] k[a + 1]).index - k[a].index > d by {
                if a + 1 < k0.len() {
                    assert(k[a + 1] == k0[a + 1] && k[a] == k0[a]);
                }
            }
            assert forall|a: int, b: int| 0 <= a < b < k.len() implies (#[trigger] k[a]).index < (#[trigger] k[b]).index by {
                assert(k[a] == k0[a]);
                if b < k0.len() {
                    assert(k[b] == k0[b]);
                }
            }
        } else if p.amplitude > k0.last().amplitude {
            assert(k == k0.drop_last().push(p));
            assert forall|a: int| 0 <= a < k.len() implies c.contains(#[trigger] k[a]) by {
                if a < k.len() - 1 {
                    assert(k[a] == k0[a]);
                }
            }
            assert forall|a: int| 0 <= a < k.len() - 1 implies (#[trigger] k[a + 1]).index - k[a].index > d by {
                assert(k[a] == k0[a]);
                if a + 1 < k.len() - 1 {
                    assert(k[a + 1] == k0[a + 1]);
                } else {
                    assert(k0[a + 1].index - k0[a].index > d);
                    assert(k0[a + 1].index < p.index);
                }
            }
            assert forall|a: int, b: int| 0 <= a < b < k.len() implies (#[trigger] k[a]).index < (#[trigger] k[b]).index by {
                assert(k[a] == k0[a]);
                if b < k.len() - 1 {
                    assert(k[b] == k0[b]);
                }
            }
        } else {
            assert(k == k0);
        }
    }
}

/// The first of the highest peaks of `c` is always kept.
pub proof fn lemma_suppress_keeps_highest(c: Seq<Peak>, d: usize, j: int)
    requires
        ascending(c),
        is_highest(c, j),
    ensures
        suppress(c, d).contains(c[j]),
    decreases c.len(),
{
    let c0 = c.drop_last();
    let p = c.last();
    let k0 = suppress(c0, d);
    let k = suppress(c, d);
    assert(ascending(c0)) by {
        assert forall|a: int, b: int| 0 <= a < b < c0.len() implies (#[trigger] c0[a]).index < (#[trigger] c0[b]).index by {
            assert(c0[a] == c[a] && c0[b] == c[b]);
        }
    }
    lemma_suppress_spaced(c0, d);
    if j == c.len() - 1 {
        if k0.len() > 0 {
            let x = k0.last();
            assert(c0.contains(x));
            let a = choose|a: int| 0 <= a < c0.len() && c0[a] == x;
            assert(c[a] == x);
            assert(x.amplitude < p.amplitude);
        }
        assert(k.last() == p);
        assert(k[k.len() - 1] == c[j]);
    } else {
        assert(is_highest(c0, j)) by {
            assert(c0[j] == c[j]);
            assert forall|l: int| 0 <= l < j implies (#[trigger] c0[l]).amplitude < c0[j].amplitude by {
                assert(c0[l] == c[l]);
            }
            assert forall|l: int| j < l < c0.len() implies (#[trigger] c0[l]).amplitude <= c0[j].amplitude by {
                assert(c0[l] == c[l]);
            }
        }
        lemma_suppress_keeps_highest(c0, d, j);
        assert(c0[j] == c[j]);
        let a = choose|a: int| 0 <= a < k0.len() && k0[a] == c[j];
        assert(p.amplitude <= c[j].amplitude) by {
            assert(c[c.len() - 1].amplitude <= c[j].amplitude);
        }
        if k0.len() == 0 || p.index - k0.last().index > d {
            assert(k == k0.push(p));
            assert(k[a] == c[j]);
        } else if p.amplitude > k0.last().amplitude {
            assert(k == k0.drop_last().push(p));
            assert(a != k0.len() - 1);
            assert(k[a] == c[j]);
        } else {
            assert(k == k0);
        }
    }
}

/// Where all neighbours of `c` lie more than `d` bins apart, all of `c` is
/// kept.
pub proof fn lemma_suppress_keeps_spaced(c: Seq<Peak>, d: usize)
    requires
        spaced(c, d),
    ensures
        suppress(c, d) == c,
    decreases c.len(),
{
    if c.len() > 0 {
        let c0 = c.drop_last();
        assert(spaced(c0, d)) by {
            assert forall|k: int| 0 <= k < c0.len() - 1 implies (#[trigger] c0[k + 1]).index - c0[k].index > d by {
                assert(c0[k + 1] == c[k + 1] && c0[k] == c[k]);
            }
        }
        lemma_suppress_keeps_spaced(c0, d);
        if c0.len() > 0 {
            assert(c[c0.len() - 1 + 1].index - c[c0.len() - 1].index > d);
            assert(c0.last() == c[c0.len() - 1]);
        }
        assert(c0.push(c.last()) =~= c);
    } else {
        assert(c =~= Seq::empty());
    }
}

/// A peak of `c` that is not kept has a rival in `c`.
pub proof fn lemma_suppress_drops_for_rival(c: Seq<Peak>, d: usize, j: int)
    requires
        ascending(c),
        0 <= j < c.len(),
        !suppress(c, d).contains(c[j]),
    ensures
        exists|l: int| is_rival(c, j, l, d),
    decreases c.len(),
{
    let c0 = c.drop_last();
    let p = c.last();
    let k0 = suppress(c0, d);
    let k = suppress(c, d);
    assert(ascending(c0)) by {
        assert forall|a: int, b: int| 0 <= a < b < c0.len() implies (#[trigger] c0[a]).index < (#[trigger] c0[b]).index by {
            assert(c0[a] == c[a] && c0[b] == c[b]);
        }
    }
    lemma_suppress_spaced(c0, d);
    if j == c.len() - 1 {
        if k0.len() == 0 || p.index - k0.last().index > d {
            assert(k == k0.push(p));
            assert(k[k.len() - 1] == c[j]);
        } else if p.amplitude > k0.last().amplitude {
            assert(k == k0.drop_last().push(p));
            assert(k[k.len() - 1] == c[j]);
        } else {
            let x = k0.last();
            assert(c0.contains(x));
            let l = choose|l: int| 0 <= l < c0.len() && c0[l] == x;
            assert(c[l] == x);
            assert(c[l].index < c[j].index);
            assert(is_rival(c, j, l, d));
        }
    } else {
        assert(c0[j] == c[j]);
        if k0.contains(c[j]) {
            let a = choose|a: int| 0 <= a < k0.len() && k0[a] == c[j];
            if k0.len() == 0 || p.index - k0.last().index > d {
                assert(k == k0.push(p));
                assert(k[a] == c[j]);
            } else if p.amplitude > k0.last().amplitude {
                assert(k == k0.drop_last().push(p));
                if a < k0.len() - 1 {
                    assert(k[a] == c[j]);
                }
                assert(c[j] == k0.last());
                assert(c[j].index < c[c.len() - 1].index);
                assert(is_rival(c, j, c.len() - 1, d));
            } else {
                assert(k == k0);
            }
        } else {
            lemma_suppress_drops_for_rival(c0, d, j);
            let l = choose|l: int| is_rival(c0, j, l, d);
            assert(c0[l] == c[l]);
            assert(is_rival(c, j, l, d));
        }
    }
}

/// `p` stands for a prominent peak among the first `n` amplitudes of `s`.
pub open spec fn is_candidate(s: Seq<i32>, n: int, first_bin: usize, min_prominence: i32, p: Peak) -> bool {
    let i = p.index - first_bin;
    &&& 0 <= i < n
    &&& is_prominent_peak(s, i, min_prominence)
    &&& p == peak_of(s, i, first_bin)
}

/// `candidates` lists exactly the prominent peaks, each once and in the order
/// of their bins.
pub proof fn lemma_candidates(s: Seq<i32>, n: int, first_bin: usize, m: i32)
    requires
        0 <= n <= s.len(),
        first_bin + s.len() <= usize::MAX,
    ensures
        ascending(candidates(s, n, first_bin, m)),
        forall|k: int|
            0 <= k < candidates(s, n, first_bin, m).len() ==> is_candidate(
                s,
                n,
                first_bin,
                m,
                #[trigger] candidates(s, n, first_bin, m)[k],
            ),
        forall|i: int|
            0 <= i < n && is_prominent_peak(s, i, m) ==> candidates(s, n, first_bin, m).contains(
                #[trigger] peak_of(s, i, first_bin),
            ),
    decreases n,
{
    if n > 0 {
        lemma_candidates(s, n - 1, first_bin, m);
        let c0 = candidates(s, n - 1, first_bin, m);
        let c = candidates(s, n, first_bin, m);
        if is_prominent_peak(s, n - 1, m) {
            let p = peak_of(s, n - 1, first_bin);
            assert(c == c0.push(p));
            assert forall|k: int| 0 <= k < c.len() implies is_candidate(s, n, first_bin, m, #[trigger] c[k]) by {
                if k < c0.len() {
                    assert(c[k] == c0[k]);
                    assert(is_candidate(s, n - 1, first_bin, m, c0[k]));
                }
            }
            assert forall|a: int, b: int| 0 <= a < b < c.len() implies (#[trigger] c[a]).index < (#[trigger] c[b]).index by {
                assert(c[a] == c0[a]);
                assert(is_candidate(s, n - 1, first_bin, m, c0[a]));
                if b < c0.len() {
                    assert(c[b] == c0[b]);
                }
            }
            assert forall|i: int| 0 <= i < n && is_prominent_peak(s, i, m) implies c.contains(
                #[trigger] peak_of(s, i, first_bin),
            ) by {
                if i < n - 1 {
                    let k = choose|k: int| 0 <= k < c0.len() && c0[k] == peak_of(s, i, first_bin);
                    assert(c[k] == peak_of(s, i, first_bin));
                } else {
                    assert(c[c.len() - 1] == peak_of(s, i, first_bin));
                }
            }
        } else {
            assert(c == c0);
            assert forall|k: int| 0 <= k < c.len() implies is_candidate(s, n, first_bin, m, #[trigger] c[k]) by {
                assert(is_candidate(s, n - 1, first_bin, m, c0[k]));
            }
        }
    }
}

/// Every peak that `fft_peaks` reports is a prominent local maximum of `s`,
/// reported under its own bin with its own amplitude; the reported bins grow,
/// and neighbours among them lie more than `min_peak_dist` bins apart.
pub proof fn lemma_peaks_are_prominent_and_spaced(
    s: Seq<i32>,
    first_bin: usize,
    min_peak_dist: usize,
    min_prominence: i32,
)
    requires
        first_bin + s.len() <= usize::MAX,
    ensures
        forall|k: int|
            0 <= k < peaks_of(s, first_bin, min_peak_dist, min_prominence).len() ==> is_candidate(
                s,
                s.len() as int,
                first_bin,
                min_prominence,
                #[trigger] peaks_of(s, first_bin, min_peak_dist, min_prominence)[k],
            ),
        ascending(peaks_of(s, first_bin, min_peak_dist, min_prominence)),
        spaced(peaks_of(s, first_bin, min_peak_dist, min_prominence), min_peak_dist),
{
    let c = candidates(s, s.len() as int, first_bin, min_prominence);
    let q = peaks_of(s, first_bin, min_peak_dist, min_prominence);
    lemma_candidates(s, s.len() as int, first_bin, min_prominence);
    lemma_suppress_spaced(c, min_peak_dist);
    assert forall|k: int| 0 <= k < q.len() implies is_candidate(
        s,
        s.len() as int,
        first_bin,
        min_prominence,
        #[trigger] q[k],
    ) by {
        assert(c.contains(q[k]));
        let a = choose|a: int| 0 <= a < c.len() && c[a] == q[k];
        assert(is_candidate(s, s.len() as int, first_bin, min_prominence, c[a]));
    }
}

/// `i` is the first of the highest prominent peaks of `s`.
pub open spec fn is_highest_peak(s: Seq<i32>, i: int, min_prominence: i32) -> bool {
    &&& is_prominent_peak(s, i, min_prominence)
    &&& forall|j: int| 0 <= j < i && #[trigger] is_prominent_peak(s, j, min_prominence) ==> s[j] < s[i]
    &&& forall|j: int| i < j < s.len() && #[trigger] is_prominent_peak(s, j, min_prominence) ==> s[j] <= s[i]
}

/// Among peaks of `s` in the order of their bins, the one that stands for the
/// first of the highest prominent peaks of `s` is the first of the highest.
proof fn lemma_highest_among(s: Seq<i32>, first_bin: usize, m: i32, q: Seq<Peak>, k: int, i: int)
    requires
        first_bin + s.len() <= usize::MAX,
        is_highest_peak(s, i, m),
        ascending(q),
        forall|l: int| 0 <= l < q.len() ==> is_candidate(s, s.len() as int, first_bin, m, #[trigger] q[l]),
        0 <= k < q.len(),
        q[k] == peak_of(s, i, first_bin),
    ensures
        is_highest(q, k),
{
    assert forall|l: int| 0 <= l < k implies (#[trigger] q[l]).amplitude < q[k].amplitude by {
        assert(is_candidate(s, s.len() as int, first_bin, m, q[l]));
        assert(q[l].index < q[k].index);
        assert(is_prominent_peak(s, q[l].index - first_bin, m));
    }
    assert forall|l: int| k < l < q.len() implies (#[trigger] q[l]).amplitude <= q[k].amplitude by {
        assert(is_candidate(s, s.len() as int, first_bin, m, q[l]));
        assert(q[k].index < q[l].index);
        assert(is_prominent_peak(s, q[l].index - first_bin, m));
    }
}

/// The first of the highest prominent peaks of `s` is reported, whatever
/// `min_peak_dist` is.
pub proof fn lemma_highest_peak_is_reported(
    s: Seq<i32>,
    first_bin: usize,
    min_peak_dist: usize,
    min_prominence: i32,
    i: int,
)
    requires
        first_bin + s.len() <= usize::MAX,
        is_highest_peak(s, i, min_prominence),
    ensures
        peaks_of(s, first_bin, min_peak_dist, min_prominence).contains(peak_of(s, i, first_bin)),
{
    let n = s.len() as int;
    let c = candidates(s, n, first_bin, min_prominence);
    lemma_candidates(s, n, first_bin, min_prominence);
    assert(c.contains(peak_of(s, i, first_bin)));
    let k = choose|k: int| 0 <= k < c.len() && c[k] == peak_of(s, i, first_bin);
    lemma_highest_among(s, first_bin, min_prominence, c, k, i);
    lemma_suppress_keeps_highest(c, min_peak_dist, k);
}

/// Where any two prominent peaks of `s` lie more than `min_peak_dist` bins
/// apart, every one of them is reported.
pub proof fn lemma_distant_peaks_are_all_reported(
    s: Seq<i32>,
    first_bin: usize,
    min_peak_dist: usize,
    min_prominence: i32,
)
    requires
        first_bin + s.len() <= usize::MAX,
        forall|i: int, j: int|
            0 <= i < j < s.len() && #[trigger] is_prominent_peak(s, i, min_prominence)
                && #[trigger] is_prominent_peak(s, j, min_prominence) ==> j - i > min_peak_dist,
    ensures
        peaks_of(s, first_bin, min_peak_dist, min_prominence) == candidates(
            s,
            s.len() as int,
            first_bin,
            min_prominence,
        ),
        forall|i: int|
            0 <= i < s.len() && is_prominent_peak(s, i, min_prominence) ==> peaks_of(
                s,
                first_bin,
                min_peak_dist,
                min_prominence,
            ).contains(#[trigger] peak_of(s, i, first_bin)),
{
    let n = s.len() as int;
    let c = candidates(s, n, first_bin, min_prominence);
    lemma_candidates(s, n, first_bin, min_prominence);
    assert(spaced(c, min_peak_dist)) by {
        assert forall|k: int| 0 <= k < c.len() - 1 implies (#[trigger] c[k + 1]).index - c[k].index > min_peak_dist by {
            assert(is_candidate(s, n, first_bin, min_prominence, c[k]));
            assert(is_candidate(s, n, first_bin, min_prominence, c[k + 1]));
            assert(c[k].index < c[k + 1].index);
            assert(is_prominent_peak(s, c[k].index - first_bin, min_prominence));
            assert(is_prominent_peak(s, c[k + 1].index - first_bin, min_prominence));
        }
    }
    lemma_suppress_keeps_spaced(c, min_peak_dist);
}

/// `j` is a rival of the peak at `i`: another prominent peak of `s` within
/// `min_peak_dist` bins of it that is higher, or as high and earlier.
pub open spec fn is_rival_peak(s: Seq<i32>, i: int, j: int, min_peak_dist: usize, min_prominence: i32) -> bool {
    &&& is_prominent_peak(s, j, min_prominence)
    &&& j != i
    &&& j - i <= min_peak_dist
    &&& i - j <= min_peak_dist
    &&& s[j] >= s[i]
    &&& j > i ==> s[j] > s[i]
}

/// A prominent peak of `s` that is not reported has a rival.
pub proof fn lemma_unreported_peak_has_rival(
    s: Seq<i32>,
    first_bin: usize,
    min_peak_dist: usize,
    min_prominence: i32,
    i: int,
)
    requires
        first_bin + s.len() <= usize::MAX,
        is_prominent_peak(s, i, min_prominence),
        !peaks_of(s, first_bin, min_peak_dist, min_prominence).contains(peak_of(s, i, first_bin)),
    ensures
        exists|j: int| is_rival_peak(s, i, j, min_peak_dist, min_prominence),
{
    let n = s.len() as int;
    let c = candidates(s, n, first_bin, min_prominence);
    lemma_candidates(s, n, first_bin, min_prominence);
    assert(c.contains(peak_of(s, i, first_bin)));
    let k = choose|k: int| 0 <= k < c.len() && c[k] == peak_of(s, i, first_bin);
    lemma_suppress_drops_for_rival(c, min_peak_dist, k);
    let l = choose|l: int| is_rival(c, k, l, min_peak_dist);
    assert(is_candidate(s, n, first_bin, min_prominence, c[l]));
    let j = c[l].index - first_bin;
    assert(is_prominent_peak(s, j, min_prominence));
    if l < k {
        assert(c[l].index < c[k].index);
    } else {
        assert(c[k].index < c[l].index);
    }
    assert(is_rival_peak(s, i, j, min_peak_dist, min_prominence));
}

/// Of two peaks of `c` that lie within `d` bins of each other, one at most
/// is kept.
pub proof fn lemma_suppress_excludes_neighbours(c: Seq<Peak>, d: usize, a: int, b: int)
    requires
        ascending(c),
        0 <= a < b < c.len(),
        c[b].index - c[a].index <= d,
    ensures
        !(suppress(c, d).contains(c[a]) && suppress(c, d).contains(c[b])),
{
    let q = suppress(c, d);
    lemma_suppress_spaced(c, d);
    if q.contains(c[a]) && q.contains(c[b]) {
        let k = choose|k: int| 0 <= k < q.len() && q[k] == c[a];
        let l = choose|l: int| 0 <= l < q.len() && q[l] == c[b];
        assert(c[a].index < c[b].index);
        if l < k {
            assert(q[l].index < q[k].index);
        }
        assert(k < l);
        assert(q[k + 1].index - q[k].index > d);
        if k + 1 < l {
            assert(q[k + 1].index < q[l].index);
        }
    }
}

/// A peak of `c` that is followed within `d` bins by a higher one is not
/// kept.
pub proof fn lemma_suppress_drops_before_higher(c: Seq<Peak>, d: usize, a: int, b: int)
    requires
        ascending(c),
        0 <= a < b < c.len(),
        c[b].index - c[a].index <= d,
        c[b].amplitude > c[a].amplitude,
    ensures
        !suppress(c, d).contains(c[a]),
    decreases c.len(),
{
    let c0 = c.drop_last();
    let p = c.last();
    let k0 = suppress(c0, d);
    let k = suppress(c, d);
    assert(ascending(c0)) by {
        assert forall|x: int, y: int| 0 <= x < y < c0.len() implies (#[trigger] c0[x]).index < (#[trigger] c0[y]).index by {
            assert(c0[x] == c[x] && c0[y] == c[y]);
        }
    }
    lemma_suppress_spaced(c0, d);
    assert(c0[a] == c[a]);
    assert(c[a].index < c[c.len() - 1].index);
    if b < c.len() - 1 {
        assert(c0[b] == c[b]);
        lemma_suppress_drops_before_higher(c0, d, a, b);
    }
    if k.contains(c[a]) {
        let x = choose|x: int| 0 <= x < k.len() && k[x] == c[a];
        // `c[a]` is not `p`, so it was kept before `p` came
        assert(x < k0.len() && k0[x] == c[a]) by {
            if k0.len() == 0 || p.index - k0.last().index > d {
                assert(k == k0.push(p));
            } else if p.amplitude > k0.last().amplitude {
                assert(k == k0.drop_last().push(p));
            } else {
                assert(k == k0);
            }
        }
        assert(k0.contains(c[a]));
        // so `p` is the higher peak, and `c[a]` is the last that was kept:
        // a later one would lie more than `d` bins after it, yet before `p`
        assert(b == c.len() - 1);
        if x < k0.len() - 1 {
            assert(k0[x + 1].index - k0[x].index > d);
            assert(c0.contains(k0[x + 1]));
            let y = choose|y: int| 0 <= y < c0.len() && c0[y] == k0[x + 1];
            assert(c[y] == k0[x + 1]);
            assert(c[y].index < c[c.len() - 1].index);
        }
        // and `p` takes its place
        assert(k == k0.drop_last().push(p));
        assert(k[x] == p);
    }
}

/// Of two prominent peaks of `s` that lie within `min_peak_dist` bins of
/// each other, one at most is reported.
pub proof fn lemma_near_peaks_are_not_both_reported(
    s: Seq<i32>,
    first_bin: usize,
    min_peak_dist: usize,
    min_prominence: i32,
    i: int,
    j: int,
)
    requires
        first_bin + s.len() <= usize::MAX,
        is_prominent_peak(s, i, min_prominence),
        is_prominent_peak(s, j, min_prominence),
        i < j,
        j - i <= min_peak_dist,
    ensures
        !(peaks_of(s, first_bin, min_peak_dist, min_prominence).contains(peak_of(s, i, first_bin))
            && peaks_of(s, first_bin, min_peak_dist, min_prominence).contains(
            peak_of(s, j, first_bin),
        )),
{
    let n = s.len() as int;
    let c = candidates(s, n, first_bin, min_prominence);
    lemma_candidates(s, n, first_bin, min_prominence);
    assert(c.contains(peak_of(s, i, first_bin)));
    assert(c.contains(peak_of(s, j, first_bin)));
    let a = choose|a: int| 0 <= a < c.len() && c[a] == peak_of(s, i, first_bin);
    let b = choose|b: int| 0 <= b < c.len() && c[b] == peak_of(s, j, first_bin);
    if b < a {
        assert(c[b].index < c[a].index);
    }
    lemma_suppress_excludes_neighbours(c, min_peak_dist, a, b);
}

/// A prominent peak of `s` that is followed within `min_peak_dist` bins by
/// a higher prominent peak is not reported.
pub proof fn lemma_peak_before_higher_peak_is_suppressed(
    s: Seq<i32>,
    first_bin: usize,
    min_peak_dist: usize,
    min_prominence: i32,
    i: int,
    j: int,
)
    requires
        first_bin + s.len() <= usize::MAX,
        is_prominent_peak(s, i, min_prominence),
        is_prominent_peak(s, j, min_prominence),
        i < j,
        j - i <= min_peak_dist,
        s[j] > s[i],
    ensures
        !peaks_of(s, first_bin, min_peak_dist, min_prominence).contains(peak_of(s, i, first_bin)),
{
    let n = s.len() as int;
    let c = candidates(s, n, first_bin, min_prominence);
    lemma_candidates(s, n, first_bin, min_prominence);
    assert(c.contains(peak_of(s, i, first_bin)));
    assert(c.contains(peak_of(s, j, first_bin)));
    let a = choose|a: int| 0 <= a < c.len() && c[a] == peak_of(s, i, first_bin);
    let b = choose|b: int| 0 <= b < c.len() && c[b] == peak_of(s, j, first_bin);
    if b < a {
        assert(c[b].index < c[a].index);
    }
    lemma_suppress_drops_before_higher(c, min_peak_dist, a, b);
}

/// A prominent peak of `s` without a rival is reported, and every other
/// prominent peak within `min_peak_dist` bins of it is suppressed: so is a
/// third maximum that lies near a larger one which nothing competes with.
pub proof fn lemma_peak_near_unrivalled_peak_is_suppressed(
    s: Seq<i32>,
    first_bin: usize,
    min_peak_dist: usize,
    min_prominence: i32,
    i: int,
    j: int,
)
    requires
        first_bin + s.len() <= usize::MAX,
        is_prominent_peak(s, i, min_prominence),
        forall|k: int| !is_rival_peak(s, i, k, min_peak_dist, min_prominence),
        is_prominent_peak(s, j, min_prominence),
        j != i,
        j - i <= min_peak_dist,
        i - j <= min_peak_dist,
    ensures
        peaks_of(s, first_bin, min_peak_dist, min_prominence).contains(peak_of(s, i, first_bin)),
        !peaks_of(s, first_bin, min_peak_dist, min_prominence).contains(peak_of(s, j, first_bin)),
{
    if !peaks_of(s, first_bin, min_peak_dist, min_prominence).contains(peak_of(s, i, first_bin)) {
        lemma_unreported_peak_has_rival(s, first_bin, min_peak_dist, min_prominence, i);
    }
    if i < j {
        lemma_near_peaks_are_not_both_reported(s, first_bin, min_peak_dist, min_prominence, i, j);
    } else {
        lemma_near_peaks_are_not_both_reported(s, first_bin, min_peak_dist, min_prominence, j, i);
    }
}

/// There is one first highest peak at most.
pub proof fn lemma_highest_unique(c: Seq<Peak>, j: int, l: int)
    requires
        is_highest(c, j),
        is_highest(c, l),
    ensures
        j == l,
{
    if j < l {
        assert(c[j].amplitude < c[l].amplitude);
        assert(c[l].amplitude <= c[j].amplitude);
    }
    if l < j {
        assert(c[l].amplitude < c[j].amplitude);
        assert(c[j].amplitude <= c[l].amplitude);
    }
}

/// The first of the highest peaks of `q`, which is not empty.
pub open spec fn highest_of(q: Seq<Peak>) -> Peak {
    q[choose|j: int| is_highest(q, j)]
}

/// A sequence of peaks that is not empty has a first highest peak, and
/// `highest_of` is that peak.
pub proof fn lemma_highest_exists(q: Seq<Peak>)
    requires
        q.len() > 0,
    ensures
        exists|j: int| is_highest(q, j) && q[j] == highest_of(q),
        q.contains(highest_of(q)),
{
    let j = first_highest(q);
    assert(q[j] == highest_of(q)) by {
        let k = choose|k: int| is_highest(q, k);
        lemma_highest_unique(q, j, k);
    }
}

/// Finds the first highest peak of `q`.
proof fn first_highest(q: Seq<Peak>) -> (j: int)
    requires
        q.len() > 0,
    ensures
        is_highest(q, j),
    decreases q.len(),
{
    if q.len() == 1 {
        0
    } else {
        let t = q.drop_last();
        let k = first_highest(t);
        if q.last().amplitude > t[k].amplitude {
            let top = q.last().amplitude;
            assert forall|l: int| 0 <= l < q.len() - 1 implies (#[trigger] q[l]).amplitude < top by {
                assert(q[l] == t[l]);
                if l != k {
                    assert(t[l].amplitude <= t[k].amplitude);
                }
            }
            q.len() - 1
        } else {
            assert(q[k] == t[k]);
            assert forall|l: int| 0 <= l < k implies (#[trigger] q[l]).amplitude < q[k].amplitude by {
                assert(q[l] == t[l] && t[l].amplitude < t[k].amplitude);
            }
            assert forall|l: int| k < l < q.len() implies (#[trigger] q[l]).amplitude <= q[k].amplitude by {
                if l < q.len() - 1 {
                    assert(q[l] == t[l] && t[l].amplitude <= t[k].amplitude);
                }
            }
            k
        }
    }
}

/// Where `q[j]` is the first of the highest peaks of `q`, `highest_of` is
/// that peak.
pub proof fn lemma_highest_of(q: Seq<Peak>, j: int)
    requires
        is_highest(q, j),
    ensures
        highest_of(q) == q[j],
{
    let k = choose|k: int| is_highest(q, k);
    lemma_highest_unique(q, j, k);
}

/// The highest of the reported peaks is the first of the highest prominent
/// peaks of `s`, whatever `min_peak_dist` is.
pub proof fn lemma_highest_reported_peak(
    s: Seq<i32>,
    first_bin: usize,
    min_peak_dist: usize,
    min_prominence: i32,
    i: int,
)
    requires
        first_bin + s.len() <= usize::MAX,
        is_highest_peak(s, i, min_prominence),
    ensures
        peaks_of(s, first_bin, min_peak_dist, min_prominence).contains(peak_of(s, i, first_bin)),
        highest_of(peaks_of(s, first_bin, min_peak_dist, min_prominence)) == peak_of(s, i, first_bin),
{
    let q = peaks_of(s, first_bin, min_peak_dist, min_prominence);
    let p = peak_of(s, i, first_bin);
    lemma_highest_peak_is_reported(s, first_bin, min_peak_dist, min_prominence, i);
    lemma_peaks_are_prominent_and_spaced(s, first_bin, min_peak_dist, min_prominence);
    let k = choose|k: int| 0 <= k < q.len() && q[k] == p;
    lemma_highest_among(s, first_bin, min_prominence, q, k, i);
    lemma_highest_of(q, k);
}

/// Picks the peak with the greatest amplitude, the earliest one among equals.
/// Returns `None` exactly when there is no peak.
pub fn highest_peak(peaks: &Vec<Peak>) -> (r: Option<Peak>)
    ensures
        r is None <==> peaks@.len() == 0,
        r is Some ==> r.unwrap() == highest_of(peaks@) && peaks@.contains(r.unwrap()),
        r is Some ==> exists|j: int| is_highest(peaks@, j) && peaks@[j] == r.unwrap(),
{
    if peaks.len() == 0 {
        return None;
    }
    let mut best: usize = 0;
    let mut k: usize = 1;
    while k < peaks.len()
        invariant
            1 <= k <= peaks.len(),
            best < k,
            forall|l: int| 0 <= l < best ==> (#[trigger] peaks@[l]).amplitude < peaks@[best as int].amplitude,
            forall|l: int| best < l < k ==> (#[trigger] peaks@[l]).amplitude <= peaks@[best as int].amplitude,
        decreases peaks.len() - k,
    {
        if peaks[k].amplitude > peaks[best].amplitude {
            best = k;
        }
        k += 1;
    }
    proof {
        lemma_highest_of(peaks@, best as int);
    }
    Some(peaks[best])
}

} // verus!
