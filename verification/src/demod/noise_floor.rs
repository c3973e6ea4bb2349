//! Histogram-based noise floor estimation (256 bins, samples above 255 counted in the top bin).
use vstd::prelude::*;

verus! {

/// Number of histogram bins.
pub const HISTOGRAM_BUCKETS: usize = 256;

/// Noise floor estimate of a magnitude buffer.
#[derive(Clone, Copy, Debug)]
pub struct NoiseFloor {
    /// Estimated noise floor (the 75th percentile).
    pub floor: u32,
    /// 50th percentile.
    pub median: u32,
    /// 75th percentile.
    pub p75: u32,
}

/// The bin a sample falls in.
pub open spec fn bin_of(v: u16) -> int {
    if v > 255 {
        255
    } else {
        v as int
    }
}

/// Number of samples of `mag` in bin `i`.
pub open spec fn bin_count(mag: Seq<u16>, i: int) -> nat
    decreases mag.len(),
{
    if mag.len() == 0 {
        0
    } else {
        bin_count(mag.drop_last(), i) + if bin_of(mag.last()) == i {
            1nat
        } else {
            0nat
        }
    }
}

/// The histogram of a magnitude buffer.
pub open spec fn histogram_of(mag: Seq<u16>) -> Seq<u32> {
    Seq::new(256, |i: int| bin_count(mag, i) as u32)
}

/// Largest bin any sample falls in (0 for an empty buffer).
pub open spec fn max_bin(mag: Seq<u16>) -> int
    decreases mag.len(),
{
    if mag.len() == 0 {
        0
    } else {
        let m = max_bin(mag.drop_last());
        if bin_of(mag.last()) > m {
            bin_of(mag.last())
        } else {
            m
        }
    }
}

/// Sum of the first `n` bins.
pub open spec fn prefix_sum(h: Seq<u32>, n: int) -> int
    decreases n,
{
    if n <= 0 {
        0
    } else {
        prefix_sum(h, n - 1) + h[n - 1] as int
    }
}

/// Number of samples a `k`-percentile must cover: ceil(total * k / 100).
pub open spec fn percentile_target(total: int, k: int) -> int {
    (total * k + 99) / 100
}

/// The first bin from `i` on whose cumulative count reaches `target` (255 if none does).
pub open spec fn first_reaching(h: Seq<u32>, target: int, i: int) -> int
    decreases 256 - i,
{
    if i >= 256 {
        255
    } else if prefix_sum(h, i + 1) >= target {
        i
    } else {
        first_reaching(h, target, i + 1)
    }
}

/// The `k`-th percentile bin of a histogram (0 for an empty histogram).
pub open spec fn hist_percentile(h: Seq<u32>, k: int) -> int {
    let total = prefix_sum(h, 256);
    if total == 0 {
        0
    } else {
        first_reaching(h, percentile_target(total, k), 0)
    }
}

/// Every bin's count fits a 32-bit counter.
pub open spec fn bins_fit(mag: Seq<u16>) -> bool {
    forall|i: int| 0 <= i < 256 ==> #[trigger] bin_count(mag, i) <= u32::MAX
}

/// A prefix puts no more samples in a bin than the whole.
proof fn lemma_bin_count_prefix(mag: Seq<u16>, j: int, i: int)
    requires
        0 <= j <= mag.len(),
    ensures
        bin_count(mag.take(j), i) <= bin_count(mag, i),
    decreases mag.len(),
{
    if j < mag.len() {
        assert(mag.drop_last().take(j) =~= mag.take(j));
        lemma_bin_count_prefix(mag.drop_last(), j, i);
    } else {
        assert(mag.take(j) =~= mag);
    }
}

/// Count samples per bin; also return the largest bin used.
pub fn compute_histogram(mag: &[u16]) -> (r: ([u32; 256], u16))
    requires
        bins_fit(mag@),
    ensures
        r.0@ == histogram_of(mag@),
        r.1 as int == max_bin(mag@),
{
    let mut histogram = [0u32; 256];
    let mut max_val: u16 = 0;
    let mut j: usize = 0;
    while j < mag.len()
        invariant
            j <= mag@.len(),
            bins_fit(mag@),
            histogram@.len() == 256,
            forall|i: int| 0 <= i < 256 ==> #[trigger] histogram@[i] == bin_count(mag@.take(j as int), i),
            max_val as int == max_bin(mag@.take(j as int)),
        decreases mag@.len() - j,
    {
        let v = mag[j];
        let v_clipped: u16 = if v < 255 {
            v
        } else {
            255
        };
        let ghost prev = mag@.take(j as int);
        let ghost next = mag@.take(j + 1);
        assert(next.drop_last() =~= prev);
        assert(next.last() == v);
        proof {
            lemma_bin_count_prefix(mag@, j + 1, v_clipped as int);
            assert(bin_count(mag@, v_clipped as int) <= u32::MAX);
        }
        let idx = v_clipped as usize;
        histogram[idx] = histogram[idx] + 1;
        if v_clipped > max_val {
            max_val = v_clipped;
        }
        j = j + 1;
    }
    assert(mag@.take(mag@.len() as int) =~= mag@);
    assert(histogram@ =~= histogram_of(mag@));
    (histogram, max_val)
}

/// The `k`-th percentile bin of a histogram (see `hist_percentile`).
pub fn histogram_percentile(histogram: &[u32; 256], k: u32) -> (p: u32)
    requires
        k <= 100,
    ensures
        p as int == hist_percentile(histogram@, k as int),
{
    let mut total: u64 = 0;
    let mut i: usize = 0;
    while i < 256
        invariant
            i <= 256,
            histogram@.len() == 256,
            total as int == prefix_sum(histogram@, i as int),
            total <= i * 0xFFFF_FFFF,
        decreases 256 - i,
    {
        total = total + histogram[i] as u64;
        i = i + 1;
    }
    if total == 0 {
        return 0;
    }
    assert(total * k <= 256 * 0xFFFF_FFFFu64 * 100) by (nonlinear_arith)
        requires
            total <= 256 * 0xFFFF_FFFFu64,
            k <= 100,
    ;
    let target: u64 = (total * k as u64 + 99) / 100;
    let mut cumulative: u64 = 0;
    let mut i: usize = 0;
    while i < 256
        invariant
            i <= 256,
            histogram@.len() == 256,
            cumulative as int == prefix_sum(histogram@, i as int),
            cumulative <= i * 0xFFFF_FFFF,
            target as int == percentile_target(prefix_sum(histogram@, 256), k as int),
            prefix_sum(histogram@, 256) != 0,
            first_reaching(histogram@, target as int, 0) == first_reaching(
                histogram@,
                target as int,
                i as int,
            ),
        decreases 256 - i,
    {
        cumulative = cumulative + histogram[i] as u64;
        if cumulative >= target {
            return i as u32;
        }
        i = i + 1;
    }
    255
}

/// Largest first-reaching bin never falls below that of a smaller target.
proof fn lemma_first_reaching_monotone(h: Seq<u32>, t1: int, t2: int, i: int)
    requires
        t1 <= t2,
    ensures
        first_reaching(h, t1, i) <= first_reaching(h, t2, i),
    decreases 256 - i,
{
    if i < 256 {
        lemma_first_reaching_monotone(h, t1, t2, i + 1);
        if prefix_sum(h, i + 1) < t1 {
        } else {
            lemma_first_reaching_bounds(h, t2, i);
        }
    }
}

proof fn lemma_first_reaching_bounds(h: Seq<u32>, t: int, i: int)
    ensures
        i <= 256 ==> (i <= first_reaching(h, t, i) || first_reaching(h, t, i) == 255),
        first_reaching(h, t, i) <= 255 || i < 256 && first_reaching(h, t, i) == i,
        i <= 255 ==> i <= first_reaching(h, t, i) <= 255,
    decreases 256 - i,
{
    if i < 256 {
        lemma_first_reaching_bounds(h, t, i + 1);
    }
}

/// Estimate the noise floor: median and 75th percentile of the clipped sample histogram (floor =
/// 75th percentile), or median 15 and floor 20 for an empty buffer.
pub fn estimate_noise_floor(mag: &[u16]) -> (nf: NoiseFloor)
    requires
        bins_fit(mag@),
    ensures
        mag@.len() == 0 ==> nf.floor == 20 && nf.median == 15 && nf.p75 == 20,
        mag@.len() > 0 ==> {
            &&& nf.median as int == hist_percentile(histogram_of(mag@), 50)
            &&& nf.p75 as int == hist_percentile(histogram_of(mag@), 75)
            &&& nf.floor == nf.p75
        },
        nf.median <= nf.p75,
{
    let (histogram, _max_val) = compute_histogram(mag);
    let mut total: u64 = 0;
    let mut i: usize = 0;
    while i < 256
        invariant
            i <= 256,
            histogram@.len() == 256,
            total as int == prefix_sum(histogram@, i as int),
            total <= i * 0xFFFF_FFFF,
        decreases 256 - i,
    {
        total = total + histogram[i] as u64;
        i = i + 1;
    }
    proof {
        lemma_histogram_total(mag@);
    }
    if total == 0 {
        return NoiseFloor { floor: 20, median: 15, p75: 20 };
    }
    let median = histogram_percentile(&histogram, 50);
    let p75 = histogram_percentile(&histogram, 75);
    proof {
        let tot = prefix_sum(histogram@, 256);
        assert(percentile_target(tot, 50) <= percentile_target(tot, 75)) by (nonlinear_arith)
            requires
                tot >= 0,
        ;
        lemma_first_reaching_monotone(
            histogram@,
            percentile_target(tot, 50),
            percentile_target(tot, 75),
            0,
        );
    }
    NoiseFloor { floor: p75, median, p75 }
}

proof fn lemma_prefix_sum_bins(mag: Seq<u16>, n: int)
    requires
        0 <= n <= 256,
        bins_fit(mag),
    ensures
        prefix_sum(histogram_of(mag), n) == count_bins_below(mag, n),
    decreases n,
{
    if n > 0 {
        lemma_prefix_sum_bins(mag, n - 1);
        assert(bin_count(mag, n - 1) <= u32::MAX);
        lemma_count_bins_below_step(mag, n);
        assert(histogram_of(mag)[n - 1] as int == bin_count(mag, n - 1));
    } else {
        lemma_count_bins_zero(mag);
    }
}

/// Number of samples whose bin is below `n`.
spec fn count_bins_below(mag: Seq<u16>, n: int) -> nat
    decreases mag.len(),
{
    if mag.len() == 0 {
        0
    } else {
        count_bins_below(mag.drop_last(), n) + if bin_of(mag.last()) < n {
            1nat
        } else {
            0nat
        }
    }
}

proof fn lemma_count_bins_below_step(mag: Seq<u16>, n: int)
    ensures
        count_bins_below(mag, n) == count_bins_below(mag, n - 1) + bin_count(mag, n - 1),
    decreases mag.len(),
{
    if mag.len() > 0 {
        lemma_count_bins_below_step(mag.drop_last(), n);
    }
}

proof fn lemma_count_bins_zero(mag: Seq<u16>)
    ensures
        count_bins_below(mag, 0) == 0,
    decreases mag.len(),
{
    if mag.len() > 0 {
        lemma_count_bins_zero(mag.drop_last());
    }
}

proof fn lemma_count_bins_all(mag: Seq<u16>)
    ensures
        count_bins_below(mag, 256) == mag.len(),
    decreases mag.len(),
{
    if mag.len() > 0 {
        lemma_count_bins_all(mag.drop_last());
    }
}

/// The histogram counts every sample exactly once.
proof fn lemma_histogram_total(mag: Seq<u16>)
    requires
        bins_fit(mag),
    ensures
        prefix_sum(histogram_of(mag), 256) == mag.len(),
{
    lemma_prefix_sum_bins(mag, 256);
    lemma_count_bins_all(mag);
}

} // verus!
