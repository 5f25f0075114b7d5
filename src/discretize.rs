use vstd::prelude::*;
use vstd::relations::{sorted_by, total_ordering};
use vstd::seq_lib::lemma_sorted_unique;

verus! {

/// Number of quantile bins that every row is discretized into.
pub const BINS: usize = 10;

/// The ascending order of sample keys.
pub open spec fn ascending() -> spec_fn(u64, u64) -> bool {
    |a: u64, b: u64| a <= b
}

/// The samples of a row in ascending order.
pub open spec fn sorted_samples(row: Seq<u64>) -> Seq<u64> {
    row.sort_by(ascending())
}

/// Position in a sorted row of `n` samples of the `i`-th of `bins` quantile cuts.
pub open spec fn cut_index(i: int, n: int, bins: int) -> int {
    (i * n) / bins
}

/// The bin of `value` when the cuts from the `i`-th on are tried in turn:
/// the first cut whose sample is at least `value` closes bin `i - 1`, and a
/// value above every cut lands in the last bin.
pub open spec fn bin_from(value: u64, sorted: Seq<u64>, bins: int, i: int) -> int
    decreases bins - i,
{
    if i >= bins {
        bins - 1
    } else if cut_index(i, sorted.len() as int, bins) < sorted.len() && value <= sorted[cut_index(
        i,
        sorted.len() as int,
        bins,
    )] {
        i - 1
    } else {
        bin_from(value, sorted, bins, i + 1)
    }
}

/// The quantile bin of `value` relative to the ascending samples `sorted`.
pub open spec fn bin_of(value: u64, sorted: Seq<u64>, bins: int) -> int {
    if sorted.len() == 0 {
        0
    } else {
        bin_from(value, sorted, bins, 1)
    }
}

/// Bin indices as mathematical integers.
pub open spec fn as_ints(s: Seq<usize>) -> Seq<int> {
    s.map_values(|v: usize| v as int)
}

/// The bin of every sample of `row`, each against the row's own sorted samples.
pub open spec fn row_bins(row: Seq<u64>, bins: int) -> Seq<int> {
    Seq::new(row.len(), |k: int| bin_of(row[k], sorted_samples(row), bins))
}

proof fn lemma_bin_from_range(value: u64, sorted: Seq<u64>, bins: int, i: int)
    requires
        1 <= i,
        1 <= bins,
    ensures
        0 <= bin_from(value, sorted, bins, i) < bins,
    decreases bins - i,
{
    if i < bins {
        lemma_bin_from_range(value, sorted, bins, i + 1);
    }
}

/// Every value falls into one of the `bins` bins.
pub proof fn lemma_bin_of_range(value: u64, sorted: Seq<u64>, bins: int)
    requires
        1 <= bins,
    ensures
        0 <= bin_of(value, sorted, bins) < bins,
{
    if sorted.len() > 0 {
        lemma_bin_from_range(value, sorted, bins, 1);
    }
}

proof fn lemma_ascending_total()
    ensures
        total_ordering(ascending()),
{
}

/// Relies on `slice::sort_unstable`: afterwards the vector holds the same
/// samples, in ascending order.
#[verifier::external_body]
fn sort_ascending(v: &mut Vec<u64>)
    ensures
        final(v)@.len() == old(v)@.len(),
        sorted_by(final(v)@, ascending()),
        final(v)@.to_multiset() == old(v)@.to_multiset(),
{
    v.sort_unstable();
}

/// The bin of `value` among `bins` equal-count bins whose cuts are read from
/// `sorted_values`, the ascending samples of its row.
pub fn discretize_value(value: u64, sorted_values: &[u64], bins: usize) -> (r: i32)
    requires
        1 <= bins <= i32::MAX,
        bins * sorted_values@.len() <= usize::MAX,
    ensures
        r as int == bin_of(value, sorted_values@, bins as int),
        0 <= r < bins,
{
    proof {
        lemma_bin_of_range(value, sorted_values@, bins as int);
    }
    let n = sorted_values.len();
    if n == 0 {
        return 0;
    }
    let mut i: usize = 1;
    while i < bins
        invariant
            1 <= i <= bins,
            bins <= i32::MAX,
            n == sorted_values@.len(),
            n > 0,
            bins * n <= usize::MAX,
            bin_of(value, sorted_values@, bins as int) == bin_from(
                value,
                sorted_values@,
                bins as int,
                i as int,
            ),
        decreases bins - i,
    {
        assert(i * n <= bins * n) by (nonlinear_arith)
            requires
                i <= bins,
        ;
        let quantile_idx = (i * n) / bins;
        if quantile_idx < n && value <= sorted_values[quantile_idx] {
            return (i - 1) as i32;
        }
        i = i + 1;
    }
    (bins - 1) as i32
}

/// The bin of every sample of `row`, each against the row's own quantile cuts.
pub fn discretize_row(row: &[u64], bins: usize) -> (r: Vec<usize>)
    requires
        1 <= bins <= i32::MAX,
        bins * row@.len() <= usize::MAX,
    ensures
        as_ints(r@) == row_bins(row@, bins as int),
        forall|k: int| 0 <= k < r@.len() ==> #[trigger] r@[k] < bins,
{
    let mut sorted: Vec<u64> = Vec::new();
    let mut k: usize = 0;
    while k < row.len()
        invariant
            k <= row@.len(),
            sorted@ == row@.subrange(0, k as int),
        decreases row@.len() - k,
    {
        sorted.push(row[k]);
        k = k + 1;
    }
    assert(sorted@ == row@);
    sort_ascending(&mut sorted);
    proof {
        lemma_ascending_total();
        row@.lemma_sort_by_ensures(ascending());
        lemma_sorted_unique(sorted@, sorted_samples(row@), ascending());
    }
    let mut out: Vec<usize> = Vec::new();
    let mut k: usize = 0;
    while k < row.len()
        invariant
            k <= row@.len(),
            sorted@ == sorted_samples(row@),
            sorted@.len() == row@.len(),
            1 <= bins <= i32::MAX,
            bins * row@.len() <= usize::MAX,
            out@.len() == k,
            forall|m: int| 0 <= m < k ==> #[trigger] out@[m] as int == row_bins(row@, bins as int)[m],
            forall|m: int| 0 <= m < k ==> #[trigger] out@[m] < bins,
        decreases row@.len() - k,
    {
        let b = discretize_value(row[k], sorted.as_slice(), bins);
        out.push(b as usize);
        k = k + 1;
    }
    assert(as_ints(out@) =~= row_bins(row@, bins as int));
    out
}

} // verus!
