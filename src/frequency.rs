use vstd::prelude::*;
use crate::discretize::{as_ints, discretize_row, row_bins, BINS};

verus! {

/// Number of samples among the first `k` whose bins are `a` in `xs` and `b` in `ys`.
pub open spec fn pair_count(xs: Seq<int>, ys: Seq<int>, k: int, a: int, b: int) -> nat
    decreases k,
{
    if k <= 0 {
        0
    } else {
        pair_count(xs, ys, k - 1, a, b) + if xs[k - 1] == a && ys[k - 1] == b {
            1nat
        } else {
            0nat
        }
    }
}

/// Number of samples among the first `k` whose bin in `xs` is `a`.
pub open spec fn bin_count(xs: Seq<int>, k: int, a: int) -> nat
    decreases k,
{
    if k <= 0 {
        0
    } else {
        bin_count(xs, k - 1, a) + if xs[k - 1] == a {
            1nat
        } else {
            0nat
        }
    }
}

/// The joint counts factor into the marginal ones: `n * joint(a, b) ==
/// count_x(a) * count_y(b)` in every cell. Each term `p_xy * ln(p_xy / (p_x *
/// p_y))` of the plug-in score is then `p_xy * ln 1`, so the score is zero.
pub open spec fn independent(xs: Seq<int>, ys: Seq<int>) -> bool {
    forall|a: int, b: int|
        0 <= a < BINS && 0 <= b < BINS ==> xs.len() * #[trigger] pair_count(
            xs,
            ys,
            xs.len() as int,
            a,
            b,
        ) == bin_count(xs, xs.len() as int, a) * bin_count(ys, ys.len() as int, b)
}

/// Joint and marginal bin counts of two equally long binned rows.
///
/// `joint` is laid out row by row: the count of samples in bin `a` of the
/// first row and bin `b` of the second stands at `a * BINS + b`.
#[derive(Debug, PartialEq, Eq)]
pub struct FrequencyTable {
    pub samples: usize,
    pub joint: Vec<usize>,
    pub x_counts: Vec<usize>,
    pub y_counts: Vec<usize>,
}

impl FrequencyTable {
    /// The table holds exactly the counts of the binned rows `xs` and `ys`.
    pub open spec fn counts_of(&self, xs: Seq<int>, ys: Seq<int>) -> bool {
        &&& xs.len() == ys.len()
        &&& self.samples == xs.len()
        &&& self.joint@.len() == BINS * BINS
        &&& self.x_counts@.len() == BINS
        &&& self.y_counts@.len() == BINS
        &&& forall|c: int|
            0 <= c < BINS * BINS ==> #[trigger] self.joint@[c] == pair_count(
                xs,
                ys,
                xs.len() as int,
                c / BINS as int,
                c % BINS as int,
            )
        &&& forall|a: int|
            0 <= a < BINS ==> #[trigger] self.x_counts@[a] == bin_count(xs, xs.len() as int, a)
        &&& forall|b: int|
            0 <= b < BINS ==> #[trigger] self.y_counts@[b] == bin_count(ys, ys.len() as int, b)
    }

    /// Count of samples in bin `a` of the first row and bin `b` of the second.
    pub open spec fn joint_at(&self, a: int, b: int) -> int {
        self.joint@[a * BINS + b] as int
    }

    /// Count of samples in bin `a` of the first row and bin `b` of the second.
    pub fn joint_count(&self, a: usize, b: usize) -> (r: usize)
        requires
            a < BINS,
            b < BINS,
            self.joint@.len() == BINS * BINS,
        ensures
            r as int == self.joint_at(a as int, b as int),
    {
        self.joint[a * BINS + b]
    }
}

proof fn lemma_pair_count_bound(xs: Seq<int>, ys: Seq<int>, k: int, a: int, b: int)
    requires
        0 <= k,
    ensures
        pair_count(xs, ys, k, a, b) <= k,
    decreases k,
{
    if k > 0 {
        lemma_pair_count_bound(xs, ys, k - 1, a, b);
    }
}

proof fn lemma_bin_count_bound(xs: Seq<int>, k: int, a: int)
    requires
        0 <= k,
    ensures
        bin_count(xs, k, a) <= k,
    decreases k,
{
    if k > 0 {
        lemma_bin_count_bound(xs, k - 1, a);
    }
}

proof fn lemma_counts_point_mass(xs: Seq<int>, ys: Seq<int>, k: int, c: int, a: int, b: int)
    requires
        0 <= k <= xs.len(),
        xs.len() == ys.len(),
        forall|m: int| 0 <= m < xs.len() ==> #[trigger] xs[m] == c,
    ensures
        bin_count(xs, k, a) == if a == c {
            k
        } else {
            0
        },
        pair_count(xs, ys, k, a, b) == if a == c {
            bin_count(ys, k, b) as int
        } else {
            0
        },
        pair_count(ys, xs, k, b, a) == if a == c {
            bin_count(ys, k, b) as int
        } else {
            0
        },
    decreases k,
{
    if k > 0 {
        lemma_counts_point_mass(xs, ys, k - 1, c, a, b);
    }
}

proof fn lemma_point_mass_independent(xs: Seq<int>, ys: Seq<int>)
    requires
        xs.len() == ys.len(),
        forall|m: int| 0 <= m < xs.len() ==> #[trigger] xs[m] == xs[0],
    ensures
        independent(xs, ys),
        independent(ys, xs),
{
    let n = xs.len() as int;
    assert forall|a: int, b: int| 0 <= a < BINS && 0 <= b < BINS implies n * #[trigger] pair_count(
        xs,
        ys,
        n,
        a,
        b,
    ) == bin_count(xs, n, a) * bin_count(ys, n, b) by {
        lemma_counts_point_mass(xs, ys, n, xs[0], a, b);
    }
    assert forall|b: int, a: int| 0 <= b < BINS && 0 <= a < BINS implies n * #[trigger] pair_count(
        ys,
        xs,
        n,
        b,
        a,
    ) == bin_count(ys, n, b) * bin_count(xs, n, a) by {
        lemma_counts_point_mass(xs, ys, n, xs[0], a, b);
    }
}

/// A row whose samples are all equal puts every sample into one bin, and its
/// counts against any row of the same length (itself included) are
/// independent, so its self-information and its score with every row is zero.
pub proof fn lemma_constant_row_independent(row: Seq<u64>, other: Seq<u64>)
    requires
        row.len() == other.len(),
        forall|k: int| 0 <= k < row.len() ==> #[trigger] row[k] == row[0],
    ensures
        forall|k: int|
            0 <= k < row.len() ==> #[trigger] row_bins(row, BINS as int)[k] == row_bins(
                row,
                BINS as int,
            )[0],
        independent(row_bins(row, BINS as int), row_bins(other, BINS as int)),
        independent(row_bins(other, BINS as int), row_bins(row, BINS as int)),
        independent(row_bins(row, BINS as int), row_bins(row, BINS as int)),
{
    let xs = row_bins(row, BINS as int);
    assert forall|k: int| 0 <= k < xs.len() implies #[trigger] xs[k] == xs[0] by {
        assert(row[k] == row[0]);
    }
    lemma_point_mass_independent(xs, row_bins(other, BINS as int));
    lemma_point_mass_independent(xs, xs);
}

/// Counts, over the samples of two binned rows, how often each pair of bins
/// occurs together and how often each bin occurs in either row.
pub fn frequency_table(x_bins: &Vec<usize>, y_bins: &Vec<usize>) -> (r: FrequencyTable)
    requires
        x_bins@.len() == y_bins@.len(),
        forall|k: int| 0 <= k < x_bins@.len() ==> #[trigger] x_bins@[k] < BINS,
        forall|k: int| 0 <= k < y_bins@.len() ==> #[trigger] y_bins@[k] < BINS,
    ensures
        r.counts_of(as_ints(x_bins@), as_ints(y_bins@)),
{
    let ghost xs = as_ints(x_bins@);
    let ghost ys = as_ints(y_bins@);
    let n = x_bins.len();
    let mut joint: Vec<usize> = Vec::new();
    let mut c: usize = 0;
    while c < BINS * BINS
        invariant
            c <= BINS * BINS,
            joint@.len() == c,
            forall|m: int| 0 <= m < c ==> #[trigger] joint@[m] == 0,
        decreases BINS * BINS - c,
    {
        joint.push(0);
        c = c + 1;
    }
    let mut x_counts: Vec<usize> = Vec::new();
    let mut y_counts: Vec<usize> = Vec::new();
    let mut c: usize = 0;
    while c < BINS
        invariant
            c <= BINS,
            x_counts@.len() == c,
            y_counts@.len() == c,
            forall|m: int| 0 <= m < c ==> #[trigger] x_counts@[m] == 0,
            forall|m: int| 0 <= m < c ==> #[trigger] y_counts@[m] == 0,
        decreases BINS - c,
    {
        x_counts.push(0);
        y_counts.push(0);
        c = c + 1;
    }
    let mut k: usize = 0;
    while k < n
        invariant
            k <= n,
            n == x_bins@.len(),
            n == y_bins@.len(),
            xs == as_ints(x_bins@),
            ys == as_ints(y_bins@),
            forall|m: int| 0 <= m < n ==> #[trigger] x_bins@[m] < BINS,
            forall|m: int| 0 <= m < n ==> #[trigger] y_bins@[m] < BINS,
            joint@.len() == BINS * BINS,
            x_counts@.len() == BINS,
            y_counts@.len() == BINS,
            forall|m: int|
                0 <= m < BINS * BINS ==> #[trigger] joint@[m] == pair_count(
                    xs,
                    ys,
                    k as int,
                    m / BINS as int,
                    m % BINS as int,
                ),
            forall|a: int| 0 <= a < BINS ==> #[trigger] x_counts@[a] == bin_count(xs, k as int, a),
            forall|b: int| 0 <= b < BINS ==> #[trigger] y_counts@[b] == bin_count(ys, k as int, b),
        decreases n - k,
    {
        let a = x_bins[k];
        let b = y_bins[k];
        let idx = a * BINS + b;
        proof {
            lemma_pair_count_bound(xs, ys, k as int, a as int, b as int);
            lemma_bin_count_bound(xs, k as int, a as int);
            lemma_bin_count_bound(ys, k as int, b as int);
            assert(idx / BINS == a && idx % BINS == b);
            assert(joint@[idx as int] == pair_count(xs, ys, k as int, a as int, b as int));
        }
        let jv = joint[idx];
        joint.set(idx, jv + 1);
        let xv = x_counts[a];
        x_counts.set(a, xv + 1);
        let yv = y_counts[b];
        y_counts.set(b, yv + 1);
        proof {
            assert forall|m: int| 0 <= m < BINS * BINS implies #[trigger] joint@[m] == pair_count(
                xs,
                ys,
                k + 1,
                m / BINS as int,
                m % BINS as int,
            ) by {
                if m != idx {
                    assert(m == (m / BINS as int) * BINS + m % BINS as int);
                }
            }
        }
        k = k + 1;
    }
    FrequencyTable { samples: n, joint, x_counts, y_counts }
}

/// The frequency table of two equally long rows of samples: each row is
/// binned against its own quantile cuts, then the bins are counted jointly
/// and one row at a time. Rows without samples give a table of zeros.
pub fn joint_frequencies(x: &[u64], y: &[u64]) -> (r: FrequencyTable)
    requires
        x@.len() == y@.len(),
        x@.len() <= usize::MAX / BINS,
    ensures
        r.counts_of(row_bins(x@, BINS as int), row_bins(y@, BINS as int)),
{
    let xb = discretize_row(x, BINS);
    let yb = discretize_row(y, BINS);
    assert(as_ints(xb@).len() == xb@.len() && as_ints(yb@).len() == yb@.len());
    frequency_table(&xb, &yb)
}

} // verus!
