use vstd::prelude::*;
use crate::discretize::{as_ints, discretize_row, row_bins, BINS};
use crate::error::{dimension_error, validate_dimensions, MutualInfoError};
use crate::frequency::{frequency_table, FrequencyTable};
use crate::pairs::{gene_pair_seq, gene_pairs, lemma_pairs_upto, lists_pair};

verus! {

/// Every row holds `n_cols` samples.
pub open spec fn dense(rows: Seq<Vec<u64>>, n_cols: nat) -> bool {
    forall|i: int| 0 <= i < rows.len() ==> (#[trigger] rows[i])@.len() == n_cols
}

/// The bins of row `i` of the matrix.
pub open spec fn binned_row(rows: Seq<Vec<u64>>, i: int) -> Seq<int> {
    row_bins(rows[i]@, BINS as int)
}

/// `v` holds one entry per unordered pair of rows, in the order of
/// `gene_pairs`, each with the frequency table of its two binned rows.
pub open spec fn pair_tables_of(rows: Seq<Vec<u64>>, v: Seq<((usize, usize), FrequencyTable)>) -> bool {
    &&& v.len() == gene_pair_seq(rows.len() as int).len()
    &&& forall|k: int|
        0 <= k < v.len() ==> (#[trigger] v[k]).0 == gene_pair_seq(rows.len() as int)[k]
            && v[k].1.counts_of(
            binned_row(rows, v[k].0.0 as int),
            binned_row(rows, v[k].0.1 as int),
        )
}

/// What the all-pairs computation returns for a matrix of `rows` with
/// `n_cols` columns and `gene_count` labels.
pub open spec fn all_pairs_result(
    rows: Seq<Vec<u64>>,
    n_cols: nat,
    gene_count: nat,
    r: Result<Vec<((usize, usize), FrequencyTable)>, MutualInfoError>,
) -> bool {
    match dimension_error(rows.len(), n_cols, gene_count) {
        Some(e) => r == Err::<Vec<((usize, usize), FrequencyTable)>, MutualInfoError>(e),
        None => r is Ok && pair_tables_of(rows, r->Ok_0@),
    }
}

/// Bins every row of the matrix against its own quantile cuts.
pub fn discretize_rows(rows: &Vec<Vec<u64>>) -> (r: Vec<Vec<usize>>)
    requires
        forall|i: int| 0 <= i < rows@.len() ==> (#[trigger] rows@[i])@.len() <= usize::MAX / BINS,
    ensures
        r@.len() == rows@.len(),
        forall|i: int| 0 <= i < r@.len() ==> as_ints((#[trigger] r@[i])@) == binned_row(rows@, i),
        forall|i: int, k: int|
            0 <= i < r@.len() && 0 <= k < r@[i]@.len() ==> #[trigger] r@[i]@[k] < BINS,
{
    let mut out: Vec<Vec<usize>> = Vec::new();
    let mut i: usize = 0;
    while i < rows.len()
        invariant
            i <= rows@.len(),
            forall|m: int| 0 <= m < rows@.len() ==> (#[trigger] rows@[m])@.len() <= usize::MAX / BINS,
            out@.len() == i,
            forall|m: int| 0 <= m < i ==> as_ints((#[trigger] out@[m])@) == binned_row(rows@, m),
            forall|m: int, k: int|
                0 <= m < i && 0 <= k < out@[m]@.len() ==> #[trigger] out@[m]@[k] < BINS,
        decreases rows@.len() - i,
    {
        let row = rows[i].as_slice();
        assert(BINS * row@.len() <= usize::MAX);
        let b = discretize_row(row, BINS);
        out.push(b);
        i = i + 1;
    }
    out
}

/// The frequency table of binned rows `i` and `j`: the work of one pair.
pub fn pair_frequencies(binned: &Vec<Vec<usize>>, i: usize, j: usize) -> (r: FrequencyTable)
    requires
        i < binned@.len(),
        j < binned@.len(),
        binned@[i as int]@.len() == binned@[j as int]@.len(),
        forall|k: int| 0 <= k < binned@[i as int]@.len() ==> #[trigger] binned@[i as int]@[k] < BINS,
        forall|k: int| 0 <= k < binned@[j as int]@.len() ==> #[trigger] binned@[j as int]@[k] < BINS,
    ensures
        r.counts_of(as_ints(binned@[i as int]@), as_ints(binned@[j as int]@)),
{
    frequency_table(&binned[i], &binned[j])
}

/// Checks the input's shape, then evaluates every unordered pair of rows,
/// the diagonal included, in the order of `gene_pairs`, one frequency table
/// per pair; an empty matrix or a label count that differs from the row
/// count is refused before any pair is evaluated.
pub fn compute_pair_frequencies(rows: &Vec<Vec<u64>>, n_cols: usize, gene_count: usize) -> (r:
    Result<Vec<((usize, usize), FrequencyTable)>, MutualInfoError>)
    requires
        dense(rows@, n_cols as nat),
        n_cols <= usize::MAX / BINS,
    ensures
        all_pairs_result(rows@, n_cols as nat, gene_count as nat, r),
{
    match validate_dimensions(rows.len(), n_cols, gene_count) {
        Err(e) => {
            return Err(e);
        },
        Ok(()) => {},
    }
    let binned = discretize_rows(rows);
    let pairs = gene_pairs(rows.len());
    proof {
        lemma_pairs_upto(rows@.len() as int, rows@.len() as int);
    }
    let mut out: Vec<((usize, usize), FrequencyTable)> = Vec::new();
    let mut k: usize = 0;
    while k < pairs.len()
        invariant
            k <= pairs@.len(),
            pairs@ == gene_pair_seq(rows@.len() as int),
            forall|m: int|
                0 <= m < pairs@.len() ==> {
                    let p = #[trigger] pairs@[m];
                    p.0 < rows@.len() && p.0 <= p.1 < rows@.len()
                },
            dense(rows@, n_cols as nat),
            binned@.len() == rows@.len(),
            forall|i: int| 0 <= i < binned@.len() ==> as_ints((#[trigger] binned@[i])@) == binned_row(rows@, i),
            forall|i: int, c: int|
                0 <= i < binned@.len() && 0 <= c < binned@[i]@.len() ==> #[trigger] binned@[i]@[c] < BINS,
            out@.len() == k,
            forall|m: int|
                0 <= m < k ==> (#[trigger] out@[m]).0 == pairs@[m] && out@[m].1.counts_of(
                    binned_row(rows@, out@[m].0.0 as int),
                    binned_row(rows@, out@[m].0.1 as int),
                ),
        decreases pairs@.len() - k,
    {
        let (i, j) = pairs[k];
        proof {
            assert(as_ints(binned@[i as int]@).len() == rows@[i as int]@.len());
            assert(as_ints(binned@[j as int]@).len() == rows@[j as int]@.len());
        }
        let t = pair_frequencies(&binned, i, j);
        out.push(((i, j), t));
        k = k + 1;
    }
    Ok(out)
}

/// Every row's self-information is computed: for each row `i` the result
/// holds an entry for the pair `(i, i)`, whose table counts row `i` against
/// itself.
pub proof fn lemma_self_entry_present(rows: Seq<Vec<u64>>, v: Seq<((usize, usize), FrequencyTable)>, i: int)
    requires
        rows.len() <= usize::MAX,
        pair_tables_of(rows, v),
        0 <= i < rows.len(),
    ensures
        exists|w: int|
            0 <= w < v.len() && (#[trigger] v[w]).0 == (i as usize, i as usize) && v[w].1.counts_of(
                binned_row(rows, i),
                binned_row(rows, i),
            ),
{
    let s = gene_pair_seq(rows.len() as int);
    lemma_pairs_upto(rows.len() as int, rows.len() as int);
    assert(lists_pair(s, i, i));
    let w = choose|k: int| 0 <= k < s.len() && #[trigger] s[k] == (i as usize, i as usize);
    assert(v[w].0 == s[w]);
}

proof fn lemma_counts_determine_table(t1: FrequencyTable, t2: FrequencyTable, xs: Seq<int>, ys: Seq<int>)
    requires
        t1.counts_of(xs, ys),
        t2.counts_of(xs, ys),
    ensures
        t1.samples == t2.samples,
        t1.joint@ == t2.joint@,
        t1.x_counts@ == t2.x_counts@,
        t1.y_counts@ == t2.y_counts@,
{
    assert(t1.joint@ =~= t2.joint@);
    assert(t1.x_counts@ =~= t2.x_counts@);
    assert(t1.y_counts@ =~= t2.y_counts@);
}

/// The all-pairs result is determined by the input alone: any two results
/// for the same matrix and label count, however their pairs were scheduled,
/// agree on the error or on every pair and every count.
pub proof fn lemma_all_pairs_deterministic(
    rows: Seq<Vec<u64>>,
    n_cols: nat,
    gene_count: nat,
    r1: Result<Vec<((usize, usize), FrequencyTable)>, MutualInfoError>,
    r2: Result<Vec<((usize, usize), FrequencyTable)>, MutualInfoError>,
)
    requires
        all_pairs_result(rows, n_cols, gene_count, r1),
        all_pairs_result(rows, n_cols, gene_count, r2),
    ensures
        r1 is Ok <==> r2 is Ok,
        r1 is Err ==> r1 == r2,
        r1 is Ok ==> {
            let v1 = r1->Ok_0@;
            let v2 = r2->Ok_0@;
            &&& v1.len() == v2.len()
            &&& forall|k: int|
                0 <= k < v1.len() ==> (#[trigger] v1[k]).0 == v2[k].0 && v1[k].1.samples
                    == v2[k].1.samples && v1[k].1.joint@ == v2[k].1.joint@ && v1[k].1.x_counts@
                    == v2[k].1.x_counts@ && v1[k].1.y_counts@ == v2[k].1.y_counts@
        },
{
    if r1 is Ok {
        let v1 = r1->Ok_0@;
        let v2 = r2->Ok_0@;
        assert forall|k: int| 0 <= k < v1.len() implies (#[trigger] v1[k]).0 == v2[k].0
            && v1[k].1.samples == v2[k].1.samples && v1[k].1.joint@ == v2[k].1.joint@
            && v1[k].1.x_counts@ == v2[k].1.x_counts@ && v1[k].1.y_counts@ == v2[k].1.y_counts@ by {
            lemma_counts_determine_table(
                v1[k].1,
                v2[k].1,
                binned_row(rows, v1[k].0.0 as int),
                binned_row(rows, v1[k].0.1 as int),
            );
        }
    }
}

} // verus!
