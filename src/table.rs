use vstd::prelude::*;
use crate::pairs::{gene_pair_seq, lemma_pairs_upto, lists_pair};

verus! {

/// The score that cell `(i, j)` of the table holds after the first `k`
/// results were merged: each result `((a, b), s)` writes `s` into `(a, b)`
/// and into `(b, a)`, so the last result for either order wins; `None` if no
/// result touched the cell.
pub open spec fn merged_score<T>(results: Seq<((usize, usize), T)>, k: int, i: int, j: int) -> Option<T>
    decreases k,
{
    if k <= 0 {
        None
    } else {
        let e = results[k - 1];
        if (e.0.0 == i && e.0.1 == j) || (e.0.0 == j && e.0.1 == i) {
            Some(e.1)
        } else {
            merged_score(results, k - 1, i, j)
        }
    }
}

/// The merged table is symmetric: cells `(i, j)` and `(j, i)` always hold
/// the same score, whatever the results and the order they come in.
pub proof fn lemma_merged_symmetric<T>(results: Seq<((usize, usize), T)>, k: int, i: int, j: int)
    ensures
        merged_score(results, k, i, j) == merged_score(results, k, j, i),
    decreases k,
{
    if k > 0 {
        lemma_merged_symmetric(results, k - 1, i, j);
    }
}

proof fn lemma_merged_unique<T>(results: Seq<((usize, usize), T)>, k: int, i: int, j: int, w: int)
    requires
        0 <= w < k <= results.len(),
        results[w].0 == (i as usize, j as usize),
        0 <= i <= usize::MAX,
        0 <= j <= usize::MAX,
        forall|m: int|
            0 <= m < k && m != w ==> {
                let e = #[trigger] results[m];
                !((e.0.0 == i && e.0.1 == j) || (e.0.0 == j && e.0.1 == i))
            },
    ensures
        merged_score(results, k, i, j) == Some(results[w].1),
    decreases k,
{
    if k - 1 > w {
        let e = results[k - 1];
        lemma_merged_unique(results, k - 1, i, j, w);
    }
}

/// Merging one result per unordered pair of `0..n`, keyed as `gene_pairs`
/// lists them, fills every cell: cell `(i, j)` holds the result of the pair
/// `(min(i, j), max(i, j))`, and the diagonal cell `(i, i)` the result of
/// the pair of row `i` with itself.
pub proof fn lemma_merged_complete<T>(results: Seq<((usize, usize), T)>, n: int, i: int, j: int)
    requires
        0 <= n <= usize::MAX,
        results.len() == gene_pair_seq(n).len(),
        forall|k: int| 0 <= k < results.len() ==> #[trigger] results[k].0 == gene_pair_seq(n)[k],
        0 <= i < n,
        0 <= j < n,
    ensures
        exists|w: int|
            0 <= w < results.len() && #[trigger] results[w].0 == (
                if i <= j {
                    i
                } else {
                    j
                } as usize,
                if i <= j {
                    j
                } else {
                    i
                } as usize,
            ) && merged_score(results, results.len() as int, i, j) == Some(results[w].1),
{
    let lo = if i <= j {
        i
    } else {
        j
    };
    let hi = if i <= j {
        j
    } else {
        i
    };
    let s = gene_pair_seq(n);
    lemma_pairs_upto(n, n);
    assert(lists_pair(s, lo, hi));
    let w = choose|k: int| 0 <= k < s.len() && #[trigger] s[k] == (lo as usize, hi as usize);
    assert(results[w].0 == s[w]);
    assert forall|m: int| 0 <= m < results.len() && m != w implies {
        let e = #[trigger] results[m];
        !((e.0.0 == lo && e.0.1 == hi) || (e.0.0 == hi && e.0.1 == lo))
    } by {
        assert(results[m].0 == s[m]);
        if m < w {
            assert(s[m] != s[w]);
        } else {
            assert(s[w] != s[m]);
        }
    }
    lemma_merged_unique(results, results.len() as int, lo, hi, w);
    lemma_merged_symmetric(results, results.len() as int, lo, hi);
}

proof fn lemma_cell_in_range(a: int, b: int, n: int)
    requires
        0 <= a < n,
        0 <= b < n,
    ensures
        0 <= a * n + b < n * n,
{
    assert(0 <= a * n + b < n * n) by (nonlinear_arith)
        requires
            0 <= a < n,
            0 <= b < n,
    ;
}

/// Merges per-pair results into an `n` by `n` table: each result
/// `((i, j), s)` is written into cell `(i, j)` and into cell `(j, i)`, in
/// the order the results come.
pub fn assemble_symmetric<T: Copy>(n: usize, results: &Vec<((usize, usize), T)>) -> (r: Vec<
    Vec<Option<T>>,
>)
    requires
        n * n <= usize::MAX,
        forall|k: int|
            0 <= k < results@.len() ==> #[trigger] results@[k].0.0 < n && results@[k].0.1 < n,
    ensures
        r@.len() == n,
        forall|i: int| 0 <= i < n ==> (#[trigger] r@[i])@.len() == n,
        forall|i: int, j: int|
            0 <= i < n && 0 <= j < n ==> #[trigger] r@[i]@[j] == merged_score(
                results@,
                results@.len() as int,
                i,
                j,
            ),
{
    let mut flat: Vec<Option<T>> = Vec::new();
    let mut c: usize = 0;
    while c < n * n
        invariant
            n * n <= usize::MAX,
            forall|m: int|
                0 <= m < results@.len() ==> #[trigger] results@[m].0.0 < n && results@[m].0.1 < n,
            c <= n * n,
            flat@.len() == c,
            forall|m: int| 0 <= m < c ==> #[trigger] flat@[m] == None::<T>,
        decreases n * n - c,
    {
        flat.push(None);
        c = c + 1;
    }
    assert forall|i: int, j: int| 0 <= i < n && 0 <= j < n implies #[trigger] flat@[i * n + j]
        == merged_score(results@, 0, i, j) by {
        lemma_cell_in_range(i, j, n as int);
    }
    let mut k: usize = 0;
    while k < results.len()
        invariant
            k <= results@.len(),
            n * n <= usize::MAX,
            flat@.len() == n * n,
            forall|m: int|
                0 <= m < results@.len() ==> #[trigger] results@[m].0.0 < n && results@[m].0.1 < n,
            forall|i: int, j: int|
                0 <= i < n && 0 <= j < n ==> #[trigger] flat@[i * n + j] == merged_score(
                    results@,
                    k as int,
                    i,
                    j,
                ),
        decreases results@.len() - k,
    {
        let ((i, j), s) = results[k];
        proof {
            assert(i * n + j < n * n) by (nonlinear_arith)
                requires
                    i < n,
                    j < n,
            ;
            assert(j * n + i < n * n) by (nonlinear_arith)
                requires
                    i < n,
                    j < n,
            ;
        }
        let ghost before = flat@;
        flat.set(i * n + j, Some(s));
        flat.set(j * n + i, Some(s));
        proof {
            assert forall|a: int, b: int| 0 <= a < n && 0 <= b < n implies #[trigger] flat@[a * n
                + b] == merged_score(results@, k + 1, a, b) by {
                if (a == i && b == j) || (a == j && b == i) {
                } else {
                    assert(a * n + b != i * n + j && a * n + b != j * n + i) by (nonlinear_arith)
                        requires
                            0 <= a < n,
                            0 <= b < n,
                            i < n,
                            j < n,
                            !((a == i && b == j) || (a == j && b == i)),
                    ;
                    lemma_cell_in_range(a, b, n as int);
                    assert(flat@[a * n + b] == before[a * n + b]);
                }
            }
        }
        k = k + 1;
    }
    let mut table: Vec<Vec<Option<T>>> = Vec::new();
    let mut i: usize = 0;
    while i < n
        invariant
            i <= n,
            n * n <= usize::MAX,
            flat@.len() == n * n,
            table@.len() == i,
            forall|a: int| 0 <= a < i ==> (#[trigger] table@[a])@.len() == n,
            forall|a: int, b: int|
                0 <= a < i && 0 <= b < n ==> #[trigger] table@[a]@[b] == flat@[a * n + b],
        decreases n - i,
    {
        let mut row: Vec<Option<T>> = Vec::new();
        let mut j: usize = 0;
        while j < n
            invariant
                i < n,
                j <= n,
                n * n <= usize::MAX,
                flat@.len() == n * n,
                row@.len() == j,
                forall|b: int| 0 <= b < j ==> #[trigger] row@[b] == flat@[i * n + b],
            decreases n - j,
        {
            proof {
                assert(i * n + j < n * n) by (nonlinear_arith)
                    requires
                        i < n,
                        j < n,
                ;
            }
            row.push(flat[i * n + j]);
            j = j + 1;
        }
        table.push(row);
        i = i + 1;
    }
    table
}

} // verus!
