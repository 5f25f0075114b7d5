use vstd::prelude::*;

verus! {

/// The pairs `(i, j)` with `i <= j < n` whose first index is `i`, by increasing `j`.
pub open spec fn pairs_row(i: int, n: int) -> Seq<(usize, usize)> {
    Seq::new((n - i) as nat, |k: int| (i as usize, (i + k) as usize))
}

/// The pairs `(a, j)` with `a < i` and `a <= j < n`, in lexicographic order.
pub open spec fn pairs_upto(i: int, n: int) -> Seq<(usize, usize)>
    decreases i,
{
    if i <= 0 {
        seq![]
    } else {
        pairs_upto(i - 1, n) + pairs_row(i - 1, n)
    }
}

/// Every unordered pair of the rows `0..n`, the diagonal included, each once,
/// written `(i, j)` with `i <= j`, in lexicographic order.
pub open spec fn gene_pair_seq(n: int) -> Seq<(usize, usize)> {
    pairs_upto(n, n)
}

/// The pair `(a, b)` stands somewhere in `s`.
pub open spec fn lists_pair(s: Seq<(usize, usize)>, a: int, b: int) -> bool {
    exists|k: int| 0 <= k < s.len() && #[trigger] s[k] == (a as usize, b as usize)
}

/// What `pairs_upto(i, n)` holds: pairs `(a, b)` with `a < i` and
/// `a <= b < n`, each of them exactly once.
pub proof fn lemma_pairs_upto(i: int, n: int)
    requires
        0 <= i <= n <= usize::MAX,
    ensures
        forall|k: int|
            0 <= k < pairs_upto(i, n).len() ==> {
                let p = #[trigger] pairs_upto(i, n)[k];
                p.0 < i && p.0 <= p.1 < n
            },
        forall|k1: int, k2: int|
            0 <= k1 < k2 < pairs_upto(i, n).len() ==> #[trigger] pairs_upto(i, n)[k1]
                != #[trigger] pairs_upto(i, n)[k2],
        forall|a: int, b: int|
            0 <= a < i && a <= b < n ==> #[trigger] lists_pair(pairs_upto(i, n), a, b),
    decreases i,
{
    if i > 0 {
        lemma_pairs_upto(i - 1, n);
        let prev = pairs_upto(i - 1, n);
        let row = pairs_row(i - 1, n);
        let cur = pairs_upto(i, n);
        assert(cur == prev + row);
        assert forall|k: int| 0 <= k < cur.len() implies {
            let p = #[trigger] cur[k];
            p.0 < i && p.0 <= p.1 < n
        } by {
            if k >= prev.len() {
                assert(cur[k] == row[k - prev.len()]);
            } else {
                assert(cur[k] == prev[k]);
            }
        }
        assert forall|k1: int, k2: int| 0 <= k1 < k2 < cur.len() implies #[trigger] cur[k1]
            != #[trigger] cur[k2] by {
            if k2 < prev.len() {
                assert(cur[k1] == prev[k1] && cur[k2] == prev[k2]);
            } else if k1 < prev.len() {
                assert(cur[k1] == prev[k1] && cur[k2] == row[k2 - prev.len()]);
            } else {
                assert(cur[k1] == row[k1 - prev.len()] && cur[k2] == row[k2 - prev.len()]);
            }
        }
        assert forall|a: int, b: int| 0 <= a < i && a <= b < n implies #[trigger] lists_pair(
            cur,
            a,
            b,
        ) by {
            if a < i - 1 {
                assert(lists_pair(prev, a, b));
                let k0 = choose|k: int|
                    0 <= k < prev.len() && #[trigger] prev[k] == (a as usize, b as usize);
                assert(cur[k0] == prev[k0]);
            } else {
                let k0 = prev.len() + (b - a);
                assert(cur[k0] == row[b - a]);
            }
        }
    }
}

/// Lists every unordered pair of the rows `0..n`, the diagonal included,
/// as `(i, j)` with `i <= j`, in lexicographic order.
pub fn gene_pairs(n: usize) -> (r: Vec<(usize, usize)>)
    ensures
        r@ == gene_pair_seq(n as int),
{
    let mut out: Vec<(usize, usize)> = Vec::new();
    let mut i: usize = 0;
    while i < n
        invariant
            i <= n,
            out@ == pairs_upto(i as int, n as int),
        decreases n - i,
    {
        let mut j: usize = i;
        while j < n
            invariant
                i <= j <= n,
                i < n,
                out@ == pairs_upto(i as int, n as int) + pairs_row(i as int, n as int).subrange(
                    0,
                    j - i,
                ),
            decreases n - j,
        {
            out.push((i, j));
            proof {
                assert(pairs_row(i as int, n as int).subrange(0, j - i + 1) =~= pairs_row(
                    i as int,
                    n as int,
                ).subrange(0, j - i).push((i, j)));
            }
            j = j + 1;
        }
        assert(pairs_row(i as int, n as int).subrange(0, n - i) =~= pairs_row(i as int, n as int));
        assert(pairs_upto(i + 1, n as int) == pairs_upto(i as int, n as int) + pairs_row(
            i as int,
            n as int,
        ));
        i = i + 1;
    }
    out
}

} // verus!
