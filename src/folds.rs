//! The k-fold partition of `n` samples: fold `f` validates on a contiguous
//! range of samples, the first `n % k` folds holding one sample more.
use vstd::prelude::*;

verus! {

/// First sample of fold `f`'s validation range.
pub open spec fn fold_start(n: int, k: int, f: int) -> int {
    let q = n / k;
    let r = n % k;
    if f < r {
        f * (q + 1)
    } else {
        f * q + r
    }
}

/// Number of validation samples of fold `f`.
pub open spec fn fold_len(n: int, k: int, f: int) -> int {
    if f < n % k {
        n / k + 1
    } else {
        n / k
    }
}

/// One past the last sample of fold `f`'s validation range.
pub open spec fn fold_end(n: int, k: int, f: int) -> int {
    fold_start(n, k, f) + fold_len(n, k, f)
}

/// Sample `s` is in fold `f`'s validation range.
pub open spec fn in_fold(n: int, k: int, f: int, s: int) -> bool {
    fold_start(n, k, f) <= s < fold_end(n, k, f)
}

proof fn lemma_fold_shape(n: int, k: int, f: int)
    requires
        0 <= n,
        0 < k,
        0 <= f < k,
    ensures
        0 <= fold_start(n, k, f) <= fold_end(n, k, f) <= n,
        f == 0 ==> fold_start(n, k, f) == 0,
        f == k - 1 ==> fold_end(n, k, f) == n,
        f + 1 < k ==> fold_end(n, k, f) == fold_start(n, k, f + 1),
{
    let q = n / k;
    let r = n % k;
    assert(n == k * q + r && 0 <= r < k && 0 <= q) by (nonlinear_arith)
        requires 0 <= n, 0 < k, q == n / k, r == n % k;
    if f < r {
        assert(0 <= f * (q + 1) && (f + 1) * (q + 1) <= k * q + r) by (nonlinear_arith)
            requires 0 <= f < r, r < k, 0 <= q;
        assert((f + 1) * (q + 1) == f * (q + 1) + q + 1) by (nonlinear_arith);
        if f + 1 < r {
        } else if f + 1 < k {
            assert((f + 1) * q + r == (f + 1) * (q + 1)) by (nonlinear_arith)
                requires f + 1 == r;
        }
    } else {
        assert(0 <= f * q && (f + 1) * q <= k * q) by (nonlinear_arith)
            requires 0 <= r <= f < k, 0 <= q;
        assert((f + 1) * q == f * q + q) by (nonlinear_arith);
        if f == k - 1 {
            assert((f + 1) * q == k * q) by (nonlinear_arith) requires f == k - 1;
        }
    }
}

proof fn lemma_fold_order(n: int, k: int, f1: int, f2: int)
    requires
        0 <= n,
        0 < k,
        0 <= f1 < f2 < k,
    ensures
        fold_end(n, k, f1) <= fold_start(n, k, f2),
    decreases f2 - f1,
{
    lemma_fold_shape(n, k, f1);
    if f1 + 1 < f2 {
        lemma_fold_shape(n, k, f1 + 1);
        lemma_fold_order(n, k, f1 + 1, f2);
    }
}

/// Sample `s` is in the validation range of one of the folds `0..k`.
pub open spec fn in_some_fold(n: int, k: int, s: int) -> bool {
    exists|f: int| 0 <= f < k && #[trigger] in_fold(n, k, f, s)
}

spec fn covered_by_first(n: int, k: int, f: int, s: int) -> bool {
    exists|g: int| 0 <= g <= f && #[trigger] in_fold(n, k, g, s)
}

proof fn lemma_prefix_covered(n: int, k: int, f: int)
    requires
        0 <= n,
        0 < k,
        0 <= f < k,
    ensures
        forall|s: int| 0 <= s < fold_end(n, k, f) ==> #[trigger] covered_by_first(n, k, f, s),
    decreases f,
{
    lemma_fold_shape(n, k, f);
    if f > 0 {
        lemma_fold_shape(n, k, f - 1);
        lemma_prefix_covered(n, k, f - 1);
        assert forall|s: int| 0 <= s < fold_end(n, k, f) implies #[trigger] covered_by_first(n, k, f, s) by {
            if s >= fold_start(n, k, f) {
                assert(in_fold(n, k, f, s));
            } else {
                assert(covered_by_first(n, k, f - 1, s));
                let g = choose|g: int| 0 <= g <= f - 1 && #[trigger] in_fold(n, k, g, s);
                assert(in_fold(n, k, g, s));
            }
        }
    } else {
        assert forall|s: int| 0 <= s < fold_end(n, k, f) implies #[trigger] covered_by_first(n, k, f, s) by {
            assert(in_fold(n, k, 0, s));
        }
    }
}

/// The validation ranges of folds `0..k` partition the samples `0..n`: each
/// lies within `0..n`, two different folds share no sample, every sample is
/// in some fold, and the first `n % k` folds hold `n / k + 1` samples, the
/// others `n / k`.
pub proof fn lemma_folds_partition(n: int, k: int)
    requires
        0 <= n,
        0 < k,
    ensures
        forall|f: int| 0 <= f < k ==> 0 <= #[trigger] fold_start(n, k, f) <= fold_end(n, k, f) <= n,
        forall|f1: int, f2: int, s: int|
            0 <= f1 < k && 0 <= f2 < k && #[trigger] in_fold(n, k, f1, s) && #[trigger] in_fold(n, k, f2, s)
            ==> f1 == f2,
        forall|s: int| 0 <= s < n ==> #[trigger] in_some_fold(n, k, s),
        forall|f: int| 0 <= f < k ==> #[trigger] fold_len(n, k, f) == n / k + (if f < n % k { 1int } else { 0 }),
{
    assert forall|f: int| 0 <= f < k implies 0 <= #[trigger] fold_start(n, k, f) <= fold_end(n, k, f) <= n by {
        lemma_fold_shape(n, k, f);
    }
    assert forall|f1: int, f2: int, s: int|
        0 <= f1 < k && 0 <= f2 < k && #[trigger] in_fold(n, k, f1, s) && #[trigger] in_fold(n, k, f2, s)
        implies f1 == f2 by {
        if f1 < f2 {
            lemma_fold_order(n, k, f1, f2);
        } else if f2 < f1 {
            lemma_fold_order(n, k, f2, f1);
        }
    }
    lemma_prefix_covered(n, k, k - 1);
    lemma_fold_shape(n, k, k - 1);
    assert forall|s: int| 0 <= s < n implies #[trigger] in_some_fold(n, k, s) by {
        assert(covered_by_first(n, k, k - 1, s));
        let g = choose|g: int| 0 <= g <= k - 1 && #[trigger] in_fold(n, k, g, s);
        assert(in_fold(n, k, g, s));
    }
}

/// The validation slices of `s` for the folds `0..f`, concatenated in fold
/// order, where the folds split the `s.len()` samples into `k`.
pub open spec fn fold_slices<A>(s: Seq<A>, k: int, f: int) -> Seq<A>
    decreases f,
{
    if f <= 0 {
        Seq::empty()
    } else {
        fold_slices(s, k, f - 1) + s.subrange(
            fold_start(s.len() as int, k, f - 1),
            fold_end(s.len() as int, k, f - 1),
        )
    }
}

proof fn lemma_fold_slices_prefix<A>(s: Seq<A>, k: int, f: int)
    requires
        0 < k,
        0 <= f < k,
    ensures
        fold_slices(s, k, f + 1) == s.subrange(0, fold_end(s.len() as int, k, f)),
    decreases f,
{
    let n = s.len() as int;
    lemma_fold_shape(n, k, f);
    if f == 0 {
        assert(fold_slices(s, k, 0) =~= Seq::<A>::empty());
        assert(fold_slices(s, k, 1) =~= s.subrange(0, fold_end(n, k, 0)));
    } else {
        lemma_fold_shape(n, k, f - 1);
        lemma_fold_slices_prefix(s, k, f - 1);
        assert(s.subrange(0, fold_end(n, k, f - 1)) + s.subrange(fold_start(n, k, f), fold_end(n, k, f))
            =~= s.subrange(0, fold_end(n, k, f)));
    }
}

/// Concatenated in fold order, the validation slices of folds `0..k` give
/// back the whole sequence: every sample is validated once, in its place.
pub proof fn lemma_fold_slices_cover<A>(s: Seq<A>, k: int)
    requires
        0 < k,
    ensures
        fold_slices(s, k, k) == s,
{
    lemma_fold_slices_prefix(s, k, k - 1);
    lemma_fold_shape(s.len() as int, k, k - 1);
    assert(s.subrange(0, s.len() as int) =~= s);
}

/// Bounds `(start, end)` of fold `fold`'s validation range out of `k_folds`
/// over `num_samples` samples.
pub fn fold_bounds(num_samples: usize, k_folds: usize, fold: usize) -> (r: (usize, usize))
    requires
        0 < k_folds,
        fold < k_folds,
    ensures
        r.0 as int == fold_start(num_samples as int, k_folds as int, fold as int),
        r.1 as int == fold_end(num_samples as int, k_folds as int, fold as int),
        r.0 <= r.1 <= num_samples,
{
    proof {
        lemma_fold_shape(num_samples as int, k_folds as int, fold as int);
    }
    let fold_size = num_samples / k_folds;
    let remainder = num_samples % k_folds;
    if fold < remainder {
        let start = fold * (fold_size + 1);
        (start, start + fold_size + 1)
    } else {
        let start = fold * fold_size + remainder;
        (start, start + fold_size)
    }
}

} // verus!
