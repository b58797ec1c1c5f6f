//! A numeric dataset as a row-major table of samples with one target value
//! each, generic over the cell type. It answers the queries of the search:
//! dimensions, column selection by a feature mask, and the split of one fold.
use vstd::prelude::*;
use crate::folds::{fold_bounds, fold_start, fold_end};
use crate::model::ConfigError;

verus! {

/// Whether a dataset of `size_bytes` bytes fits in memory of which
/// `available_kb` kibibytes are available and `free_kb` free: more kibibytes
/// are available and free together than the dataset's whole kibibytes.
pub fn fits_in_memory(size_bytes: usize, available_kb: u64, free_kb: u64) -> (r: bool)
    ensures
        r == (available_kb + free_kb > size_bytes as int / 1024),
{
    let size_kb = (size_bytes / 1024) as u128;
    available_kb as u128 + free_kb as u128 > size_kb
}

/// Indices of the `true` entries of `mask`, in increasing order.
pub open spec fn selected(mask: Seq<bool>) -> Seq<int>
    decreases mask.len(),
{
    if mask.len() == 0 {
        Seq::empty()
    } else if mask.last() {
        selected(mask.drop_last()).push(mask.len() - 1)
    } else {
        selected(mask.drop_last())
    }
}

/// Row `row` of a row-major table of `ncols` columns, restricted to the
/// columns `cols`.
pub open spec fn row_cells<T>(data: Seq<T>, ncols: int, cols: Seq<int>, row: int) -> Seq<T> {
    Seq::new(cols.len(), |j: int| data[row * ncols + cols[j]])
}

/// The first `rows` rows of a row-major table of `ncols` columns, restricted to
/// the columns `cols` and laid out row-major again.
pub open spec fn selected_rows<T>(data: Seq<T>, ncols: int, cols: Seq<int>, rows: int) -> Seq<T>
    decreases rows,
{
    if rows <= 0 {
        Seq::empty()
    } else {
        selected_rows(data, ncols, cols, rows - 1) + row_cells(data, ncols, cols, rows - 1)
    }
}

/// The selected indices of a mask lie within it and point at `true` entries;
/// there are none exactly when every entry is `false`.
pub proof fn lemma_selected(mask: Seq<bool>)
    ensures
        forall|j: int| 0 <= j < selected(mask).len() ==> 0 <= #[trigger] selected(mask)[j] < mask.len(),
        forall|j: int| 0 <= j < selected(mask).len() ==> mask[#[trigger] selected(mask)[j]],
        selected(mask).len() == 0 <==> forall|i: int| 0 <= i < mask.len() ==> !#[trigger] mask[i],
    decreases mask.len(),
{
    if mask.len() > 0 {
        let rest = mask.drop_last();
        lemma_selected(rest);
        if !mask.last() && selected(mask).len() == 0 {
            assert forall|i: int| 0 <= i < mask.len() implies !#[trigger] mask[i] by {
                if i < mask.len() - 1 {
                    assert(rest[i] == mask[i]);
                }
            }
        }
        if selected(mask).len() > 0 && !mask.last() {
            let j = selected(rest)[0];
            assert(rest[j]);
            assert(mask[j]);
        }
    }
}

/// Rows `a..b` of a row-major table of `ncols` columns, restricted to the
/// columns `cols` and laid out row-major again.
pub open spec fn row_range<T>(data: Seq<T>, ncols: int, cols: Seq<int>, a: int, b: int) -> Seq<T>
    decreases b - a,
{
    if b <= a {
        Seq::empty()
    } else {
        row_range(data, ncols, cols, a, b - 1) + row_cells(data, ncols, cols, b - 1)
    }
}

proof fn lemma_prefix_is_range<T>(data: Seq<T>, ncols: int, cols: Seq<int>, r: int)
    requires
        0 <= r,
    ensures
        selected_rows(data, ncols, cols, r) == row_range(data, ncols, cols, 0, r),
    decreases r,
{
    if r > 0 {
        lemma_prefix_is_range(data, ncols, cols, r - 1);
    }
}

proof fn lemma_range_concat<T>(data: Seq<T>, ncols: int, cols: Seq<int>, a: int, m: int, b: int)
    requires
        a <= m <= b,
    ensures
        row_range(data, ncols, cols, a, m) + row_range(data, ncols, cols, m, b) == row_range(data, ncols, cols, a, b),
    decreases b - m,
{
    if b == m {
        assert(row_range(data, ncols, cols, a, m) + row_range(data, ncols, cols, m, b)
            =~= row_range(data, ncols, cols, a, b));
    } else {
        lemma_range_concat(data, ncols, cols, a, m, b - 1);
        assert(row_range(data, ncols, cols, a, m) + row_range(data, ncols, cols, m, b)
            =~= row_range(data, ncols, cols, a, b));
    }
}

proof fn lemma_range_moved<T>(d: Seq<T>, d2: Seq<T>, ncols: int, cols: Seq<int>, a: int, b: int, o2: int)
    requires
        a <= b,
        forall|i: int| 0 <= i < b - a ==> #[trigger] row_cells(d2, ncols, cols, o2 + i) == row_cells(d, ncols, cols, a + i),
    ensures
        row_range(d2, ncols, cols, o2, o2 + (b - a)) == row_range(d, ncols, cols, a, b),
    decreases b - a,
{
    if b > a {
        lemma_range_moved(d, d2, ncols, cols, a, b - 1, o2);
        assert(row_cells(d2, ncols, cols, o2 + (b - 1 - a)) == row_cells(d, ncols, cols, a + (b - 1 - a)));
    }
}

/// Column selection commutes with the fold split by rows: over a table `d`
/// of `n` rows of `ncols` cells and columns `cols` within the row, the
/// selection of the validation rows `s..e` is rows `s..e` of the whole
/// selection, that of the training rows is rows `0..s` followed by rows
/// `e..n`, and the whole selection is these three ranges in order.
pub proof fn lemma_selection_of_split<T>(d: Seq<T>, n: int, ncols: int, cols: Seq<int>, s: int, e: int)
    requires
        0 <= s <= e <= n,
        0 <= ncols,
        d.len() == n * ncols,
        forall|j: int| 0 <= j < cols.len() ==> 0 <= #[trigger] cols[j] < ncols,
    ensures
        selected_rows(d.subrange(s * ncols, e * ncols), ncols, cols, e - s) == row_range(d, ncols, cols, s, e),
        selected_rows(d.subrange(0, s * ncols) + d.subrange(e * ncols, n * ncols), ncols, cols, n - (e - s))
            == row_range(d, ncols, cols, 0, s) + row_range(d, ncols, cols, e, n),
        selected_rows(d, ncols, cols, n)
            == row_range(d, ncols, cols, 0, s) + row_range(d, ncols, cols, s, e) + row_range(d, ncols, cols, e, n),
{
    lemma_mul_le(s, e, ncols);
    lemma_mul_le(e, n, ncols);
    let v = d.subrange(s * ncols, e * ncols);
    let t = d.subrange(0, s * ncols) + d.subrange(e * ncols, n * ncols);
    let m = n - (e - s);
    assert forall|i: int| 0 <= i < e - s implies #[trigger] row_cells(v, ncols, cols, 0 + i) == row_cells(d, ncols, cols, s + i) by {
        assert forall|j: int| 0 <= j < cols.len() implies v[i * ncols + cols[j]] == d[(s + i) * ncols + cols[j]] by {
            let c = cols[j];
            assert((s + i) * ncols == s * ncols + i * ncols) by (nonlinear_arith);
            assert(0 <= i * ncols + c < (e - s) * ncols) by (nonlinear_arith)
                requires 0 <= i < e - s, 0 <= c < ncols;
            assert((e - s) * ncols == e * ncols - s * ncols) by (nonlinear_arith);
        }
        assert(row_cells(v, ncols, cols, 0 + i) =~= row_cells(d, ncols, cols, s + i));
    }
    lemma_range_moved(d, v, ncols, cols, s, e, 0);
    lemma_prefix_is_range(v, ncols, cols, e - s);
    assert forall|i: int| 0 <= i < s implies #[trigger] row_cells(t, ncols, cols, 0 + i) == row_cells(d, ncols, cols, 0 + i) by {
        assert forall|j: int| 0 <= j < cols.len() implies t[i * ncols + cols[j]] == d[i * ncols + cols[j]] by {
            let c = cols[j];
            assert(0 <= i * ncols + c < s * ncols) by (nonlinear_arith)
                requires 0 <= i < s, 0 <= c < ncols;
        }
        assert(row_cells(t, ncols, cols, 0 + i) =~= row_cells(d, ncols, cols, 0 + i));
    }
    lemma_range_moved(d, t, ncols, cols, 0, s, 0);
    assert forall|i: int| 0 <= i < n - e implies #[trigger] row_cells(t, ncols, cols, s + i) == row_cells(d, ncols, cols, e + i) by {
        assert forall|j: int| 0 <= j < cols.len() implies t[(s + i) * ncols + cols[j]] == d[(e + i) * ncols + cols[j]] by {
            let c = cols[j];
            assert((s + i) * ncols == s * ncols + i * ncols) by (nonlinear_arith);
            assert((e + i) * ncols == e * ncols + i * ncols) by (nonlinear_arith);
            assert(0 <= i * ncols + c < (n - e) * ncols) by (nonlinear_arith)
                requires 0 <= i < n - e, 0 <= c < ncols;
            assert((n - e) * ncols == n * ncols - e * ncols) by (nonlinear_arith);
        }
        assert(row_cells(t, ncols, cols, s + i) =~= row_cells(d, ncols, cols, e + i));
    }
    lemma_range_moved(d, t, ncols, cols, e, n, s);
    lemma_prefix_is_range(t, ncols, cols, m);
    lemma_range_concat(t, ncols, cols, 0, s, m);
    lemma_prefix_is_range(d, ncols, cols, n);
    lemma_range_concat(d, ncols, cols, 0, s, e);
    lemma_range_concat(d, ncols, cols, 0, e, n);
}

proof fn lemma_cell_in_range(row: int, col: int, nrows: int, ncols: int)
    requires
        0 <= row < nrows,
        0 <= col < ncols,
    ensures
        0 <= row * ncols + col < nrows * ncols,
        (row + 1) * ncols <= nrows * ncols,
{
    assert(0 <= row * ncols + col < (row + 1) * ncols) by (nonlinear_arith)
        requires 0 <= row, 0 <= col < ncols;
    assert((row + 1) * ncols <= nrows * ncols) by (nonlinear_arith)
        requires row + 1 <= nrows, 0 < ncols;
}

proof fn lemma_mul_le(a: int, b: int, c: int)
    requires
        0 <= a <= b,
        0 <= c,
    ensures
        0 <= a * c <= b * c,
{
    assert(0 <= a * c <= b * c) by (nonlinear_arith)
        requires 0 <= a <= b, 0 <= c;
}

/// Positions of `v` outside `lo..hi` (in order) and inside it.
pub fn split_range<T: Copy>(v: &Vec<T>, lo: usize, hi: usize) -> (r: (Vec<T>, Vec<T>))
    requires
        lo <= hi <= v@.len(),
    ensures
        r.0@ == v@.subrange(0, lo as int) + v@.subrange(hi as int, v@.len() as int),
        r.1@ == v@.subrange(lo as int, hi as int),
{
    let mut outside: Vec<T> = Vec::with_capacity(v.len() - (hi - lo));
    let mut inside: Vec<T> = Vec::with_capacity(hi - lo);
    let mut i: usize = 0;
    while i < v.len()
        invariant
            lo <= hi <= v@.len(),
            i <= v@.len(),
            i <= lo ==> outside@ == v@.subrange(0, i as int) && inside@.len() == 0,
            lo < i <= hi ==> outside@ == v@.subrange(0, lo as int) && inside@ == v@.subrange(lo as int, i as int),
            hi < i ==> outside@ == v@.subrange(0, lo as int) + v@.subrange(hi as int, i as int)
                && inside@ == v@.subrange(lo as int, hi as int),
        decreases v@.len() - i,
    {
        let x = v[i];
        let ghost o = outside@;
        let ghost n = inside@;
        if i < lo || i >= hi {
            outside.push(x);
        } else {
            inside.push(x);
        }
        i += 1;
        proof {
            if i <= lo {
                assert(outside@ =~= v@.subrange(0, i as int));
            } else if i <= hi {
                if i == lo + 1 {
                    assert(n.len() == 0);
                }
                assert(inside@ =~= v@.subrange(lo as int, i as int));
            } else {
                if i == hi + 1 && hi == lo {
                    assert(o =~= v@.subrange(0, lo as int));
                }
                assert(outside@ =~= v@.subrange(0, lo as int) + v@.subrange(hi as int, i as int));
            }
        }
    }
    proof {
        if v@.len() <= lo {
            assert(v@.subrange(hi as int, v@.len() as int) =~= Seq::<T>::empty());
            assert(v@.subrange(lo as int, hi as int) =~= Seq::<T>::empty());
        } else if v@.len() <= hi {
            assert(v@.subrange(hi as int, v@.len() as int) =~= Seq::<T>::empty());
        }
        assert(v@.subrange(0, v@.len() as int) =~= v@);
    }
    (outside, inside)
}

/// Indices of the `true` entries of `mask`, in increasing order.
pub fn selected_indices(mask: &Vec<bool>) -> (r: Vec<usize>)
    ensures
        r@.len() == selected(mask@).len(),
        forall|j: int| 0 <= j < r@.len() ==> r@[j] as int == #[trigger] selected(mask@)[j],
{
    let mut r: Vec<usize> = Vec::new();
    let mut i: usize = 0;
    while i < mask.len()
        invariant
            i <= mask@.len(),
            r@.len() == selected(mask@.subrange(0, i as int)).len(),
            forall|j: int| 0 <= j < r@.len() ==> r@[j] as int == #[trigger] selected(mask@.subrange(0, i as int))[j],
        decreases mask@.len() - i,
    {
        let ghost before = mask@.subrange(0, i as int);
        if mask[i] {
            r.push(i);
        }
        i += 1;
        proof {
            assert(mask@.subrange(0, i as int).drop_last() =~= before);
        }
    }
    assert(mask@.subrange(0, mask@.len() as int) =~= mask@);
    r
}

/// A table of `num_samples` rows of `num_features` cells (row-major in
/// `data`) and one target cell per row.
#[derive(Clone, Debug)]
pub struct Table<T> {
    data: Vec<T>,
    target: Vec<T>,
    num_samples: usize,
    num_features: usize,
}

impl<T: Copy> Table<T> {
    pub closed spec fn data_spec(&self) -> Seq<T> {
        self.data@
    }

    pub closed spec fn target_spec(&self) -> Seq<T> {
        self.target@
    }

    pub closed spec fn num_samples_spec(&self) -> nat {
        self.num_samples as nat
    }

    pub closed spec fn num_features_spec(&self) -> nat {
        self.num_features as nat
    }

    /// The shape invariant: one target per row and `num_features` cells per row.
    pub closed spec fn wf(&self) -> bool {
        &&& self.target@.len() == self.num_samples
        &&& self.data@.len() == self.num_samples * self.num_features
    }

    /// What the shape invariant says: one target per row and `num_features`
    /// cells per row.
    pub proof fn lemma_shape(&self)
        requires
            self.wf(),
        ensures
            self.target_spec().len() == self.num_samples_spec(),
            self.data_spec().len() == self.num_samples_spec() * self.num_features_spec(),
    {
    }

    /// A table of the rows of `data` (row-major, `num_features` cells each)
    /// with the targets `target`; `None` unless `data` holds exactly one row
    /// of `num_features` cells per target.
    pub fn new(data: Vec<T>, target: Vec<T>, num_features: usize) -> (r: Option<Table<T>>)
        ensures
            r is Some <==> data@.len() == target@.len() * num_features,
            r is Some ==> {
                let t = r.unwrap();
                &&& t.wf()
                &&& t.data_spec() == data@
                &&& t.target_spec() == target@
                &&& t.num_samples_spec() == target@.len()
                &&& t.num_features_spec() == num_features
            },
    {
        match target.len().checked_mul(num_features) {
            Some(cells) => {
                if cells == data.len() {
                    let num_samples = target.len();
                    Some(Table { data, target, num_samples, num_features })
                } else {
                    None
                }
            },
            None => {
                let cells_held = data.len();
                assert(cells_held as int != target@.len() * num_features);
                None
            },
        }
    }

    /// Bytes that the cells and targets take at `cell_bytes` bytes each;
    /// `None` when that does not fit in a `usize`.
    pub fn size_in_bytes(&self, cell_bytes: usize) -> (r: Option<usize>)
        ensures
            r is Some <==> (self.data_spec().len() + self.target_spec().len()) * cell_bytes <= usize::MAX,
            r is Some ==> r.unwrap() == (self.data_spec().len() + self.target_spec().len()) * cell_bytes,
    {
        if cell_bytes == 0 {
            return Some(0);
        }
        match self.data.len().checked_add(self.target.len()) {
            Some(cells) => cells.checked_mul(cell_bytes),
            None => {
                proof {
                    let cells = self.data@.len() + self.target@.len();
                    assert(cells * cell_bytes >= cells) by (nonlinear_arith)
                        requires cell_bytes >= 1, cells >= 0;
                }
                None
            },
        }
    }

    /// `(number of samples, number of features)`.
    pub fn dimension(&self) -> (r: (usize, usize))
        ensures
            r.0 == self.num_samples_spec(),
            r.1 == self.num_features_spec(),
            self.wf() ==> r.0 == self.target_spec().len(),
            self.wf() ==> self.data_spec().len() == r.0 * r.1,
    {
        (self.num_samples, self.num_features)
    }

    /// The cells, row-major.
    pub fn data(&self) -> (r: &Vec<T>)
        ensures
            r@ == self.data_spec(),
    {
        &self.data
    }

    /// The target of each row.
    pub fn target(&self) -> (r: &Vec<T>)
        ensures
            r@ == self.target_spec(),
            self.wf() ==> r@.len() == self.num_samples_spec(),
    {
        &self.target
    }

    /// `Ok` exactly when `mask` has one entry per feature.
    pub fn check_mask(&self, mask: &Vec<bool>) -> (r: Result<(), ConfigError>)
        ensures
            r is Ok <==> mask@.len() == self.num_features_spec(),
            r is Err ==> r == Err::<(), ConfigError>(ConfigError::MaskLength),
    {
        if mask.len() == self.num_features {
            Ok(())
        } else {
            Err(ConfigError::MaskLength)
        }
    }

    /// The cells of the columns that `mask` selects, row-major, every row
    /// kept; `None` when the mask selects no column.
    pub fn select_columns(&self, mask: &Vec<bool>) -> (r: Option<Vec<T>>)
        requires
            self.wf(),
            mask@.len() == self.num_features_spec(),
        ensures
            r is None <==> forall|i: int| 0 <= i < mask@.len() ==> !#[trigger] mask@[i],
            r is Some ==> r.unwrap()@ == selected_rows(
                self.data_spec(),
                self.num_features_spec() as int,
                selected(mask@),
                self.num_samples_spec() as int,
            ),
    {
        proof {
            lemma_selected(mask@);
        }
        let cols = selected_indices(mask);
        if cols.len() == 0 {
            return None;
        }
        let ghost sel = selected(mask@);
        let ghost nf = self.num_features as int;
        let total = self.data.len();
        let mut out: Vec<T> = Vec::new();
        let mut row: usize = 0;
        while row < self.num_samples
            invariant
                self.wf(),
                mask@.len() == self.num_features,
                cols@.len() == sel.len(),
                sel == selected(mask@),
                nf == self.num_features,
                forall|j: int| 0 <= j < cols@.len() ==> cols@[j] as int == #[trigger] sel[j],
                forall|j: int| 0 <= j < sel.len() ==> 0 <= #[trigger] sel[j] < mask@.len(),
                row <= self.num_samples,
                total == self.data@.len(),
                out@ == selected_rows(self.data@, nf, sel, row as int),
            decreases self.num_samples - row,
        {
            let mut j: usize = 0;
            while j < cols.len()
                invariant
                    self.wf(),
                    cols@.len() == sel.len(),
                    nf == self.num_features,
                    mask@.len() == self.num_features,
                    forall|t: int| 0 <= t < cols@.len() ==> cols@[t] as int == #[trigger] sel[t],
                    forall|t: int| 0 <= t < sel.len() ==> 0 <= #[trigger] sel[t] < mask@.len(),
                    row < self.num_samples,
                    total == self.data@.len(),
                    j <= cols@.len(),
                    out@ == selected_rows(self.data@, nf, sel, row as int)
                        + row_cells(self.data@, nf, sel, row as int).subrange(0, j as int),
                decreases cols@.len() - j,
            {
                proof {
                    lemma_cell_in_range(row as int, sel[j as int], self.num_samples as int, nf);
                }
                let x = self.data[row * self.num_features + cols[j]];
                let ghost before = out@;
                out.push(x);
                j += 1;
                proof {
                    let cells = row_cells(self.data@, nf, sel, row as int);
                    assert(cells.subrange(0, j as int) =~= cells.subrange(0, j - 1).push(x));
                    assert(out@ =~= selected_rows(self.data@, nf, sel, row as int) + cells.subrange(0, j as int));
                }
            }
            proof {
                let cells = row_cells(self.data@, nf, sel, row as int);
                assert(cells.subrange(0, cells.len() as int) =~= cells);
            }
            row += 1;
        }
        Some(out)
    }

    /// The split for fold `fold` out of `k_folds`: the training table holds
    /// every row outside the fold's validation range (see
    /// `crate::folds::fold_start`), the validation table the rows inside it,
    /// both in the order they had.
    pub fn split_for_cross_validation(&self, k_folds: usize, fold: usize) -> (r: (Table<T>, Table<T>))
        requires
            self.wf(),
            0 < k_folds,
            fold < k_folds,
        ensures
            ({
                let n = self.num_samples_spec() as int;
                let nf = self.num_features_spec() as int;
                let s = fold_start(n, k_folds as int, fold as int);
                let e = fold_end(n, k_folds as int, fold as int);
                let (train, valid) = r;
                &&& train.wf() && valid.wf()
                &&& train.num_features_spec() == nf && valid.num_features_spec() == nf
                &&& valid.num_samples_spec() == e - s
                &&& train.num_samples_spec() + valid.num_samples_spec() == n
                &&& valid.target_spec() == self.target_spec().subrange(s, e)
                &&& train.target_spec() == self.target_spec().subrange(0, s) + self.target_spec().subrange(e, n)
                &&& valid.data_spec() == self.data_spec().subrange(s * nf, e * nf)
                &&& train.data_spec() == self.data_spec().subrange(0, s * nf) + self.data_spec().subrange(e * nf, n * nf)
            }),
    {
        let (start, end) = fold_bounds(self.num_samples, k_folds, fold);
        let nf = self.num_features;
        let total = self.data.len();
        proof {
            lemma_mul_le(start as int, end as int, nf as int);
            lemma_mul_le(end as int, self.num_samples as int, nf as int);
            assert((end - start) * nf == end * nf - start * nf) by (nonlinear_arith);
            assert((self.num_samples - (end - start)) * nf == self.num_samples * nf - (end - start) * nf) by (nonlinear_arith);
        }
        let (train_data, valid_data) = split_range(&self.data, start * nf, end * nf);
        let (train_target, valid_target) = split_range(&self.target, start, end);
        let train = Table {
            data: train_data,
            target: train_target,
            num_samples: self.num_samples - (end - start),
            num_features: nf,
        };
        let valid = Table { data: valid_data, target: valid_target, num_samples: end - start, num_features: nf };
        (train, valid)
    }
}

} // verus!
