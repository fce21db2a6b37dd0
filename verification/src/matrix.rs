//! Columnar storage of field elements: geometry, row access, column
//! reductions, Horner evaluation, bit-reversal, polynomial transforms and
//! row hashing.

use vstd::prelude::*;
use crate::field::Felt;
use crate::field::f_add;
use crate::field::f_mul;
use crate::transform::column_vals;
use crate::transform::wf_column;
use crate::transform::is_pow2;
use crate::transform::pad_zero;
use crate::transform::ntt_of;
use crate::transform::intt_of;
use crate::transform::ntt_evaluate;
use crate::transform::ntt_interpolate;
use crate::transform::Domain;
use crate::hashing::sha256_of;
use crate::hashing::row_bytes;
use crate::hashing::push_le_bytes;
use crate::hashing::sha256;

verus! {

/// Reversal of the low `k` bits of `i`.
pub open spec fn bit_rev(i: nat, k: nat) -> nat
    decreases k,
{
    if k == 0 {
        0
    } else {
        (i % 2) * vstd::arithmetic::power2::pow2((k - 1) as nat) + bit_rev(
            i / 2,
            (k - 1) as nat,
        )
    }
}

/// Base-two logarithm, rounded down.
pub open spec fn log2(n: nat) -> nat
    decreases n,
{
    if n <= 1 {
        0
    } else {
        1 + log2(n / 2)
    }
}

/// For a power of two, `pow2` undoes `log2`.
pub proof fn lemma_pow2_log2(n: nat)
    requires
        is_pow2(n),
    ensures
        vstd::arithmetic::power2::pow2(log2(n)) == n,
    decreases n,
{
    if n == 1 {
        vstd::arithmetic::power::lemma_pow0(2);
    } else {
        lemma_pow2_log2(n / 2);
        vstd::arithmetic::power2::lemma_pow2_unfold(log2(n));
    }
}

/// Reversing `k` bits of a `k`-bit index stays below `pow2(k)`.
pub proof fn lemma_bit_rev_bound(i: nat, k: nat)
    requires
        i < vstd::arithmetic::power2::pow2(k),
    ensures
        bit_rev(i, k) < vstd::arithmetic::power2::pow2(k),
    decreases k,
{
    if k == 0 {
        vstd::arithmetic::power::lemma_pow0(2);
    } else {
        vstd::arithmetic::power2::lemma_pow2_unfold(k);
        lemma_bit_rev_bound(i / 2, (k - 1) as nat);
        if i % 2 == 0 {
            assert(bit_rev(i, k) == bit_rev(i / 2, (k - 1) as nat));
        } else {
            assert(bit_rev(i, k) == vstd::arithmetic::power2::pow2((k - 1) as nat) + bit_rev(
                i / 2,
                (k - 1) as nat,
            ));
        }
    }
}

/// A column permuted by bit reversal of the row index.
pub open spec fn bit_rev_perm<T>(s: Seq<T>) -> Seq<T> {
    Seq::new(s.len(), |i: int| s[bit_rev(i as nat, log2(s.len())) as int])
}

/// The bit-reversed counterpart of an index below the power-of-two bound
/// `n`.
fn bit_rev_index(i: usize, n: usize) -> (r: usize)
    requires
        is_pow2(n as nat),
        i < n,
    ensures
        r == bit_rev(i as nat, log2(n as nat)),
        r < n,
    decreases n,
{
    if n == 1 {
        proof {
            assert(log2(n as nat) == 0);
            assert(bit_rev(i as nat, 0) == 0);
        }
        0
    } else {
        let half: usize = n / 2;
        let rest = bit_rev_index(i / 2, half);
        proof {
            lemma_pow2_log2(n as nat);
            vstd::arithmetic::power2::lemma_pow2_unfold(log2(n as nat));
            assert(log2(n as nat) == 1 + log2(half as nat));
            assert(vstd::arithmetic::power2::pow2((log2(n as nat) - 1) as nat) == half);
            assert(bit_rev(i as nat, log2(n as nat)) == ((i as nat) % 2) * (half as nat)
                + bit_rev((i as nat) / 2, log2(half as nat)));
        }
        if i % 2 == 1 {
            proof {
                let b = (i as nat) % 2;
                assert(b == 1);
                assert(b * (half as nat) == half as nat) by (nonlinear_arith)
                    requires
                        b == 1,
                ;
            }
            half + rest
        } else {
            proof {
                let b = (i as nat) % 2;
                assert(b == 0);
                assert(b * (half as nat) == 0) by (nonlinear_arith)
                    requires
                        b == 0,
                ;
            }
            rest
        }
    }
}

/// Matrix is an ordered collection of columns of field elements.
#[derive(Debug)]
pub struct Matrix {
    pub cols: Vec<Vec<Felt>>,
}

impl Matrix {
    /// The `j`-th column as a sequence.
    pub open spec fn col(self, j: int) -> Seq<Felt> {
        self.cols@[j]@
    }

    /// Number of columns.
    pub open spec fn num_cols_spec(self) -> nat {
        self.cols@.len()
    }

    /// Number of rows: the length shared by all columns (0 when there are
    /// no columns).
    pub open spec fn rows_spec(self) -> nat {
        if self.cols@.len() == 0 {
            0
        } else {
            self.cols@[0]@.len()
        }
    }

    /// All columns have the same length.
    pub open spec fn uniform(self) -> bool {
        forall|j: int|
            0 <= j < self.cols@.len() ==> (#[trigger] self.cols@[j])@.len() == self.rows_spec()
    }

    /// Every entry is a canonical field element.
    pub open spec fn wf(self) -> bool {
        forall|j: int| 0 <= j < self.cols@.len() ==> wf_column((#[trigger] self.cols@[j])@)
    }

    /// The `i`-th row, read across all columns.
    pub open spec fn row_spec(self, i: int) -> Seq<Felt> {
        Seq::new(self.cols@.len(), |j: int| self.cols@[j]@[i])
    }

    pub fn new(cols: Vec<Vec<Felt>>) -> (r: Matrix)
        ensures
            r.cols == cols,
    {
        Matrix { cols }
    }

    /// Builds a column-major matrix from row-major input whose width is
    /// given explicitly, transposing.
    pub fn from_arrays(rows: &Vec<Vec<Felt>>, width: usize) -> (r: Matrix)
        requires
            forall|i: int| 0 <= i < rows@.len() ==> (#[trigger] rows@[i])@.len() == width,
        ensures
            r.num_cols_spec() == width,
            forall|j: int| 0 <= j < width ==> (#[trigger] r.col(j)).len() == rows@.len(),
            forall|i: int, j: int|
                0 <= i < rows@.len() && 0 <= j < width ==> #[trigger] r.col(j)[i] == rows@[i]@[j],
            r.uniform(),
    {
        let mut cols: Vec<Vec<Felt>> = Vec::new();
        let mut j: usize = 0;
        while j < width
            invariant
                j <= width,
                cols@.len() == j,
                forall|i: int| 0 <= i < rows@.len() ==> (#[trigger] rows@[i])@.len() == width,
                forall|j2: int| 0 <= j2 < j ==> (#[trigger] cols@[j2])@.len() == rows@.len(),
                forall|i: int, j2: int|
                    0 <= i < rows@.len() && 0 <= j2 < j ==> (#[trigger] cols@[j2]@[i])
                        == rows@[i]@[j2],
            decreases width - j,
        {
            let mut col: Vec<Felt> = Vec::new();
            let mut i: usize = 0;
            while i < rows.len()
                invariant
                    i <= rows@.len(),
                    j < width,
                    col@.len() == i,
                    forall|i2: int| 0 <= i2 < rows@.len() ==> (#[trigger] rows@[i2])@.len() == width,
                    forall|i2: int| 0 <= i2 < i ==> #[trigger] col@[i2] == rows@[i2]@[j as int],
                decreases rows@.len() - i,
            {
                col.push(rows[i][j]);
                i = i + 1;
            }
            cols.push(col);
            j = j + 1;
        }
        Matrix { cols }
    }

    /// Builds a column-major matrix from row-major input, transposing; the
    /// width is taken from the first row.
    pub fn from_rows(rows: Vec<Vec<Felt>>) -> (r: Matrix)
        requires
            forall|i: int| 0 <= i < rows@.len() ==> (#[trigger] rows@[i])@.len() == rows@[0]@.len(),
        ensures
            r.num_cols_spec() == (if rows@.len() == 0 {
                0int
            } else {
                rows@[0]@.len() as int
            }),
            forall|j: int| 0 <= j < r.num_cols_spec() ==> (#[trigger] r.col(j)).len() == rows@.len(),
            forall|i: int, j: int|
                0 <= i < rows@.len() && 0 <= j < r.num_cols_spec() ==> #[trigger] r.col(j)[i]
                    == rows@[i]@[j],
            r.uniform(),
    {
        let width: usize = if rows.len() == 0 {
            0
        } else {
            rows[0].len()
        };
        Self::from_arrays(&rows, width)
    }

    /// Reports the shared column length. All columns must have equal
    /// length; a matrix violating that cannot be passed here.
    pub fn num_rows(&self) -> (r: usize)
        requires
            self.uniform(),
        ensures
            r == self.rows_spec(),
    {
        if self.cols.len() == 0 {
            0
        } else {
            self.cols[0].len()
        }
    }

    pub fn num_cols(&self) -> (r: usize)
        ensures
            r == self.num_cols_spec(),
    {
        self.cols.len()
    }

    pub fn is_empty(&self) -> (r: bool)
        requires
            self.uniform(),
        ensures
            r == (self.rows_spec() == 0),
    {
        self.num_rows() == 0
    }

    /// Moves the columns of `other` onto the end of `self`'s column list.
    pub fn append(&mut self, other: Matrix)
        ensures
            final(self).cols@ == old(self).cols@ + other.cols@,
    {
        let ghost all = other.cols@;
        let mut src = other.cols;
        while src.len() > 0
            invariant
                src@.len() <= all.len(),
                self.cols@ == old(self).cols@ + all.take(all.len() - src@.len()),
                src@ == all.skip(all.len() - src@.len()),
            decreases src@.len(),
        {
            let c = src.remove(0);
            self.cols.push(c);
            proof {
                let done = all.len() - src@.len();
                assert(all.take(done) =~= all.take(done - 1).push(all[done - 1]));
                assert(self.cols@ =~= old(self).cols@ + all.take(done));
                assert(src@ =~= all.skip(done));
            }
        }
        proof {
            assert(all.take(all.len() as int) =~= all);
        }
    }

    /// Concatenates the column sets of a list of matrices, in order.
    pub fn join(matrices: Vec<Matrix>) -> (r: Matrix)
        ensures
            r.cols@ == matrices@.map_values(|m: Matrix| m.cols@).flatten(),
    {
        let ghost all = matrices@;
        let mut acc = Matrix { cols: Vec::new() };
        let mut src = matrices;
        proof {
            assert(all.take(0).map_values(|m: Matrix| m.cols@).flatten() =~= Seq::<
                Vec<Felt>,
            >::empty());
        }
        while src.len() > 0
            invariant
                src@.len() <= all.len(),
                acc.cols@ == all.take(all.len() - src@.len()).map_values(
                    |m: Matrix| m.cols@,
                ).flatten(),
                src@ == all.skip(all.len() - src@.len()),
            decreases src@.len(),
        {
            let ghost done_before = all.len() - src@.len();
            let m = src.remove(0);
            acc.append(m);
            proof {
                let done = done_before + 1;
                let f = |m: Matrix| m.cols@;
                assert(all.take(done) =~= all.take(done_before).push(all[done_before]));
                all.take(done_before).map_values(f).lemma_flatten_push(all[done_before].cols@);
                assert(all.take(done).map_values(f) =~= all.take(done_before).map_values(f).push(
                    all[done_before].cols@,
                ));
                assert(src@ =~= all.skip(done));
            }
        }
        proof {
            assert(all.take(all.len() as int) =~= all);
        }
        acc
    }

    /// The values of row `row`, or `None` when the index is out of range.
    pub fn get_row(&self, row: usize) -> (r: Option<Vec<Felt>>)
        requires
            self.uniform(),
        ensures
            row < self.rows_spec() ==> (r matches Some(v) && v@ == self.row_spec(row as int)),
            row >= self.rows_spec() ==> r is None,
    {
        if self.num_rows() > 0 && row < self.num_rows() {
            let mut out: Vec<Felt> = Vec::new();
            let mut j: usize = 0;
            while j < self.cols.len()
                invariant
                    j <= self.cols@.len(),
                    self.uniform(),
                    row < self.rows_spec(),
                    out@.len() == j,
                    forall|j2: int|
                        0 <= j2 < j ==> #[trigger] out@[j2] == self.cols@[j2]@[row as int],
                decreases self.cols@.len() - j,
            {
                out.push(self.cols[j][row]);
                j = j + 1;
            }
            proof {
                assert(out@ =~= self.row_spec(row as int));
            }
            Some(out)
        } else {
            None
        }
    }

    /// Copies row `row_idx` into the leading entries of `row`; entries of
    /// `row` beyond the matrix width are left as they are.
    pub fn read_row(&self, row_idx: usize, row: &mut Vec<Felt>)
        requires
            self.uniform(),
            row_idx < self.rows_spec(),
        ensures
            final(row)@.len() == old(row)@.len(),
            forall|j: int|
                0 <= j < final(row)@.len() && j < self.num_cols_spec() ==> #[trigger] final(row)@[j]
                    == self.cols@[j]@[row_idx as int],
            forall|j: int|
                self.num_cols_spec() <= j < final(row)@.len() ==> #[trigger] final(row)@[j] == old(
                    row,
                )@[j],
    {
        let mut j: usize = 0;
        let limit: usize = if row.len() < self.cols.len() {
            row.len()
        } else {
            self.cols.len()
        };
        while j < limit
            invariant
                j <= limit,
                limit <= row@.len(),
                limit <= self.cols@.len(),
                limit == if old(row)@.len() < self.cols@.len() {
                    old(row)@.len() as int
                } else {
                    self.cols@.len() as int
                },
                self.uniform(),
                row_idx < self.rows_spec(),
                row@.len() == old(row)@.len(),
                forall|j2: int|
                    0 <= j2 < j ==> #[trigger] row@[j2] == self.cols@[j2]@[row_idx as int],
                forall|j2: int| j <= j2 < row@.len() ==> #[trigger] row@[j2] == old(row)@[j2],
            decreases limit - j,
        {
            row.set(j, self.cols[j][row_idx]);
            j = j + 1;
        }
    }

    /// All rows, in order.
    pub fn rows(&self) -> (r: Vec<Vec<Felt>>)
        requires
            self.uniform(),
        ensures
            r@.len() == self.rows_spec(),
            forall|i: int| 0 <= i < r@.len() ==> (#[trigger] r@[i])@ == self.row_spec(i),
    {
        let n = self.num_rows();
        let mut out: Vec<Vec<Felt>> = Vec::new();
        let mut i: usize = 0;
        while i < n
            invariant
                i <= n,
                n == self.rows_spec(),
                self.uniform(),
                out@.len() == i,
                forall|i2: int| 0 <= i2 < i ==> (#[trigger] out@[i2])@ == self.row_spec(i2),
            decreases n - i,
        {
            match self.get_row(i) {
                Some(v) => out.push(v),
                None => {
                    proof {
                        assert(false);
                    }
                },
            }
            i = i + 1;
        }
        out
    }
}


/// Index of the highest non-zero entry of a coefficient column (0 when the
/// column is empty or entirely zero): the column's degree as a polynomial.
pub open spec fn col_degree(c: Seq<Felt>) -> nat
    decreases c.len(),
{
    if c.len() == 0 {
        0
    } else if c.last().val != 0 {
        (c.len() - 1) as nat
    } else {
        col_degree(c.drop_last())
    }
}

/// Modular sum of the entries at row `i` of the first `k` columns.
pub open spec fn col_sum_prefix(cols: Seq<Seq<Felt>>, i: int, k: nat) -> int
    decreases k,
{
    if k == 0 {
        0
    } else {
        f_add(col_sum_prefix(cols, i, (k - 1) as nat), cols[k - 1][i].val as int)
    }
}

/// Horner evaluation of a coefficient sequence at `x`, modular.
pub open spec fn horner(c: Seq<int>, x: int) -> int
    decreases c.len(),
{
    if c.len() == 0 {
        0
    } else {
        f_add(c.first(), f_mul(x, horner(c.drop_first(), x)))
    }
}

/// A column equal to `c` with zeros appended up to length `n`.
fn zero_extend(c: &Vec<Felt>, n: usize) -> (r: Vec<Felt>)
    requires
        c@.len() <= n,
    ensures
        r@.len() == n,
        column_vals(r@) == pad_zero(column_vals(c@), n as nat),
        wf_column(c@) ==> wf_column(r@),
{
    let mut r: Vec<Felt> = Vec::new();
    let mut i: usize = 0;
    while i < c.len()
        invariant
            i <= c@.len(),
            r@.len() == i,
            forall|k: int| 0 <= k < i ==> #[trigger] r@[k] == c@[k],
        decreases c@.len() - i,
    {
        r.push(c[i]);
        i = i + 1;
    }
    while r.len() < n
        invariant
            c@.len() <= r@.len() <= n,
            forall|k: int| 0 <= k < c@.len() ==> #[trigger] r@[k] == c@[k],
            forall|k: int| c@.len() <= k < r@.len() ==> (#[trigger] r@[k]).val == 0,
        decreases n - r@.len(),
    {
        r.push(Felt { val: 0 });
    }
    proof {
        assert(column_vals(r@) =~= pad_zero(column_vals(c@), n as nat));
    }
    r
}

/// A fresh column with the same entries.
pub(crate) fn clone_column(c: &Vec<Felt>) -> (r: Vec<Felt>)
    ensures
        r@ == c@,
{
    let mut r: Vec<Felt> = Vec::new();
    let mut i: usize = 0;
    while i < c.len()
        invariant
            i <= c@.len(),
            r@.len() == i,
            forall|k: int| 0 <= k < i ==> #[trigger] r@[k] == c@[k],
        decreases c@.len() - i,
    {
        r.push(c[i]);
        i = i + 1;
    }
    proof {
        assert(r@ =~= c@);
    }
    r
}

/// Degree of one column: largest index holding a non-zero value.
fn degree_of(c: &Vec<Felt>) -> (r: usize)
    ensures
        r == col_degree(c@),
{
    let mut i: usize = c.len();
    proof {
        assert(c@.take(c@.len() as int) =~= c@);
    }
    while i > 0
        invariant
            i <= c@.len(),
            col_degree(c@) == col_degree(c@.take(i as int)),
        decreases i,
    {
        if c[i - 1].val != 0 {
            proof {
                assert(c@.take(i as int).last() == c@[i - 1]);
            }
            return i - 1;
        }
        proof {
            assert(c@.take(i as int).drop_last() =~= c@.take(i as int - 1));
        }
        i = i - 1;
    }
    0
}

/// Horner evaluation of one coefficient column at `x`.
fn horner_col(c: &Vec<Felt>, x: Felt) -> (r: Felt)
    requires
        wf_column(c@),
        x.wf(),
    ensures
        r.val == horner(column_vals(c@), x.val as int),
        r.wf(),
{
    let mut acc = Felt { val: 0 };
    let mut i: usize = c.len();
    while i > 0
        invariant
            i <= c@.len(),
            wf_column(c@),
            x.wf(),
            acc.wf(),
            acc.val == horner(column_vals(c@).skip(i as int), x.val as int),
        decreases i,
    {
        i = i - 1;
        acc = c[i].add(x.mul(acc));
        proof {
            let vs = column_vals(c@);
            assert(vs.skip(i as int).drop_first() =~= vs.skip(i as int + 1));
            assert(vs.skip(i as int).first() == c@[i as int].val as int);
        }
    }
    proof {
        assert(column_vals(c@).skip(0) =~= column_vals(c@));
    }
    acc
}

/// Error cases of converting a matrix into its single column.
#[derive(Clone, Copy, Debug, PartialEq, Eq, Structural)]
pub enum MatrixError {
    NoColumns,
    ManyColumns,
}

impl Matrix {
    /// The columns as mathematical sequences.
    pub open spec fn col_seqs(self) -> Seq<Seq<Felt>> {
        self.cols@.map_values(|c: Vec<Felt>| c@)
    }

    /// Per-column degrees: the index of the highest non-zero coefficient
    /// (trailing zeros trimmed), 0 for an all-zero column.
    pub fn column_degrees(&self) -> (r: Vec<usize>)
        ensures
            r@.len() == self.num_cols_spec(),
            forall|j: int| 0 <= j < r@.len() ==> #[trigger] r@[j] == col_degree(self.col(j)),
    {
        let mut out: Vec<usize> = Vec::new();
        let mut j: usize = 0;
        while j < self.cols.len()
            invariant
                j <= self.cols@.len(),
                out@.len() == j,
                forall|j2: int| 0 <= j2 < j ==> #[trigger] out@[j2] == col_degree(self.col(j2)),
            decreases self.cols@.len() - j,
        {
            out.push(degree_of(&self.cols[j]));
            j = j + 1;
        }
        out
    }

    /// Horner-evaluates every column's coefficient-form polynomial at the
    /// out-of-domain point `x`.
    pub fn evaluate_at(&self, x: Felt) -> (r: Vec<Felt>)
        requires
            self.wf(),
            x.wf(),
        ensures
            r@.len() == self.num_cols_spec(),
            forall|j: int|
                0 <= j < r@.len() ==> (#[trigger] r@[j]).val == horner(
                    column_vals(self.col(j)),
                    x.val as int,
                ),
            wf_column(r@),
    {
        let mut out: Vec<Felt> = Vec::new();
        let mut j: usize = 0;
        while j < self.cols.len()
            invariant
                j <= self.cols@.len(),
                self.wf(),
                x.wf(),
                out@.len() == j,
                forall|j2: int|
                    0 <= j2 < j ==> (#[trigger] out@[j2]).val == horner(
                        column_vals(self.col(j2)),
                        x.val as int,
                    ),
                wf_column(out@),
            decreases self.cols@.len() - j,
        {
            out.push(horner_col(&self.cols[j], x));
            j = j + 1;
        }
        out
    }

    /// Element-wise sum of all columns, as a single-column matrix.
    pub fn sum_columns_cpu(&self) -> (r: Matrix)
        requires
            self.uniform(),
            self.wf(),
        ensures
            r.num_cols_spec() == 1,
            r.rows_spec() == self.rows_spec(),
            r.uniform(),
            r.wf(),
            forall|i: int|
                0 <= i < self.rows_spec() ==> (#[trigger] r.col(0)[i]).val == col_sum_prefix(
                    self.col_seqs(),
                    i,
                    self.num_cols_spec(),
                ),
    {
        let n = self.num_rows();
        let mut acc: Vec<Felt> = Vec::new();
        while acc.len() < n
            invariant
                acc@.len() <= n,
                forall|i: int| 0 <= i < acc@.len() ==> (#[trigger] acc@[i]).val == 0,
            decreases n - acc@.len(),
        {
            acc.push(Felt { val: 0 });
        }
        let mut j: usize = 0;
        while j < self.cols.len()
            invariant
                j <= self.cols@.len(),
                self.uniform(),
                self.wf(),
                n == self.rows_spec(),
                acc@.len() == n,
                wf_column(acc@),
                forall|i: int|
                    0 <= i < n ==> (#[trigger] acc@[i]).val == col_sum_prefix(
                        self.col_seqs(),
                        i,
                        j as nat,
                    ),
            decreases self.cols@.len() - j,
        {
            let mut i: usize = 0;
            while i < n
                invariant
                    i <= n,
                    j < self.cols@.len(),
                    self.uniform(),
                    self.wf(),
                    n == self.rows_spec(),
                    acc@.len() == n,
                    wf_column(acc@),
                    forall|i2: int|
                        0 <= i2 < i ==> (#[trigger] acc@[i2]).val == col_sum_prefix(
                            self.col_seqs(),
                            i2,
                            (j + 1) as nat,
                        ),
                    forall|i2: int|
                        i <= i2 < n ==> (#[trigger] acc@[i2]).val == col_sum_prefix(
                            self.col_seqs(),
                            i2,
                            j as nat,
                        ),
                decreases n - i,
            {
                let v = acc[i].add(self.cols[j][i]);
                acc.set(i, v);
                i = i + 1;
            }
            j = j + 1;
        }
        let mut cols: Vec<Vec<Felt>> = Vec::new();
        cols.push(acc);
        Matrix { cols }
    }

    /// Sums columns into a single-column matrix.
    pub fn sum_columns(&self) -> (r: Matrix)
        requires
            self.uniform(),
            self.wf(),
        ensures
            r.num_cols_spec() == 1,
            r.rows_spec() == self.rows_spec(),
            r.uniform(),
            r.wf(),
            forall|i: int|
                0 <= i < self.rows_spec() ==> (#[trigger] r.col(0)[i]).val == col_sum_prefix(
                    self.col_seqs(),
                    i,
                    self.num_cols_spec(),
                ),
    {
        self.sum_columns_cpu()
    }

    /// In-place bit-reversal permutation of the rows of every column.
    pub fn bit_reverse_rows(&mut self)
        requires
            forall|j: int|
                0 <= j < old(self).cols@.len() ==> is_pow2((#[trigger] old(self).cols@[j])@.len()),
        ensures
            final(self).cols@.len() == old(self).cols@.len(),
            forall|j: int|
                0 <= j < old(self).cols@.len() ==> (#[trigger] final(self).cols@[j])@
                    == bit_rev_perm(old(self).cols@[j]@),
    {
        let mut j: usize = 0;
        while j < self.cols.len()
            invariant
                j <= self.cols@.len(),
                self.cols@.len() == old(self).cols@.len(),
                forall|j2: int|
                    0 <= j2 < old(self).cols@.len() ==> is_pow2(
                        (#[trigger] old(self).cols@[j2])@.len(),
                    ),
                forall|j2: int|
                    0 <= j2 < j ==> (#[trigger] self.cols@[j2])@ == bit_rev_perm(
                        old(self).cols@[j2]@,
                    ),
                forall|j2: int|
                    j <= j2 < self.cols@.len() ==> #[trigger] self.cols@[j2] == old(
                        self,
                    ).cols@[j2],
            decreases self.cols@.len() - j,
        {
            let n = self.cols[j].len();
            let mut newcol: Vec<Felt> = Vec::new();
            let mut i: usize = 0;
            while i < n
                invariant
                    i <= n,
                    j < self.cols@.len(),
                    self.cols@[j as int]@.len() == n,
                    is_pow2(n as nat),
                    newcol@.len() == i,
                    forall|i2: int|
                        0 <= i2 < i ==> #[trigger] newcol@[i2] == self.cols@[j as int]@[bit_rev(
                            i2 as nat,
                            log2(n as nat),
                        ) as int],
                decreases n - i,
            {
                let k = bit_rev_index(i, n);
                newcol.push(self.cols[j][k]);
                i = i + 1;
            }
            proof {
                assert(newcol@ =~= bit_rev_perm(self.cols@[j as int]@));
            }
            self.cols.set(j, newcol);
            j = j + 1;
        }
    }

    /// Treats each column as evaluations over `domain` and computes the
    /// interpolating polynomial's coefficient form, per column.
    pub fn into_polynomials(self, domain: Domain) -> (r: Matrix)
        requires
            domain.wf(),
            self.uniform(),
            self.wf(),
            self.rows_spec() == domain.size,
        ensures
            r.num_cols_spec() == self.num_cols_spec(),
            r.uniform(),
            r.wf(),
            forall|j: int|
                0 <= j < r.num_cols_spec() ==> (#[trigger] r.col(j)).len() == domain.size,
            forall|j: int|
                0 <= j < r.num_cols_spec() ==> column_vals(#[trigger] r.col(j)) == intt_of(
                    column_vals(self.col(j)),
                    domain.offset.val as int,
                ),
            forall|j: int|
                0 <= j < r.num_cols_spec() ==> ntt_of(
                    column_vals(#[trigger] r.col(j)),
                    domain.offset.val as int,
                ) == column_vals(self.col(j)),
    {
        let mut cols: Vec<Vec<Felt>> = Vec::new();
        let mut j: usize = 0;
        while j < self.cols.len()
            invariant
                j <= self.cols@.len(),
                domain.wf(),
                self.uniform(),
                self.wf(),
                self.rows_spec() == domain.size,
                cols@.len() == j,
                forall|j2: int| 0 <= j2 < j ==> (#[trigger] cols@[j2])@.len() == domain.size,
                forall|j2: int| 0 <= j2 < j ==> wf_column((#[trigger] cols@[j2])@),
                forall|j2: int|
                    0 <= j2 < j ==> column_vals((#[trigger] cols@[j2])@) == intt_of(
                        column_vals(self.col(j2)),
                        domain.offset.val as int,
                    ),
                forall|j2: int|
                    0 <= j2 < j ==> ntt_of(
                        column_vals((#[trigger] cols@[j2])@),
                        domain.offset.val as int,
                    ) == column_vals(self.col(j2)),
            decreases self.cols@.len() - j,
        {
            let c = ntt_interpolate(&self.cols[j], domain.offset);
            cols.push(c);
            j = j + 1;
        }
        Matrix { cols }
    }

    /// Interpolates the columns of the matrix over the domain, leaving the
    /// matrix itself untouched.
    pub fn interpolate(&self, domain: Domain) -> (r: Matrix)
        requires
            domain.wf(),
            self.uniform(),
            self.wf(),
            self.rows_spec() == domain.size,
        ensures
            r.num_cols_spec() == self.num_cols_spec(),
            r.uniform(),
            r.wf(),
            forall|j: int|
                0 <= j < r.num_cols_spec() ==> (#[trigger] r.col(j)).len() == domain.size,
            forall|j: int|
                0 <= j < r.num_cols_spec() ==> column_vals(#[trigger] r.col(j)) == intt_of(
                    column_vals(self.col(j)),
                    domain.offset.val as int,
                ),
            forall|j: int|
                0 <= j < r.num_cols_spec() ==> ntt_of(
                    column_vals(#[trigger] r.col(j)),
                    domain.offset.val as int,
                ) == column_vals(self.col(j)),
    {
        self.clone().into_polynomials(domain)
    }

    /// Evaluates each coefficient column over `domain`, zero-padding
    /// columns shorter than the domain size first.
    pub fn into_evaluations(self, domain: Domain) -> (r: Matrix)
        requires
            domain.wf(),
            self.uniform(),
            self.wf(),
            self.rows_spec() <= domain.size,
        ensures
            r.num_cols_spec() == self.num_cols_spec(),
            r.uniform(),
            r.wf(),
            forall|j: int|
                0 <= j < r.num_cols_spec() ==> (#[trigger] r.col(j)).len() == domain.size,
            forall|j: int|
                0 <= j < r.num_cols_spec() ==> column_vals(#[trigger] r.col(j)) == ntt_of(
                    pad_zero(column_vals(self.col(j)), domain.size as nat),
                    domain.offset.val as int,
                ),
            forall|j: int|
                0 <= j < r.num_cols_spec() ==> intt_of(
                    column_vals(#[trigger] r.col(j)),
                    domain.offset.val as int,
                ) == pad_zero(column_vals(self.col(j)), domain.size as nat),
    {
        let mut cols: Vec<Vec<Felt>> = Vec::new();
        let mut j: usize = 0;
        while j < self.cols.len()
            invariant
                j <= self.cols@.len(),
                domain.wf(),
                self.uniform(),
                self.wf(),
                self.rows_spec() <= domain.size,
                cols@.len() == j,
                forall|j2: int| 0 <= j2 < j ==> (#[trigger] cols@[j2])@.len() == domain.size,
                forall|j2: int| 0 <= j2 < j ==> wf_column((#[trigger] cols@[j2])@),
                forall|j2: int|
                    0 <= j2 < j ==> column_vals((#[trigger] cols@[j2])@) == ntt_of(
                        pad_zero(column_vals(self.col(j2)), domain.size as nat),
                        domain.offset.val as int,
                    ),
                forall|j2: int|
                    0 <= j2 < j ==> intt_of(
                        column_vals((#[trigger] cols@[j2])@),
                        domain.offset.val as int,
                    ) == pad_zero(column_vals(self.col(j2)), domain.size as nat),
            decreases self.cols@.len() - j,
        {
            let padded = zero_extend(&self.cols[j], domain.size);
            let c = ntt_evaluate(&padded, domain.offset);
            cols.push(c);
            j = j + 1;
        }
        Matrix { cols }
    }

    /// Evaluation followed by an in-place bit-reversal permutation of each
    /// column, so that query positions index the natural row order of a
    /// decimation-in-time transform.
    pub fn into_bit_reversed_evaluations(self, domain: Domain) -> (r: Matrix)
        requires
            domain.wf(),
            self.uniform(),
            self.wf(),
            self.rows_spec() <= domain.size,
        ensures
            r.num_cols_spec() == self.num_cols_spec(),
            r.uniform(),
            r.wf(),
            forall|j: int|
                0 <= j < r.num_cols_spec() ==> (#[trigger] r.col(j)).len() == domain.size,
            forall|j: int|
                0 <= j < r.num_cols_spec() ==> column_vals(#[trigger] r.col(j)) == bit_rev_perm(
                    ntt_of(
                        pad_zero(column_vals(self.col(j)), domain.size as nat),
                        domain.offset.val as int,
                    ),
                ),
    {
        let ghost me = self;
        let mut evaluations = self.into_evaluations(domain);
        let ghost ev = evaluations;
        proof {
            assert forall|j: int| 0 <= j < evaluations.cols@.len() implies is_pow2(
                (#[trigger] evaluations.cols@[j])@.len(),
            ) by {
                assert(evaluations.col(j).len() == domain.size);
            }
        }
        evaluations.bit_reverse_rows();
        proof {
            let k = log2(domain.size as nat);
            lemma_pow2_log2(domain.size as nat);
            assert forall|j: int| 0 <= j < evaluations.cols@.len() implies {
                &&& (#[trigger] evaluations.col(j)).len() == domain.size
                &&& wf_column(evaluations.col(j))
                &&& column_vals(evaluations.col(j)) == bit_rev_perm(
                    ntt_of(
                        pad_zero(column_vals(me.col(j)), domain.size as nat),
                        domain.offset.val as int,
                    ),
                )
            } by {
                let before = ev.col(j);
                let target = ntt_of(
                    pad_zero(column_vals(me.col(j)), domain.size as nat),
                    domain.offset.val as int,
                );
                assert(before.len() == domain.size);
                assert(column_vals(before) == target);
                assert(evaluations.col(j) == bit_rev_perm(before));
                assert forall|i: int| 0 <= i < domain.size implies #[trigger] bit_rev(
                    i as nat,
                    k,
                ) < domain.size by {
                    lemma_bit_rev_bound(i as nat, k);
                }
                assert(column_vals(bit_rev_perm(before)) =~= bit_rev_perm(target));
                assert forall|i: int|
                    0 <= i < evaluations.col(j).len() implies (#[trigger] evaluations.col(j)[
                    i]).wf() by {
                    assert(evaluations.col(j)[i] == before[bit_rev(i as nat, k) as int]);
                }
            }
            assert forall|j: int| 0 <= j < evaluations.cols@.len() implies wf_column(
                (#[trigger] evaluations.cols@[j])@,
            ) by {
                assert(wf_column(evaluations.col(j)));
            }
        }
        evaluations
    }

    /// Evaluates the columns of the matrix over the domain, leaving the
    /// matrix itself untouched.
    pub fn evaluate(&self, domain: Domain) -> (r: Matrix)
        requires
            domain.wf(),
            self.uniform(),
            self.wf(),
            self.rows_spec() <= domain.size,
        ensures
            r.num_cols_spec() == self.num_cols_spec(),
            r.uniform(),
            r.wf(),
            forall|j: int|
                0 <= j < r.num_cols_spec() ==> (#[trigger] r.col(j)).len() == domain.size,
            forall|j: int|
                0 <= j < r.num_cols_spec() ==> column_vals(#[trigger] r.col(j)) == ntt_of(
                    pad_zero(column_vals(self.col(j)), domain.size as nat),
                    domain.offset.val as int,
                ),
            forall|j: int|
                0 <= j < r.num_cols_spec() ==> intt_of(
                    column_vals(#[trigger] r.col(j)),
                    domain.offset.val as int,
                ) == pad_zero(column_vals(self.col(j)), domain.size as nat),
    {
        self.clone().into_evaluations(domain)
    }

    /// As `into_bit_reversed_evaluations`, leaving the matrix untouched.
    pub fn bit_reversed_evaluate(&self, domain: Domain) -> (r: Matrix)
        requires
            domain.wf(),
            self.uniform(),
            self.wf(),
            self.rows_spec() <= domain.size,
        ensures
            r.num_cols_spec() == self.num_cols_spec(),
            r.uniform(),
            r.wf(),
            forall|j: int|
                0 <= j < r.num_cols_spec() ==> (#[trigger] r.col(j)).len() == domain.size,
            forall|j: int|
                0 <= j < r.num_cols_spec() ==> column_vals(#[trigger] r.col(j)) == bit_rev_perm(
                    ntt_of(
                        pad_zero(column_vals(self.col(j)), domain.size as nat),
                        domain.offset.val as int,
                    ),
                ),
    {
        self.clone().into_bit_reversed_evaluations(domain)
    }

    /// One digest per row: each row's values are encoded across all
    /// columns and hashed with the fixed element-oriented hash. These
    /// digests are the Merkle leaves.
    pub fn hash_rows(&self) -> (r: Vec<Vec<u8>>)
        requires
            self.uniform(),
        ensures
            r@.len() == self.rows_spec(),
            forall|i: int| 0 <= i < r@.len() ==> (#[trigger] r@[i])@ == self.row_digest(i),
            forall|i: int| 0 <= i < r@.len() ==> (#[trigger] r@[i])@.len() == 32,
    {
        let n = self.num_rows();
        let mut out: Vec<Vec<u8>> = Vec::new();
        let mut i: usize = 0;
        while i < n
            invariant
                i <= n,
                self.uniform(),
                n == self.rows_spec(),
                out@.len() == i,
                forall|i2: int|
                    0 <= i2 < i ==> (#[trigger] out@[i2])@ == sha256_of(
                        row_bytes(self.row_spec(i2)),
                    ),
                forall|i2: int| 0 <= i2 < i ==> (#[trigger] out@[i2])@.len() == 32,
            decreases n - i,
        {
            let mut buf: Vec<u8> = Vec::new();
            let mut j: usize = 0;
            proof {
                assert(self.row_spec(i as int).take(0) =~= Seq::<Felt>::empty());
            }
            while j < self.cols.len()
                invariant
                    j <= self.cols@.len(),
                    i < n,
                    self.uniform(),
                    n == self.rows_spec(),
                    buf@ == row_bytes(self.row_spec(i as int).take(j as int)),
                decreases self.cols@.len() - j,
            {
                push_le_bytes(&mut buf, self.cols[j][i].val);
                proof {
                    let row = self.row_spec(i as int);
                    assert(row.take(j + 1).drop_last() =~= row.take(j as int));
                    assert(row.take(j + 1).last() == self.cols@[j as int]@[i as int]);
                }
                j = j + 1;
            }
            proof {
                assert(self.row_spec(i as int).take(self.cols@.len() as int) =~= self.row_spec(
                    i as int,
                ));
            }
            out.push(sha256(&buf));
            i = i + 1;
        }
        out
    }

    /// The digest `hash_rows` produces for row `i`: a function of that
    /// row's values alone.
    pub open spec fn row_digest(self, i: int) -> Seq<u8> {
        sha256_of(row_bytes(self.row_spec(i)))
    }

    /// Law (row digests are local): a row's digest is a function of that
    /// row's values alone, so two matrices that agree on a row agree on
    /// its digest.
    pub proof fn lemma_row_digest_local(m1: Matrix, m2: Matrix, i1: int, i2: int)
        requires
            m1.row_spec(i1) == m2.row_spec(i2),
        ensures
            m1.row_digest(i1) == m2.row_digest(i2),
    {
    }

    /// Law (order sensitivity of row hashing, the provable half): when
    /// `m2` holds the rows of `m1` with rows `r` and `s` exchanged, the
    /// exchanged rows carry their digests with them and every other row's
    /// digest is unchanged. That the two exchanged digests differ when
    /// the rows differ is collision resistance of the outside hash, which
    /// no contract over its named result can state.
    pub proof fn lemma_row_digest_swap(m1: Matrix, m2: Matrix, r: int, s: int)
        requires
            m1.rows_spec() == m2.rows_spec(),
            m2.row_spec(r) == m1.row_spec(s),
            m2.row_spec(s) == m1.row_spec(r),
            forall|i: int|
                0 <= i < m1.rows_spec() && i != r && i != s ==> m2.row_spec(i) == m1.row_spec(
                    i,
                ),
        ensures
            m2.row_digest(r) == m1.row_digest(s),
            m2.row_digest(s) == m1.row_digest(r),
            forall|i: int|
                0 <= i < m1.rows_spec() && i != r && i != s ==> #[trigger] m2.row_digest(i)
                    == m1.row_digest(i),
    {
        assert forall|i: int|
            0 <= i < m1.rows_spec() && i != r && i != s implies #[trigger] m2.row_digest(i)
            == m1.row_digest(i) by {
            assert(m2.row_spec(i) == m1.row_spec(i));
        }
    }

    /// Extracts the single column of a one-column matrix; reports which
    /// way the width is off otherwise.
    pub fn try_into_column(self) -> (r: Result<Vec<Felt>, MatrixError>)
        ensures
            self.num_cols_spec() == 1 ==> (r matches Ok(c) && c@ == self.col(0)),
            self.num_cols_spec() == 0 ==> (r matches Err(e) && e == MatrixError::NoColumns),
            self.num_cols_spec() > 1 ==> (r matches Err(e) && e == MatrixError::ManyColumns),
    {
        if self.cols.len() == 1 {
            let mut cols = self.cols;
            let c = cols.remove(0);
            Ok(c)
        } else if self.cols.len() == 0 {
            Err(MatrixError::NoColumns)
        } else {
            Err(MatrixError::ManyColumns)
        }
    }
}

impl Clone for Matrix {
    /// A fresh matrix with the same columns.
    fn clone(&self) -> (r: Self)
        ensures
            r.cols@.len() == self.cols@.len(),
            forall|j: int| 0 <= j < self.cols@.len() ==> (#[trigger] r.cols@[j])@
                == self.cols@[j]@,
    {
        let mut cols: Vec<Vec<Felt>> = Vec::new();
        let mut j: usize = 0;
        while j < self.cols.len()
            invariant
                j <= self.cols@.len(),
                cols@.len() == j,
                forall|j2: int| 0 <= j2 < j ==> (#[trigger] cols@[j2])@ == self.cols@[j2]@,
            decreases self.cols@.len() - j,
        {
            cols.push(clone_column(&self.cols[j]));
            j = j + 1;
        }
        Matrix { cols }
    }
}

} // verus!
