//! Input/output component tables: a single base column of values and a
//! running-evaluation extension column, with boundary, transition and
//! terminal constraints. The terminal constraint compensates the padding
//! rows by multiplying the expected terminal with `challenge ^ padding`.

use vstd::prelude::*;
use crate::field::Felt;
use crate::field::MODULUS;
use crate::field::f_add;
use crate::field::f_sub;
use crate::field::f_mul;
use crate::field::f_pow;
use crate::field::in_range;
use crate::constraints::Multivariate;
use crate::matrix::Matrix;
use crate::matrix::clone_column;
use crate::transform::Domain;
use crate::transform::column_vals;
use crate::transform::wf_column;
use crate::transform::is_pow2;
use crate::transform::pad_zero;
use crate::transform::ntt_of;
use crate::transform::intt_of;

verus! {

/// The running-evaluation accumulator after row `i`: the initial value at
/// row 0, then `acc' = acc * challenge + value` row by row.
pub open spec fn running_eval(values: Seq<int>, c: int, v0: int, i: int) -> int
    decreases i,
{
    if i <= 0 {
        v0 % (MODULUS as int)
    } else {
        f_add(f_mul(running_eval(values, c, v0, i - 1), c), values[i])
    }
}

/// The running evaluation started from zero: `sum of values[j] * c^(i-j)`
/// for `j` in `1..=i`, accumulated in Horner form.
pub open spec fn weighted_sum(values: Seq<int>, c: int, i: int) -> int
    decreases i,
{
    if i <= 0 {
        0
    } else {
        f_add(f_mul(weighted_sum(values, c, i - 1), c), values[i])
    }
}

/// The accumulator always holds a canonical field value.
pub proof fn lemma_running_eval_bound(values: Seq<int>, c: int, v0: int, i: int)
    ensures
        0 <= running_eval(values, c, v0, i) < MODULUS,
    decreases i,
{
    if i <= 0 {
        vstd::arithmetic::div_mod::lemma_mod_bound(v0, MODULUS as int);
    } else {
        lemma_running_eval_bound(values, c, v0, i - 1);
        vstd::arithmetic::div_mod::lemma_mod_bound(
            f_mul(running_eval(values, c, v0, i - 1), c) + values[i],
            MODULUS as int,
        );
    }
}

/// Law: the running evaluation has the Horner closed form
/// `v0 * c^i + sum of values[j] * c^(i-j) over j in 1..=i`.
pub proof fn lemma_running_eval_closed_form(values: Seq<int>, c: int, v0: int, i: int)
    requires
        0 <= i,
    ensures
        running_eval(values, c, v0, i) == f_add(
            f_mul(v0, f_pow(c, i as nat)),
            weighted_sum(values, c, i),
        ),
    decreases i,
{
    let m = MODULUS as int;
    if i == 0 {
        assert(f_pow(c, 0) == 1);
        crate::field::lemma_f_mul_noop(v0, 1);
        vstd::arithmetic::div_mod::lemma_mod_bound(v0, m);
        vstd::arithmetic::div_mod::lemma_small_mod((v0 % m) as nat, MODULUS as nat);
        assert(f_mul(v0, 1) == v0 % m) by {
            vstd::arithmetic::div_mod::lemma_mod_twice(v0, m);
        }
        assert(f_add(v0 % m, 0) == v0 % m) by {
            vstd::arithmetic::div_mod::lemma_mod_twice(v0, m);
        }
    } else {
        lemma_running_eval_closed_form(values, c, v0, i - 1);
        let p_prev = f_pow(c, (i - 1) as nat);
        let ws_prev = weighted_sum(values, c, i - 1);
        let a = f_mul(v0, p_prev);
        // distribute the challenge over the closed form of row i - 1
        crate::field::lemma_f_mul_distrib(c, a, ws_prev);
        assert(f_mul(c, f_add(a, ws_prev)) == f_add(f_mul(c, a), f_mul(c, ws_prev)));
        // regroup v0 * c^(i-1) * c as v0 * c^i
        crate::field::lemma_f_mul_assoc(c, v0, p_prev);
        crate::field::lemma_f_mul_assoc(v0, c, p_prev);
        assert(f_mul(c, a) == f_mul(v0, f_pow(c, i as nat)));
        // fold the new value into the weighted sum
        crate::field::lemma_f_add_assoc(f_mul(v0, f_pow(c, i as nat)), f_mul(c, ws_prev), values[i]);
        crate::field::lemma_f_add_noop(
            f_mul(v0, f_pow(c, i as nat)) + f_mul(c, ws_prev),
            values[i],
        );
        assert(running_eval(values, c, v0, i) == f_add(
            f_mul(running_eval(values, c, v0, i - 1), c),
            values[i],
        ));
        crate::field::lemma_f_mul_noop(f_add(a, ws_prev), c);
        assert(f_mul(running_eval(values, c, v0, i - 1), c) == f_mul(c, f_add(a, ws_prev)));
        crate::field::lemma_f_add_noop(f_mul(c, f_add(a, ws_prev)), values[i]);
    }
}

/// Law (padding offset): across `k` trailing zero-valued rows the
/// recurrence only multiplies by the challenge, so the final accumulator
/// equals the accumulator at the last real row times `challenge ^ k`.
pub proof fn lemma_padding_offset(values: Seq<int>, c: int, v0: int, last_real: int, k: int)
    requires
        0 <= last_real,
        0 <= k,
        last_real + k < values.len(),
        forall|j: int| last_real < j <= last_real + k ==> values[j] == 0,
    ensures
        running_eval(values, c, v0, last_real + k) == f_mul(
            running_eval(values, c, v0, last_real),
            f_pow(c, k as nat),
        ),
    decreases k,
{
    let m = MODULUS as int;
    let t = running_eval(values, c, v0, last_real);
    lemma_running_eval_bound(values, c, v0, last_real);
    if k == 0 {
        assert(f_pow(c, 0) == 1);
        crate::field::lemma_f_mul_noop(t, 1);
        vstd::arithmetic::div_mod::lemma_small_mod(t as nat, MODULUS as nat);
        assert(f_mul(t, 1) == t);
    } else {
        lemma_padding_offset(values, c, v0, last_real, k - 1);
        let p_prev = f_pow(c, (k - 1) as nat);
        assert(values[last_real + k] == 0);
        assert(running_eval(values, c, v0, last_real + k) == f_add(
            f_mul(running_eval(values, c, v0, last_real + k - 1), c),
            0,
        ));
        let y = f_mul(f_mul(t, p_prev), c);
        vstd::arithmetic::div_mod::lemma_mod_bound(f_mul(t, p_prev) * c, m);
        vstd::arithmetic::div_mod::lemma_small_mod(y as nat, MODULUS as nat);
        assert(f_add(y, 0) == y);
        crate::field::lemma_f_mul_assoc(t, p_prev, c);
        crate::field::lemma_f_mul_noop(p_prev, c);
        crate::field::lemma_f_mul_noop(t, f_pow(c, k as nat));
        assert(f_mul(p_prev, c) == f_mul(c, p_prev));
        assert(y == f_mul(t, f_pow(c, k as nat)));
    }
}

/// Law (terminal offset): with `k` trailing zero rows the terminal
/// residual `E_final - terminal * challenge^k` vanishes, while the
/// uncompensated residual `E_final - terminal` is non-zero whenever
/// `terminal * challenge^k` differs from `terminal`.
pub proof fn lemma_terminal_offset(values: Seq<int>, c: int, v0: int, len: int, k: int)
    requires
        1 <= len,
        0 <= k,
        len + k == values.len(),
        forall|j: int| len <= j < values.len() ==> values[j] == 0,
    ensures
        f_sub(
            running_eval(values, c, v0, len + k - 1),
            f_mul(running_eval(values, c, v0, len - 1), f_pow(c, k as nat)),
        ) == 0,
        f_mul(running_eval(values, c, v0, len - 1), f_pow(c, k as nat)) != running_eval(
            values,
            c,
            v0,
            len - 1,
        ) ==> f_sub(
            running_eval(values, c, v0, len + k - 1),
            running_eval(values, c, v0, len - 1),
        ) != 0,
{
    let m = MODULUS as int;
    lemma_padding_offset(values, c, v0, len - 1, k);
    let e_final = running_eval(values, c, v0, len + k - 1);
    let terminal = running_eval(values, c, v0, len - 1);
    vstd::arithmetic::div_mod::lemma_small_mod(0nat, MODULUS as nat);
    assert(f_sub(e_final, f_mul(terminal, f_pow(c, k as nat))) == 0);
    if f_mul(terminal, f_pow(c, k as nat)) != terminal {
        lemma_running_eval_bound(values, c, v0, len + k - 1);
        lemma_running_eval_bound(values, c, v0, len - 1);
        assert(e_final != terminal);
        if e_final > terminal {
            vstd::arithmetic::div_mod::lemma_small_mod((e_final - terminal) as nat, MODULUS as nat);
        } else {
            vstd::arithmetic::div_mod::lemma_mod_add_multiples_vanish(e_final - terminal, m);
            vstd::arithmetic::div_mod::lemma_small_mod(
                (e_final - terminal + m) as nat,
                MODULUS as nat,
            );
        }
    }
}

/// Law (padding-offset regression, table form): for any table with at
/// least one real row, the final running evaluation over its base column
/// equals the last real row's evaluation times `challenge ^ padded`, so
/// the compensated terminal residual vanishes at the final stored row and
/// the uncompensated residual does not whenever the compensation changes
/// the expected terminal. (Over this field the hypothesis of the second
/// clause holds whenever the terminal is non-zero and `challenge ^
/// padded` is not one; deriving that needs primality of the modulus,
/// which is not stated here, so the hypothesis is taken directly.)
pub proof fn lemma_table_terminal_offset(t: IoTable, c: int, v0: int)
    requires
        t.wf(),
        t.len_spec() >= 1,
    ensures
        f_sub(
            running_eval(column_vals(t.matrix@), c, v0, t.height_spec() - 1),
            f_mul(
                running_eval(column_vals(t.matrix@), c, v0, t.len_spec() - 1),
                f_pow(c, t.num_padded_rows as nat),
            ),
        ) == 0,
        f_mul(
            running_eval(column_vals(t.matrix@), c, v0, t.len_spec() - 1),
            f_pow(c, t.num_padded_rows as nat),
        ) != running_eval(column_vals(t.matrix@), c, v0, t.len_spec() - 1) ==> f_sub(
            running_eval(column_vals(t.matrix@), c, v0, t.height_spec() - 1),
            running_eval(column_vals(t.matrix@), c, v0, t.len_spec() - 1),
        ) != 0,
{
    let vals = column_vals(t.matrix@);
    assert forall|j: int| t.len_spec() <= j < vals.len() implies vals[j] == 0 by {
        assert(t.matrix@[j].val == 0);
    }
    lemma_terminal_offset(vals, c, v0, t.len_spec(), t.num_padded_rows as int);
}

/// One input/output table: a single base column of values, a count of
/// zero-valued padding rows appended past the real execution, and, once
/// challenges are known, an extension pair of columns (the value column
/// and its running evaluation).
#[derive(Debug)]
pub struct IoTable {
    pub num_padded_rows: usize,
    pub matrix: Vec<Felt>,
    pub extended_matrix: Option<Matrix>,
}

impl IoTable {
    /// Number of stored rows, padding included.
    pub open spec fn height_spec(self) -> nat {
        self.matrix@.len()
    }

    /// Number of real (non-padded) rows.
    pub open spec fn len_spec(self) -> int {
        self.matrix@.len() - self.num_padded_rows
    }

    /// Padding bookkeeping is consistent and padded rows hold zero.
    pub open spec fn wf(self) -> bool {
        &&& self.num_padded_rows <= self.matrix@.len()
        &&& wf_column(self.matrix@)
        &&& forall|i: int|
            self.len_spec() <= i < self.height_spec() ==> self.matrix@[i].val == 0
    }

    /// The extension matrix, once built.
    pub open spec fn ext_matrix(self) -> Matrix
        recommends
            self.extended_matrix is Some,
    {
        self.extended_matrix->Some_0
    }

    /// A fresh, empty table.
    pub fn new() -> (r: IoTable)
        ensures
            r.wf(),
            r.height_spec() == 0,
            r.len_spec() == 0,
            r.num_padded_rows == 0,
            r.extended_matrix is None,
    {
        IoTable { num_padded_rows: 0, matrix: Vec::new(), extended_matrix: None }
    }

    /// Real (non-padded) row count.
    pub fn len(&self) -> (r: usize)
        requires
            self.wf(),
        ensures
            r == self.len_spec(),
    {
        self.matrix.len() - self.num_padded_rows
    }

    /// Total stored rows, padding included.
    pub fn height(&self) -> (r: usize)
        ensures
            r == self.height_spec(),
    {
        self.matrix.len()
    }

    /// Appends zero-valued rows until the height reaches `n`, counting
    /// each appended row as padding. A no-op once the target is reached.
    pub fn pad(&mut self, n: usize)
        requires
            old(self).wf(),
        ensures
            final(self).wf(),
            final(self).len_spec() == old(self).len_spec(),
            final(self).height_spec() == if old(self).height_spec() >= n {
                old(self).height_spec() as int
            } else {
                n as int
            },
            final(self).matrix@.take(old(self).matrix@.len() as int) == old(self).matrix@,
            forall|i: int|
                old(self).matrix@.len() <= i < final(self).matrix@.len()
                    ==> final(self).matrix@[i].val == 0,
            final(self).extended_matrix == old(self).extended_matrix,
    {
        while self.matrix.len() < n
            invariant
                self.wf(),
                self.len_spec() == old(self).len_spec(),
                old(self).matrix@.len() <= self.matrix@.len(),
                self.matrix@.len() <= n || self.matrix@.len() == old(self).matrix@.len(),
                self.matrix@.take(old(self).matrix@.len() as int) == old(self).matrix@,
                forall|i: int|
                    old(self).matrix@.len() <= i < self.matrix@.len() ==> self.matrix@[i].val
                        == 0,
                self.extended_matrix == old(self).extended_matrix,
            decreases n - self.matrix@.len(),
        {
            self.matrix.push(Felt { val: 0 });
            self.num_padded_rows = self.num_padded_rows + 1;
            proof {
                assert(self.matrix@.take(old(self).matrix@.len() as int) =~= old(self).matrix@);
            }
        }
    }

    /// Installs the base column and resets the padding counter.
    pub fn set_matrix(&mut self, matrix: Vec<Felt>)
        requires
            wf_column(matrix@),
        ensures
            final(self).wf(),
            final(self).matrix@ == matrix@,
            final(self).num_padded_rows == 0,
            final(self).extended_matrix == old(self).extended_matrix,
    {
        self.num_padded_rows = 0;
        self.matrix = matrix;
    }

    /// Degree bound of the interpolant of the base column.
    pub fn interpolant_degree(&self) -> (r: usize)
        ensures
            r == self.height_spec(),
    {
        self.matrix.len()
    }

    /// Base-encoding boundary constraints: none for an io table.
    pub fn base_boundary_constraints() -> (r: Vec<Multivariate>)
        ensures
            r@.len() == 0,
    {
        Vec::new()
    }

    /// Base-encoding transition constraints: none for an io table.
    pub fn base_transition_constraints() -> (r: Vec<Multivariate>)
        ensures
            r@.len() == 0,
    {
        Vec::new()
    }

    /// Extension boundary constraint: at row 0 the running evaluation
    /// equals the value, `evaluation - value`.
    pub fn extension_boundary_constraints() -> (r: Vec<Multivariate>)
        ensures
            r@.len() == 1,
            r@[0].wf(),
            r@[0].vars_below(2),
            forall|a: Seq<int>|
                a.len() >= 2 && in_range(a) ==> #[trigger] r@[0].eval(a) == f_sub(a[1], a[0]),
    {
        let vars = Multivariate::variables(2);
        let c = vars[1].sub(&vars[0]);
        let mut out: Vec<Multivariate> = Vec::new();
        out.push(c);
        out
    }

    /// Extension transition constraint over a consecutive row pair
    /// `(value, evaluation, value', evaluation')`:
    /// `evaluation * challenge + value' - evaluation'`.
    pub fn extension_transition_constraints(challenge: Felt) -> (r: Vec<Multivariate>)
        requires
            challenge.wf(),
        ensures
            r@.len() == 1,
            r@[0].wf(),
            r@[0].vars_below(4),
            forall|a: Seq<int>|
                a.len() >= 4 && in_range(a) ==> #[trigger] r@[0].eval(a) == f_sub(
                    f_add(f_mul(challenge.val as int, a[1]), a[2]),
                    a[3],
                ),
    {
        let vars = Multivariate::variables(4);
        let c = vars[1].scale(challenge).add(&vars[2]).sub(&vars[3]);
        let mut out: Vec<Multivariate> = Vec::new();
        out.push(c);
        out
    }

    /// Extension terminal constraint: the running evaluation at the final
    /// stored row must equal the expected terminal pre-multiplied by
    /// `challenge ^ num_padded_rows`, compensating the padding rows'
    /// extra applications of the recurrence.
    pub fn extension_terminal_constraints(&self, challenge: Felt, terminal: Felt) -> (r: Vec<
        Multivariate,
    >)
        requires
            self.wf(),
            challenge.wf(),
            terminal.wf(),
        ensures
            r@.len() == 1,
            r@[0].wf(),
            r@[0].vars_below(2),
            forall|a: Seq<int>|
                a.len() >= 2 && in_range(a) ==> #[trigger] r@[0].eval(a) == f_sub(
                    a[1],
                    f_mul(terminal.val as int, f_pow(challenge.val as int, self.num_padded_rows as nat)),
                ),
    {
        let offset = challenge.pow(self.num_padded_rows as u64);
        let actual_terminal = terminal.mul(offset);
        let vars = Multivariate::variables(2);
        let c = vars[1].sub(&Multivariate::constant(actual_terminal));
        let mut out: Vec<Multivariate> = Vec::new();
        out.push(c);
        out
    }

    /// Builds the extension pair: the value column lifted unchanged, and
    /// the running evaluation started at `initial` and folded row by row
    /// with `challenge`.
    pub fn extend(&mut self, challenge: Felt, initial: Felt)
        requires
            old(self).wf(),
            challenge.wf(),
            initial.wf(),
        ensures
            final(self).matrix@ == old(self).matrix@,
            final(self).num_padded_rows == old(self).num_padded_rows,
            final(self).wf(),
            final(self).extended_matrix matches Some(m) && {
                &&& m.num_cols_spec() == 2
                &&& m.uniform()
                &&& m.wf()
                &&& m.col(0) == old(self).matrix@
                &&& m.col(1).len() == old(self).matrix@.len()
                &&& forall|i: int|
                    0 <= i < old(self).matrix@.len() ==> (#[trigger] m.col(1)[i]).val
                        == running_eval(
                        column_vals(old(self).matrix@),
                        challenge.val as int,
                        initial.val as int,
                        i,
                    )
            },
    {
        let h = self.matrix.len();
        let ghost vals = column_vals(self.matrix@);
        let mut ev: Vec<Felt> = Vec::new();
        if h > 0 {
            ev.push(initial);
            proof {
                vstd::arithmetic::div_mod::lemma_small_mod(initial.val as nat, MODULUS as nat);
            }
            let mut i: usize = 1;
            while i < h
                invariant
                    1 <= i <= h,
                    self.wf(),
                    challenge.wf(),
                    h == self.matrix@.len(),
                    vals == column_vals(self.matrix@),
                    ev@.len() == i,
                    wf_column(ev@),
                    forall|i2: int|
                        0 <= i2 < i ==> (#[trigger] ev@[i2]).val == running_eval(
                            vals,
                            challenge.val as int,
                            initial.val as int,
                            i2,
                        ),
                decreases h - i,
            {
                let prev = ev[i - 1];
                let next = prev.mul(challenge).add(self.matrix[i]);
                proof {
                    assert(vals[i as int] == self.matrix@[i as int].val as int);
                }
                ev.push(next);
                i = i + 1;
            }
        }
        let value_col = clone_column(&self.matrix);
        let mut cols: Vec<Vec<Felt>> = Vec::new();
        cols.push(value_col);
        cols.push(ev);
        self.extended_matrix = Some(Matrix::new(cols));
    }

    /// Interpolates the base column over the trace domain, zero-extends
    /// the coefficients to the codeword length, and evaluates over the
    /// coset shifted by `offset`, returning one codeword per base column.
    pub fn base_lde(&self, offset: Felt, codeword_len: usize) -> (r: Vec<Vec<Felt>>)
        requires
            self.wf(),
            is_pow2(self.height_spec()),
            self.height_spec() >= 2,
            is_pow2(codeword_len as nat),
            self.height_spec() <= codeword_len,
            codeword_len < 0x100000000,
            offset.wf(),
            offset.val != 0,
        ensures
            r@.len() == 1,
            r@[0]@.len() == codeword_len,
            wf_column(r@[0]@),
            column_vals(r@[0]@) == ntt_of(
                pad_zero(intt_of(column_vals(self.matrix@), 1), codeword_len as nat),
                offset.val as int,
            ),
    {
        let trace_domain = Domain::new(self.matrix.len(), Felt { val: 1 });
        let lde_domain = Domain::new(codeword_len, offset);
        let mut cols: Vec<Vec<Felt>> = Vec::new();
        cols.push(clone_column(&self.matrix));
        let base = Matrix::new(cols);
        let polynomials = base.into_polynomials(trace_domain);
        proof {
            assert(polynomials.col(0).len() == trace_domain.size);
            assert(polynomials.rows_spec() == trace_domain.size);
        }
        let codewords = polynomials.into_evaluations(lde_domain);
        proof {
            assert(codewords.col(0) == codewords.cols@[0]@);
        }
        codewords.cols
    }

    /// As `base_lde`, over the extension pair; the codeword length is the
    /// height scaled by the expansion factor.
    pub fn extension_lde(&self, offset: Felt, expansion_factor: usize) -> (r: Vec<Vec<Felt>>)
        requires
            self.wf(),
            self.extended_matrix is Some,
            self.ext_matrix().uniform(),
            self.ext_matrix().wf(),
            self.ext_matrix().num_cols_spec() == 2,
            self.ext_matrix().rows_spec() == self.height_spec(),
            is_pow2(self.height_spec()),
            self.height_spec() >= 2,
            is_pow2(expansion_factor as nat),
            self.height_spec() * expansion_factor < 0x100000000,
            self.height_spec() * expansion_factor <= usize::MAX,
            offset.wf(),
            offset.val != 0,
        ensures
            r@.len() == 2,
            forall|j: int|
                0 <= j < 2 ==> (#[trigger] r@[j])@.len() == self.height_spec() * expansion_factor,
            forall|j: int| 0 <= j < 2 ==> wf_column((#[trigger] r@[j])@),
            forall|j: int|
                0 <= j < 2 ==> column_vals((#[trigger] r@[j])@) == ntt_of(
                    pad_zero(
                        intt_of(column_vals(self.ext_matrix().col(j)), 1),
                        (self.height_spec() * expansion_factor) as nat,
                    ),
                    offset.val as int,
                ),
    {
        let h = self.height();
        let codeword_len: usize = h * expansion_factor;
        proof {
            crate::transform::lemma_is_pow2_mul(self.height_spec(), expansion_factor as nat);
        }
        let trace_domain = Domain::new(h, Felt { val: 1 });
        let lde_domain = Domain::new(codeword_len, offset);
        let ext = self.extended_matrix.as_ref().unwrap();
        let polynomials = ext.interpolate(trace_domain);
        proof {
            assert(polynomials.col(0).len() == trace_domain.size);
            assert(polynomials.rows_spec() == trace_domain.size);
        }
        let codewords = polynomials.into_evaluations(lde_domain);
        proof {
            assert forall|j: int| 0 <= j < 2 implies column_vals(
                #[trigger] codewords.cols@[j]@,
            ) == ntt_of(
                pad_zero(
                    intt_of(column_vals(self.ext_matrix().col(j)), 1),
                    (self.height_spec() * expansion_factor) as nat,
                ),
                offset.val as int,
            ) by {
                assert(codewords.col(j) == codewords.cols@[j]@);
                assert(column_vals(polynomials.col(j)) == intt_of(
                    column_vals(self.ext_matrix().col(j)),
                    1,
                ));
            }
            assert forall|j: int| 0 <= j < 2 implies wf_column(
                (#[trigger] codewords.cols@[j])@,
            ) by {
                assert(wf_column(codewords.col(j)));
            }
            assert forall|j: int|
                0 <= j < 2 implies (#[trigger] codewords.cols@[j])@.len() == self.height_spec()
                * expansion_factor by {
                assert(codewords.col(j).len() == lde_domain.size);
            }
        }
        codewords.cols
    }
}

/// Number of shared challenge elements the io tables index into.
pub const NUM_CHALLENGES: usize = 11;

/// Number of shared terminal values the io tables index into.
pub const NUM_TERMINALS: usize = 5;

/// The table of program output values, a running evaluation keyed by the
/// tenth challenge, checked against the processor's output-evaluation
/// terminal.
#[derive(Debug)]
pub struct OutputTable(pub IoTable);

impl OutputTable {
    /// Position of this table's challenge among the shared challenges.
    pub open spec fn challenge_index() -> int {
        9
    }

    /// Position of this table's expected terminal among the terminals.
    pub open spec fn terminal_index() -> int {
        3
    }

    pub fn new() -> (r: OutputTable)
        ensures
            r.0.wf(),
            r.0.height_spec() == 0,
            r.0.len_spec() == 0,
            r.0.num_padded_rows == 0,
            r.0.extended_matrix is None,
    {
        OutputTable(IoTable::new())
    }

    pub fn len(&self) -> (r: usize)
        requires
            self.0.wf(),
        ensures
            r == self.0.len_spec(),
    {
        self.0.len()
    }

    pub fn height(&self) -> (r: usize)
        ensures
            r == self.0.height_spec(),
    {
        self.0.height()
    }

    pub fn pad(&mut self, n: usize)
        requires
            old(self).0.wf(),
        ensures
            final(self).0.wf(),
            final(self).0.len_spec() == old(self).0.len_spec(),
            final(self).0.height_spec() == if old(self).0.height_spec() >= n {
                old(self).0.height_spec() as int
            } else {
                n as int
            },
            final(self).0.matrix@.take(old(self).0.matrix@.len() as int) == old(self).0.matrix@,
            forall|i: int|
                old(self).0.matrix@.len() <= i < final(self).0.matrix@.len()
                    ==> final(self).0.matrix@[i].val == 0,
    {
        self.0.pad(n)
    }

    pub fn base_boundary_constraints() -> (r: Vec<Multivariate>)
        ensures
            r@.len() == 0,
    {
        IoTable::base_boundary_constraints()
    }

    pub fn base_transition_constraints() -> (r: Vec<Multivariate>)
        ensures
            r@.len() == 0,
    {
        IoTable::base_transition_constraints()
    }

    pub fn extension_boundary_constraints(_challenges: &Vec<Felt>) -> (r: Vec<Multivariate>)
        ensures
            r@.len() == 1,
            r@[0].wf(),
            r@[0].vars_below(2),
            forall|a: Seq<int>|
                a.len() >= 2 && in_range(a) ==> #[trigger] r@[0].eval(a) == f_sub(a[1], a[0]),
    {
        IoTable::extension_boundary_constraints()
    }

    pub fn extension_transition_constraints(challenges: &Vec<Felt>) -> (r: Vec<Multivariate>)
        requires
            challenges@.len() >= NUM_CHALLENGES,
            wf_column(challenges@),
        ensures
            r@.len() == 1,
            r@[0].wf(),
            r@[0].vars_below(4),
            forall|a: Seq<int>|
                a.len() >= 4 && in_range(a) ==> #[trigger] r@[0].eval(a) == f_sub(
                    f_add(f_mul(challenges@[Self::challenge_index()].val as int, a[1]), a[2]),
                    a[3],
                ),
    {
        let delta = challenges[9];
        IoTable::extension_transition_constraints(delta)
    }

    pub fn extension_terminal_constraints(&self, challenges: &Vec<Felt>, terminals: &Vec<Felt>)
        -> (r: Vec<Multivariate>)
        requires
            self.0.wf(),
            challenges@.len() >= NUM_CHALLENGES,
            wf_column(challenges@),
            terminals@.len() >= NUM_TERMINALS,
            wf_column(terminals@),
        ensures
            r@.len() == 1,
            r@[0].wf(),
            r@[0].vars_below(2),
            forall|a: Seq<int>|
                a.len() >= 2 && in_range(a) ==> #[trigger] r@[0].eval(a) == f_sub(
                    a[1],
                    f_mul(
                        terminals@[Self::terminal_index()].val as int,
                        f_pow(
                            challenges@[Self::challenge_index()].val as int,
                            self.0.num_padded_rows as nat,
                        ),
                    ),
                ),
    {
        let delta = challenges[9];
        let processor_output_evaluation_terminal = terminals[3];
        self.0.extension_terminal_constraints(delta, processor_output_evaluation_terminal)
    }

    pub fn interpolant_degree(&self) -> (r: usize)
        ensures
            r == self.0.height_spec(),
    {
        self.0.interpolant_degree()
    }

    pub fn set_matrix(&mut self, matrix: Vec<Felt>)
        requires
            wf_column(matrix@),
        ensures
            final(self).0.wf(),
            final(self).0.matrix@ == matrix@,
            final(self).0.num_padded_rows == 0,
    {
        self.0.set_matrix(matrix)
    }

    /// Builds the running-evaluation extension from this table's
    /// challenge and the first caller-supplied initial accumulator.
    pub fn extend(&mut self, challenges: &Vec<Felt>, initials: &Vec<Felt>)
        requires
            old(self).0.wf(),
            challenges@.len() >= NUM_CHALLENGES,
            wf_column(challenges@),
            initials@.len() >= 1,
            wf_column(initials@),
        ensures
            final(self).0.matrix@ == old(self).0.matrix@,
            final(self).0.num_padded_rows == old(self).0.num_padded_rows,
            final(self).0.wf(),
            final(self).0.extended_matrix matches Some(m) && {
                &&& m.num_cols_spec() == 2
                &&& m.uniform()
                &&& m.wf()
                &&& m.col(0) == old(self).0.matrix@
                &&& m.col(1).len() == old(self).0.matrix@.len()
                &&& forall|i: int|
                    0 <= i < old(self).0.matrix@.len() ==> (#[trigger] m.col(1)[i]).val
                        == running_eval(
                        column_vals(old(self).0.matrix@),
                        challenges@[Self::challenge_index()].val as int,
                        initials@[0].val as int,
                        i,
                    )
            },
    {
        let delta = challenges[9];
        self.0.extend(delta, initials[0])
    }

    pub fn base_lde(&self, offset: Felt, codeword_len: usize) -> (r: Vec<Vec<Felt>>)
        requires
            self.0.wf(),
            is_pow2(self.0.height_spec()),
            self.0.height_spec() >= 2,
            is_pow2(codeword_len as nat),
            self.0.height_spec() <= codeword_len,
            codeword_len < 0x100000000,
            offset.wf(),
            offset.val != 0,
        ensures
            r@.len() == 1,
            r@[0]@.len() == codeword_len,
            wf_column(r@[0]@),
            column_vals(r@[0]@) == ntt_of(
                pad_zero(intt_of(column_vals(self.0.matrix@), 1), codeword_len as nat),
                offset.val as int,
            ),
    {
        self.0.base_lde(offset, codeword_len)
    }

    pub fn extension_lde(&self, offset: Felt, expansion_factor: usize) -> (r: Vec<Vec<Felt>>)
        requires
            self.0.wf(),
            self.0.extended_matrix is Some,
            self.0.ext_matrix().uniform(),
            self.0.ext_matrix().wf(),
            self.0.ext_matrix().num_cols_spec() == 2,
            self.0.ext_matrix().rows_spec() == self.0.height_spec(),
            is_pow2(self.0.height_spec()),
            self.0.height_spec() >= 2,
            is_pow2(expansion_factor as nat),
            self.0.height_spec() * expansion_factor < 0x100000000,
            self.0.height_spec() * expansion_factor <= usize::MAX,
            offset.wf(),
            offset.val != 0,
        ensures
            r@.len() == 2,
            forall|j: int|
                0 <= j < 2 ==> (#[trigger] r@[j])@.len() == self.0.height_spec()
                    * expansion_factor,
            forall|j: int| 0 <= j < 2 ==> wf_column((#[trigger] r@[j])@),
            forall|j: int|
                0 <= j < 2 ==> column_vals((#[trigger] r@[j])@) == ntt_of(
                    pad_zero(
                        intt_of(column_vals(self.0.ext_matrix().col(j)), 1),
                        (self.0.height_spec() * expansion_factor) as nat,
                    ),
                    offset.val as int,
                ),
    {
        self.0.extension_lde(offset, expansion_factor)
    }
}

/// The table of program input values, a running evaluation keyed by the
/// ninth challenge, checked against the processor's input-evaluation
/// terminal.
#[derive(Debug)]
pub struct InputTable(pub IoTable);

impl InputTable {
    /// Position of this table's challenge among the shared challenges.
    pub open spec fn challenge_index() -> int {
        8
    }

    /// Position of this table's expected terminal among the terminals.
    pub open spec fn terminal_index() -> int {
        2
    }

    pub fn new() -> (r: InputTable)
        ensures
            r.0.wf(),
            r.0.height_spec() == 0,
            r.0.len_spec() == 0,
            r.0.num_padded_rows == 0,
            r.0.extended_matrix is None,
    {
        InputTable(IoTable::new())
    }

    pub fn len(&self) -> (r: usize)
        requires
            self.0.wf(),
        ensures
            r == self.0.len_spec(),
    {
        self.0.len()
    }

    pub fn height(&self) -> (r: usize)
        ensures
            r == self.0.height_spec(),
    {
        self.0.height()
    }

    pub fn pad(&mut self, n: usize)
        requires
            old(self).0.wf(),
        ensures
            final(self).0.wf(),
            final(self).0.len_spec() == old(self).0.len_spec(),
            final(self).0.height_spec() == if old(self).0.height_spec() >= n {
                old(self).0.height_spec() as int
            } else {
                n as int
            },
            final(self).0.matrix@.take(old(self).0.matrix@.len() as int) == old(self).0.matrix@,
            forall|i: int|
                old(self).0.matrix@.len() <= i < final(self).0.matrix@.len()
                    ==> final(self).0.matrix@[i].val == 0,
    {
        self.0.pad(n)
    }

    pub fn base_boundary_constraints() -> (r: Vec<Multivariate>)
        ensures
            r@.len() == 0,
    {
        IoTable::base_boundary_constraints()
    }

    pub fn base_transition_constraints() -> (r: Vec<Multivariate>)
        ensures
            r@.len() == 0,
    {
        IoTable::base_transition_constraints()
    }

    pub fn extension_boundary_constraints(_challenges: &Vec<Felt>) -> (r: Vec<Multivariate>)
        ensures
            r@.len() == 1,
            r@[0].wf(),
            r@[0].vars_below(2),
            forall|a: Seq<int>|
                a.len() >= 2 && in_range(a) ==> #[trigger] r@[0].eval(a) == f_sub(a[1], a[0]),
    {
        IoTable::extension_boundary_constraints()
    }

    pub fn extension_transition_constraints(challenges: &Vec<Felt>) -> (r: Vec<Multivariate>)
        requires
            challenges@.len() >= NUM_CHALLENGES,
            wf_column(challenges@),
        ensures
            r@.len() == 1,
            r@[0].wf(),
            r@[0].vars_below(4),
            forall|a: Seq<int>|
                a.len() >= 4 && in_range(a) ==> #[trigger] r@[0].eval(a) == f_sub(
                    f_add(f_mul(challenges@[Self::challenge_index()].val as int, a[1]), a[2]),
                    a[3],
                ),
    {
        let gamma = challenges[8];
        IoTable::extension_transition_constraints(gamma)
    }

    pub fn extension_terminal_constraints(&self, challenges: &Vec<Felt>, terminals: &Vec<Felt>)
        -> (r: Vec<Multivariate>)
        requires
            self.0.wf(),
            challenges@.len() >= NUM_CHALLENGES,
            wf_column(challenges@),
            terminals@.len() >= NUM_TERMINALS,
            wf_column(terminals@),
        ensures
            r@.len() == 1,
            r@[0].wf(),
            r@[0].vars_below(2),
            forall|a: Seq<int>|
                a.len() >= 2 && in_range(a) ==> #[trigger] r@[0].eval(a) == f_sub(
                    a[1],
                    f_mul(
                        terminals@[Self::terminal_index()].val as int,
                        f_pow(
                            challenges@[Self::challenge_index()].val as int,
                            self.0.num_padded_rows as nat,
                        ),
                    ),
                ),
    {
        let gamma = challenges[8];
        let processor_input_evaluation_terminal = terminals[2];
        self.0.extension_terminal_constraints(gamma, processor_input_evaluation_terminal)
    }

    pub fn interpolant_degree(&self) -> (r: usize)
        ensures
            r == self.0.height_spec(),
    {
        self.0.interpolant_degree()
    }

    pub fn set_matrix(&mut self, matrix: Vec<Felt>)
        requires
            wf_column(matrix@),
        ensures
            final(self).0.wf(),
            final(self).0.matrix@ == matrix@,
            final(self).0.num_padded_rows == 0,
    {
        self.0.set_matrix(matrix)
    }

    /// Builds the running-evaluation extension from this table's
    /// challenge and the first caller-supplied initial accumulator.
    pub fn extend(&mut self, challenges: &Vec<Felt>, initials: &Vec<Felt>)
        requires
            old(self).0.wf(),
            challenges@.len() >= NUM_CHALLENGES,
            wf_column(challenges@),
            initials@.len() >= 1,
            wf_column(initials@),
        ensures
            final(self).0.matrix@ == old(self).0.matrix@,
            final(self).0.num_padded_rows == old(self).0.num_padded_rows,
            final(self).0.wf(),
            final(self).0.extended_matrix matches Some(m) && {
                &&& m.num_cols_spec() == 2
                &&& m.uniform()
                &&& m.wf()
                &&& m.col(0) == old(self).0.matrix@
                &&& m.col(1).len() == old(self).0.matrix@.len()
                &&& forall|i: int|
                    0 <= i < old(self).0.matrix@.len() ==> (#[trigger] m.col(1)[i]).val
                        == running_eval(
                        column_vals(old(self).0.matrix@),
                        challenges@[Self::challenge_index()].val as int,
                        initials@[0].val as int,
                        i,
                    )
            },
    {
        let gamma = challenges[8];
        self.0.extend(gamma, initials[0])
    }

    pub fn base_lde(&self, offset: Felt, codeword_len: usize) -> (r: Vec<Vec<Felt>>)
        requires
            self.0.wf(),
            is_pow2(self.0.height_spec()),
            self.0.height_spec() >= 2,
            is_pow2(codeword_len as nat),
            self.0.height_spec() <= codeword_len,
            codeword_len < 0x100000000,
            offset.wf(),
            offset.val != 0,
        ensures
            r@.len() == 1,
            r@[0]@.len() == codeword_len,
            wf_column(r@[0]@),
            column_vals(r@[0]@) == ntt_of(
                pad_zero(intt_of(column_vals(self.0.matrix@), 1), codeword_len as nat),
                offset.val as int,
            ),
    {
        self.0.base_lde(offset, codeword_len)
    }

    pub fn extension_lde(&self, offset: Felt, expansion_factor: usize) -> (r: Vec<Vec<Felt>>)
        requires
            self.0.wf(),
            self.0.extended_matrix is Some,
            self.0.ext_matrix().uniform(),
            self.0.ext_matrix().wf(),
            self.0.ext_matrix().num_cols_spec() == 2,
            self.0.ext_matrix().rows_spec() == self.0.height_spec(),
            is_pow2(self.0.height_spec()),
            self.0.height_spec() >= 2,
            is_pow2(expansion_factor as nat),
            self.0.height_spec() * expansion_factor < 0x100000000,
            self.0.height_spec() * expansion_factor <= usize::MAX,
            offset.wf(),
            offset.val != 0,
        ensures
            r@.len() == 2,
            forall|j: int|
                0 <= j < 2 ==> (#[trigger] r@[j])@.len() == self.0.height_spec()
                    * expansion_factor,
            forall|j: int| 0 <= j < 2 ==> wf_column((#[trigger] r@[j])@),
            forall|j: int|
                0 <= j < 2 ==> column_vals((#[trigger] r@[j])@) == ntt_of(
                    pad_zero(
                        intt_of(column_vals(self.0.ext_matrix().col(j)), 1),
                        (self.0.height_spec() * expansion_factor) as nat,
                    ),
                    offset.val as int,
                ),
    {
        self.0.extension_lde(offset, expansion_factor)
    }
}

} // verus!

