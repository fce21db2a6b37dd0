//! Multivariate constraint polynomials over named column variables, with a
//! verified evaluation semantics. Boundary, transition and terminal
//! constraints are built from variables by ring operations whose contracts
//! speak about evaluation under every assignment.

use vstd::prelude::*;
use crate::field::Felt;
use crate::field::MODULUS;
use crate::field::f_add;
use crate::field::f_sub;
use crate::field::f_mul;
use crate::field::f_pow;
use crate::field::in_range;
use crate::field::lemma_f_add_assoc;
use crate::field::lemma_f_mul_assoc;
use crate::field::lemma_f_mul_distrib;
use crate::field::lemma_f_mul_neg;
use crate::field::lemma_f_add_neg;
use crate::field::lemma_f_add_sub;
use crate::field::lemma_f_pow_one;
use crate::transform::column_vals;
use crate::transform::wf_column;

verus! {

/// One term of a multivariate polynomial: a coefficient times a monomial
/// given by one exponent per variable.
#[derive(Debug)]
pub struct Term {
    pub coeff: Felt,
    pub exps: Vec<u64>,
}

/// The value of the monomial with the given exponents under `a`, modular.
pub open spec fn mono_eval(exps: Seq<u64>, a: Seq<int>) -> int
    decreases exps.len(),
{
    if exps.len() == 0 {
        1
    } else {
        f_mul(mono_eval(exps.drop_last(), a), f_pow(a[exps.len() - 1], exps.last() as nat))
    }
}

/// The value of one term under `a`, modular.
pub open spec fn term_eval(t: Term, a: Seq<int>) -> int {
    f_mul(t.coeff.val as int, mono_eval(t.exps@, a))
}

/// The value of a sum of terms under `a`, modular.
pub open spec fn poly_eval(ts: Seq<Term>, a: Seq<int>) -> int
    decreases ts.len(),
{
    if ts.len() == 0 {
        0
    } else {
        f_add(poly_eval(ts.drop_last(), a), term_eval(ts.last(), a))
    }
}

/// A polynomial's value is always a canonical field value.
pub proof fn lemma_poly_eval_bound(ts: Seq<Term>, a: Seq<int>)
    ensures
        0 <= poly_eval(ts, a) < MODULUS,
    decreases ts.len(),
{
    if ts.len() == 0 {
    } else {
        lemma_poly_eval_bound(ts.drop_last(), a);
        vstd::arithmetic::div_mod::lemma_mod_bound(
            poly_eval(ts.drop_last(), a) + term_eval(ts.last(), a),
            MODULUS as int,
        );
    }
}

/// Evaluation of a concatenation is the field sum of the evaluations.
pub proof fn lemma_poly_eval_concat(p: Seq<Term>, q: Seq<Term>, a: Seq<int>)
    ensures
        poly_eval(p + q, a) == f_add(poly_eval(p, a), poly_eval(q, a)),
    decreases q.len(),
{
    if q.len() == 0 {
        assert(p + q =~= p);
        lemma_poly_eval_bound(p, a);
        vstd::arithmetic::div_mod::lemma_small_mod(poly_eval(p, a) as nat, MODULUS as nat);
    } else {
        assert((p + q).drop_last() =~= p + q.drop_last());
        assert((p + q).last() == q.last());
        lemma_poly_eval_concat(p, q.drop_last(), a);
        let ep = poly_eval(p, a);
        let eq0 = poly_eval(q.drop_last(), a);
        let tv = term_eval(q.last(), a);
        lemma_f_add_assoc(ep, eq0, tv);
    }
}

/// Scaling every coefficient scales the evaluation.
pub proof fn lemma_poly_eval_scaled(ts: Seq<Term>, scaled: Seq<Term>, c: int, a: Seq<int>)
    requires
        scaled.len() == ts.len(),
        forall|k: int|
            0 <= k < ts.len() ==> (#[trigger] scaled[k]).exps@ == ts[k].exps@ && scaled[k].coeff.val
                == f_mul(c, ts[k].coeff.val as int),
    ensures
        poly_eval(scaled, a) == f_mul(c, poly_eval(ts, a)),
    decreases ts.len(),
{
    if ts.len() == 0 {
        assert(f_mul(c, 0) == 0) by {
            vstd::arithmetic::div_mod::lemma_small_mod(0nat, MODULUS as nat);
        }
    } else {
        lemma_poly_eval_scaled(ts.drop_last(), scaled.drop_last(), c, a);
        let t = ts.last();
        let s = scaled.last();
        assert(s.coeff.val == f_mul(c, t.coeff.val as int));
        let m = mono_eval(t.exps@, a);
        crate::field::lemma_f_mul_noop(c * t.coeff.val as int, m);
        lemma_f_mul_assoc(c, t.coeff.val as int, m);
        assert(term_eval(s, a) == f_mul(c, term_eval(t, a)));
        lemma_f_mul_distrib(c, poly_eval(ts.drop_last(), a), term_eval(t, a));
    }
}

/// Negating every coefficient negates the evaluation.
pub proof fn lemma_poly_eval_negated(ts: Seq<Term>, negated: Seq<Term>, a: Seq<int>)
    requires
        negated.len() == ts.len(),
        forall|k: int|
            0 <= k < ts.len() ==> (#[trigger] negated[k]).exps@ == ts[k].exps@
                && negated[k].coeff.val == f_sub(0, ts[k].coeff.val as int),
    ensures
        poly_eval(negated, a) == f_sub(0, poly_eval(ts, a)),
    decreases ts.len(),
{
    if ts.len() == 0 {
        assert(f_sub(0, 0) == 0) by {
            vstd::arithmetic::div_mod::lemma_small_mod(0nat, MODULUS as nat);
        }
    } else {
        lemma_poly_eval_negated(ts.drop_last(), negated.drop_last(), a);
        let t = ts.last();
        let s = negated.last();
        let m = mono_eval(t.exps@, a);
        crate::field::lemma_f_mul_noop(0 - t.coeff.val as int, m);
        lemma_f_mul_neg(t.coeff.val as int, m);
        assert(term_eval(s, a) == f_sub(0, term_eval(t, a)));
        lemma_f_add_neg(poly_eval(ts.drop_last(), a), term_eval(t, a));
    }
}

/// The exponent row of the `i`-th variable among `n`: 1 at `i`, 0
/// elsewhere.
pub open spec fn unit_exps(i: int, n: int) -> Seq<u64> {
    Seq::new(n as nat, |k: int| if k == i { 1u64 } else { 0u64 })
}

/// A unit monomial evaluates to the selected variable.
pub proof fn lemma_mono_unit(i: int, l: int, n: int, a: Seq<int>)
    requires
        0 <= i < n,
        0 <= l <= n,
        n <= a.len(),
        in_range(a),
    ensures
        mono_eval(unit_exps(i, n).take(l), a) == if i < l {
            a[i]
        } else {
            1int
        },
    decreases l,
{
    let e = unit_exps(i, n);
    if l == 0 {
        assert(e.take(0) =~= Seq::<u64>::empty());
    } else {
        lemma_mono_unit(i, l - 1, n, a);
        assert(e.take(l).drop_last() =~= e.take(l - 1));
        assert(e.take(l).last() == e[l - 1]);
        let prev = mono_eval(e.take(l - 1), a);
        if l - 1 == i {
            lemma_f_pow_one(a[i]);
            vstd::arithmetic::div_mod::lemma_small_mod(a[i] as nat, MODULUS as nat);
            assert(f_pow(a[i], 1) == a[i]);
            assert(prev == 1);
            crate::field::lemma_f_mul_noop(1, a[i]);
            vstd::arithmetic::div_mod::lemma_small_mod(a[i] as nat, MODULUS as nat);
            assert(f_mul(1, a[i]) == a[i]);
        } else {
            assert(e.take(l).last() == 0);
            assert(f_pow(a[l - 1], 0) == 1);
            if i < l - 1 {
                vstd::arithmetic::div_mod::lemma_small_mod(a[i] as nat, MODULUS as nat);
            } else {
                vstd::arithmetic::div_mod::lemma_small_mod(1nat, MODULUS as nat);
            }
            assert(f_mul(prev, 1) == prev % (MODULUS as int));
        }
    }
}

/// A fresh copy of a term.
fn clone_term(t: &Term) -> (r: Term)
    ensures
        r.coeff == t.coeff,
        r.exps@ == t.exps@,
{
    let mut exps: Vec<u64> = Vec::new();
    let mut i: usize = 0;
    while i < t.exps.len()
        invariant
            i <= t.exps@.len(),
            exps@.len() == i,
            forall|k: int| 0 <= k < i ==> #[trigger] exps@[k] == t.exps@[k],
        decreases t.exps@.len() - i,
    {
        exps.push(t.exps[i]);
        i = i + 1;
    }
    proof {
        assert(exps@ =~= t.exps@);
    }
    Term { coeff: t.coeff, exps }
}

/// A multivariate polynomial: a sum of terms.
#[derive(Debug)]
pub struct Multivariate {
    pub terms: Vec<Term>,
}

impl Multivariate {
    /// Evaluation under an assignment, one value per variable.
    pub open spec fn eval(self, a: Seq<int>) -> int {
        poly_eval(self.terms@, a)
    }

    /// All coefficients are canonical.
    pub open spec fn wf(self) -> bool {
        forall|k: int| 0 <= k < self.terms@.len() ==> (#[trigger] self.terms@[k]).coeff.wf()
    }

    /// No term mentions a variable at or beyond `n`.
    pub open spec fn vars_below(self, n: int) -> bool {
        forall|k: int| 0 <= k < self.terms@.len() ==> (#[trigger] self.terms@[k]).exps@.len() <= n
    }

    /// The zero polynomial.
    pub fn zero() -> (r: Multivariate)
        ensures
            r.wf(),
            r.vars_below(0),
            forall|a: Seq<int>| #[trigger] r.eval(a) == 0,
    {
        Multivariate { terms: Vec::new() }
    }

    /// The constant polynomial `c`.
    pub fn constant(c: Felt) -> (r: Multivariate)
        requires
            c.wf(),
        ensures
            r.wf(),
            r.vars_below(0),
            forall|a: Seq<int>| #[trigger] r.eval(a) == c.val,
    {
        let mut terms: Vec<Term> = Vec::new();
        terms.push(Term { coeff: c, exps: Vec::new() });
        let r = Multivariate { terms };
        proof {
            assert forall|a: Seq<int>| #[trigger] r.eval(a) == c.val by {
                assert(r.terms@.len() == 1);
                assert(r.terms@.drop_last() =~= Seq::<Term>::empty());
                assert(poly_eval(r.terms@.drop_last(), a) == 0);
                assert(r.terms@.last().exps@ =~= Seq::<u64>::empty());
                assert(mono_eval(r.terms@.last().exps@, a) == 1);
                vstd::arithmetic::div_mod::lemma_small_mod(c.val as nat, MODULUS as nat);
                assert(f_mul(c.val as int, 1) == c.val);
                assert(term_eval(r.terms@.last(), a) == c.val);
                assert(poly_eval(r.terms@, a) == f_add(
                    poly_eval(r.terms@.drop_last(), a),
                    term_eval(r.terms@.last(), a),
                ));
                assert(f_add(0, c.val as int) == c.val);
            }
        }
        r
    }

    /// The polynomials `x_0 .. x_{n-1}`, one monomial per column variable.
    pub fn variables(n: usize) -> (r: Vec<Multivariate>)
        ensures
            r@.len() == n,
            forall|i: int| 0 <= i < n ==> (#[trigger] r@[i]).wf(),
            forall|i: int| 0 <= i < n ==> (#[trigger] r@[i]).vars_below(n as int),
            forall|i: int, a: Seq<int>|
                0 <= i < n && a.len() >= n && in_range(a) ==> #[trigger] r@[i].eval(a) == a[i],
    {
        let mut out: Vec<Multivariate> = Vec::new();
        let mut i: usize = 0;
        while i < n
            invariant
                i <= n,
                out@.len() == i,
                forall|i2: int|
                    0 <= i2 < i ==> (#[trigger] out@[i2]).terms@.len() == 1
                        && out@[i2].terms@[0].coeff.val == 1 && out@[i2].terms@[0].exps@
                        == unit_exps(i2, n as int),
            decreases n - i,
        {
            let mut exps: Vec<u64> = Vec::new();
            let mut k: usize = 0;
            while k < n
                invariant
                    k <= n,
                    i < n,
                    exps@.len() == k,
                    forall|k2: int|
                        0 <= k2 < k ==> #[trigger] exps@[k2] == (if k2 == i {
                            1u64
                        } else {
                            0u64
                        }),
                decreases n - k,
            {
                if k == i {
                    exps.push(1);
                } else {
                    exps.push(0);
                }
                k = k + 1;
            }
            proof {
                assert(exps@ =~= unit_exps(i as int, n as int));
            }
            let mut terms: Vec<Term> = Vec::new();
            terms.push(Term { coeff: Felt { val: 1 }, exps });
            out.push(Multivariate { terms });
            i = i + 1;
        }
        proof {
            assert forall|i: int, a: Seq<int>|
                0 <= i < n && a.len() >= n && in_range(a) implies #[trigger] out@[i].eval(a)
                == a[i] by {
                let ts = out@[i].terms@;
                assert(ts.len() == 1);
                assert(ts.drop_last() =~= Seq::<Term>::empty());
                assert(poly_eval(ts.drop_last(), a) == 0);
                lemma_mono_unit(i, n as int, n as int, a);
                assert(unit_exps(i, n as int).take(n as int) =~= unit_exps(i, n as int));
                assert(ts.last().exps@ == unit_exps(i, n as int));
                assert(mono_eval(ts.last().exps@, a) == a[i]);
                crate::field::lemma_f_mul_noop(1, a[i]);
                vstd::arithmetic::div_mod::lemma_small_mod(a[i] as nat, MODULUS as nat);
                assert(f_mul(1, a[i]) == a[i]);
                assert(ts.last().coeff.val == 1);
                assert(term_eval(ts.last(), a) == a[i]);
                assert(poly_eval(ts, a) == f_add(
                    poly_eval(ts.drop_last(), a),
                    term_eval(ts.last(), a),
                ));
                assert(f_add(0, a[i]) == a[i]);
            }
            assert forall|i: int| 0 <= i < n implies (#[trigger] out@[i]).vars_below(
                n as int,
            ) by {
                assert(out@[i].terms@.len() == 1);
                assert(out@[i].terms@[0].exps@.len() == n);
            }
            assert forall|i: int| 0 <= i < n implies (#[trigger] out@[i]).wf() by {
                assert(out@[i].terms@.len() == 1);
                assert(out@[i].terms@[0].coeff.val == 1);
            }
        }
        out
    }

    /// The sum of two polynomials: terms concatenated.
    pub fn add(&self, other: &Multivariate) -> (r: Multivariate)
        ensures
            r.wf() <== self.wf() && other.wf(),
            forall|n: int|
                #[trigger] r.vars_below(n) <== self.vars_below(n) && other.vars_below(n),
            forall|a: Seq<int>| #[trigger] r.eval(a) == f_add(self.eval(a), other.eval(a)),
    {
        let mut terms: Vec<Term> = Vec::new();
        let mut i: usize = 0;
        while i < self.terms.len()
            invariant
                i <= self.terms@.len(),
                terms@.len() == i,
                forall|k: int|
                    0 <= k < i ==> (#[trigger] terms@[k]).coeff == self.terms@[k].coeff
                        && terms@[k].exps@ == self.terms@[k].exps@,
            decreases self.terms@.len() - i,
        {
            terms.push(clone_term(&self.terms[i]));
            i = i + 1;
        }
        let mut j: usize = 0;
        while j < other.terms.len()
            invariant
                j <= other.terms@.len(),
                terms@.len() == self.terms@.len() + j,
                forall|k: int|
                    0 <= k < self.terms@.len() ==> (#[trigger] terms@[k]).coeff
                        == self.terms@[k].coeff && terms@[k].exps@ == self.terms@[k].exps@,
                forall|k: int|
                    0 <= k < j ==> (#[trigger] terms@[self.terms@.len() + k]).coeff
                        == other.terms@[k].coeff && terms@[self.terms@.len() + k].exps@
                        == other.terms@[k].exps@,
            decreases other.terms@.len() - j,
        {
            terms.push(clone_term(&other.terms[j]));
            j = j + 1;
        }
        let r = Multivariate { terms };
        proof {
            let cat = self.terms@ + other.terms@;
            assert forall|k: int|
                0 <= k < cat.len() implies (#[trigger] r.terms@[k]).coeff == cat[k].coeff
                && r.terms@[k].exps@ == cat[k].exps@ by {
                if k < self.terms@.len() {
                    assert(cat[k] == self.terms@[k]);
                } else {
                    let k2 = k - self.terms@.len();
                    assert(r.terms@[self.terms@.len() + k2].coeff == other.terms@[k2].coeff);
                    assert(r.terms@[self.terms@.len() + k2].exps@ == other.terms@[k2].exps@);
                    assert(cat[k] == other.terms@[k2]);
                }
            }
            assert forall|a: Seq<int>| #[trigger] r.eval(a) == f_add(
                self.eval(a),
                other.eval(a),
            ) by {
                lemma_poly_eval_concat(self.terms@, other.terms@, a);
                lemma_eval_respects_shape(r.terms@, cat, a);
            }
            if self.wf() && other.wf() {
                assert forall|k: int|
                    0 <= k < r.terms@.len() implies (#[trigger] r.terms@[k]).coeff.wf() by {
                    if k < self.terms@.len() {
                        assert(cat[k] == self.terms@[k]);
                    } else {
                        assert(cat[k] == other.terms@[k - self.terms@.len()]);
                    }
                }
            }
            assert forall|n: int|
                self.vars_below(n) && other.vars_below(n) implies #[trigger] r.vars_below(
                n,
            ) by {
                assert forall|k: int|
                    0 <= k < r.terms@.len() implies (#[trigger] r.terms@[k]).exps@.len()
                    <= n by {
                    if k < self.terms@.len() {
                        assert(cat[k] == self.terms@[k]);
                        assert(self.terms@[k].exps@.len() <= n);
                    } else {
                        assert(cat[k] == other.terms@[k - self.terms@.len()]);
                        assert(other.terms@[k - self.terms@.len()].exps@.len() <= n);
                    }
                }
            }
        }
        r
    }

    /// The polynomial scaled by the field element `c`.
    pub fn scale(&self, c: Felt) -> (r: Multivariate)
        requires
            self.wf(),
            c.wf(),
        ensures
            r.wf(),
            forall|n: int| #[trigger] r.vars_below(n) <== self.vars_below(n),
            forall|a: Seq<int>| #[trigger] r.eval(a) == f_mul(c.val as int, self.eval(a)),
    {
        let mut terms: Vec<Term> = Vec::new();
        let mut i: usize = 0;
        while i < self.terms.len()
            invariant
                self.wf(),
                c.wf(),
                i <= self.terms@.len(),
                terms@.len() == i,
                forall|k: int|
                    0 <= k < i ==> (#[trigger] terms@[k]).coeff.val == f_mul(
                        c.val as int,
                        self.terms@[k].coeff.val as int,
                    ) && terms@[k].exps@ == self.terms@[k].exps@ && terms@[k].coeff.wf(),
            decreases self.terms@.len() - i,
        {
            let t = clone_term(&self.terms[i]);
            let coeff = c.mul(t.coeff);
            terms.push(Term { coeff, exps: t.exps });
            i = i + 1;
        }
        let r = Multivariate { terms };
        proof {
            assert forall|a: Seq<int>| #[trigger] r.eval(a) == f_mul(
                c.val as int,
                self.eval(a),
            ) by {
                lemma_poly_eval_scaled(self.terms@, r.terms@, c.val as int, a);
            }
        }
        r
    }

    /// The additive inverse: every coefficient negated.
    pub fn neg(&self) -> (r: Multivariate)
        requires
            self.wf(),
        ensures
            r.wf(),
            forall|n: int| #[trigger] r.vars_below(n) <== self.vars_below(n),
            forall|a: Seq<int>| #[trigger] r.eval(a) == f_sub(0, self.eval(a)),
    {
        let mut terms: Vec<Term> = Vec::new();
        let mut i: usize = 0;
        while i < self.terms.len()
            invariant
                self.wf(),
                i <= self.terms@.len(),
                terms@.len() == i,
                forall|k: int|
                    0 <= k < i ==> (#[trigger] terms@[k]).coeff.val == f_sub(
                        0,
                        self.terms@[k].coeff.val as int,
                    ) && terms@[k].exps@ == self.terms@[k].exps@ && terms@[k].coeff.wf(),
            decreases self.terms@.len() - i,
        {
            let t = clone_term(&self.terms[i]);
            let coeff = Felt { val: 0 }.sub(t.coeff);
            terms.push(Term { coeff, exps: t.exps });
            i = i + 1;
        }
        let r = Multivariate { terms };
        proof {
            assert forall|a: Seq<int>| #[trigger] r.eval(a) == f_sub(0, self.eval(a)) by {
                lemma_poly_eval_negated(self.terms@, r.terms@, a);
            }
        }
        r
    }

    /// The difference of two polynomials.
    pub fn sub(&self, other: &Multivariate) -> (r: Multivariate)
        requires
            self.wf(),
            other.wf(),
        ensures
            r.wf(),
            forall|n: int|
                #[trigger] r.vars_below(n) <== self.vars_below(n) && other.vars_below(n),
            forall|a: Seq<int>| #[trigger] r.eval(a) == f_sub(self.eval(a), other.eval(a)),
    {
        let negated = other.neg();
        let r = self.add(&negated);
        proof {
            assert forall|a: Seq<int>| #[trigger] r.eval(a) == f_sub(
                self.eval(a),
                other.eval(a),
            ) by {
                assert(r.eval(a) == f_add(self.eval(a), negated.eval(a)));
                lemma_f_add_sub(self.eval(a), other.eval(a));
            }
        }
        r
    }

    /// Evaluates the polynomial at a concrete assignment of the variables.
    pub fn evaluate(&self, a: &Vec<Felt>) -> (r: Felt)
        requires
            self.wf(),
            wf_column(a@),
            self.vars_below(a@.len() as int),
        ensures
            r.val == self.eval(column_vals(a@)),
            r.wf(),
    {
        let mut acc = Felt { val: 0 };
        let mut i: usize = 0;
        proof {
            assert(self.terms@.take(0) =~= Seq::<Term>::empty());
        }
        while i < self.terms.len()
            invariant
                i <= self.terms@.len(),
                self.wf(),
                wf_column(a@),
                self.vars_below(a@.len() as int),
                acc.wf(),
                acc.val == poly_eval(self.terms@.take(i as int), column_vals(a@)),
            decreases self.terms@.len() - i,
        {
            let t = &self.terms[i];
            let mut m = Felt { val: 1 };
            let mut k: usize = 0;
            proof {
                assert(t.exps@.take(0) =~= Seq::<u64>::empty());
            }
            while k < t.exps.len()
                invariant
                    k <= t.exps@.len(),
                    i < self.terms@.len(),
                    t == &self.terms@[i as int],
                    self.wf(),
                    wf_column(a@),
                    self.vars_below(a@.len() as int),
                    m.wf(),
                    m.val == mono_eval(t.exps@.take(k as int), column_vals(a@)),
                decreases t.exps@.len() - k,
            {
                let e = t.exps[k];
                let p = a[k].pow(e);
                proof {
                    let vs = column_vals(a@);
                    assert(t.exps@.take(k + 1).drop_last() =~= t.exps@.take(k as int));
                    assert(t.exps@.take(k + 1).last() == t.exps@[k as int]);
                    assert(vs[k as int] == a@[k as int].val as int);
                }
                m = m.mul(p);
                k = k + 1;
            }
            proof {
                assert(t.exps@.take(t.exps@.len() as int) =~= t.exps@);
                assert(self.terms@.take(i + 1).drop_last() =~= self.terms@.take(i as int));
                assert(self.terms@.take(i + 1).last() == self.terms@[i as int]);
            }
            let tv = self.terms[i].coeff.mul(m);
            acc = acc.add(tv);
            i = i + 1;
        }
        proof {
            assert(self.terms@.take(self.terms@.len() as int) =~= self.terms@);
        }
        acc
    }
}

/// Two term sequences with the same coefficients and exponents evaluate
/// alike.
pub proof fn lemma_eval_respects_shape(ts1: Seq<Term>, ts2: Seq<Term>, a: Seq<int>)
    requires
        ts1.len() == ts2.len(),
        forall|k: int|
            0 <= k < ts1.len() ==> (#[trigger] ts1[k]).coeff == ts2[k].coeff && ts1[k].exps@
                == ts2[k].exps@,
    ensures
        poly_eval(ts1, a) == poly_eval(ts2, a),
    decreases ts1.len(),
{
    if ts1.len() > 0 {
        lemma_eval_respects_shape(ts1.drop_last(), ts2.drop_last(), a);
        assert(term_eval(ts1.last(), a) == term_eval(ts2.last(), a));
    }
}

} // verus!
