//! Polynomial transforms: interpolation (inverse transform) and evaluation
//! (forward transform) of columns over a multiplicative coset, performed by
//! an outside number-theoretic-transform kernel and consumed here as a
//! primitive.

use vstd::prelude::*;
use crate::field::Felt;
use winter_math::fields::f64::BaseElement;

verus! {

/// Whether `n` is a power of two.
pub open spec fn is_pow2(n: nat) -> bool
    decreases n,
{
    if n == 0 {
        false
    } else if n == 1 {
        true
    } else {
        n % 2 == 0 && is_pow2(n / 2)
    }
}

/// A product of powers of two is a power of two.
pub proof fn lemma_is_pow2_mul(a: nat, b: nat)
    requires
        is_pow2(a),
        is_pow2(b),
    ensures
        is_pow2(a * b),
        a * b >= a,
    decreases b,
{
    if b == 1 {
        assert(a * 1 == a) by (nonlinear_arith);
    } else {
        lemma_is_pow2_mul(a, b / 2);
        assert(a * b == 2 * (a * (b / 2))) by (nonlinear_arith)
            requires
                b % 2 == 0,
        ;
        assert(a * (b / 2) >= a);
        assert(a * b >= a);
        assert((a * b) % 2 == 0 && (a * b) / 2 == a * (b / 2)) by (nonlinear_arith)
            requires
                a * b == 2 * (a * (b / 2)),
        ;
    }
}

/// The canonical integer values of a column of field elements.
pub open spec fn column_vals(s: Seq<Felt>) -> Seq<int> {
    s.map_values(|f: Felt| f.val as int)
}

/// Every element of the column is canonical.
pub open spec fn wf_column(s: Seq<Felt>) -> bool {
    forall|i: int| 0 <= i < s.len() ==> (#[trigger] s[i]).wf()
}

/// `s` zero-extended on the right to length `n`.
pub open spec fn pad_zero(s: Seq<int>, n: nat) -> Seq<int>
    recommends
        s.len() <= n,
{
    s + Seq::new((n - s.len()) as nat, |i: int| 0int)
}

/// The evaluations, over the coset of size `coeffs.len()` shifted by
/// `offset`, of the polynomial whose coefficients are `coeffs`. The result
/// is a function of the arguments alone; it is pinned down only by the
/// contracts of `ntt_evaluate` and `ntt_interpolate` below.
pub uninterp spec fn ntt_of(coeffs: Seq<int>, offset: int) -> Seq<int>;

/// The coefficients of the unique polynomial of degree below `evals.len()`
/// whose evaluations over the coset of size `evals.len()` shifted by
/// `offset` are `evals`. Inverse of `ntt_of`.
pub uninterp spec fn intt_of(evals: Seq<int>, offset: int) -> Seq<int>;

/// Law (transform round trip): a codeword produced by evaluating a
/// zero-padded column interpolates back to that zero-padded column, so
/// the first `n` recovered coefficients are the original column values
/// and the rest are zero. The two hypotheses are exactly what
/// `Matrix::into_evaluations` and `Matrix::into_polynomials` ensure of
/// their columns over one domain.
pub proof fn lemma_round_trip(
    original: Seq<int>,
    codeword: Seq<int>,
    coefficients: Seq<int>,
    size: nat,
    offset: int,
)
    requires
        original.len() <= size,
        intt_of(codeword, offset) == pad_zero(original, size),
        coefficients == intt_of(codeword, offset),
    ensures
        coefficients.take(original.len() as int) == original,
        forall|k: int| original.len() <= k < size ==> coefficients[k] == 0,
{
    assert(pad_zero(original, size).take(original.len() as int) =~= original);
}

/// A power-of-two evaluation domain: the multiplicative subgroup of that
/// size, shifted by a non-zero coset offset.
#[derive(Clone, Copy, Debug)]
pub struct Domain {
    pub size: usize,
    pub offset: Felt,
}

impl Domain {
    /// The domain is usable by both transform kernels: a power-of-two
    /// size of at least 2, strictly below `2^32` (the field's two-adic
    /// subgroup caps the size, and the interpolation kernel stops one
    /// notch earlier), and a non-zero coset offset.
    pub open spec fn wf(self) -> bool {
        &&& is_pow2(self.size as nat)
        &&& self.size >= 2
        &&& self.size < 0x100000000
        &&& self.offset.wf()
        &&& self.offset.val != 0
    }

    pub fn new(size: usize, offset: Felt) -> (r: Domain)
        requires
            is_pow2(size as nat),
            size >= 2,
            size < 0x100000000,
            offset.wf(),
            offset.val != 0,
        ensures
            r.size == size,
            r.offset == offset,
            r.wf(),
    {
        Domain { size, offset }
    }
}

/// Relies on `winter_math::fft::evaluate_poly_with_offset` (with twiddles
/// from `winter_math::fft::get_twiddles`): evaluates a coefficient column
/// over the coset of size `coeffs.len()` shifted by `offset`, returning one
/// canonical value per domain point, in domain order. Interpolation over
/// the same coset gives the coefficients back.
#[verifier::external_body]
pub(crate) fn ntt_evaluate(coeffs: &Vec<Felt>, offset: Felt) -> (r: Vec<Felt>)
    requires
        is_pow2(coeffs@.len()),
        coeffs@.len() >= 2,
        coeffs@.len() <= 0x100000000,
        wf_column(coeffs@),
        offset.wf(),
        offset.val != 0,
    ensures
        r@.len() == coeffs@.len(),
        wf_column(r@),
        column_vals(r@) == ntt_of(column_vals(coeffs@), offset.val as int),
        intt_of(column_vals(r@), offset.val as int) == column_vals(coeffs@),
{
    let twiddles = winter_math::fft::get_twiddles::<BaseElement>(coeffs.len());
    let elems: Vec<BaseElement> = coeffs.iter().map(|c| BaseElement::new(c.val)).collect();
    let evals = winter_math::fft::evaluate_poly_with_offset(
        &elems,
        &twiddles,
        BaseElement::new(offset.val),
        1,
    );
    evals.iter().map(|e| Felt { val: e.as_int() }).collect()
}

/// Relies on `winter_math::fft::interpolate_poly_with_offset` (with
/// twiddles from `winter_math::fft::get_inv_twiddles`): interpolates an
/// evaluation column taken over the coset of size `evals.len()` shifted by
/// `offset` into the coefficients of the unique interpolating polynomial.
/// Evaluation over the same coset gives the evaluations back. Unlike the
/// evaluation kernel, the interpolation kernel caps the length at one
/// below `2^32` (it folds the length into a `u32`), so the bound here is
/// strict: the largest admissible power of two is `2^31`.
#[verifier::external_body]
pub(crate) fn ntt_interpolate(evals: &Vec<Felt>, offset: Felt) -> (r: Vec<Felt>)
    requires
        is_pow2(evals@.len()),
        evals@.len() >= 2,
        evals@.len() < 0x100000000,
        wf_column(evals@),
        offset.wf(),
        offset.val != 0,
    ensures
        r@.len() == evals@.len(),
        wf_column(r@),
        column_vals(r@) == intt_of(column_vals(evals@), offset.val as int),
        ntt_of(column_vals(r@), offset.val as int) == column_vals(evals@),
{
    let inv_twiddles = winter_math::fft::get_inv_twiddles::<BaseElement>(evals.len());
    let mut elems: Vec<BaseElement> = evals.iter().map(|e| BaseElement::new(e.val)).collect();
    winter_math::fft::interpolate_poly_with_offset(
        &mut elems,
        &inv_twiddles,
        BaseElement::new(offset.val),
    );
    elems.iter().map(|c| Felt { val: c.as_int() }).collect()
}

} // verus!
