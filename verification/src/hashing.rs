//! Row hashing: a fixed element-oriented encoding of matrix rows into
//! bytes, digested by an outside collision-resistant hash. The digests are
//! the leaves of the Merkle commitment.

use vstd::prelude::*;
use crate::field::Felt;

verus! {

/// The SHA-256 digest of a byte string. The result is a function of the
/// bytes alone; it is pinned down only by the contract of `sha256` below.
pub uninterp spec fn sha256_of(bytes: Seq<u8>) -> Seq<u8>;

/// The little-endian byte encoding of a 64-bit value.
pub open spec fn le_bytes(x: u64) -> Seq<u8> {
    seq![
        x as u8,
        (x >> 8) as u8,
        (x >> 16) as u8,
        (x >> 24) as u8,
        (x >> 32) as u8,
        (x >> 40) as u8,
        (x >> 48) as u8,
        (x >> 56) as u8,
    ]
}

/// The byte encoding of a row of field elements: the little-endian bytes
/// of each element, in column order.
pub open spec fn row_bytes(row: Seq<Felt>) -> Seq<u8>
    decreases row.len(),
{
    if row.len() == 0 {
        Seq::empty()
    } else {
        row_bytes(row.drop_last()) + le_bytes(row.last().val)
    }
}

/// Appends the little-endian encoding of `x` to `out`.
pub(crate) fn push_le_bytes(out: &mut Vec<u8>, x: u64)
    ensures
        final(out)@ == old(out)@ + le_bytes(x),
{
    out.push(#[verifier::truncate] (x as u8));
    out.push(#[verifier::truncate] ((x >> 8) as u8));
    out.push(#[verifier::truncate] ((x >> 16) as u8));
    out.push(#[verifier::truncate] ((x >> 24) as u8));
    out.push(#[verifier::truncate] ((x >> 32) as u8));
    out.push(#[verifier::truncate] ((x >> 40) as u8));
    out.push(#[verifier::truncate] ((x >> 48) as u8));
    out.push(#[verifier::truncate] ((x >> 56) as u8));
    proof {
        assert(out@ =~= old(out)@ + le_bytes(x));
    }
}

/// Relies on `sha2::Sha256` through the `digest` interface: returns the
/// 32-byte SHA-256 digest of the input, a function of the bytes alone.
#[verifier::external_body]
pub(crate) fn sha256(bytes: &Vec<u8>) -> (r: Vec<u8>)
    ensures
        r@ == sha256_of(bytes@),
        r@.len() == 32,
{
    let d = <sha2::Sha256 as digest::Digest>::digest(bytes.as_slice());
    d.to_vec()
}

/// The concatenation of two byte strings.
pub(crate) fn cat_bytes(a: &Vec<u8>, b: &Vec<u8>) -> (r: Vec<u8>)
    ensures
        r@ == a@ + b@,
{
    let mut r: Vec<u8> = Vec::new();
    let mut i: usize = 0;
    while i < a.len()
        invariant
            i <= a@.len(),
            r@.len() == i,
            forall|k: int| 0 <= k < i ==> #[trigger] r@[k] == a@[k],
        decreases a@.len() - i,
    {
        r.push(a[i]);
        i = i + 1;
    }
    let mut j: usize = 0;
    while j < b.len()
        invariant
            j <= b@.len(),
            r@.len() == a@.len() + j,
            forall|k: int| 0 <= k < a@.len() ==> #[trigger] r@[k] == a@[k],
            forall|k: int| 0 <= k < j ==> r@[a@.len() + k] == #[trigger] b@[k],
        decreases b@.len() - j,
    {
        r.push(b[j]);
        j = j + 1;
    }
    proof {
        assert(r@ =~= a@ + b@);
    }
    r
}

/// A fresh byte string with the same bytes.
pub(crate) fn clone_bytes(c: &Vec<u8>) -> (r: Vec<u8>)
    ensures
        r@ == c@,
{
    let mut r: Vec<u8> = Vec::new();
    let mut i: usize = 0;
    while i < c.len()
        invariant
            i <= c@.len(),
            r@.len() == i,
            forall|k: int| 0 <= k < i ==> #[trigger] r@[k] == c@[k],
        decreases c@.len() - i,
    {
        r.push(c[i]);
        i = i + 1;
    }
    proof {
        assert(r@ =~= c@);
    }
    r
}

/// Whether two byte strings hold the same bytes.
pub(crate) fn eq_bytes(a: &Vec<u8>, b: &Vec<u8>) -> (r: bool)
    ensures
        r == (a@ == b@),
{
    if a.len() != b.len() {
        return false;
    }
    let mut i: usize = 0;
    while i < a.len()
        invariant
            i <= a@.len(),
            a@.len() == b@.len(),
            forall|k: int| 0 <= k < i ==> #[trigger] a@[k] == b@[k],
        decreases a@.len() - i,
    {
        if a[i] != b[i] {
            return false;
        }
        i = i + 1;
    }
    proof {
        assert(a@ =~= b@);
    }
    true
}

} // verus!
