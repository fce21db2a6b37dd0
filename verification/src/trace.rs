//! Trace-level artifacts: public trace metadata, the contract a trace
//! producer implements, and the verifier-facing query bundle of row values
//! and Merkle authentication paths.

use vstd::prelude::*;
use crate::field::Felt;
use crate::matrix::Matrix;
use crate::merkle::MerkleTree;
use crate::merkle::MerkleProof;
use crate::merkle::merkle_climb;

verus! {

/// Public metadata about a trace.
#[derive(Debug)]
pub struct TraceInfo {
    pub num_base_columns: usize,
    pub num_extension_columns: usize,
    pub trace_len: usize,
    pub meta: Vec<u8>,
}

impl TraceInfo {
    /// Smallest execution trace length.
    pub const MIN_TRACE_LENGTH: usize = 2048;

    /// Maximum number of columns (base + extension) in an execution
    /// trace.
    pub const MAX_TRACE_WIDTH: usize = 255;

    /// Maximum number of bytes of trace metadata.
    pub const MAX_META_BYTES: usize = 65535;

    /// The stated bounds hold of the stored metadata.
    pub open spec fn wf(self) -> bool {
        &&& self.num_base_columns > 0
        &&& self.num_base_columns + self.num_extension_columns <= 255
        &&& self.meta@.len() <= 65535
        &&& self.trace_len >= 2048
    }

    /// Bundles the metadata. The bounds are preconditions: violating
    /// them is a programming error in trace construction, not an input
    /// error.
    pub fn new(
        num_base_columns: usize,
        num_extension_columns: usize,
        trace_len: usize,
        meta: Option<Vec<u8>>,
    ) -> (r: TraceInfo)
        requires
            num_base_columns > 0,
            num_base_columns + num_extension_columns <= 255,
            (meta matches Some(m) ==> m@.len() <= 65535),
            trace_len >= 2048,
        ensures
            r.num_base_columns == num_base_columns,
            r.num_extension_columns == num_extension_columns,
            r.trace_len == trace_len,
            r.meta@ == (match meta {
                Some(m) => m@,
                None => Seq::<u8>::empty(),
            }),
            r.wf(),
    {
        let meta_bytes: Vec<u8> = match meta {
            Some(m) => m,
            None => Vec::new(),
        };
        TraceInfo {
            num_base_columns,
            num_extension_columns,
            trace_len,
            meta: meta_bytes,
        }
    }
}

/// The contract a trace producer implements: the arithmetized execution
/// of some machine, exposing its base columns and, once challenges are
/// fixed, its extension columns. The producer (a virtual machine and its
/// simulator) lives outside this crate, so the methods carry no
/// contracts: nothing proved here may depend on how a producer behaves.
pub trait Trace {
    /// Number of base columns.
    fn num_base_columns(&self) -> usize;

    /// Number of extension columns.
    fn num_extension_columns(&self) -> usize;

    /// Number of rows in this trace.
    fn len(&self) -> usize;

    /// The base trace columns.
    fn base_columns(&self) -> &Matrix;

    /// Builds and returns the extension columns. These require the
    /// auxiliary random challenges; a trace with no such columns returns
    /// `None`.
    fn build_extension_columns(&self, challenges: &Vec<Felt>) -> Option<Matrix>;

    /// Metadata associated with this trace, if any.
    fn meta(&self) -> Option<Vec<u8>>;

    /// Trace info for this trace.
    fn info(&self) -> TraceInfo;

    /// Whether the trace has no rows.
    fn is_empty(&self) -> bool;
}

/// The common padding target for all tables of a trace: the smallest
/// power of two that is at least the longest table's length and at least
/// the minimum trace length floor.
pub fn target_height(max_table_len: usize) -> (r: usize)
    requires
        max_table_len <= usize::MAX / 2,
    ensures
        crate::transform::is_pow2(r as nat),
        r >= max_table_len,
        r >= 2048,
        r == 2048 || r < 2 * max_table_len,
{
    let mut p: usize = 2048;
    proof {
        assert(crate::transform::is_pow2(2048nat)) by {
            reveal_with_fuel(crate::transform::is_pow2, 13);
        }
    }
    while p < max_table_len
        invariant
            max_table_len <= usize::MAX / 2,
            crate::transform::is_pow2(p as nat),
            p >= 2048,
            p == 2048 || p < 2 * max_table_len,
        decreases 2 * max_table_len - p,
    {
        p = p * 2;
    }
    p
}

/// The rows of `m` at the sampled positions, flattened in order.
pub open spec fn rows_concat(m: Matrix, positions: Seq<usize>) -> Seq<Felt>
    decreases positions.len(),
{
    if positions.len() == 0 {
        Seq::empty()
    } else {
        rows_concat(m, positions.drop_last()) + m.row_spec(positions.last() as int)
    }
}

/// The query bundle: for each sampled position, the execution-trace and
/// composition-trace row values together with the Merkle authentication
/// paths of the base, extension and composition commitments.
#[derive(Debug)]
pub struct Queries {
    pub execution_trace_values: Vec<Felt>,
    pub composition_trace_values: Vec<Felt>,
    pub base_trace_proofs: Vec<MerkleProof>,
    pub extension_trace_proofs: Vec<MerkleProof>,
    pub composition_trace_proofs: Vec<MerkleProof>,
}

impl Queries {
    /// Assembles the bundle: reads each sampled row from the two LDE
    /// matrices and an authentication path from each commitment. Every
    /// returned path authenticates its tree's committed leaf at that
    /// position against that tree's root.
    pub fn new(
        execution_trace_lde: &Matrix,
        composition_trace_lde: &Matrix,
        base_commitment: MerkleTree,
        extension_commitment: Option<MerkleTree>,
        composition_commitment: MerkleTree,
        positions: &Vec<usize>,
    ) -> (r: Queries)
        requires
            execution_trace_lde.uniform(),
            composition_trace_lde.uniform(),
            base_commitment.wf(),
            composition_commitment.wf(),
            (extension_commitment matches Some(t) ==> t.wf()),
            forall|k: int|
                0 <= k < positions@.len() ==> (#[trigger] positions@[k])
                    < execution_trace_lde.rows_spec() && positions@[k]
                    < composition_trace_lde.rows_spec() && positions@[k]
                    < base_commitment.leaf_count && positions@[k]
                    < composition_commitment.leaf_count && (extension_commitment matches Some(t)
                    ==> positions@[k] < t.leaf_count),
        ensures
            r.execution_trace_values@ == rows_concat(*execution_trace_lde, positions@),
            r.composition_trace_values@ == rows_concat(*composition_trace_lde, positions@),
            r.base_trace_proofs@.len() == positions@.len(),
            r.composition_trace_proofs@.len() == positions@.len(),
            r.extension_trace_proofs@.len() == (if extension_commitment is Some {
                positions@.len() as int
            } else {
                0
            }),
            forall|k: int|
                0 <= k < positions@.len() ==> merkle_climb(
                    base_commitment.leaf_spec(positions@[k] as int),
                    positions@[k] as nat,
                    (#[trigger] r.base_trace_proofs@[k]).path_seq(),
                ) == base_commitment.root_spec(),
            forall|k: int|
                0 <= k < positions@.len() ==> merkle_climb(
                    composition_commitment.leaf_spec(positions@[k] as int),
                    positions@[k] as nat,
                    (#[trigger] r.composition_trace_proofs@[k]).path_seq(),
                ) == composition_commitment.root_spec(),
            extension_commitment matches Some(t) ==> forall|k: int|
                0 <= k < positions@.len() ==> merkle_climb(
                    t.leaf_spec(positions@[k] as int),
                    positions@[k] as nat,
                    (#[trigger] r.extension_trace_proofs@[k]).path_seq(),
                ) == t.root_spec(),
    {
        let mut execution_trace_values: Vec<Felt> = Vec::new();
        let mut composition_trace_values: Vec<Felt> = Vec::new();
        let mut base_trace_proofs: Vec<MerkleProof> = Vec::new();
        let mut extension_trace_proofs: Vec<MerkleProof> = Vec::new();
        let mut composition_trace_proofs: Vec<MerkleProof> = Vec::new();
        let mut k: usize = 0;
        proof {
            assert(positions@.take(0) =~= Seq::<usize>::empty());
        }
        while k < positions.len()
            invariant
                k <= positions@.len(),
                execution_trace_lde.uniform(),
                composition_trace_lde.uniform(),
                base_commitment.wf(),
                composition_commitment.wf(),
                (extension_commitment matches Some(t) ==> t.wf()),
                forall|k2: int|
                    0 <= k2 < positions@.len() ==> (#[trigger] positions@[k2])
                        < execution_trace_lde.rows_spec() && positions@[k2]
                        < composition_trace_lde.rows_spec() && positions@[k2]
                        < base_commitment.leaf_count && positions@[k2]
                        < composition_commitment.leaf_count && (extension_commitment matches Some(
                        t,
                    ) ==> positions@[k2] < t.leaf_count),
                execution_trace_values@ == rows_concat(
                    *execution_trace_lde,
                    positions@.take(k as int),
                ),
                composition_trace_values@ == rows_concat(
                    *composition_trace_lde,
                    positions@.take(k as int),
                ),
                base_trace_proofs@.len() == k,
                composition_trace_proofs@.len() == k,
                extension_trace_proofs@.len() == (if extension_commitment is Some {
                    k as int
                } else {
                    0
                }),
                forall|k2: int|
                    0 <= k2 < k ==> merkle_climb(
                        base_commitment.leaf_spec(positions@[k2] as int),
                        positions@[k2] as nat,
                        (#[trigger] base_trace_proofs@[k2]).path_seq(),
                    ) == base_commitment.root_spec(),
                forall|k2: int|
                    0 <= k2 < k ==> merkle_climb(
                        composition_commitment.leaf_spec(positions@[k2] as int),
                        positions@[k2] as nat,
                        (#[trigger] composition_trace_proofs@[k2]).path_seq(),
                    ) == composition_commitment.root_spec(),
                extension_commitment matches Some(t) ==> forall|k2: int|
                    0 <= k2 < k ==> merkle_climb(
                        t.leaf_spec(positions@[k2] as int),
                        positions@[k2] as nat,
                        (#[trigger] extension_trace_proofs@[k2]).path_seq(),
                    ) == t.root_spec(),
            decreases positions@.len() - k,
        {
            let position = positions[k];
            let ghost taken = positions@.take(k as int);

            let mut execution_trace_row = match execution_trace_lde.get_row(position) {
                Some(v) => v,
                None => {
                    proof {
                        assert(false);
                    }
                    Vec::new()
                },
            };
            execution_trace_values.append(&mut execution_trace_row);
            let base_proof = match base_commitment.prove(position) {
                Some(p) => p,
                None => {
                    proof {
                        assert(false);
                    }
                    MerkleProof { path: Vec::new() }
                },
            };
            base_trace_proofs.push(base_proof);
            match &extension_commitment {
                Some(t) => {
                    let extension_proof = match t.prove(position) {
                        Some(p) => p,
                        None => {
                            proof {
                                assert(false);
                            }
                            MerkleProof { path: Vec::new() }
                        },
                    };
                    extension_trace_proofs.push(extension_proof);
                },
                None => {},
            }

            let mut composition_trace_row = match composition_trace_lde.get_row(position) {
                Some(v) => v,
                None => {
                    proof {
                        assert(false);
                    }
                    Vec::new()
                },
            };
            composition_trace_values.append(&mut composition_trace_row);
            let composition_proof = match composition_commitment.prove(position) {
                Some(p) => p,
                None => {
                    proof {
                        assert(false);
                    }
                    MerkleProof { path: Vec::new() }
                },
            };
            composition_trace_proofs.push(composition_proof);

            k = k + 1;
            proof {
                assert(positions@.take(k as int).drop_last() =~= taken);
                assert(positions@.take(k as int).last() == position);
            }
        }
        proof {
            assert(positions@.take(positions@.len() as int) =~= positions@);
        }
        Queries {
            execution_trace_values,
            composition_trace_values,
            base_trace_proofs,
            extension_trace_proofs,
            composition_trace_proofs,
        }
    }
}

} // verus!
