use ministark::field::Felt;
use ministark::matrix::Matrix;
use ministark::merkle::{verify_proof, MerkleTree};
use ministark::stage::{fft_kernel_name, FftVariant};
use ministark::trace::{target_height, Queries, Trace, TraceInfo};

fn f(x: u64) -> Felt {
    Felt::new(x)
}

fn col(xs: &[u64]) -> Vec<Felt> {
    xs.iter().map(|&x| f(x)).collect()
}

#[test]
fn trace_info_bundles_metadata() {
    let info = TraceInfo::new(5, 2, 2048, Some(vec![1, 2, 3]));
    assert_eq!(info.num_base_columns, 5);
    assert_eq!(info.num_extension_columns, 2);
    assert_eq!(info.trace_len, 2048);
    assert_eq!(info.meta, vec![1, 2, 3]);
    let bare = TraceInfo::new(1, 0, 4096, None);
    assert_eq!(bare.meta, Vec::<u8>::new());
    assert_eq!(TraceInfo::MIN_TRACE_LENGTH, 2048);
    assert_eq!(TraceInfo::MAX_TRACE_WIDTH, 255);
    assert_eq!(TraceInfo::MAX_META_BYTES, 65535);
}

struct TestTrace {
    base: Matrix,
}

impl Trace for TestTrace {
    fn num_base_columns(&self) -> usize {
        self.base.num_cols()
    }

    fn num_extension_columns(&self) -> usize {
        0
    }

    fn len(&self) -> usize {
        self.base.num_rows()
    }

    fn base_columns(&self) -> &Matrix {
        &self.base
    }

    fn build_extension_columns(&self, _challenges: &Vec<Felt>) -> Option<Matrix> {
        None
    }

    fn meta(&self) -> Option<Vec<u8>> {
        None
    }

    fn info(&self) -> TraceInfo {
        TraceInfo::new(self.num_base_columns(), self.num_extension_columns(), self.len(), self.meta())
    }

    fn is_empty(&self) -> bool {
        self.len() == 0
    }
}

#[test]
fn trace_producer_contract() {
    let base = Matrix::new(vec![col(&vec![1; 2048]), col(&vec![2; 2048])]);
    let t = TestTrace { base };
    assert!(!t.is_empty());
    assert_eq!(t.len(), 2048);
    let info = t.info();
    assert_eq!(info.num_base_columns, 2);
    assert_eq!(info.num_extension_columns, 0);
    assert_eq!(info.trace_len, 2048);
    assert!(t.build_extension_columns(&col(&[1, 2, 3])).is_none());
    assert_eq!(t.base_columns().num_cols(), 2);
}

#[test]
fn queries_bundle_rows_and_proofs() {
    let execution = Matrix::new(vec![col(&[1, 2, 3, 4]), col(&[5, 6, 7, 8])]);
    let composition = Matrix::new(vec![col(&[9, 10, 11, 12])]);
    let base_leaves = execution.hash_rows();
    let composition_leaves = composition.hash_rows();
    let base_tree = MerkleTree::commit(base_leaves.clone());
    let composition_tree = MerkleTree::commit(composition_leaves.clone());
    let base_root = base_tree.root();
    let composition_root = composition_tree.root();
    let positions = vec![1usize, 3usize];

    let q = Queries::new(&execution, &composition, base_tree, None, composition_tree, &positions);

    // row values, flattened by sampled position
    assert_eq!(q.execution_trace_values, col(&[2, 6, 4, 8]));
    assert_eq!(q.composition_trace_values, col(&[10, 12]));
    assert_eq!(q.base_trace_proofs.len(), 2);
    assert_eq!(q.composition_trace_proofs.len(), 2);
    assert_eq!(q.extension_trace_proofs.len(), 0);

    // every bundled path authenticates the committed leaf at its position
    for (k, &p) in positions.iter().enumerate() {
        assert!(verify_proof(&base_root, &base_leaves[p], p, &q.base_trace_proofs[k]));
        assert!(verify_proof(
            &composition_root,
            &composition_leaves[p],
            p,
            &q.composition_trace_proofs[k]
        ));
    }
}

#[test]
fn queries_include_extension_proofs_when_committed() {
    let execution = Matrix::new(vec![col(&[1, 2, 3, 4])]);
    let composition = Matrix::new(vec![col(&[9, 10, 11, 12])]);
    let extension = Matrix::new(vec![col(&[13, 14, 15, 16])]);
    let extension_leaves = extension.hash_rows();
    let extension_tree = MerkleTree::commit(extension_leaves.clone());
    let extension_root = extension_tree.root();
    let base_tree = MerkleTree::commit(execution.hash_rows());
    let composition_tree = MerkleTree::commit(composition.hash_rows());
    let positions = vec![0usize, 2usize];

    let q = Queries::new(
        &execution,
        &composition,
        base_tree,
        Some(extension_tree),
        composition_tree,
        &positions,
    );
    assert_eq!(q.extension_trace_proofs.len(), 2);
    assert!(verify_proof(&extension_root, &extension_leaves[0], 0, &q.extension_trace_proofs[0]));
    assert!(verify_proof(&extension_root, &extension_leaves[2], 2, &q.extension_trace_proofs[1]));
}

#[test]
fn fft_kernel_names_follow_the_library_convention() {
    assert_eq!(
        fft_kernel_name(FftVariant::Multiple, "p18446744069414584321_fp"),
        "fft_multiple_p18446744069414584321_fp"
    );
    assert_eq!(
        fft_kernel_name(FftVariant::Single, "p18446744069414584321_fq3"),
        "fft_single_p18446744069414584321_fq3"
    );
}

#[test]
fn target_height_respects_floor_and_rounds_up() {
    assert_eq!(target_height(0), 2048);
    assert_eq!(target_height(5), 2048);
    assert_eq!(target_height(2048), 2048);
    assert_eq!(target_height(2049), 4096);
    assert_eq!(target_height(3000), 4096);
    assert_eq!(target_height(4096), 4096);
}
