use ministark::merkle::{verify_proof, MerkleTree};

fn sha256_abc() -> Vec<u8> {
    // the SHA-256 digest of the three bytes "abc"
    vec![
        0xba, 0x78, 0x16, 0xbf, 0x8f, 0x01, 0xcf, 0xea, 0x41, 0x41, 0x40, 0xde, 0x5d, 0xae,
        0x22, 0x23, 0xb0, 0x03, 0x61, 0xa3, 0x96, 0x17, 0x7a, 0x9c, 0xb4, 0x10, 0xff, 0x61,
        0xf2, 0x00, 0x15, 0xad,
    ]
}

#[test]
fn root_of_two_leaves_hashes_their_concatenation() {
    // leaves "a" and "bc": the root must be SHA-256 of "abc"
    let leaves = vec![b"a".to_vec(), b"bc".to_vec()];
    let tree = MerkleTree::commit(leaves);
    assert_eq!(tree.root(), sha256_abc());
}

#[test]
fn prove_and_verify_round_trip() {
    let leaves: Vec<Vec<u8>> = (0u8..4).map(|i| vec![i; 32]).collect();
    let tree = MerkleTree::commit(leaves.clone());
    let root = tree.root();
    for i in 0..4 {
        let proof = tree.prove(i).unwrap();
        assert_eq!(proof.path.len(), 2);
        assert!(verify_proof(&root, &leaves[i], i, &proof));
    }
}

#[test]
fn prove_out_of_range_is_none() {
    let leaves: Vec<Vec<u8>> = (0u8..4).map(|i| vec![i; 32]).collect();
    let tree = MerkleTree::commit(leaves);
    assert!(tree.prove(4).is_none());
    assert!(tree.prove(100).is_none());
}

#[test]
fn verify_rejects_wrong_leaf_index_or_path() {
    let leaves: Vec<Vec<u8>> = (0u8..4).map(|i| vec![i; 32]).collect();
    let tree = MerkleTree::commit(leaves.clone());
    let root = tree.root();
    let proof = tree.prove(1).unwrap();
    // wrong leaf value
    assert!(!verify_proof(&root, &vec![9u8; 32], 1, &proof));
    // wrong index
    assert!(!verify_proof(&root, &leaves[1], 2, &proof));
    // tampered path
    let mut bad = tree.prove(1).unwrap();
    bad.path[0][0] ^= 1;
    assert!(!verify_proof(&root, &leaves[1], 1, &bad));
}

#[test]
fn single_leaf_tree_root_is_the_leaf() {
    let tree = MerkleTree::commit(vec![b"only".to_vec()]);
    assert_eq!(tree.root(), b"only".to_vec());
    let proof = tree.prove(0).unwrap();
    assert_eq!(proof.path.len(), 0);
    assert!(verify_proof(&tree.root(), &b"only".to_vec(), 0, &proof));
}
