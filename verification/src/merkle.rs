//! Merkle commitment over leaf digests: a fixed-height binary tree whose
//! internal nodes hash the concatenation of their children, with
//! authentication paths for single leaves and path verification.

use vstd::prelude::*;
use vstd::arithmetic::power2::pow2;
use crate::transform::is_pow2;
use crate::matrix::log2;
use crate::matrix::lemma_pow2_log2;
use crate::hashing::sha256_of;
use crate::hashing::sha256;
use crate::hashing::cat_bytes;
use crate::hashing::eq_bytes;
use crate::hashing::clone_bytes;

verus! {

/// The digest reached by hashing `h` upward along `path`, pairing left or
/// right at each level according to the bits of the leaf index `i`.
pub open spec fn merkle_climb(h: Seq<u8>, i: nat, path: Seq<Seq<u8>>) -> Seq<u8>
    decreases path.len(),
{
    if path.len() == 0 {
        h
    } else {
        merkle_climb(
            if i % 2 == 0 {
                sha256_of(h + path.first())
            } else {
                sha256_of(path.first() + h)
            },
            i / 2,
            path.drop_first(),
        )
    }
}

/// Climbing a path extended by one sibling takes one more hashing step at
/// the top, paired by the index bit at that level.
pub proof fn lemma_climb_push(h: Seq<u8>, i: nat, path: Seq<Seq<u8>>, s: Seq<u8>)
    ensures
        merkle_climb(h, i, path.push(s)) == ({
            let t = merkle_climb(h, i, path);
            if (i / pow2(path.len())) % 2 == 0 {
                sha256_of(t + s)
            } else {
                sha256_of(s + t)
            }
        }),
    decreases path.len(),
{
    vstd::arithmetic::power2::lemma_pow2_pos(path.len());
    if path.len() == 0 {
        let step = if i % 2 == 0 {
            sha256_of(h + s)
        } else {
            sha256_of(s + h)
        };
        assert(path.push(s).drop_first() =~= Seq::<Seq<u8>>::empty());
        assert(path.push(s).first() == s);
        assert(merkle_climb(h, i, path.push(s)) == merkle_climb(
            step,
            i / 2,
            path.push(s).drop_first(),
        ));
        assert(merkle_climb(step, i / 2, Seq::<Seq<u8>>::empty()) == step);
        vstd::arithmetic::power::lemma_pow0(2);
        vstd::arithmetic::div_mod::lemma_div_basics(i as int);
        assert(i / pow2(0) == i);
    } else {
        let step = if i % 2 == 0 {
            sha256_of(h + path.first())
        } else {
            sha256_of(path.first() + h)
        };
        assert(path.push(s).drop_first() =~= path.drop_first().push(s));
        assert(path.push(s).first() == path.first());
        lemma_climb_push(step, i / 2, path.drop_first(), s);
        vstd::arithmetic::power2::lemma_pow2_unfold(path.len());
        vstd::arithmetic::div_mod::lemma_div_denominator(
            i as int,
            2,
            pow2((path.len() - 1) as nat) as int,
        );
    }
}

/// The authentication path of one leaf: the sibling digest at each level,
/// from the leaves up.
#[derive(Debug)]
pub struct MerkleProof {
    pub path: Vec<Vec<u8>>,
}

impl MerkleProof {
    /// The sibling digests as mathematical sequences.
    pub open spec fn path_seq(self) -> Seq<Seq<u8>> {
        self.path@.map_values(|v: Vec<u8>| v@)
    }
}

/// A binary Merkle tree over a power-of-two number of leaves. `nodes`
/// holds the leaves at positions `leaf_count..2*leaf_count` and each
/// internal node `k` in `1..leaf_count` at position `k`; position 0 is
/// unused. The root sits at position 1.
#[derive(Debug)]
pub struct MerkleTree {
    pub nodes: Vec<Vec<u8>>,
    pub leaf_count: usize,
}

impl MerkleTree {
    /// Structural soundness: every internal node is the digest of its
    /// children's concatenation.
    pub open spec fn wf(self) -> bool {
        &&& is_pow2(self.leaf_count as nat)
        &&& self.nodes@.len() == 2 * self.leaf_count
        &&& forall|k: int|
            1 <= k < self.leaf_count ==> (#[trigger] self.nodes@[k])@ == sha256_of(
                self.nodes@[2 * k]@ + self.nodes@[2 * k + 1]@,
            )
    }

    /// The `i`-th committed leaf.
    pub open spec fn leaf_spec(self, i: int) -> Seq<u8> {
        self.nodes@[self.leaf_count + i]@
    }

    /// The root digest.
    pub open spec fn root_spec(self) -> Seq<u8> {
        self.nodes@[1]@
    }

    /// Commits to the given leaf digests, building the full tree.
    pub fn commit(leaves: Vec<Vec<u8>>) -> (r: MerkleTree)
        requires
            is_pow2(leaves@.len()),
            leaves@.len() <= usize::MAX / 2,
        ensures
            r.wf(),
            r.leaf_count == leaves@.len(),
            forall|i: int| 0 <= i < leaves@.len() ==> r.leaf_spec(i) == (#[trigger] leaves@[i])@,
    {
        let n = leaves.len();
        let mut nodes: Vec<Vec<u8>> = Vec::new();
        while nodes.len() < n
            invariant
                nodes@.len() <= n,
            decreases n - nodes@.len(),
        {
            nodes.push(Vec::new());
        }
        let mut src = leaves;
        let ghost all = src@;
        while src.len() > 0
            invariant
                src@.len() <= all.len(),
                all.len() == n,
                nodes@.len() == n + all.len() - src@.len(),
                src@ == all.skip(all.len() - src@.len()),
                forall|i: int|
                    0 <= i < all.len() - src@.len() ==> (#[trigger] nodes@[n + i]) == all[i],
            decreases src@.len(),
        {
            let ghost done = all.len() - src@.len();
            let leaf = src.remove(0);
            nodes.push(leaf);
            proof {
                assert(src@ =~= all.skip(done + 1));
            }
        }
        let mut tree = MerkleTree { nodes, leaf_count: n };
        let mut k: usize = n;
        while k > 1
            invariant
                n <= usize::MAX / 2,
                1 <= k <= n,
                tree.leaf_count == n,
                tree.nodes@.len() == 2 * n,
                forall|i: int| 0 <= i < n ==> (#[trigger] tree.nodes@[n + i]) == all[i],
                forall|k2: int|
                    k <= k2 < n ==> (#[trigger] tree.nodes@[k2])@ == sha256_of(
                        tree.nodes@[2 * k2]@ + tree.nodes@[2 * k2 + 1]@,
                    ),
            decreases k,
        {
            k = k - 1;
            let joined = cat_bytes(&tree.nodes[2 * k], &tree.nodes[2 * k + 1]);
            let h = sha256(&joined);
            tree.nodes.set(k, h);
        }
        tree
    }

    /// The authentication path for leaf `index`: `Some` exactly when the
    /// index is in range, and the returned path climbs from that leaf to
    /// the root.
    pub fn prove(&self, index: usize) -> (r: Option<MerkleProof>)
        requires
            self.wf(),
        ensures
            index < self.leaf_count ==> (r matches Some(p) && merkle_climb(
                self.leaf_spec(index as int),
                index as nat,
                p.path_seq(),
            ) == self.root_spec() && p.path_seq().len() == log2(self.leaf_count as nat)),
            index >= self.leaf_count ==> r is None,
    {
        let n = self.leaf_count;
        if index >= n {
            return None;
        }
        let ghost m = log2(n as nat);
        proof {
            lemma_pow2_log2(n as nat);
            vstd::arithmetic::power::lemma_pow0(2);
        }
        let total = self.nodes.len();
        proof {
            assert(total == 2 * n);
        }
        let mut path: Vec<Vec<u8>> = Vec::new();
        let mut idx: usize = n + index;
        proof {
            assert(path@.map_values(|v: Vec<u8>| v@) =~= Seq::<Seq<u8>>::empty());
            vstd::arithmetic::div_mod::lemma_div_basics(index as int);
            assert((index as nat) / pow2(0) == index as nat);
        }
        while idx > 1
            invariant
                self.wf(),
                n == self.leaf_count,
                index < n,
                pow2(m) == n,
                path@.len() <= m,
                1 <= idx < 2 * n,
                idx == pow2((m - path@.len()) as nat) + (index as nat) / pow2(path@.len()),
                merkle_climb(
                    self.leaf_spec(index as int),
                    index as nat,
                    path@.map_values(|v: Vec<u8>| v@),
                ) == self.nodes@[idx as int]@,
            decreases idx,
        {
            let ghost ell = path@.len();
            let ghost q = (index as nat) / pow2(ell);
            let ghost oldidx = idx as nat;
            proof {
                vstd::arithmetic::power::lemma_pow0(2);
                vstd::arithmetic::power2::lemma_pow2_pos(ell);
                if ell == m {
                    vstd::arithmetic::div_mod::lemma_basic_div_specific_divisor(pow2(m) as int);
                    assert((index as int) / (pow2(m) as int) == 0);
                    assert(idx == 1);
                }
                assert(ell < m);
                vstd::arithmetic::power2::lemma_pow2_unfold((m - ell) as nat);
                vstd::arithmetic::power2::lemma_pow2_pos((m - ell - 1) as nat);
                let a = pow2((m - ell - 1) as nat) as int;
                assert(pow2((m - ell) as nat) == 2 * a);
                assert(idx as int == 2 * a + q);
                vstd::arithmetic::div_mod::lemma_mod_multiples_vanish(a, q as int, 2);
                assert(idx % 2 == q % 2);
            }
            let sibling: usize = if idx % 2 == 0 {
                idx + 1
            } else {
                idx - 1
            };
            let s = clone_bytes(&self.nodes[sibling]);
            let ghost old_path = path@.map_values(|v: Vec<u8>| v@);
            path.push(s);
            idx = idx / 2;
            proof {
                let leaf = self.leaf_spec(index as int);
                let sib = self.nodes@[sibling as int]@;
                let t = self.nodes@[oldidx as int]@;
                lemma_climb_push(leaf, index as nat, old_path, sib);
                assert(path@.map_values(|v: Vec<u8>| v@) =~= old_path.push(sib));
                if oldidx % 2 == 0 {
                    assert((self.nodes@[oldidx as int / 2])@ == sha256_of(
                        self.nodes@[2 * (oldidx as int / 2)]@ + self.nodes@[2 * (oldidx as int
                            / 2) + 1]@,
                    ));
                    assert(self.nodes@[oldidx as int / 2]@ == sha256_of(t + sib));
                } else {
                    assert((self.nodes@[oldidx as int / 2])@ == sha256_of(
                        self.nodes@[2 * (oldidx as int / 2)]@ + self.nodes@[2 * (oldidx as int
                            / 2) + 1]@,
                    ));
                    assert(self.nodes@[oldidx as int / 2]@ == sha256_of(sib + t));
                }
                assert(merkle_climb(leaf, index as nat, old_path.push(sib))
                    == self.nodes@[idx as int]@);
                vstd::arithmetic::power2::lemma_pow2_pos(ell);
                vstd::arithmetic::power2::lemma_pow2_unfold((ell + 1) as nat);
                vstd::arithmetic::div_mod::lemma_div_denominator(
                    index as int,
                    pow2(ell) as int,
                    2,
                );
                assert((index as nat) / pow2((ell + 1) as nat) == q / 2);
                assert(idx == pow2((m - (ell + 1)) as nat) + (index as nat) / pow2(
                    (ell + 1) as nat,
                ));
            }
        }
        proof {
            vstd::arithmetic::power::lemma_pow0(2);
            vstd::arithmetic::power2::lemma_pow2_pos(path@.len());
            vstd::arithmetic::power2::lemma_pow2_pos((m - path@.len()) as nat);
            assert(pow2((m - path@.len()) as nat) == 1);
            if m != path@.len() {
                vstd::arithmetic::power2::lemma_pow2_unfold((m - path@.len()) as nat);
                vstd::arithmetic::power2::lemma_pow2_pos((m - path@.len() - 1) as nat);
                assert(false);
            }
        }
        Some(MerkleProof { path })
    }

    /// The root digest as bytes.
    pub fn root(&self) -> (r: Vec<u8>)
        requires
            self.wf(),
            self.leaf_count >= 1,
        ensures
            r@ == self.root_spec(),
    {
        clone_bytes(&self.nodes[1])
    }
}

/// Recomputes the root from a leaf value and its authentication path, and
/// compares it with the claimed root.
pub fn verify_proof(root: &Vec<u8>, leaf: &Vec<u8>, index: usize, proof: &MerkleProof) -> (r:
    bool)
    ensures
        r == (merkle_climb(leaf@, index as nat, proof.path_seq()) == root@),
{
    let ghost full = proof.path_seq();
    let mut cur = clone_bytes(leaf);
    let mut i: usize = index;
    let mut level: usize = 0;
    proof {
        assert(full.skip(0) =~= full);
    }
    while level < proof.path.len()
        invariant
            level <= proof.path@.len(),
            full == proof.path_seq(),
            merkle_climb(leaf@, index as nat, full) == merkle_climb(
                cur@,
                i as nat,
                full.skip(level as int),
            ),
        decreases proof.path@.len() - level,
    {
        proof {
            assert(full.skip(level as int).first() == proof.path@[level as int]@);
            assert(full.skip(level as int).drop_first() =~= full.skip(level as int + 1));
        }
        if i % 2 == 0 {
            let joined = cat_bytes(&cur, &proof.path[level]);
            cur = sha256(&joined);
        } else {
            let joined = cat_bytes(&proof.path[level], &cur);
            cur = sha256(&joined);
        }
        i = i / 2;
        level = level + 1;
    }
    proof {
        assert(full.skip(full.len() as int) =~= Seq::<Seq<u8>>::empty());
    }
    eq_bytes(&cur, root)
}

} // verus!
