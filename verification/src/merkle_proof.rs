//! Inclusion proofs: the hashes of the siblings on the way from a leaf to
//! the root, from the bottom up.

use vstd::prelude::*;
use crate::bytes::{append_bytes, same_digest};
use crate::crypto::hash_bytes;
use crate::merkle::{Node, Tree, join, leaf, leaves, pair_hash, tree_over};

verus! {

/// The hash of a sibling, and the side on which the sibling stands: 0 for
/// the left, 1 for the right.
#[derive(Debug, Clone, Copy, PartialEq, Eq)]
pub struct IndexedHash {
    pub index: u32,
    pub hash: [u8; 32],
}

/// The hash of a leaf, and the siblings on its way to the root.
#[derive(Debug, Clone, PartialEq, Eq)]
pub struct Proof {
    pub hash: [u8; 32],
    pub proofs: Vec<IndexedHash>,
}

/// Whether the node has two children.
pub open spec fn is_inner(node: Node) -> bool {
    node.left is Some && node.right is Some
}

/// The number of leaves below the node; a node without two children is a
/// leaf.
pub open spec fn leaf_count(node: Node) -> nat
    decreases node,
{
    if is_inner(node) {
        leaf_count(*node.left->Some_0) + leaf_count(*node.right->Some_0)
    } else {
        1
    }
}

/// Every inner node carries the pair hash of its children's digests.
pub open spec fn hashed(node: Node) -> bool
    decreases node,
{
    is_inner(node) ==> node.hash == pair_hash(node.left->Some_0.hash, node.right->Some_0.hash)
        && hashed(*node.left->Some_0) && hashed(*node.right->Some_0)
}

/// The digest one level up from `current`, beside the sibling `step`.
pub open spec fn climb_one(current: [u8; 32], step: IndexedHash) -> [u8; 32] {
    if step.index == 0 {
        pair_hash(step.hash, current)
    } else {
        pair_hash(current, step.hash)
    }
}

/// The digest that is reached from `current` by climbing past the siblings
/// `steps`, the lowest first.
pub open spec fn climb(current: [u8; 32], steps: Seq<IndexedHash>) -> [u8; 32]
    decreases steps.len(),
{
    if steps.len() == 0 {
        current
    } else {
        climb(climb_one(current, steps[0]), steps.drop_first())
    }
}

/// Whether every sibling names a side.
pub open spec fn sides_named(steps: Seq<IndexedHash>) -> bool {
    forall|i: int| 0 <= i < steps.len() ==> (#[trigger] steps[i]).index <= 1
}

/// Whether a proof leads from its leaf to `root_hash`.
pub open spec fn proves(leaf_hash: [u8; 32], steps: Seq<IndexedHash>, root_hash: [u8; 32]) -> bool {
    sides_named(steps) && climb(leaf_hash, steps) == root_hash
}

/// The digest of the leaf number `number` below `node`, counted from the
/// left and from zero, and its siblings from the bottom up; nothing when
/// there are not that many leaves.
pub open spec fn path(node: Node, number: nat) -> Option<([u8; 32], Seq<IndexedHash>)>
    decreases node,
{
    if is_inner(node) {
        let left = *node.left->Some_0;
        let right = *node.right->Some_0;
        if number < leaf_count(left) {
            match path(left, number) {
                Some((hash, steps)) => Some(
                    (hash, steps.push(IndexedHash { index: 1, hash: right.hash })),
                ),
                None => None,
            }
        } else {
            match path(right, (number - leaf_count(left)) as nat) {
                Some((hash, steps)) => Some(
                    (hash, steps.push(IndexedHash { index: 0, hash: left.hash })),
                ),
                None => None,
            }
        }
    } else if number == 0 {
        Some((node.hash, Seq::empty()))
    } else {
        None
    }
}

/// Climbing past one more sibling at the top is one more climb.
pub proof fn lemma_climb_push(current: [u8; 32], steps: Seq<IndexedHash>, last: IndexedHash)
    ensures
        climb(current, steps.push(last)) == climb_one(climb(current, steps), last),
    decreases steps.len(),
{
    let longer = steps.push(last);
    if steps.len() == 0 {
        assert(longer[0] == last);
        assert(longer.drop_first() =~= Seq::<IndexedHash>::empty());
        assert(climb(climb_one(current, last), longer.drop_first()) == climb_one(current, last));
    } else {
        assert(longer[0] == steps[0]);
        assert(longer.drop_first() =~= steps.drop_first().push(last));
        lemma_climb_push(climb_one(current, steps[0]), steps.drop_first(), last);
    }
}

/// A leaf below a node has a path exactly when its number is below the
/// number of leaves.
pub proof fn lemma_path_exists(node: Node, number: nat)
    ensures
        path(node, number) is Some <==> number < leaf_count(node),
        leaf_count(node) >= 1,
    decreases node,
{
    if is_inner(node) {
        let left = *node.left->Some_0;
        let right = *node.right->Some_0;
        lemma_path_exists(left, number);
        lemma_path_exists(right, (number - leaf_count(left)) as nat);
    }
}

/// In a tree whose inner nodes carry the pair hash of their children,
/// the path of a leaf leads from the leaf's digest to the root's.
pub proof fn lemma_path_proves(node: Node, number: nat)
    requires
        hashed(node),
        path(node, number) is Some,
    ensures
        proves(path(node, number)->Some_0.0, path(node, number)->Some_0.1, node.hash),
    decreases node,
{
    if is_inner(node) {
        let left = *node.left->Some_0;
        let right = *node.right->Some_0;
        if number < leaf_count(left) {
            lemma_path_proves(left, number);
            let (hash, steps) = path(left, number)->Some_0;
            lemma_climb_push(hash, steps, IndexedHash { index: 1, hash: right.hash });
        } else {
            lemma_path_proves(right, (number - leaf_count(left)) as nat);
            let (hash, steps) = path(right, (number - leaf_count(left)) as nat)->Some_0;
            lemma_climb_push(hash, steps, IndexedHash { index: 0, hash: left.hash });
        }
    }
}

/// The tree over the leaves of `hashes` carries pair hashes throughout,
/// has one leaf for each digest, and the path of the leaf number `number`
/// starts at `hashes[number]`.
pub proof fn lemma_tree_paths(hashes: Seq<[u8; 32]>, number: nat)
    requires
        hashes.len() > 0,
    ensures
        tree_over(leaves(hashes)) is Some,
        hashed(tree_over(leaves(hashes))->Some_0),
        leaf_count(tree_over(leaves(hashes))->Some_0) == hashes.len(),
        number < hashes.len() ==> path(tree_over(leaves(hashes))->Some_0, number) is Some && path(
            tree_over(leaves(hashes))->Some_0,
            number,
        )->Some_0.0 == hashes[number as int],
    decreases hashes.len(),
{
    if hashes.len() >= 2 {
        let mid = (hashes.len() / 2) as int;
        let n = hashes.len() as int;
        let first = hashes.subrange(0, mid);
        let second = hashes.subrange(mid, n);
        assert(leaves(hashes).subrange(0, mid) =~= leaves(first));
        assert(leaves(hashes).subrange(mid, n) =~= leaves(second));
        lemma_tree_paths(first, number);
        lemma_tree_paths(second, (number - mid) as nat);
        let root = tree_over(leaves(hashes))->Some_0;
        assert(root == join(tree_over(leaves(first))->Some_0, tree_over(leaves(second))->Some_0));
        assert(is_inner(root));
    } else {
        assert(tree_over(leaves(hashes))->Some_0 == leaf(hashes[0]));
    }
}

/// The number of leaves below `node`, or the largest `u64` when there are
/// more.
fn count_leaves(node: &Node) -> (count: u64)
    ensures
        count as nat == if leaf_count(*node) <= u64::MAX {
            leaf_count(*node)
        } else {
            u64::MAX as nat
        },
    decreases *node,
{
    match (&node.left, &node.right) {
        (Some(left), Some(right)) => count_leaves(left).saturating_add(count_leaves(right)),
        _ => 1,
    }
}

/// The path of the leaf number `number` below `node`.
fn find_path(node: &Node, number: u32) -> (r: Option<([u8; 32], Vec<IndexedHash>)>)
    ensures
        match path(*node, number as nat) {
            Some((hash, steps)) => r is Some && r->Some_0.0 == hash && r->Some_0.1@ == steps,
            None => r is None,
        },
    decreases *node,
{
    match (&node.left, &node.right) {
        (Some(left), Some(right)) => {
            let left_leaves = count_leaves(left);
            if (number as u64) < left_leaves {
                match find_path(left, number) {
                    Some((hash, mut steps)) => {
                        steps.push(IndexedHash { index: 1, hash: right.hash });
                        Some((hash, steps))
                    },
                    None => None,
                }
            } else {
                match find_path(right, number - left_leaves as u32) {
                    Some((hash, mut steps)) => {
                        steps.push(IndexedHash { index: 0, hash: left.hash });
                        Some((hash, steps))
                    },
                    None => None,
                }
            }
        },
        _ => {
            if number == 0 {
                Some((node.hash, Vec::new()))
            } else {
                None
            }
        },
    }
}

/// The pair hash of two digests.
fn hash_pair(left: &[u8; 32], right: &[u8; 32]) -> (hash: [u8; 32])
    ensures
        hash == pair_hash(*left, *right),
{
    let mut both: Vec<u8> = Vec::new();
    append_bytes(&mut both, left);
    append_bytes(&mut both, right);
    assert(both@ =~= left@ + right@);
    hash_bytes(both.as_slice())
}

impl Tree {
    /// The proof for the leaf number `leaf_number`, counted from the left
    /// and from zero: the leaf's digest and the siblings on its way to the
    /// root, the lowest first. There is none for an empty tree or a number
    /// that is not below the number of leaves.
    pub fn generate_proof(&self, leaf_number: u32) -> (r: Option<Proof>)
        ensures
            match self.root() {
                None => r is None,
                Some(root) => match path(root, leaf_number as nat) {
                    Some((hash, steps)) => r is Some && r->Some_0.hash == hash
                        && r->Some_0.proofs@ == steps,
                    None => r is None,
                },
            },
    {
        match self.root_node() {
            None => None,
            Some(root) => match find_path(root, leaf_number) {
                Some((hash, proofs)) => Some(Proof { hash, proofs }),
                None => None,
            },
        }
    }

    /// Whether `proof` leads from its leaf to `root_hash`: every sibling
    /// names a side, and hashing the leaf's digest with each sibling in
    /// turn, the sibling on the side it names, ends at `root_hash`.
    pub fn verify_proof(proof: &Proof, root_hash: [u8; 32]) -> (r: bool)
        ensures
            r == proves(proof.hash, proof.proofs@, root_hash),
    {
        let mut current = proof.hash;
        let mut i: usize = 0;
        assert(proof.proofs@.skip(0) =~= proof.proofs@);
        while i < proof.proofs.len()
            invariant
                i <= proof.proofs@.len(),
                forall|j: int| 0 <= j < i ==> (#[trigger] proof.proofs@[j]).index <= 1,
                climb(proof.hash, proof.proofs@) == climb(current, proof.proofs@.skip(i as int)),
            decreases proof.proofs@.len() - i,
        {
            let step = proof.proofs[i];
            let ghost rest = proof.proofs@.skip(i as int);
            assert(rest[0] == step);
            assert(rest.drop_first() =~= proof.proofs@.skip(i + 1));
            if step.index > 1 {
                return false;
            }
            current = if step.index == 0 {
                hash_pair(&step.hash, &current)
            } else {
                hash_pair(&current, &step.hash)
            };
            i += 1;
        }
        same_digest(&current, &root_hash)
    }
}

/// For the tree over the leaves of `hashes`, every leaf has a proof, the
/// proof starts at the leaf's digest, and it leads to the root digest.
pub proof fn lemma_proofs_verify(hashes: Seq<[u8; 32]>, number: nat)
    requires
        number < hashes.len(),
    ensures
        ({
            let root = tree_over(leaves(hashes))->Some_0;
            &&& tree_over(leaves(hashes)) is Some
            &&& path(root, number) is Some
            &&& path(root, number)->Some_0.0 == hashes[number as int]
            &&& proves(path(root, number)->Some_0.0, path(root, number)->Some_0.1, root.hash)
        }),
{
    lemma_tree_paths(hashes, number);
    lemma_path_proves(tree_over(leaves(hashes))->Some_0, number);
}

} // verus!
