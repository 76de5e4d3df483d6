//! The Merkle commitment over a sequence of transaction identifiers.

use vstd::prelude::*;
use crate::crypto::{blake3_digest, hash_bytes};
use crate::bytes::append_bytes;

verus! {

/// A node of the tree: a leaf carries a committed digest, an inner node
/// the digest of its two children's digests.
#[derive(Debug, PartialEq, Eq)]
pub struct Node {
    pub hash: [u8; 32],
    pub left: Option<Box<Node>>,
    pub right: Option<Box<Node>>,
}

/// Whether every byte of `hash` is zero.
pub open spec fn is_zero(hash: [u8; 32]) -> bool {
    forall|i: int| 0 <= i < 32 ==> hash@[i] == 0
}

/// The leaf that carries `hash`.
pub open spec fn leaf(hash: [u8; 32]) -> Node {
    Node { hash, left: None, right: None }
}

/// The digest of an inner node over two child digests: the digest of the
/// left one followed by the right one.
pub open spec fn pair_hash(left: [u8; 32], right: [u8; 32]) -> [u8; 32] {
    blake3_digest(left@ + right@)
}

/// The inner node over `left` and `right`.
pub open spec fn join(left: Node, right: Node) -> Node {
    Node {
        hash: pair_hash(left.hash, right.hash),
        left: Some(Box::new(left)),
        right: Some(Box::new(right)),
    }
}

/// The tree over `nodes`: none for no nodes, the node itself for one, and
/// otherwise the join of the trees over the first half and over the rest,
/// the first half being the shorter one when the count is odd.
pub open spec fn tree_over(nodes: Seq<Node>) -> Option<Node>
    decreases nodes.len(),
{
    if nodes.len() == 0 {
        None
    } else if nodes.len() == 1 {
        Some(nodes[0])
    } else {
        let mid = (nodes.len() / 2) as int;
        Some(
            join(
                tree_over(nodes.subrange(0, mid)).unwrap(),
                tree_over(nodes.subrange(mid, nodes.len() as int)).unwrap(),
            ),
        )
    }
}

/// The leaves that carry `hashes`.
pub open spec fn leaves(hashes: Seq<[u8; 32]>) -> Seq<Node> {
    Seq::new(hashes.len(), |i: int| leaf(hashes[i]))
}

/// The root digest that commits to `hashes`: none for no digests, the
/// digest itself for one, and otherwise the pair hash of the roots of the
/// first half and of the rest.
pub open spec fn merkle_root(hashes: Seq<[u8; 32]>) -> Option<[u8; 32]>
    decreases hashes.len(),
{
    if hashes.len() == 0 {
        None
    } else if hashes.len() == 1 {
        Some(hashes[0])
    } else {
        let mid = (hashes.len() / 2) as int;
        Some(
            pair_hash(
                merkle_root(hashes.subrange(0, mid)).unwrap(),
                merkle_root(hashes.subrange(mid, hashes.len() as int)).unwrap(),
            ),
        )
    }
}

/// The tree over the leaves of `hashes` has the root digest
/// `merkle_root(hashes)`.
pub proof fn lemma_tree_root(hashes: Seq<[u8; 32]>)
    ensures
        hashes.len() == 0 ==> tree_over(leaves(hashes)) is None && merkle_root(hashes) is None,
        hashes.len() > 0 ==> tree_over(leaves(hashes)) is Some && merkle_root(hashes) == Some(
            tree_over(leaves(hashes))->Some_0.hash,
        ),
    decreases hashes.len(),
{
    if hashes.len() >= 2 {
        let mid = (hashes.len() / 2) as int;
        let n = hashes.len() as int;
        lemma_tree_root(hashes.subrange(0, mid));
        lemma_tree_root(hashes.subrange(mid, n));
        assert(leaves(hashes).subrange(0, mid) =~= leaves(hashes.subrange(0, mid)));
        assert(leaves(hashes).subrange(mid, n) =~= leaves(hashes.subrange(mid, n)));
    }
}

impl Node {
    /// A leaf with the all-zero digest.
    pub fn new() -> (node: Self)
        ensures
            is_zero(node.hash),
            node == leaf(node.hash),
    {
        Self { hash: [0u8; 32], left: None, right: None }
    }

    /// The leaf that carries `hash`.
    pub fn with_hash(hash: [u8; 32]) -> (node: Self)
        ensures
            node == leaf(hash),
    {
        Self { hash, left: None, right: None }
    }

    /// The inner node over `left` and `right`.
    pub fn from_children(left: Node, right: Node) -> (node: Self)
        ensures
            node == join(left, right),
    {
        let mut both: Vec<u8> = Vec::new();
        append_bytes(&mut both, &left.hash);
        append_bytes(&mut both, &right.hash);
        assert(both@ =~= left.hash@ + right.hash@);
        let hash = hash_bytes(both.as_slice());
        Self { hash, left: Some(Box::new(left)), right: Some(Box::new(right)) }
    }

    /// A copy of the node and of everything below it.
    pub fn duplicate(&self) -> (copy: Node)
        ensures
            copy == *self,
        decreases *self,
    {
        let left = match &self.left {
            Some(child) => Some(Box::new(child.duplicate())),
            None => None,
        };
        let right = match &self.right {
            Some(child) => Some(Box::new(child.duplicate())),
            None => None,
        };
        Node { hash: self.hash, left, right }
    }
}

impl Clone for Node {
    fn clone(&self) -> (copy: Self)
        ensures
            copy == *self,
    {
        self.duplicate()
    }
}

impl Default for Node {
    fn default() -> (node: Self)
        ensures
            is_zero(node.hash),
            node == leaf(node.hash),
    {
        Node::new()
    }
}

/// A Merkle tree, empty or with a root.
#[derive(Debug, Clone, Eq, PartialEq)]
pub struct Tree {
    root: Option<Node>,
}

impl Tree {
    /// The root node, if the tree has one.
    pub closed spec fn root(&self) -> Option<Node> {
        self.root
    }

    /// The digest of the root, if the tree has one.
    pub open spec fn spec_root_hash(&self) -> Option<[u8; 32]> {
        match self.root() {
            Some(node) => Some(node.hash),
            None => None,
        }
    }

    /// The empty tree.
    pub fn new() -> (tree: Self)
        ensures
            tree.root() is None,
    {
        Self { root: None }
    }

    /// The tree with the given root.
    pub fn with_root(node: Node) -> (tree: Self)
        ensures
            tree.root() == Some(node),
    {
        Self { root: Some(node) }
    }

    /// The root node, if the tree has one.
    pub fn root_node(&self) -> (r: Option<&Node>)
        ensures
            match r {
                Some(node) => self.root() == Some(*node),
                None => self.root() is None,
            },
    {
        self.root.as_ref()
    }

    /// The tree over the leaves that carry `hashes`.
    pub fn with_hashes(hashes: &[[u8; 32]]) -> (tree: Self)
        ensures
            tree.root() == tree_over(leaves(hashes@)),
            tree.spec_root_hash() == merkle_root(hashes@),
    {
        let mut tree = Tree::new();
        tree.build_tree(hashes);
        tree
    }

    /// Replaces the tree by the one over the leaves that carry `hashes`.
    pub fn build_tree(&mut self, hashes: &[[u8; 32]])
        ensures
            final(self).root() == tree_over(leaves(hashes@)),
            final(self).spec_root_hash() == merkle_root(hashes@),
    {
        let mut nodes: Vec<Node> = Vec::new();
        let mut i: usize = 0;
        while i < hashes.len()
            invariant
                i <= hashes@.len(),
                nodes@ == leaves(hashes@.subrange(0, i as int)),
            decreases hashes@.len() - i,
        {
            nodes.push(Node::with_hash(hashes[i]));
            assert(nodes@ =~= leaves(hashes@.subrange(0, i + 1)));
            i += 1;
        }
        assert(hashes@.subrange(0, hashes@.len() as int) =~= hashes@);
        proof {
            lemma_tree_root(hashes@);
        }
        self.root = match Tree::build(nodes.as_slice()) {
            Some(node) => Some(*node),
            None => None,
        };
    }

    /// The tree over `nodes`.
    pub fn build(nodes: &[Node]) -> (r: Option<Box<Node>>)
        ensures
            match r {
                Some(node) => tree_over(nodes@) == Some(*node),
                None => tree_over(nodes@) is None,
            },
        decreases nodes@.len(),
    {
        if nodes.len() == 0 {
            return None;
        }
        if nodes.len() == 1 {
            return Some(Box::new(nodes[0].duplicate()));
        }
        let (left, right) = nodes.split_at(nodes.len() / 2);
        let left_tree = match Tree::build(left) {
            Some(node) => node,
            None => { return None; },
        };
        let right_tree = match Tree::build(right) {
            Some(node) => node,
            None => { return None; },
        };
        Some(Box::new(Node::from_children(*left_tree, *right_tree)))
    }

    /// The digest of the root, if the tree has one.
    pub fn root_hash(&self) -> (r: Option<[u8; 32]>)
        ensures
            r == self.spec_root_hash(),
    {
        match &self.root {
            Some(node) => Some(node.hash),
            None => None,
        }
    }
}

impl Default for Tree {
    fn default() -> (tree: Self)
        ensures
            tree.root() is None,
    {
        Tree::new()
    }
}

} // verus!
