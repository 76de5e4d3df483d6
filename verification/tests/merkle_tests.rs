use corelib::merkle::{Node, Tree};
use corelib::merkle_proof::{IndexedHash, Proof};

fn pair(left: &[u8; 32], right: &[u8; 32]) -> [u8; 32] {
    *blake3::hash(&[*left, *right].concat()).as_bytes()
}

#[test]
fn creates_and_proofs_tree() {
    let hashes: Vec<[u8; 32]> = vec![[1u8; 32], [2u8; 32], [3u8; 32], [4u8; 32]];

    let mut tree = Tree::default();

    tree.build_tree(&hashes);
    let root_hash = tree.root_hash();

    assert_eq!(
        root_hash,
        Some(pair(&pair(&[1u8; 32], &[2u8; 32]), &pair(&[3u8; 32], &[4u8; 32])))
    );

    for (index, hash) in hashes.iter().enumerate() {
        let proof = tree.generate_proof(index as u32);
        assert!(proof.is_some(), "Proof for leaf {} should exist", index);

        let proof = proof.unwrap();
        assert_eq!(proof.hash, *hash);
        assert!(
            Tree::verify_proof(&proof, root_hash.unwrap()),
            "Proof verification for leaf {} should pass",
            index
        );
    }
}

#[test]
fn small_trees() {
    assert_eq!(Tree::new().root_hash(), None);
    assert_eq!(Tree::with_hashes(&[]).root_hash(), None);
    assert_eq!(Tree::default(), Tree::new());
    assert_eq!(Tree::with_hashes(&[[5u8; 32]]).root_hash(), Some([5u8; 32]));
    assert_eq!(
        Tree::with_hashes(&[[5u8; 32], [6u8; 32]]).root_hash(),
        Some(pair(&[5u8; 32], &[6u8; 32]))
    );
    assert_ne!(
        Tree::with_hashes(&[[5u8; 32], [6u8; 32]]).root_hash(),
        Tree::with_hashes(&[[6u8; 32], [5u8; 32]]).root_hash()
    );
}

#[test]
fn odd_counts_split_with_the_shorter_half_first() {
    let (a, b, c, d, e) = ([1u8; 32], [2u8; 32], [3u8; 32], [4u8; 32], [5u8; 32]);
    assert_eq!(
        Tree::with_hashes(&[a, b, c]).root_hash(),
        Some(pair(&a, &pair(&b, &c)))
    );
    assert_eq!(
        Tree::with_hashes(&[a, b, c, d, e]).root_hash(),
        Some(pair(&pair(&a, &b), &pair(&c, &pair(&d, &e))))
    );
}

#[test]
fn nodes() {
    let zero = Node::new();
    assert_eq!(zero.hash, [0u8; 32]);
    assert!(zero.left.is_none() && zero.right.is_none());
    assert_eq!(Node::default(), zero);
    let left = Node::with_hash([1u8; 32]);
    let right = Node::with_hash([2u8; 32]);
    let parent = Node::from_children(left.clone(), right.clone());
    assert_eq!(parent.hash, pair(&[1u8; 32], &[2u8; 32]));
    assert_eq!(parent.left.as_deref(), Some(&left));
    assert_eq!(parent.right.as_deref(), Some(&right));
    assert_eq!(parent.duplicate(), parent);
    assert_eq!(parent.clone(), parent);
    let built = Tree::build(&[left.clone(), right.clone()]).unwrap();
    assert_eq!(*built, parent);
    assert_eq!(Tree::build(&[parent.clone()]).map(|n| *n), Some(parent.clone()));
    assert_eq!(Tree::build(&[]), None);
    assert_eq!(Tree::with_root(parent.clone()).root_node(), Some(&parent));
}

#[test]
fn proofs_list_siblings_from_the_bottom_up() {
    let (a, b, c) = ([1u8; 32], [2u8; 32], [3u8; 32]);
    let tree = Tree::with_hashes(&[a, b, c]);
    let root = tree.root_hash().unwrap();
    assert_eq!(
        tree.generate_proof(0),
        Some(Proof {
            hash: a,
            proofs: vec![IndexedHash { index: 1, hash: pair(&b, &c) }],
        })
    );
    assert_eq!(
        tree.generate_proof(1),
        Some(Proof {
            hash: b,
            proofs: vec![
                IndexedHash { index: 1, hash: c },
                IndexedHash { index: 0, hash: a },
            ],
        })
    );
    assert_eq!(
        tree.generate_proof(2),
        Some(Proof {
            hash: c,
            proofs: vec![
                IndexedHash { index: 0, hash: b },
                IndexedHash { index: 0, hash: a },
            ],
        })
    );
    assert_eq!(tree.generate_proof(3), None);
    assert_eq!(Tree::new().generate_proof(0), None);
    let single = Tree::with_hashes(&[a]);
    assert_eq!(single.generate_proof(0), Some(Proof { hash: a, proofs: vec![] }));
    assert!(Tree::verify_proof(&single.generate_proof(0).unwrap(), a));

    let good = tree.generate_proof(1).unwrap();
    assert!(Tree::verify_proof(&good, root));
    assert!(!Tree::verify_proof(&good, a));
    let mut other_leaf = good.clone();
    other_leaf.hash = c;
    assert!(!Tree::verify_proof(&other_leaf, root));
    let mut swapped = good.clone();
    swapped.proofs[0].index = 0;
    assert!(!Tree::verify_proof(&swapped, root));
    let mut no_side = good.clone();
    no_side.proofs[1].index = 2;
    assert!(!Tree::verify_proof(&no_side, root));
    let mut shorter = good.clone();
    shorter.proofs.pop();
    assert!(!Tree::verify_proof(&shorter, root));
}

#[test]
fn every_leaf_of_larger_trees_is_proved() {
    for count in 1..=17u8 {
        let hashes: Vec<[u8; 32]> = (0..count).map(|i| [i; 32]).collect();
        let tree = Tree::with_hashes(&hashes);
        let root = tree.root_hash().unwrap();
        for (i, hash) in hashes.iter().enumerate() {
            let proof = tree.generate_proof(i as u32).unwrap();
            assert_eq!(proof.hash, *hash);
            assert!(Tree::verify_proof(&proof, root));
        }
        assert_eq!(tree.generate_proof(count as u32), None);
    }
}
