use std::sync::Arc;

use merkle_tree::digest::Digest;
use merkle_tree::errors::MerkleError;
use merkle_tree::mix_hash::MixParameters;
use merkle_tree::parameters::MerkleParameters;
use merkle_tree::tree::MerkleTree;

fn params(depth: usize) -> Arc<MixParameters> {
    Arc::new(MixParameters::new(depth))
}

fn leaves(values: &[&str]) -> Vec<Vec<u8>> {
    values.iter().map(|v| v.as_bytes().to_vec()).collect()
}

/// Recomputes the root from a leaf digest and an authentication path,
/// the way an external verifier would.
fn walk(p: &MixParameters, mut pos: usize, path: &[Digest], leaf_digest: Digest) -> Digest {
    let mut cur = leaf_digest;
    for sibling in path {
        cur = if pos % 2 == 0 {
            p.hash_inner_node(&cur, sibling)
        } else {
            p.hash_inner_node(sibling, &cur)
        };
        pos /= 2;
    }
    cur
}

#[test]
fn determinism_same_leaves_same_tree() {
    let p = params(4);
    let lv = leaves(&["alpha", "beta", "gamma"]);
    let t1 = MerkleTree::new(Arc::clone(&p), &lv).unwrap();
    let t2 = MerkleTree::new(Arc::clone(&p), &lv).unwrap();
    assert_eq!(t1.root(), t2.root());
    assert_eq!(t1.tree(), t2.tree());
}

#[test]
fn padding_chain_gives_root() {
    // two leaves: a real tree of depth 1, padded up to depth 4
    let p = params(4);
    let lv = leaves(&["left", "right"]);
    let t = MerkleTree::new(Arc::clone(&p), &lv).unwrap();
    let empty = p.hash_empty();
    let real_root = p.hash_inner_node(&p.hash_leaf(b"left"), &p.hash_leaf(b"right"));
    let mut expected = real_root;
    for _ in 0..3 {
        expected = p.hash_inner_node(&expected, &empty);
    }
    assert_eq!(t.root(), expected);
}

#[test]
fn full_depth_tree_has_plain_root() {
    // four leaves at depth 2: no padding at all
    let p = params(2);
    let lv = leaves(&["a", "b", "c", "d"]);
    let t = MerkleTree::new(Arc::clone(&p), &lv).unwrap();
    let n1 = p.hash_inner_node(&p.hash_leaf(b"a"), &p.hash_leaf(b"b"));
    let n2 = p.hash_inner_node(&p.hash_leaf(b"c"), &p.hash_leaf(b"d"));
    assert_eq!(t.root(), p.hash_inner_node(&n1, &n2));
    assert_eq!(t.tree()[0], p.hash_inner_node(&n1, &n2));
}

#[test]
fn depth_rejection_exact_error() {
    // three leaves need depth 2; a capacity of 1 must be refused
    let p = params(1);
    let lv = leaves(&["a", "b", "c"]);
    match MerkleTree::new(Arc::clone(&p), &lv) {
        Err(MerkleError::InvalidTreeDepth(actual, configured)) => {
            assert_eq!(actual, 2);
            assert_eq!(configured, 1);
        }
        _ => panic!("expected InvalidTreeDepth"),
    }
}

#[test]
fn depth_rejection_in_rebuild() {
    let p = params(1);
    let t = MerkleTree::new(Arc::clone(&p), &leaves(&["a", "b"])).unwrap();
    match t.rebuild(2, &leaves(&["c"])) {
        Err(MerkleError::InvalidTreeDepth(actual, configured)) => {
            assert_eq!(actual, 2);
            assert_eq!(configured, 1);
        }
        _ => panic!("expected InvalidTreeDepth"),
    }
    // the original tree is untouched and still answers
    assert_eq!(t.tree().len(), 3);
}

#[test]
fn rebuild_equivalence_append() {
    let p = params(5);
    let prefix = leaves(&["a", "b"]);
    let suffix = leaves(&["c", "d", "e"]);
    let full = leaves(&["a", "b", "c", "d", "e"]);
    let base = MerkleTree::new(Arc::clone(&p), &prefix).unwrap();
    let rebuilt = base.rebuild(2, &suffix).unwrap();
    let direct = MerkleTree::new(Arc::clone(&p), &full).unwrap();
    assert_eq!(rebuilt.root(), direct.root());
    assert_eq!(rebuilt.tree(), direct.tree());
}

#[test]
fn rebuild_equivalence_shorter_prefix() {
    // rebuilding from a split point below the old leaf count keeps
    // only the prefix before it
    let p = params(4);
    let base = MerkleTree::new(Arc::clone(&p), &leaves(&["a", "b", "c", "d"])).unwrap();
    let rebuilt = base.rebuild(2, &leaves(&["e"])).unwrap();
    let direct = MerkleTree::new(Arc::clone(&p), &leaves(&["a", "b", "e"])).unwrap();
    assert_eq!(rebuilt.root(), direct.root());
    assert_eq!(rebuilt.tree(), direct.tree());
}

#[test]
fn rebuild_from_empty_tree() {
    let p = params(4);
    let base = MerkleTree::new(Arc::clone(&p), &leaves(&[])).unwrap();
    let rebuilt = base.rebuild(0, &leaves(&["a", "b", "c"])).unwrap();
    let direct = MerkleTree::new(Arc::clone(&p), &leaves(&["a", "b", "c"])).unwrap();
    assert_eq!(rebuilt.root(), direct.root());
    assert_eq!(rebuilt.tree(), direct.tree());
}

#[test]
fn rebuild_keeps_untouched_nodes() {
    // appending one leaf to [a, b, c] leaves the whole [a, b] subtree
    // and the untouched leaf slots byte-identical
    let p = params(4);
    let base = MerkleTree::new(Arc::clone(&p), &leaves(&["a", "b", "c"])).unwrap();
    let rebuilt = base.rebuild(3, &leaves(&["d"])).unwrap();
    // node 1 is the parent of the [a, b] pair; 3 and 4 are their slots
    assert_eq!(rebuilt.tree()[1], base.tree()[1]);
    assert_eq!(rebuilt.tree()[3], base.tree()[3]);
    assert_eq!(rebuilt.tree()[4], base.tree()[4]);
    assert_eq!(rebuilt.tree()[5], base.tree()[5]);
    // slot 6 was the empty slot and now holds the new leaf
    assert_ne!(rebuilt.tree()[6], base.tree()[6]);
}

#[test]
fn rebuild_reuses_padding_when_root_unchanged() {
    // appending nothing keeps the real root, so the padding fast path
    // runs; the result must still be the very same commitment
    let p = params(6);
    let base = MerkleTree::new(Arc::clone(&p), &leaves(&["a", "b", "c"])).unwrap();
    let rebuilt = base.rebuild(3, &leaves(&[])).unwrap();
    assert_eq!(rebuilt.root(), base.root());
    assert_eq!(rebuilt.tree(), base.tree());
}

#[test]
fn empty_tree_is_all_padding() {
    let p = params(3);
    let t = MerkleTree::new(Arc::clone(&p), &leaves(&[])).unwrap();
    assert_eq!(t.tree().len(), 1);
    let empty = p.hash_empty();
    assert_eq!(t.hashed_leaves(), vec![empty]);
    let mut expected = empty;
    for _ in 0..3 {
        expected = p.hash_inner_node(&expected, &empty);
    }
    assert_eq!(t.root(), expected);
}

#[test]
fn hashed_leaves_are_leaf_digests() {
    let p = params(3);
    let lv = leaves(&["a", "b", "c"]);
    let t = MerkleTree::new(Arc::clone(&p), &lv).unwrap();
    let row = t.hashed_leaves();
    assert_eq!(row.len(), 4);
    assert_eq!(row[0], p.hash_leaf(b"a"));
    assert_eq!(row[1], p.hash_leaf(b"b"));
    assert_eq!(row[2], p.hash_leaf(b"c"));
    assert_eq!(row[3], p.hash_empty());
}

#[test]
fn proof_round_trip_every_index() {
    let p = params(4);
    let lv = leaves(&["one", "two", "three", "four", "five"]);
    let t = MerkleTree::new(Arc::clone(&p), &lv).unwrap();
    for (i, leaf) in lv.iter().enumerate() {
        let proof = t.generate_proof(i, leaf).unwrap();
        assert_eq!(proof.path.len(), 4);
        assert_eq!(proof.leaf_index, i);
        let reached = walk(&p, i, &proof.path, p.hash_leaf(leaf));
        assert_eq!(reached, t.root());
    }
}

#[test]
fn proof_round_trip_full_depth() {
    // no padding segment at all
    let p = params(1);
    let lv = leaves(&["l", "r"]);
    let t = MerkleTree::new(Arc::clone(&p), &lv).unwrap();
    for (i, leaf) in lv.iter().enumerate() {
        let proof = t.generate_proof(i, leaf).unwrap();
        assert_eq!(proof.path.len(), 1);
        assert_eq!(walk(&p, i, &proof.path, p.hash_leaf(leaf)), t.root());
    }
}

#[test]
fn tamper_detection_wrong_leaf() {
    let p = params(4);
    let lv = leaves(&["a", "b", "c"]);
    let t = MerkleTree::new(Arc::clone(&p), &lv).unwrap();
    match t.generate_proof(1, b"forged") {
        Err(MerkleError::IncorrectLeafIndex(position)) => {
            // slot 1 of the leaf row sits at array position 4
            assert_eq!(position, 4);
        }
        _ => panic!("expected IncorrectLeafIndex"),
    }
}

#[test]
fn tamper_detection_wrong_index() {
    let p = params(4);
    let lv = leaves(&["a", "b", "c"]);
    let t = MerkleTree::new(Arc::clone(&p), &lv).unwrap();
    assert!(matches!(
        t.generate_proof(0, b"b"),
        Err(MerkleError::IncorrectLeafIndex(_))
    ));
}

#[test]
fn concrete_three_leaf_scenario() {
    // depth 3 with leaves [a, b, c]: four leaf slots, seven nodes, a
    // real depth of two and a single padding level above it
    let p = params(3);
    let lv = leaves(&["a", "b", "c"]);
    let t = MerkleTree::new(Arc::clone(&p), &lv).unwrap();
    assert_eq!(t.tree().len(), 7);
    let empty = p.hash_empty();
    let la = p.hash_leaf(b"a");
    let lb = p.hash_leaf(b"b");
    let lc = p.hash_leaf(b"c");
    assert_eq!(t.hashed_leaves(), vec![la, lb, lc, empty]);
    let n1 = p.hash_inner_node(&la, &lb);
    let n2 = p.hash_inner_node(&lc, &empty);
    let real_root = p.hash_inner_node(&n1, &n2);
    assert_eq!(t.root(), p.hash_inner_node(&real_root, &empty));
    // the proof for index 2 carries its empty leaf-level sibling, the
    // [a, b] node, and the single padding sibling
    let proof = t.generate_proof(2, b"c").unwrap();
    assert_eq!(proof.path.len(), 3);
    assert_eq!(proof.path[0], empty);
    assert_eq!(proof.path[1], n1);
    assert_eq!(proof.path[2], empty);
}

#[test]
fn single_leaf_tree() {
    let p = params(2);
    let lv = leaves(&["solo"]);
    let t = MerkleTree::new(Arc::clone(&p), &lv).unwrap();
    assert_eq!(t.tree().len(), 1);
    assert_eq!(t.tree()[0], p.hash_leaf(b"solo"));
    let empty = p.hash_empty();
    let expected = p.hash_inner_node(&p.hash_inner_node(&p.hash_leaf(b"solo"), &empty), &empty);
    assert_eq!(t.root(), expected);
    let proof = t.generate_proof(0, b"solo").unwrap();
    assert_eq!(proof.path.len(), 2);
    assert_eq!(walk(&p, 0, &proof.path, p.hash_leaf(b"solo")), t.root());
}
