use zkml::commitment::{commit_i64, Commitment};
use zkml::merkle::{generate_proof, hash_internal, hash_leaf, merkle_root, verify_proof};

#[test]
fn root_is_deterministic() {
    let leaves = vec![[1u8; 32], [2u8; 32], [3u8; 32]];
    assert_eq!(merkle_root(&leaves), merkle_root(&leaves));
}

#[test]
fn empty_is_zero() {
    assert_eq!(merkle_root(&[]), [0u8; 32]);
}

#[test]
fn order_matters() {
    let a = vec![[1u8; 32], [2u8; 32]];
    let b = vec![[2u8; 32], [1u8; 32]];
    assert_ne!(merkle_root(&a), merkle_root(&b));
}

#[test]
fn proof_verifies_valid_inclusion() {
    let leaves = vec![[1u8; 32], [2u8; 32], [3u8; 32], [4u8; 32]];
    let root = merkle_root(&leaves);
    let proof = generate_proof(&leaves, 2).unwrap();
    assert!(verify_proof(&root, &leaves[2], &proof));
}

#[test]
fn proof_fails_for_tampered_leaf() {
    let leaves = vec![[1u8; 32], [2u8; 32], [3u8; 32], [4u8; 32]];
    let root = merkle_root(&leaves);
    let proof = generate_proof(&leaves, 2).unwrap();
    let tampered_leaf = [99u8; 32];
    assert!(!verify_proof(&root, &tampered_leaf, &proof));
}

#[test]
fn proof_fails_for_wrong_index() {
    let leaves = vec![[1u8; 32], [2u8; 32], [3u8; 32], [4u8; 32]];
    let root = merkle_root(&leaves);
    let proof = generate_proof(&leaves, 2).unwrap();
    let mut wrong_proof = proof.clone();
    wrong_proof.index = 1;
    assert!(!verify_proof(&root, &leaves[2], &wrong_proof));
}

#[test]
fn proof_fails_for_tampered_sibling() {
    let leaves = vec![[1u8; 32], [2u8; 32], [3u8; 32], [4u8; 32]];
    let root = merkle_root(&leaves);
    let mut proof = generate_proof(&leaves, 2).unwrap();
    proof.siblings[0] = [99u8; 32];
    assert!(!verify_proof(&root, &leaves[2], &proof));
}

#[test]
fn proof_generation_fails_for_empty_tree() {
    let leaves: Vec<Commitment> = vec![];
    assert!(generate_proof(&leaves, 0).is_none());
}

#[test]
fn proof_generation_fails_for_out_of_bounds_index() {
    let leaves = vec![[1u8; 32], [2u8; 32]];
    assert!(generate_proof(&leaves, 5).is_none());
}

#[test]
fn proof_works_for_single_leaf() {
    let leaves = vec![[1u8; 32]];
    let root = merkle_root(&leaves);
    let proof = generate_proof(&leaves, 0).unwrap();
    assert!(verify_proof(&root, &leaves[0], &proof));
}

#[test]
fn proof_works_for_odd_number_of_leaves() {
    let leaves = vec![[1u8; 32], [2u8; 32], [3u8; 32]];
    let root = merkle_root(&leaves);
    let proof = generate_proof(&leaves, 1).unwrap();
    assert!(verify_proof(&root, &leaves[1], &proof));
}

#[test]
fn domain_separation_prevents_second_preimage() {
    let leaf = [1u8; 32];
    let leaf_hash = hash_leaf(&leaf);
    let leaves = vec![leaf, [2u8; 32]];
    let root = merkle_root(&leaves);
    assert_ne!(leaf_hash, root);
}

#[test]
fn leaf_and_internal_hashes_differ() {
    let leaf = [1u8; 32];
    let leaf_hash = hash_leaf(&leaf);
    let internal_hash = hash_internal(&leaf, &leaf);
    assert_ne!(leaf_hash, internal_hash);
}

#[test]
fn domain_tags_produce_different_hashes() {
    let leaf = [1u8; 32];
    let leaf_hash = hash_leaf(&leaf);
    let mut elements = [0i64; 4];
    for i in 0..4 {
        elements[i] = i64::from_le_bytes(leaf[i * 8..i * 8 + 8].try_into().unwrap());
    }
    let no_domain_hash = commit_i64(&elements);
    assert_ne!(leaf_hash, no_domain_hash);
}

#[test]
fn proof_index_preserved() {
    let leaves = vec![[1u8; 32], [2u8; 32], [3u8; 32], [4u8; 32]];
    let proof = generate_proof(&leaves, 2).unwrap();
    assert_eq!(proof.index, 2);
}

#[test]
fn proof_siblings_length_matches_tree_depth() {
    let leaves = vec![[1u8; 32], [2u8; 32], [3u8; 32], [4u8; 32]];
    let proof = generate_proof(&leaves, 0).unwrap();
    assert_eq!(proof.siblings.len(), 2);
}

#[test]
fn every_leaf_of_an_odd_tree_verifies() {
    let leaves: Vec<[u8; 32]> = (0u8..7).map(|i| [i; 32]).collect();
    let root = merkle_root(&leaves);
    for i in 0..leaves.len() {
        let proof = generate_proof(&leaves, i).unwrap();
        assert_eq!(proof.siblings.len(), 3);
        assert!(verify_proof(&root, &leaves[i], &proof));
    }
}

#[test]
fn single_leaf_root_is_its_leaf_hash() {
    let leaf = [5u8; 32];
    assert_eq!(merkle_root(&[leaf]), hash_leaf(&leaf));
    let two = merkle_root(&[leaf, leaf]);
    assert_eq!(two, hash_internal(&hash_leaf(&leaf), &hash_leaf(&leaf)));
}

#[test]
fn snapshot_merkle_root() {
    let leaves = vec![[1u8; 32], [2u8; 32], [3u8; 32], [4u8; 32]];
    let root = merkle_root(&leaves);
    let expected: Commitment = [
        92, 4, 37, 35, 191, 12, 66, 194, 141, 118, 249, 10, 213, 192, 224, 7, 0, 0, 0, 0, 0, 0, 0, 0, 0,
        0, 0, 0, 0, 0, 0, 0,
    ];
    assert_eq!(root, expected);
}

#[test]
fn snapshot_merkle_root_single_leaf() {
    let leaves = vec![[1u8; 32]];
    let root = merkle_root(&leaves);
    let expected: Commitment = [
        61, 255, 7, 255, 7, 7, 7, 7, 128, 102, 192, 38, 0, 0, 0, 0, 0, 0, 0, 0, 0, 0, 0, 0, 0, 0, 0, 0, 0,
        0, 0, 0,
    ];
    assert_eq!(root, expected);
}

#[test]
fn snapshot_merkle_root_odd_leaves() {
    let leaves = vec![[1u8; 32], [2u8; 32], [3u8; 32]];
    let root = merkle_root(&leaves);
    let expected: Commitment = [
        92, 4, 37, 35, 191, 12, 65, 193, 77, 54, 185, 235, 182, 192, 224, 7, 0, 0, 0, 0, 0, 0, 0, 0, 0, 0,
        0, 0, 0, 0, 0, 0,
    ];
    assert_eq!(root, expected);
}
