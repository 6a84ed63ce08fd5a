use merkle_tree::digest::{hash_multiple, hash_one};
use merkle_tree::tree::MerkleTree;

#[test]
fn hash_is_the_same() {
    let first_hash = hash_one(32);
    let second_hash = hash_one(32);
    assert_eq!(first_hash, second_hash);
}

#[test]
fn test_creation_and_contains_hash() {
    let mut tree = MerkleTree::create_from_values(&[3, 4, 5, 6]);

    let three_hash = hash_one(3);
    let four_hash = hash_one(4);
    let threefour_hash = hash_multiple(&[three_hash.clone(), four_hash.clone()]);

    let five_hash = hash_one(5);
    let six_hash = hash_one(6);
    let fivesix_hash = hash_multiple(&[five_hash.clone(), six_hash.clone()]);

    let root = hash_multiple(&[threefour_hash.clone(), fivesix_hash.clone()]);

    // Test we can get the leaf index for each element
    assert_eq!(tree.leaf_index_for_element(5), Some(2));
    assert_eq!(tree.leaf_index_for_element(6), Some(3));
    assert_eq!(tree.leaf_index_for_element(11), None);

    // Test contains_hash
    assert!(tree.contains_hash(&three_hash));
    assert!(tree.contains_hash(&four_hash));
    assert!(tree.contains_hash(&threefour_hash));
    assert!(tree.contains_hash(&five_hash));
    assert!(tree.contains_hash(&six_hash));
    assert!(tree.contains_hash(&fivesix_hash));
    assert!(tree.contains_hash(&root));
    assert!(!tree.contains_hash(&hash_one(7)));

    // Test verify_proof for even index
    let (proof_3, index_3) = tree.generate_proof(3).unwrap();
    assert!(tree.verify_proof(3, index_3, &proof_3));
    assert!(!tree.verify_proof(9, index_3, &proof_3));

    // Test tree.verify_proof for odd index
    let (proof_6, index_6) = tree.generate_proof(6).unwrap();
    assert!(tree.verify_proof(6, index_6, &proof_6));
    assert!(!tree.verify_proof(9, index_6, &proof_6));

    // Test verify_proof is None for non-existent item
    assert_eq!(tree.generate_proof(11), None);

    // Now let's attempt to add a new element to the three
    assert_eq!(tree.leaf_index_for_element(7), None);
    tree.add_element(7);
    assert_eq!(tree.leaf_index_for_element(7), Some(4));
    let (proof_7, index_7) = tree.generate_proof(7).unwrap();
    assert!(tree.verify_proof(7, index_7, &proof_7));
}

#[test]
fn test_tree_is_generic_over_integers() {
    let tree = MerkleTree::create_from_values(&[3i32, 4i32, 5i32, 6i32]);
    assert_eq!(tree.num_elements(), 4);
    let tree = MerkleTree::create_from_values(&[3u32, 4u32, 5u32, 6u32]);
    assert_eq!(tree.num_elements(), 4);
    let tree = MerkleTree::create_from_values(&[3u8, 4u8, 5u8, 6u8]);
    assert_eq!(tree.num_elements(), 4);
    let tree = MerkleTree::create_from_values(&[3i16, 4i16, 5i16, 6i16]);
    assert_eq!(tree.num_elements(), 4);
}

#[test]
fn test_create_tree_with_odd_num_elements() {
    let tree = MerkleTree::create_from_values(&[3, 4, 5]);
    assert_eq!(tree.num_elements(), 4);
    assert_eq!(tree.levels()[1].len(), 2);
    assert_eq!(tree.leafs()[2], tree.leafs()[3]);

    let tree = MerkleTree::create_from_values(&[1, 2, 3, 4, 5, 6, 7, 8, 9]);
    assert_eq!(tree.num_elements(), 10);
    assert_eq!(tree.leafs()[8], tree.leafs()[9]);
}

#[test]
fn test_add_to_tree_4_elems() {
    let mut tree = MerkleTree::create_from_values(&[1, 2, 3, 4]);
    assert_eq!(tree.num_elements(), 4);

    tree.add_element(5);
    assert_eq!(tree.num_elements(), 6);
    let n = tree.leafs().len();
    assert_eq!(tree.leafs()[n - 1], tree.leafs()[n - 2]);
}

#[test]
fn test_add_to_tree_8_elems() {
    let mut tree = MerkleTree::create_from_values(&[1, 2, 3, 4, 5, 6, 7, 8]);
    assert_eq!(tree.levels()[0].len(), 8);
    assert_eq!(tree.levels()[1].len(), 4);
    assert_eq!(tree.levels()[2].len(), 2);
    assert_eq!(tree.levels()[3].len(), 1);

    tree.add_element(10);
    assert_eq!(tree.levels()[0].len(), 10);
    assert_eq!(tree.levels()[1].len(), 6);
    assert_eq!(tree.levels()[2].len(), 4);
    assert_eq!(tree.levels()[3].len(), 2);
    assert_eq!(tree.levels()[4].len(), 1);
    let n = tree.leafs().len();
    assert_eq!(tree.leafs()[n - 1], tree.leafs()[n - 2]);
}
