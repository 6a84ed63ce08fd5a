use merkle_tree::digest::{hash_multiple, hash_one, Digest};
use merkle_tree::serializable::Serializable;
use merkle_tree::tree::MerkleTree;

#[test]
fn test_concrete_scenario() {
    let tree = MerkleTree::create_from_values(&[3, 4, 5, 6]);

    let h3 = hash_one(3);
    let h4 = hash_one(4);
    let h5 = hash_one(5);
    let h6 = hash_one(6);
    assert_eq!(tree.leafs().as_slice(), &[h3, h4, h5, h6]);

    let level1_0 = hash_multiple(&[h3, h4]);
    let level1_1 = hash_multiple(&[h5, h6]);
    assert_eq!(tree.levels()[1].as_slice(), &[level1_0, level1_1]);

    let root = hash_multiple(&[level1_0, level1_1]);
    assert_eq!(tree.root(), Some(root));

    assert_eq!(tree.leaf_index_for_element(5), Some(2));

    let (proof_3, index_3) = tree.generate_proof(3).unwrap();
    assert_eq!(index_3, 0);
    assert_eq!(proof_3.as_slice(), &[h4, level1_1]);
    assert!(tree.verify_proof(3, 0, &proof_3));
    assert!(!tree.verify_proof(9, 0, &proof_3));
}

#[test]
fn test_single_value_tree() {
    let tree = MerkleTree::create_from_values(&[7]);
    assert_eq!(tree.num_elements(), 2);
    assert_eq!(tree.height(), 2);
    let h7 = hash_one(7);
    assert_eq!(tree.leafs().as_slice(), &[h7, h7]);

    let (proof_7, index_7) = tree.generate_proof(7).unwrap();
    assert_eq!(index_7, 0);
    assert_eq!(proof_7.as_slice(), &[h7]);
    assert!(tree.verify_proof(7, index_7, &proof_7));
}

#[test]
fn test_height_is_log_of_padded_leaf_count() {
    // (input length, padded leaf count, expected height)
    let cases: [(usize, usize, usize); 7] = [
        (1, 2, 2),
        (2, 2, 2),
        (3, 4, 3),
        (4, 4, 3),
        (5, 6, 4),
        (8, 8, 4),
        (9, 10, 5),
    ];
    for &(n, padded, height) in cases.iter() {
        let values: Vec<u32> = (0..n as u32).collect();
        let tree = MerkleTree::create_from_values(&values);
        assert_eq!(tree.num_elements(), padded);
        assert_eq!(tree.height(), height);
    }
}

#[test]
fn test_roundtrip_for_every_element() {
    let values: [u32; 6] = [10, 20, 30, 40, 50, 60];
    let tree = MerkleTree::create_from_values(&values);
    for &v in values.iter() {
        let (proof, index) = tree.generate_proof(v).unwrap();
        assert!(tree.verify_proof(v, index, &proof));
        assert_eq!(tree.leaf_index_for_element(v), Some(index));
    }
}

#[test]
fn test_not_found_is_none() {
    let tree = MerkleTree::create_from_values(&[3, 4, 5, 6]);
    assert_eq!(tree.leaf_index_for_element(42), None);
    assert_eq!(tree.generate_proof(42), None);
}

#[test]
fn test_tampering_is_rejected() {
    let tree = MerkleTree::create_from_values(&[3, 4, 5, 6]);
    let (proof, index) = tree.generate_proof(3).unwrap();
    assert!(tree.verify_proof(3, index, &proof));

    // Tampered element
    assert!(!tree.verify_proof(9, index, &proof));

    // Tampered index
    assert!(!tree.verify_proof(3, index + 1, &proof));

    // Tampered proof entry (one flipped byte)
    for k in 0..proof.len() {
        let mut tampered = proof.clone();
        tampered[k][0] ^= 0x01;
        assert!(!tree.verify_proof(3, index, &tampered));
    }

    // Proof verified against a different tree (different root)
    let other = MerkleTree::create_from_values(&[7, 8, 9, 10]);
    assert!(!other.verify_proof(3, index, &proof));
}

#[test]
fn test_append_doubles_the_leaf_count() {
    let mut tree = MerkleTree::create_from_values(&[1, 2, 3, 4]);
    let root_before = tree.root().unwrap();
    assert_eq!(tree.height(), 3);

    tree.append(5);
    assert_eq!(tree.num_elements(), 8);
    assert_eq!(tree.height(), 4);
    let h5 = hash_one(5u32);
    for i in 4..8 {
        assert_eq!(tree.leafs()[i], h5);
    }
    assert_ne!(tree.root().unwrap(), root_before);

    let (proof_5, index_5) = tree.generate_proof(5).unwrap();
    assert_eq!(index_5, 4);
    assert!(tree.verify_proof(5, index_5, &proof_5));
}

#[test]
fn test_contains_internal_digests_only() {
    let tree = MerkleTree::create_from_values(&[3, 4, 5, 6]);
    let level1_0 = hash_multiple(&[hash_one(3), hash_one(4)]);
    assert!(tree.contains_hash(&level1_0));
    assert!(tree.contains_hash(&tree.root().unwrap()));

    let unrelated: Digest = [0u8; 32];
    assert!(!tree.contains_hash(&unrelated));
}

#[test]
fn test_digest_is_keccak256() {
    // Keccak-256 of the empty byte string.
    let expected: Digest = [
        0xc5, 0xd2, 0x46, 0x01, 0x86, 0xf7, 0x23, 0x3c, 0x92, 0x7e, 0x7d, 0xb2, 0xdc, 0xc7, 0x03,
        0xc0, 0xe5, 0x00, 0xb6, 0x53, 0xca, 0x82, 0x27, 0x3b, 0x7b, 0xfa, 0xd8, 0x04, 0x5d, 0x85,
        0xa4, 0x70,
    ];
    assert_eq!(hash_multiple(&[]), expected);
}

#[test]
fn test_combination_is_order_sensitive() {
    let a = hash_one(1);
    let b = hash_one(2);
    assert_ne!(a, b);
    assert_ne!(hash_multiple(&[a, b]), hash_multiple(&[b, a]));
    assert_ne!(hash_multiple(&[a, b]), a);
    assert_ne!(hash_multiple(&[a, b]), b);
}

#[test]
fn test_little_endian_encodings() {
    assert_eq!(Serializable::to_le_bytes(&0x01020304u32), vec![4, 3, 2, 1]);
    assert_eq!(Serializable::to_le_bytes(&258u16), vec![2, 1]);
    assert_eq!(Serializable::to_le_bytes(&5u8), vec![5]);
    assert_eq!(Serializable::to_le_bytes(&(-1i16)), vec![0xff, 0xff]);
    assert_eq!(Serializable::to_le_bytes(&(-2i64)), {
        let mut v = vec![0xfe];
        v.extend(std::iter::repeat(0xff).take(7));
        v
    });
    assert_eq!(Serializable::to_le_bytes(&1u128), {
        let mut v = vec![1];
        v.extend(std::iter::repeat(0).take(15));
        v
    });
    // Equal values of different signedness share an encoding, so they share
    // a leaf digest.
    assert_eq!(
        Serializable::to_le_bytes(&5i32),
        Serializable::to_le_bytes(&5u32)
    );
    assert_eq!(hash_one(5i32), hash_one(5u32));
}
