use merkle_tree::digest::{combine, digest_hex, hash};
use merkle_tree::membership::{authenticate, parse_proof, verify, verify_request, ProofRequest};
use merkle_tree::CustomError;

fn request(leaf: [u8; 32], declared: u8, siblings: &[[u8; 32]]) -> Vec<u8> {
    let mut data = Vec::new();
    data.extend_from_slice(&leaf);
    data.push(declared);
    for sibling in siblings {
        data.extend_from_slice(sibling);
    }
    data
}

#[test]
fn verify_without_siblings_is_the_hash_of_the_leaf() {
    let leaf = b"hello leaf";
    assert_eq!(verify(leaf, &[]), hash(leaf));
    assert_eq!(
        digest_hex(&verify(leaf, &[])),
        "a03959468464c6759c5722f87fe6cba96a79d808a7787ad20c1d4f052a2c7709"
    );
    assert_eq!(verify(&[], &[]), hash(&[]));
}

#[test]
fn verify_with_three_siblings_combines_them_in_order() {
    let leaf = b"hello leaf";
    let s1 = [0x11u8; 32];
    let s2 = [0x22u8; 32];
    let s3 = [0x33u8; 32];
    let expected = combine(&combine(&combine(&hash(leaf), &s1), &s2), &s3);
    assert_eq!(verify(leaf, &[s1, s2, s3]), expected);
    assert_eq!(
        digest_hex(&verify(leaf, &[s1, s2, s3])),
        "d4b4995935e88d8853911bad3fdf48a49edabffbe196b3da14390bce7d538a32"
    );
}

#[test]
fn verify_keeps_the_running_digest_on_the_left() {
    let leaf = [5u8; 32];
    let sibling = [6u8; 32];
    assert_eq!(verify(&leaf, &[sibling]), combine(&hash(&leaf), &sibling));
    assert_ne!(verify(&leaf, &[sibling]), combine(&sibling, &hash(&leaf)));
}

#[test]
fn verify_depends_on_the_order_of_the_siblings() {
    let leaf = [5u8; 32];
    let s1 = [1u8; 32];
    let s2 = [2u8; 32];
    assert_ne!(verify(&leaf, &[s1, s2]), verify(&leaf, &[s2, s1]));
}

#[test]
fn authenticate_accepts_the_computed_digest_only() {
    let leaf = b"some leaf";
    let siblings = [[7u8; 32], [8u8; 32]];
    let root = verify(leaf, &siblings);
    assert_eq!(authenticate(leaf, &siblings, &root), Ok(()));
    let mut other = root;
    other[0] ^= 1;
    assert_eq!(
        authenticate(leaf, &siblings, &other),
        Err(CustomError::RootMismatch)
    );
    assert_eq!(
        authenticate(b"another leaf", &siblings, &root),
        Err(CustomError::RootMismatch)
    );
    assert_eq!(
        authenticate(leaf, &siblings[..1], &root),
        Err(CustomError::RootMismatch)
    );
}

#[test]
fn parse_proof_reads_leaf_and_siblings() {
    let leaf = [0xaau8; 32];
    let siblings = [[1u8; 32], [2u8; 32]];
    let data = request(leaf, 2, &siblings);
    assert_eq!(
        parse_proof(&data),
        Ok(ProofRequest {
            leaf,
            siblings: siblings.to_vec()
        })
    );
}

#[test]
fn parse_proof_accepts_a_request_without_siblings() {
    let leaf = [0x10u8; 32];
    let data = request(leaf, 0, &[]);
    assert_eq!(data.len(), 33);
    assert_eq!(
        parse_proof(&data),
        Ok(ProofRequest {
            leaf,
            siblings: Vec::new()
        })
    );
}

#[test]
fn parse_proof_keeps_the_bytes_of_each_sibling_apart() {
    let mut data = Vec::new();
    for i in 0..(33 + 3 * 32) {
        data.push((i % 251) as u8);
    }
    data[32] = 3;
    let parsed = parse_proof(&data).unwrap();
    assert_eq!(&parsed.leaf[..], &data[..32]);
    assert_eq!(parsed.siblings.len(), 3);
    assert_eq!(&parsed.siblings[0][..], &data[33..65]);
    assert_eq!(&parsed.siblings[1][..], &data[65..97]);
    assert_eq!(&parsed.siblings[2][..], &data[97..129]);
}

#[test]
fn parse_proof_rejects_a_request_that_is_too_short() {
    assert_eq!(
        parse_proof(&[]),
        Err(CustomError::InvalidInstructionDataLength)
    );
    assert_eq!(
        parse_proof(&[0u8; 32]),
        Err(CustomError::InvalidInstructionDataLength)
    );
    assert_eq!(
        parse_proof(&[3u8; 5]),
        Err(CustomError::InvalidInstructionDataLength)
    );
}

#[test]
fn parse_proof_rejects_a_length_that_disagrees_with_the_count() {
    let leaf = [0u8; 32];
    let one = [[1u8; 32]];
    assert_eq!(
        parse_proof(&request(leaf, 2, &one)),
        Err(CustomError::ProofCountMismatch)
    );
    assert_eq!(
        parse_proof(&request(leaf, 0, &one)),
        Err(CustomError::ProofCountMismatch)
    );
    let mut ragged = request(leaf, 1, &one);
    ragged.pop();
    assert_eq!(parse_proof(&ragged), Err(CustomError::ProofCountMismatch));
    ragged.push(0);
    ragged.push(0);
    assert_eq!(parse_proof(&ragged), Err(CustomError::ProofCountMismatch));
    assert_eq!(
        parse_proof(&request(leaf, 255, &[])),
        Err(CustomError::ProofCountMismatch)
    );
}

#[test]
fn parse_proof_takes_the_largest_count() {
    let siblings = vec![[9u8; 32]; 255];
    let data = request([1u8; 32], 255, &siblings);
    assert_eq!(data.len(), 33 + 255 * 32);
    let parsed = parse_proof(&data).unwrap();
    assert_eq!(parsed.siblings, siblings);
}

#[test]
fn verify_request_computes_the_digest_of_a_well_formed_request() {
    let leaf = [0x77u8; 32];
    let siblings = [[1u8; 32], [2u8; 32], [3u8; 32]];
    let data = request(leaf, 3, &siblings);
    assert_eq!(verify_request(&data), Ok(verify(&leaf, &siblings)));
    let alone = request(leaf, 0, &[]);
    assert_eq!(verify_request(&alone), Ok(hash(&leaf)));
}

#[test]
fn verify_request_rejects_malformed_requests() {
    assert_eq!(
        verify_request(&[1u8; 32]),
        Err(CustomError::InvalidInstructionDataLength)
    );
    assert_eq!(
        verify_request(&request([0u8; 32], 1, &[])),
        Err(CustomError::ProofCountMismatch)
    );
}
