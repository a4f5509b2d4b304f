//! Proof verification: folding a leaf and its siblings into a candidate
//! root, and reading a verification request from its bytes.

use vstd::prelude::*;
use crate::digest::{combine, combine_spec, digest_at, digest_eq, hash, hash_spec};
use crate::error::CustomError;
use crate::tree::digest_views;

verus! {

/// Number of bytes before the first sibling of a verification request: the
/// leaf, then one byte that counts the siblings.
pub const PROOF_HEADER_LEN: usize = 33;

/// Folds `siblings` into `start`, first to last. The running digest is
/// always the left operand and the sibling the right one.
pub open spec fn fold_siblings(start: Seq<u8>, siblings: Seq<Seq<u8>>) -> Seq<u8>
    decreases siblings.len(),
{
    if siblings.len() == 0 {
        start
    } else {
        fold_siblings(combine_spec(start, siblings.first()), siblings.drop_first())
    }
}

/// The digest that a leaf and its siblings lead to: the leaf is hashed, then
/// the siblings are folded in.
pub open spec fn verify_spec(leaf: Seq<u8>, siblings: Seq<Seq<u8>>) -> Seq<u8> {
    fold_siblings(hash_spec(leaf), siblings)
}

/// Without siblings, verification gives the hash of the leaf.
pub proof fn lemma_verify_empty(leaf: Seq<u8>)
    ensures
        verify_spec(leaf, Seq::empty()) == hash_spec(leaf),
{
}

/// With three siblings, verification hashes the leaf and combines the
/// result with each sibling in turn, the running digest on the left.
pub proof fn lemma_verify_three(leaf: Seq<u8>, s1: Seq<u8>, s2: Seq<u8>, s3: Seq<u8>)
    ensures
        verify_spec(leaf, seq![s1, s2, s3]) == combine_spec(
            combine_spec(combine_spec(hash_spec(leaf), s1), s2),
            s3,
        ),
{
    reveal_with_fuel(fold_siblings, 4);
}

/// Computes the digest that `leaf` and `siblings` lead to: the hash of the
/// leaf's bytes, combined with each sibling in turn, the running digest on
/// the left. Nothing is compared: see `authenticate`.
pub fn verify(leaf: &[u8], siblings: &[[u8; 32]]) -> (digest: [u8; 32])
    ensures
        digest@ == verify_spec(leaf@, digest_views(siblings@)),
{
    let ghost all = digest_views(siblings@);
    let mut running: [u8; 32] = hash(leaf);
    let mut i: usize = 0;
    assert(all.skip(0) =~= all);
    while i < siblings.len()
        invariant
            i <= siblings.len(),
            all == digest_views(siblings@),
            fold_siblings(running@, all.skip(i as int)) == verify_spec(leaf@, all),
        decreases siblings.len() - i,
    {
        let ghost rest = all.skip(i as int);
        assert(rest.drop_first() =~= all.skip(i + 1));
        running = combine(&running, &siblings[i]);
        i += 1;
    }
    running
}

/// Decides whether `leaf` and `siblings` lead to `expected_root`. Fails with
/// `RootMismatch` when they lead to any other digest.
pub fn authenticate(leaf: &[u8], siblings: &[[u8; 32]], expected_root: &[u8; 32]) -> (result: Result<
    (),
    CustomError,
>)
    ensures
        verify_spec(leaf@, digest_views(siblings@)) == expected_root@ ==> result == Ok::<
            (),
            CustomError,
        >(()),
        verify_spec(leaf@, digest_views(siblings@)) != expected_root@ ==> result == Err::<
            (),
            CustomError,
        >(CustomError::RootMismatch),
{
    let computed: [u8; 32] = verify(leaf, siblings);
    if digest_eq(&computed, expected_root) {
        Ok(())
    } else {
        Err(CustomError::RootMismatch)
    }
}

/// A verification request, read from its bytes.
#[derive(Debug, Clone, PartialEq, Eq)]
pub struct ProofRequest {
    /// The leaf value.
    pub leaf: [u8; 32],
    /// The siblings, nearest to the leaf first.
    pub siblings: Vec<[u8; 32]>,
}

/// The number of siblings that a request declares, in the byte after the
/// leaf.
pub open spec fn declared_count(data: Seq<u8>) -> int {
    data[32] as int
}

/// Why a request is malformed, if it is: too short for a leaf and a count,
/// or of a length other than the declared count asks for.
pub open spec fn request_error(data: Seq<u8>) -> Option<CustomError> {
    if data.len() < PROOF_HEADER_LEN {
        Some(CustomError::InvalidInstructionDataLength)
    } else if data.len() != PROOF_HEADER_LEN + 32 * declared_count(data) {
        Some(CustomError::ProofCountMismatch)
    } else {
        None
    }
}

/// The leaf of a request: its first 32 bytes.
pub open spec fn request_leaf(data: Seq<u8>) -> Seq<u8> {
    data.subrange(0, 32)
}

/// The siblings of a request: consecutive runs of 32 bytes after the
/// count, as many as the count says.
pub open spec fn request_siblings(data: Seq<u8>) -> Seq<Seq<u8>> {
    Seq::new(
        declared_count(data) as nat,
        |k: int| data.subrange(PROOF_HEADER_LEN + 32 * k, PROOF_HEADER_LEN + 32 * k + 32),
    )
}

/// Reads a verification request: 32 bytes of leaf, one byte that counts the
/// siblings, then the siblings, 32 bytes each, and nothing else.
pub fn parse_proof(data: &[u8]) -> (result: Result<ProofRequest, CustomError>)
    ensures
        match result {
            Ok(request) => request_error(data@) is None && request.leaf@ == request_leaf(data@)
                && digest_views(request.siblings@) == request_siblings(data@),
            Err(e) => request_error(data@) == Some(e),
        },
{
    if data.len() < PROOF_HEADER_LEN {
        return Err(CustomError::InvalidInstructionDataLength);
    }
    let count: usize = data[32] as usize;
    if data.len() != PROOF_HEADER_LEN + 32 * count {
        return Err(CustomError::ProofCountMismatch);
    }
    let leaf: [u8; 32] = digest_at(data, 0);
    let mut siblings: Vec<[u8; 32]> = Vec::new();
    let mut k: usize = 0;
    while k < count
        invariant
            k <= count,
            count == declared_count(data@),
            data.len() == PROOF_HEADER_LEN + 32 * count,
            siblings.len() == k,
            forall|j: int|
                0 <= j < k ==> (#[trigger] siblings[j])@ == data@.subrange(
                    PROOF_HEADER_LEN + 32 * j,
                    PROOF_HEADER_LEN + 32 * j + 32,
                ),
        decreases count - k,
    {
        let sibling: [u8; 32] = digest_at(data, PROOF_HEADER_LEN + 32 * k);
        siblings.push(sibling);
        k += 1;
    }
    Ok(ProofRequest { leaf, siblings })
}

/// Reads a verification request and computes the digest that its leaf and
/// siblings lead to. A malformed request is rejected with its error.
pub fn verify_request(data: &[u8]) -> (result: Result<[u8; 32], CustomError>)
    ensures
        match result {
            Ok(digest) => request_error(data@) is None && digest@ == verify_spec(
                request_leaf(data@),
                request_siblings(data@),
            ),
            Err(e) => request_error(data@) == Some(e),
        },
{
    match parse_proof(data) {
        Ok(request) => Ok(verify(request.leaf.as_slice(), request.siblings.as_slice())),
        Err(e) => Err(e),
    }
}

} // verus!
