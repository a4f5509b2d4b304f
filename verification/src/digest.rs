//! The hash primitive shared by the tree and by proof verification.

use vstd::prelude::*;

verus! {

/// Number of bytes in a digest.
pub const DIGEST_LEN: usize = 32;

/// The SHA-256 digest of a byte string.
pub uninterp spec fn sha256(data: Seq<u8>) -> Seq<u8>;

/// The byte strings behind a list of slices.
pub open spec fn part_views(parts: Seq<&[u8]>) -> Seq<Seq<u8>> {
    parts.map_values(|p: &[u8]| p@)
}

/// The digest of a leaf's raw bytes.
pub open spec fn hash_spec(data: Seq<u8>) -> Seq<u8> {
    sha256(data)
}

/// The parent digest of two child digests: the hash of `left` followed by
/// `right`.
pub open spec fn combine_spec(left: Seq<u8>, right: Seq<u8>) -> Seq<u8> {
    sha256(left + right)
}

/// Swapping two distinct byte strings of one length changes what the
/// combiner hashes: `left` followed by `right` is not `right` followed by
/// `left`. Whether the two digests differ as well is a matter of the hash
/// function and is not stated here.
pub proof fn lemma_swapped_input_differs(left: Seq<u8>, right: Seq<u8>)
    requires
        left.len() == right.len(),
        left != right,
    ensures
        left + right != right + left,
{
    if left + right == right + left {
        assert forall|i: int| 0 <= i < left.len() implies left[i] == right[i] by {
            assert((left + right)[i] == left[i]);
            assert((right + left)[i] == right[i]);
        }
        assert(left =~= right);
    }
}

/// `solana_program::hash::hashv`, followed by `Hash::to_bytes`. Off chain
/// `hashv` feeds the slices to one SHA-256 state in the order given; built
/// for the chain it hands the same slices to the runtime's SHA-256 call.
/// Either way the 32 bytes that come back are taken to be the SHA-256 digest
/// of the slices' concatenation. Nothing here is proved.
#[verifier::external_body]
fn hashv_bytes(parts: &[&[u8]]) -> (digest: [u8; 32])
    ensures
        digest@ == sha256(part_views(parts@).flatten()),
{
    solana_program::hash::hashv(parts).to_bytes()
}

/// One byte string, flattened, is itself.
proof fn lemma_flatten_one(a: Seq<u8>)
    ensures
        seq![a].flatten() == a,
{
    let s = seq![a];
    assert(s.flatten() =~= a + s.drop_first().flatten());
}

/// Two byte strings, flattened, are the first followed by the second.
proof fn lemma_flatten_pair(a: Seq<u8>, b: Seq<u8>)
    ensures
        seq![a, b].flatten() == a + b,
{
    let s = seq![a, b];
    assert(s.drop_first() =~= seq![b]);
    lemma_flatten_one(b);
}

/// Hashes the raw bytes of a leaf.
pub fn hash(data: &[u8]) -> (digest: [u8; 32])
    ensures
        digest@ == hash_spec(data@),
{
    let parts: [&[u8]; 1] = [data];
    proof {
        assert(part_views(parts@) =~= seq![data@]);
        lemma_flatten_one(data@);
    }
    hashv_bytes(&parts)
}

/// Combines two child digests into their parent digest. The order matters:
/// `left` is hashed first.
pub fn combine(left: &[u8; 32], right: &[u8; 32]) -> (parent: [u8; 32])
    ensures
        parent@ == combine_spec(left@, right@),
{
    let parts: [&[u8]; 2] = [left.as_slice(), right.as_slice()];
    proof {
        assert(part_views(parts@) =~= seq![left@, right@]);
        lemma_flatten_pair(left@, right@);
    }
    hashv_bytes(&parts)
}

/// Copies the 32 bytes of `data` that start at `offset` into a digest.
pub(crate) fn digest_at(data: &[u8], offset: usize) -> (digest: [u8; 32])
    requires
        offset + DIGEST_LEN <= data.len(),
    ensures
        digest@ == data@.subrange(offset as int, offset + DIGEST_LEN),
{
    let mut digest: [u8; 32] = [0u8; 32];
    let mut i: usize = 0;
    while i < DIGEST_LEN
        invariant
            i <= DIGEST_LEN,
            offset + DIGEST_LEN <= data.len(),
            forall|j: int| 0 <= j < i ==> digest[j] == data[offset + j],
        decreases DIGEST_LEN - i,
    {
        digest[i] = data[offset + i];
        i += 1;
    }
    digest
}

/// Whether two digests hold the same bytes.
pub fn digest_eq(a: &[u8; 32], b: &[u8; 32]) -> (same: bool)
    ensures
        same == (a@ == b@),
{
    let mut i: usize = 0;
    while i < DIGEST_LEN
        invariant
            i <= DIGEST_LEN,
            forall|j: int| 0 <= j < i ==> a[j] == b[j],
        decreases DIGEST_LEN - i,
    {
        if a[i] != b[i] {
            return false;
        }
        i += 1;
    }
    assert(a@ =~= b@);
    true
}

/// The lower-case hexadecimal digit of a number below 16.
pub open spec fn hex_digit(nibble: int) -> char {
    seq!['0', '1', '2', '3', '4', '5', '6', '7', '8', '9', 'a', 'b', 'c', 'd', 'e', 'f'][nibble]
}

/// The lower-case hexadecimal text of a byte string: two digits for each
/// byte, the high half first.
pub open spec fn hex_lower(bytes: Seq<u8>) -> Seq<char> {
    Seq::new(
        2 * bytes.len(),
        |i: int|
            if i % 2 == 0 {
                hex_digit(bytes[i / 2] as int / 16)
            } else {
                hex_digit(bytes[i / 2] as int % 16)
            },
    )
}

/// `hex::encode`: writes every byte as two lower-case hexadecimal digits,
/// the high half first, in the order of the bytes. Nothing here is proved.
#[verifier::external_body]
fn hex_encode(bytes: &[u8]) -> (text: String)
    ensures
        text@ == hex_lower(bytes@),
{
    hex::encode(bytes)
}

/// The lower-case hexadecimal text of a digest, 64 characters long.
pub fn digest_hex(digest: &[u8; 32]) -> (text: String)
    ensures
        text@ == hex_lower(digest@),
        text@.len() == 64,
{
    hex_encode(digest.as_slice())
}

} // verus!
