//! The stored form of a tree: every node, 32 bytes each, root first, then
//! one byte for the count of inserted leaves.

use vstd::prelude::*;
use crate::digest::digest_at;
use crate::layout::{TREE_SIZE, TREE_SIZE_BYTES};
use crate::tree::{MerkleTree, TreeView};

verus! {

/// Offset of the leaf count in a stored tree.
pub const COUNTER_OFFSET: usize = 480;

impl TreeView {
    /// Whether this is the view of some tree in memory: 15 digests of 32
    /// bytes, and a count that fits in a byte.
    pub open spec fn storable(self) -> bool {
        &&& self.nodes.len() == TREE_SIZE
        &&& forall|i: int| 0 <= i < TREE_SIZE ==> (#[trigger] self.nodes[i]).len() == 32
        &&& self.next_leaf_index <= u8::MAX
    }

    /// The stored form of the tree.
    pub open spec fn encode(self) -> Seq<u8> {
        Seq::new(
            TREE_SIZE_BYTES as nat,
            |k: int|
                if k < COUNTER_OFFSET {
                    self.nodes[k / 32][k % 32]
                } else {
                    self.next_leaf_index as u8
                },
        )
    }

    /// The tree that `bytes` is the stored form of, for `bytes` of the
    /// right length.
    pub open spec fn decode(bytes: Seq<u8>) -> TreeView {
        TreeView {
            nodes: Seq::new(TREE_SIZE as nat, |i: int| bytes.subrange(32 * i, 32 * i + 32)),
            next_leaf_index: bytes[COUNTER_OFFSET as int] as nat,
        }
    }
}

impl MerkleTree {
    /// Writes the tree out in its stored form.
    pub fn to_bytes(&self) -> (bytes: Vec<u8>)
        ensures
            bytes@ == self@.encode(),
    {
        let mut bytes: Vec<u8> = Vec::new();
        let mut i: usize = 0;
        while i < TREE_SIZE
            invariant
                i <= TREE_SIZE,
                bytes.len() == 32 * i,
                forall|k: int| 0 <= k < 32 * i ==> bytes[k] == self@.encode()[k],
            decreases TREE_SIZE - i,
        {
            let mut j: usize = 0;
            while j < 32
                invariant
                    i < TREE_SIZE,
                    j <= 32,
                    bytes.len() == 32 * i + j,
                    forall|k: int| 0 <= k < 32 * i + j ==> bytes[k] == self@.encode()[k],
                decreases 32 - j,
            {
                bytes.push(self.nodes[i][j]);
                j += 1;
            }
            i += 1;
        }
        bytes.push(self.next_leaf_index);
        bytes
    }

    /// Reads a tree from its stored form. Only a buffer of exactly
    /// `TREE_SIZE_BYTES` bytes holds a tree.
    pub fn from_bytes(data: &[u8]) -> (tree: Option<MerkleTree>)
        ensures
            data.len() != TREE_SIZE_BYTES ==> tree is None,
            data.len() == TREE_SIZE_BYTES ==> tree is Some && tree->0@ == TreeView::decode(data@),
    {
        if data.len() != TREE_SIZE_BYTES {
            return None;
        }
        let mut nodes: [[u8; 32]; TREE_SIZE] = [[0u8; 32]; TREE_SIZE];
        let mut i: usize = 0;
        while i < TREE_SIZE
            invariant
                i <= TREE_SIZE,
                data.len() == TREE_SIZE_BYTES,
                forall|n: int|
                    0 <= n < i ==> (#[trigger] nodes[n])@ == data@.subrange(32 * n, 32 * n + 32),
            decreases TREE_SIZE - i,
        {
            let digest: [u8; 32] = digest_at(data, 32 * i);
            nodes[i] = digest;
            i += 1;
        }
        let tree = MerkleTree { nodes, next_leaf_index: data[COUNTER_OFFSET] };
        assert(tree@.nodes =~= TreeView::decode(data@).nodes);
        Some(tree)
    }
}

/// Storing a tree and reading it back gives the same tree.
pub proof fn lemma_decode_encode(tree: TreeView)
    requires
        tree.storable(),
    ensures
        tree.encode().len() == TREE_SIZE_BYTES,
        TreeView::decode(tree.encode()) == tree,
{
    let back = TreeView::decode(tree.encode());
    assert forall|i: int| 0 <= i < TREE_SIZE implies #[trigger] back.nodes[i] == tree.nodes[i] by {
        assert forall|j: int| 0 <= j < 32 implies back.nodes[i][j] == tree.nodes[i][j] by {
            let k = 32 * i + j;
            assert(k / 32 == i && k % 32 == j);
        }
        assert(back.nodes[i] =~= tree.nodes[i]);
    }
    assert(back.nodes =~= tree.nodes);
}

/// Reading a tree from a buffer of the right length and storing it again
/// gives the same bytes.
pub proof fn lemma_encode_decode(bytes: Seq<u8>)
    requires
        bytes.len() == TREE_SIZE_BYTES,
    ensures
        TreeView::decode(bytes).storable(),
        TreeView::decode(bytes).encode() == bytes,
{
    let tree = TreeView::decode(bytes);
    assert forall|k: int| 0 <= k < TREE_SIZE_BYTES implies tree.encode()[k] == bytes[k] by {
        if k < COUNTER_OFFSET {
            assert(tree.nodes[k / 32][k % 32] == bytes[32 * (k / 32) + k % 32]);
        }
    }
    assert(tree.encode() =~= bytes);
}

/// The view of a tree in memory can be stored.
pub proof fn lemma_view_storable(tree: MerkleTree)
    ensures
        tree@.storable(),
{
}

} // verus!
