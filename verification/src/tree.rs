//! The tree itself: a flat array of digests and the count of inserted leaves.

use vstd::prelude::*;
use crate::digest::{combine, combine_spec, digest_at, digest_hex, hex_lower};
use crate::error::CustomError;
use crate::invariants::{
    lemma_default_filled_well_formed, lemma_insert_keeps_well_formed, lemma_zeroed_well_formed,
    subtree_digest,
};
use crate::layout::{
    is_ancestor, on_path, parent, populated, sibling, FIRST_LEAF, LEAF_CAPACITY, TREE_SIZE,
};

verus! {

/// A complete binary tree of digests, stored level by level: index 0 is the
/// root, the children of node `i` are nodes `2i + 1` and `2i + 2`, and the
/// leaves are the last `LEAF_CAPACITY` entries.
#[derive(Debug, Clone, PartialEq, Eq)]
pub struct MerkleTree {
    /// The digests, root first.
    pub nodes: [[u8; 32]; TREE_SIZE],
    /// Number of leaves inserted so far, which is the index of the next free
    /// leaf.
    pub next_leaf_index: u8,
}

/// What a tree is, mathematically: its digests as byte strings and its leaf
/// count.
pub struct TreeView {
    pub nodes: Seq<Seq<u8>>,
    pub next_leaf_index: nat,
}

/// The byte strings behind a list of digests.
pub open spec fn digest_views(digests: Seq<[u8; 32]>) -> Seq<Seq<u8>> {
    digests.map_values(|d: [u8; 32]| d@)
}

/// The digest that fills a slot into which nothing was written: 32 zero
/// bytes.
pub open spec fn zero_digest() -> Seq<u8> {
    Seq::new(32, |j: int| 0u8)
}

impl TreeView {
    /// The slot that the next inserted leaf goes to.
    pub open spec fn leaf_slot(self) -> int {
        FIRST_LEAF + self.next_leaf_index
    }

    /// Whether every leaf slot is taken.
    pub open spec fn is_full(self) -> bool {
        self.next_leaf_index >= LEAF_CAPACITY
    }

    /// Node `i` once `leaf` has been inserted: the leaf itself in its slot,
    /// the combination of its two new children for every node above that
    /// slot, and the node as it was everywhere else.
    pub open spec fn node_after_insert(self, leaf: Seq<u8>, i: int) -> Seq<u8>
        decreases TREE_SIZE - i,
    {
        if i == self.leaf_slot() {
            leaf
        } else if 0 <= i < FIRST_LEAF && is_ancestor(i, self.leaf_slot()) {
            combine_spec(
                self.node_after_insert(leaf, 2 * i + 1),
                self.node_after_insert(leaf, 2 * i + 2),
            )
        } else {
            self.nodes[i]
        }
    }

    /// The invariant of a tree that has grown from zero-filled storage:
    /// the count is within the capacity, every free leaf slot still holds
    /// zeros, and every internal node with an inserted leaf below it is the
    /// combination of its two children.
    pub open spec fn well_formed(self) -> bool {
        &&& self.nodes.len() == TREE_SIZE
        &&& self.next_leaf_index <= LEAF_CAPACITY
        &&& forall|i: int|
            FIRST_LEAF + self.next_leaf_index <= i < TREE_SIZE ==> #[trigger] self.nodes[i]
                == zero_digest()
        &&& forall|i: int|
            0 <= i < FIRST_LEAF && populated(i, self.next_leaf_index) ==> #[trigger] self.nodes[i]
                == combine_spec(self.nodes[2 * i + 1], self.nodes[2 * i + 2])
    }

    /// The tree once `leaf` has been inserted into the next free slot.
    pub open spec fn insert(self, leaf: Seq<u8>) -> TreeView {
        TreeView {
            nodes: Seq::new(TREE_SIZE as nat, |i: int| self.node_after_insert(leaf, i)),
            next_leaf_index: self.next_leaf_index + 1,
        }
    }
}

/// The digests met on the way from node `i` to the root: at each step the
/// other child of the parent, nearest first.
pub open spec fn sibling_path(nodes: Seq<Seq<u8>>, i: int) -> Seq<Seq<u8>>
    decreases i,
{
    if i <= 0 {
        Seq::empty()
    } else {
        seq![nodes[sibling(i)]] + sibling_path(nodes, parent(i))
    }
}

impl View for MerkleTree {
    type V = TreeView;

    open spec fn view(&self) -> TreeView {
        TreeView {
            nodes: Seq::new(TREE_SIZE as nat, |i: int| self.nodes[i]@),
            next_leaf_index: self.next_leaf_index as nat,
        }
    }
}

impl MerkleTree {
    /// A tree without leaves, every node filled with zero bytes: the state
    /// of storage that has just been allocated. An internal node stays zero
    /// until a leaf is inserted below it.
    pub fn new() -> (tree: MerkleTree)
        ensures
            tree@.next_leaf_index == 0,
            forall|i: int| 0 <= i < TREE_SIZE ==> #[trigger] tree@.nodes[i] == zero_digest(),
            tree@.well_formed(),
    {
        let tree = MerkleTree { nodes: [[0u8; 32]; TREE_SIZE], next_leaf_index: 0 };
        proof {
            assert forall|i: int| 0 <= i < TREE_SIZE implies #[trigger] tree@.nodes[i]
                == zero_digest() by {
                assert(tree.nodes[i]@ =~= zero_digest());
            }
            lemma_zeroed_well_formed(tree@);
        }
        tree
    }

    /// A tree without leaves in which every internal node is already the
    /// combination of the zero digests below it, which a zero-filled tree
    /// is not. The root of a tree that grows from here is at all times the
    /// root of the full tree over the inserted leaves and zero digests in
    /// the free slots.
    pub fn with_zero_leaves() -> (tree: MerkleTree)
        ensures
            tree@.default_filled(),
            tree@.well_formed(),
    {
        let zero: [u8; 32] = [0u8; 32];
        let pair: [u8; 32] = combine(&zero, &zero);
        let quad: [u8; 32] = combine(&pair, &pair);
        let all: [u8; 32] = combine(&quad, &quad);
        let mut tree = MerkleTree { nodes: [zero; TREE_SIZE], next_leaf_index: 0 };
        tree.nodes[0] = all;
        tree.nodes[1] = quad;
        tree.nodes[2] = quad;
        tree.nodes[3] = pair;
        tree.nodes[4] = pair;
        tree.nodes[5] = pair;
        tree.nodes[6] = pair;
        proof {
            reveal_with_fuel(subtree_digest, 5);
            assert(zero@ =~= zero_digest());
            lemma_default_filled_well_formed(tree@);
        }
        tree
    }

    /// The digest at the root.
    pub fn root(&self) -> (digest: [u8; 32])
        ensures
            digest@ == self@.nodes[0],
    {
        self.nodes[0]
    }

    /// The root as lower-case hexadecimal text, for a log line.
    pub fn root_hex(&self) -> (text: String)
        ensures
            text@ == hex_lower(self@.nodes[0]),
    {
        digest_hex(&self.nodes[0])
    }

    /// The siblings that lead from leaf slot `leaf_index` to the root,
    /// nearest first, or `None` when there is no such slot.
    pub fn proof_path(&self, leaf_index: usize) -> (path: Option<Vec<[u8; 32]>>)
        ensures
            leaf_index >= LEAF_CAPACITY ==> path is None,
            leaf_index < LEAF_CAPACITY ==> path is Some && digest_views(path->0@) == sibling_path(
                self@.nodes,
                FIRST_LEAF + leaf_index,
            ),
    {
        if leaf_index >= LEAF_CAPACITY {
            return None;
        }
        let mut path: Vec<[u8; 32]> = Vec::new();
        let mut current: usize = FIRST_LEAF + leaf_index;
        assert(digest_views(path@) + sibling_path(self@.nodes, current as int) =~= sibling_path(
            self@.nodes,
            FIRST_LEAF + leaf_index,
        ));
        while current > 0
            invariant
                current < TREE_SIZE,
                leaf_index < LEAF_CAPACITY,
                digest_views(path@) + sibling_path(self@.nodes, current as int) == sibling_path(
                    self@.nodes,
                    FIRST_LEAF + leaf_index,
                ),
            decreases current,
        {
            let other: usize = if current % 2 == 1 {
                current + 1
            } else {
                current - 1
            };
            let ghost shorter = path@;
            path.push(self.nodes[other]);
            proof {
                let nodes = self@.nodes;
                assert(sibling_path(nodes, current as int) == seq![nodes[other as int]]
                    + sibling_path(nodes, parent(current as int)));
                assert(digest_views(path@) + sibling_path(nodes, parent(current as int))
                    =~= digest_views(shorter) + sibling_path(nodes, current as int));
            }
            current = (current - 1) / 2;
        }
        Some(path)
    }

    /// Appends `leaf` in the next free leaf slot, as it is, and recomputes
    /// every node on the way from that slot to the root. Fails with
    /// `TreeOverflow`, and leaves the tree as it was, when all leaf slots are
    /// taken.
    pub fn insert_leaf(&mut self, leaf: [u8; 32]) -> (result: Result<(), CustomError>)
        ensures
            old(self)@.is_full() ==> result == Err::<(), CustomError>(CustomError::TreeOverflow)
                && *final(self) == *old(self),
            !old(self)@.is_full() ==> result == Ok::<(), CustomError>(()) && final(self)@ == old(
                self,
            )@.insert(leaf@),
            old(self)@.well_formed() ==> final(self)@.well_formed(),
    {
        let leaf_pos: usize = FIRST_LEAF + self.next_leaf_index as usize;
        if leaf_pos >= TREE_SIZE {
            return Err(CustomError::TreeOverflow);
        }
        let ghost before = self@;
        let ghost target = before.insert(leaf@).nodes;
        self.nodes[leaf_pos] = leaf;
        let mut current: usize = leaf_pos;
        while current > 0
            invariant
                leaf_pos == before.leaf_slot(),
                FIRST_LEAF <= leaf_pos < TREE_SIZE,
                on_path(current as int, leaf_pos as int),
                self.next_leaf_index == before.next_leaf_index,
                target == before.insert(leaf@).nodes,
                forall|j: int|
                    0 <= j < TREE_SIZE && (j >= current || !is_ancestor(j, leaf_pos as int))
                        ==> (#[trigger] self.nodes[j])@ == target[j],
            decreases current,
        {
            proof {
                reveal_with_fuel(is_ancestor, 5);
            }
            let parent: usize = (current - 1) / 2;
            let left: [u8; 32] = self.nodes[2 * parent + 1];
            let right: [u8; 32] = self.nodes[2 * parent + 2];
            let digest: [u8; 32] = combine(&left, &right);
            self.nodes[parent] = digest;
            current = parent;
        }
        self.next_leaf_index += 1;
        assert(self@.nodes =~= target);
        proof {
            if before.well_formed() {
                lemma_insert_keeps_well_formed(before, leaf@);
            }
        }
        Ok(())
    }
}

/// Inserts the leaf that an insert request carries. The request must be
/// exactly the 32 bytes of the leaf: any other length fails with
/// `InvalidLeafLength` before the tree is looked at. A well-formed request
/// then fails with `TreeOverflow` when the tree is full. A failed request
/// leaves the tree as it was.
pub fn insert_leaf(tree: &mut MerkleTree, instruction_data: &[u8]) -> (result: Result<
    (),
    CustomError,
>)
    ensures
        instruction_data.len() != 32 ==> result == Err::<(), CustomError>(
            CustomError::InvalidLeafLength,
        ),
        instruction_data.len() == 32 && old(tree)@.is_full() ==> result == Err::<(), CustomError>(
            CustomError::TreeOverflow,
        ),
        instruction_data.len() == 32 && !old(tree)@.is_full() ==> result == Ok::<(), CustomError>(
            (),
        ) && final(tree)@ == old(tree)@.insert(instruction_data@),
        result is Err ==> *final(tree) == *old(tree),
        old(tree)@.well_formed() ==> final(tree)@.well_formed(),
{
    if instruction_data.len() != 32 {
        return Err(CustomError::InvalidLeafLength);
    }
    let leaf: [u8; 32] = digest_at(instruction_data, 0);
    assert(leaf@ =~= instruction_data@);
    tree.insert_leaf(leaf)
}

} // verus!
