//! What holds of a tree that grows by insertion alone.

use vstd::prelude::*;
use crate::digest::{combine_spec, hash_spec};
use crate::layout::{
    is_ancestor, is_left, leftmost_leaf, on_path, parent, populated, sibling, FIRST_LEAF,
    LEAF_CAPACITY, TREE_SIZE,
};
use crate::membership::{fold_siblings, verify_spec};
use crate::tree::{sibling_path, zero_digest, TreeView};

verus! {

impl TreeView {
    /// Whether this is a tree without leaves in which every node holds the
    /// digest of the zero leaves below it.
    pub open spec fn default_filled(self) -> bool {
        &&& self.nodes.len() == TREE_SIZE
        &&& self.next_leaf_index == 0
        &&& forall|i: int|
            0 <= i < TREE_SIZE ==> #[trigger] self.nodes[i] == subtree_digest(
                padded(Seq::empty()),
                i,
            )
    }

    /// The tree after the leaves of `leaves` have been inserted one after
    /// the other, first to last.
    pub open spec fn insert_all(self, leaves: Seq<Seq<u8>>) -> TreeView
        decreases leaves.len(),
    {
        if leaves.len() == 0 {
            self
        } else {
            self.insert_all(leaves.drop_last()).insert(leaves.last())
        }
    }
}

/// A zero-filled tree without leaves is well formed.
pub proof fn lemma_zeroed_well_formed(tree: TreeView)
    requires
        tree.nodes.len() == TREE_SIZE,
        tree.next_leaf_index == 0,
        forall|i: int| 0 <= i < TREE_SIZE ==> #[trigger] tree.nodes[i] == zero_digest(),
    ensures
        tree.well_formed(),
{
    reveal_with_fuel(leftmost_leaf, 5);
}

/// A tree without leaves that holds, in every node, the digest of the zero
/// leaves below it is well formed.
pub proof fn lemma_default_filled_well_formed(tree: TreeView)
    requires
        tree.default_filled(),
    ensures
        tree.well_formed(),
{
}

/// Inserting a leaf into a well-formed tree that is not full gives a
/// well-formed tree with one leaf more.
pub proof fn lemma_insert_keeps_well_formed(tree: TreeView, leaf: Seq<u8>)
    requires
        tree.well_formed(),
        !tree.is_full(),
    ensures
        tree.insert(leaf).well_formed(),
        tree.insert(leaf).next_leaf_index == tree.next_leaf_index + 1,
{
    reveal_with_fuel(leftmost_leaf, 5);
    reveal_with_fuel(is_ancestor, 5);
}

/// Node `i` of a tree that started as `initial`, without leaves, and into
/// which `leaves` were inserted: untouched where no leaf lies at or below
/// it, else the leaf itself or the combination of the two children.
pub open spec fn node_after_all(initial: Seq<Seq<u8>>, leaves: Seq<Seq<u8>>, i: int) -> Seq<u8>
    decreases TREE_SIZE - i,
{
    if !populated(i, leaves.len()) {
        initial[i]
    } else if 0 <= i < FIRST_LEAF {
        combine_spec(
            node_after_all(initial, leaves, 2 * i + 1),
            node_after_all(initial, leaves, 2 * i + 2),
        )
    } else {
        leaves[i - FIRST_LEAF]
    }
}

/// The digest of the subtree below node `i` of a full tree whose leaf slots
/// hold `leaves`: the recursive combination of the leaves below `i`.
pub open spec fn subtree_digest(leaves: Seq<Seq<u8>>, i: int) -> Seq<u8>
    decreases TREE_SIZE - i,
{
    if 0 <= i < FIRST_LEAF {
        combine_spec(subtree_digest(leaves, 2 * i + 1), subtree_digest(leaves, 2 * i + 2))
    } else {
        leaves[i - FIRST_LEAF]
    }
}

/// `leaves`, followed by zero digests up to the capacity of the tree.
pub open spec fn padded(leaves: Seq<Seq<u8>>) -> Seq<Seq<u8>> {
    Seq::new(
        LEAF_CAPACITY as nat,
        |k: int|
            if k < leaves.len() {
                leaves[k]
            } else {
                zero_digest()
            },
    )
}

/// The root of a full tree over `leaves` and zero digests in the slots
/// after them.
pub open spec fn padded_root(leaves: Seq<Seq<u8>>) -> Seq<u8> {
    subtree_digest(padded(leaves), 0)
}

/// Insertions count: after `leaves` have been inserted, the leaf count has
/// grown by their number, and the tree still has its 15 nodes.
pub proof fn lemma_insert_all_counts(start: TreeView, leaves: Seq<Seq<u8>>)
    requires
        start.nodes.len() == TREE_SIZE,
    ensures
        start.insert_all(leaves).next_leaf_index == start.next_leaf_index + leaves.len(),
        start.insert_all(leaves).nodes.len() == TREE_SIZE,
    decreases leaves.len(),
{
    if leaves.len() > 0 {
        lemma_insert_all_counts(start, leaves.drop_last());
    }
}

/// A tree that starts without leaves is full after exactly eight
/// insertions: each of the first eight finds a free slot, a ninth finds
/// none.
pub proof fn lemma_full_after_capacity(start: TreeView, leaves: Seq<Seq<u8>>)
    requires
        start.nodes.len() == TREE_SIZE,
        start.next_leaf_index == 0,
        leaves.len() <= LEAF_CAPACITY,
    ensures
        start.insert_all(leaves).is_full() <==> leaves.len() == LEAF_CAPACITY,
{
    lemma_insert_all_counts(start, leaves);
}

/// A node off the way from the newest leaf to the root is what it was
/// before that leaf came.
proof fn lemma_off_path_unchanged(initial: Seq<Seq<u8>>, leaves: Seq<Seq<u8>>, i: int)
    requires
        0 < leaves.len() <= LEAF_CAPACITY,
        0 <= i < TREE_SIZE,
        !on_path(i, FIRST_LEAF + leaves.len() - 1),
    ensures
        node_after_all(initial, leaves, i) == node_after_all(initial, leaves.drop_last(), i),
    decreases TREE_SIZE - i,
{
    reveal_with_fuel(leftmost_leaf, 5);
    reveal_with_fuel(is_ancestor, 5);
    if populated(i, leaves.len()) && i < FIRST_LEAF {
        lemma_off_path_unchanged(initial, leaves, 2 * i + 1);
        lemma_off_path_unchanged(initial, leaves, 2 * i + 2);
    }
}

/// One step of the next lemma: node `i` after the last of `leaves` has been
/// inserted into a tree that holds the others as `node_after_all` says.
proof fn lemma_insert_step(
    initial: Seq<Seq<u8>>,
    before: TreeView,
    leaves: Seq<Seq<u8>>,
    i: int,
)
    requires
        0 < leaves.len() <= LEAF_CAPACITY,
        0 <= i < TREE_SIZE,
        before.nodes.len() == TREE_SIZE,
        before.next_leaf_index == leaves.len() - 1,
        forall|j: int|
            0 <= j < TREE_SIZE ==> #[trigger] before.nodes[j] == node_after_all(
                initial,
                leaves.drop_last(),
                j,
            ),
    ensures
        before.node_after_insert(leaves.last(), i) == node_after_all(initial, leaves, i),
    decreases TREE_SIZE - i,
{
    reveal_with_fuel(leftmost_leaf, 5);
    reveal_with_fuel(is_ancestor, 5);
    let slot = FIRST_LEAF + leaves.len() - 1;
    if i == slot {
    } else if i < FIRST_LEAF && is_ancestor(i, slot) {
        lemma_insert_step(initial, before, leaves, 2 * i + 1);
        lemma_insert_step(initial, before, leaves, 2 * i + 2);
    } else {
        lemma_off_path_unchanged(initial, leaves, i);
    }
}

/// What a tree holds after a run of insertions. Start from any tree
/// without leaves and insert up to eight leaves: a node with none of them
/// at or below it is untouched, a leaf slot that was reached holds its
/// leaf, and every other node is the combination of its two children.
pub proof fn lemma_insert_all_nodes(start: TreeView, leaves: Seq<Seq<u8>>)
    requires
        start.nodes.len() == TREE_SIZE,
        start.next_leaf_index == 0,
        leaves.len() <= LEAF_CAPACITY,
    ensures
        forall|i: int|
            0 <= i < TREE_SIZE ==> #[trigger] start.insert_all(leaves).nodes[i] == node_after_all(
                start.nodes,
                leaves,
                i,
            ),
    decreases leaves.len(),
{
    if leaves.len() == 0 {
        reveal_with_fuel(leftmost_leaf, 5);
    } else {
        let before = start.insert_all(leaves.drop_last());
        lemma_insert_all_nodes(start, leaves.drop_last());
        lemma_insert_all_counts(start, leaves.drop_last());
        assert forall|i: int| 0 <= i < TREE_SIZE implies #[trigger] start.insert_all(
            leaves,
        ).nodes[i] == node_after_all(start.nodes, leaves, i) by {
            lemma_insert_step(start.nodes, before, leaves, i);
        }
    }
}

/// Below a node that no leaf has reached, the padded leaves are all zero.
proof fn lemma_untouched_subtree(leaves: Seq<Seq<u8>>, i: int)
    requires
        leaves.len() <= LEAF_CAPACITY,
        0 <= i < TREE_SIZE,
        !populated(i, leaves.len()),
    ensures
        subtree_digest(padded(leaves), i) == subtree_digest(padded(Seq::empty()), i),
    decreases TREE_SIZE - i,
{
    reveal_with_fuel(leftmost_leaf, 5);
    if i < FIRST_LEAF {
        lemma_untouched_subtree(leaves, 2 * i + 1);
        lemma_untouched_subtree(leaves, 2 * i + 2);
    }
}

/// One node of the next lemma.
proof fn lemma_node_is_subtree_digest(initial: Seq<Seq<u8>>, leaves: Seq<Seq<u8>>, i: int)
    requires
        leaves.len() <= LEAF_CAPACITY,
        0 <= i < TREE_SIZE,
        forall|j: int|
            0 <= j < TREE_SIZE && !populated(j, leaves.len()) ==> #[trigger] initial[j]
                == subtree_digest(padded(Seq::empty()), j),
    ensures
        node_after_all(initial, leaves, i) == subtree_digest(padded(leaves), i),
    decreases TREE_SIZE - i,
{
    if !populated(i, leaves.len()) {
        lemma_untouched_subtree(leaves, i);
    } else if i < FIRST_LEAF {
        lemma_node_is_subtree_digest(initial, leaves, 2 * i + 1);
        lemma_node_is_subtree_digest(initial, leaves, 2 * i + 2);
    }
}

/// The root after a run of insertions is the root of the full tree over
/// the inserted leaves and zero digests in the free slots, provided that
/// every subtree which no leaf has reached already held the digest of its
/// zero leaves when the run began. From zero-filled storage that is so once
/// seven leaves are in: then no subtree is left unreached.
pub proof fn lemma_root_after_insertions(start: TreeView, leaves: Seq<Seq<u8>>)
    requires
        start.nodes.len() == TREE_SIZE,
        start.next_leaf_index == 0,
        leaves.len() <= LEAF_CAPACITY,
        forall|j: int|
            0 <= j < TREE_SIZE && !populated(j, leaves.len()) ==> #[trigger] start.nodes[j]
                == subtree_digest(padded(Seq::empty()), j),
    ensures
        start.insert_all(leaves).nodes[0] == padded_root(leaves),
        forall|i: int|
            0 <= i < TREE_SIZE ==> #[trigger] start.insert_all(leaves).nodes[i] == subtree_digest(
                padded(leaves),
                i,
            ),
{
    lemma_insert_all_nodes(start, leaves);
    assert forall|i: int| 0 <= i < TREE_SIZE implies #[trigger] start.insert_all(leaves).nodes[i]
        == subtree_digest(padded(leaves), i) by {
        lemma_node_is_subtree_digest(start.nodes, leaves, i);
    }
}

/// From a tree without leaves in which every node already holds the digest
/// of the zero leaves below it, any run of insertions gives the root of the
/// full tree over the inserted leaves and zero digests in the free slots.
pub proof fn lemma_root_from_default_filled(start: TreeView, leaves: Seq<Seq<u8>>)
    requires
        start.default_filled(),
        leaves.len() <= LEAF_CAPACITY,
    ensures
        start.insert_all(leaves).nodes[0] == padded_root(leaves),
{
    lemma_root_after_insertions(start, leaves);
}

/// From zero-filled storage, seven or eight insertions leave no subtree
/// unreached: the root is then the root of the full tree over the leaves,
/// padded with a zero digest where one is missing.
pub proof fn lemma_root_of_filled_tree(start: TreeView, leaves: Seq<Seq<u8>>)
    requires
        start.nodes.len() == TREE_SIZE,
        start.next_leaf_index == 0,
        forall|i: int| 0 <= i < TREE_SIZE ==> #[trigger] start.nodes[i] == zero_digest(),
        LEAF_CAPACITY - 1 <= leaves.len() <= LEAF_CAPACITY,
    ensures
        start.insert_all(leaves).nodes[0] == padded_root(leaves),
{
    assert forall|j: int|
        0 <= j < TREE_SIZE && !populated(j, leaves.len()) implies #[trigger] start.nodes[j]
        == subtree_digest(padded(Seq::empty()), j) by {
        reveal_with_fuel(leftmost_leaf, 5);
    }
    lemma_root_after_insertions(start, leaves);
}

/// A run of insertions that fits into a well-formed tree leaves it well
/// formed.
pub proof fn lemma_insert_all_well_formed(start: TreeView, leaves: Seq<Seq<u8>>)
    requires
        start.well_formed(),
        start.next_leaf_index + leaves.len() <= LEAF_CAPACITY,
    ensures
        start.insert_all(leaves).well_formed(),
        start.insert_all(leaves).next_leaf_index == start.next_leaf_index + leaves.len(),
    decreases leaves.len(),
{
    if leaves.len() > 0 {
        lemma_insert_all_well_formed(start, leaves.drop_last());
        lemma_insert_keeps_well_formed(start.insert_all(leaves.drop_last()), leaves.last());
    }
}

/// Whether every node above node `i` is the combination of its two
/// children.
pub open spec fn path_combined(nodes: Seq<Seq<u8>>, i: int) -> bool
    decreases i,
{
    i <= 0 || (nodes[parent(i)] == combine_spec(
        nodes[2 * parent(i) + 1],
        nodes[2 * parent(i) + 2],
    ) && path_combined(nodes, parent(i)))
}

/// Whether, on the way from node `i` to the root, every node is the left
/// child of its parent or equal to its sibling. Verification puts the
/// running digest on the left at every step, so these are the ways on which
/// it repeats what the tree computed.
pub open spec fn leans_left(nodes: Seq<Seq<u8>>, i: int) -> bool
    decreases i,
{
    i <= 0 || ((is_left(i) || nodes[i] == nodes[sibling(i)]) && leans_left(nodes, parent(i)))
}

/// Folding the siblings of node `i` into its digest gives the root, on a
/// way that leans left and on which every node is the combination of its
/// children.
pub proof fn lemma_path_folds_to_root(nodes: Seq<Seq<u8>>, i: int)
    requires
        nodes.len() == TREE_SIZE,
        0 <= i < TREE_SIZE,
        path_combined(nodes, i),
        leans_left(nodes, i),
    ensures
        fold_siblings(nodes[i], sibling_path(nodes, i)) == nodes[0],
    decreases i,
{
    if i > 0 {
        let up = parent(i);
        let path = sibling_path(nodes, i);
        assert(path.drop_first() =~= sibling_path(nodes, up));
        lemma_path_folds_to_root(nodes, up);
    }
}

/// The way up from the first leaf slot leans left, whatever the tree holds.
pub proof fn lemma_first_leaf_leans_left(nodes: Seq<Seq<u8>>)
    ensures
        leans_left(nodes, FIRST_LEAF as int),
{
    reveal_with_fuel(leans_left, 5);
}

/// Every node above an inserted leaf of a well-formed tree is the
/// combination of its children.
pub proof fn lemma_inserted_leaf_path_combined(tree: TreeView, k: int)
    requires
        tree.well_formed(),
        0 <= k < tree.next_leaf_index,
    ensures
        path_combined(tree.nodes, FIRST_LEAF + k),
{
    reveal_with_fuel(path_combined, 5);
    reveal_with_fuel(leftmost_leaf, 5);
}

/// A proof taken from the tree verifies against the root of the tree. The
/// tree stores digests and verification hashes its leaf first, so the slot
/// of leaf `k` must hold the hash of the data that is verified; and
/// verification keeps the running digest on the left, so the way up from
/// that slot must lean left, as the way from the first slot always does.
pub proof fn lemma_proof_round_trip(tree: TreeView, k: int, data: Seq<u8>)
    requires
        tree.well_formed(),
        0 <= k < tree.next_leaf_index,
        tree.nodes[FIRST_LEAF + k] == hash_spec(data),
        leans_left(tree.nodes, FIRST_LEAF + k),
    ensures
        verify_spec(data, sibling_path(tree.nodes, FIRST_LEAF + k)) == tree.nodes[0],
{
    lemma_inserted_leaf_path_combined(tree, k);
    lemma_path_folds_to_root(tree.nodes, FIRST_LEAF + k);
}

/// The same of a tree that was built by insertion alone: after `leaves`
/// have been inserted into a well-formed tree without leaves, the proof of
/// leaf `k` verifies against the root for the data whose hash was inserted
/// as leaf `k`, on a way that leans left.
pub proof fn lemma_built_tree_round_trip(
    start: TreeView,
    leaves: Seq<Seq<u8>>,
    k: int,
    data: Seq<u8>,
)
    requires
        start.well_formed(),
        start.next_leaf_index == 0,
        leaves.len() <= LEAF_CAPACITY,
        0 <= k < leaves.len(),
        leaves[k] == hash_spec(data),
        leans_left(start.insert_all(leaves).nodes, FIRST_LEAF + k),
    ensures
        verify_spec(data, sibling_path(start.insert_all(leaves).nodes, FIRST_LEAF + k))
            == start.insert_all(leaves).nodes[0],
{
    let tree = start.insert_all(leaves);
    lemma_insert_all_well_formed(start, leaves);
    lemma_insert_all_nodes(start, leaves);
    lemma_proof_round_trip(tree, k, data);
}

/// The proof of the first leaf always verifies against the root, once the
/// slot of that leaf holds the hash of the data.
pub proof fn lemma_first_leaf_round_trip(tree: TreeView, data: Seq<u8>)
    requires
        tree.well_formed(),
        tree.next_leaf_index > 0,
        tree.nodes[FIRST_LEAF as int] == hash_spec(data),
    ensures
        verify_spec(data, sibling_path(tree.nodes, FIRST_LEAF as int)) == tree.nodes[0],
{
    lemma_first_leaf_leans_left(tree.nodes);
    lemma_proof_round_trip(tree, 0, data);
}

} // verus!
