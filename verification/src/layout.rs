//! The shape of the tree: a complete binary tree laid out in a flat array,
//! root first, level by level.

use vstd::prelude::*;
use vstd::arithmetic::power2::{lemma2_to64, pow2};

verus! {

/// Height of the tree above the leaf level.
pub const MAX_DEPTH: usize = 3;

/// Number of leaf slots.
pub const LEAF_CAPACITY: usize = 8;

/// Index of the first leaf slot; every smaller index is an internal node.
pub const FIRST_LEAF: usize = 7;

/// Number of nodes, internal nodes and leaves together.
pub const TREE_SIZE: usize = 15;

/// Size in bytes of a stored tree: every node, then one byte for the count
/// of inserted leaves.
pub const TREE_SIZE_BYTES: usize = 481;

/// The sizes fit together: a tree of depth `MAX_DEPTH` has `2^MAX_DEPTH`
/// leaf slots and `2^(MAX_DEPTH + 1) - 1` nodes, the leaf slots are the last
/// of them, and each node takes 32 bytes of storage.
pub proof fn lemma_sizes()
    ensures
        LEAF_CAPACITY == pow2(MAX_DEPTH as nat),
        TREE_SIZE == pow2((MAX_DEPTH + 1) as nat) - 1,
        FIRST_LEAF == TREE_SIZE - LEAF_CAPACITY,
        TREE_SIZE_BYTES == TREE_SIZE * 32 + 1,
{
    lemma2_to64();
}

/// Index of the parent of node `i`, for `i > 0`.
pub open spec fn parent(i: int) -> int {
    (i - 1) / 2
}

/// Whether node `i` is the left child of its parent.
pub open spec fn is_left(i: int) -> bool {
    i > 0 && i % 2 == 1
}

/// Index of the other child of the parent of node `i`, for `i > 0`.
pub open spec fn sibling(i: int) -> int {
    if i % 2 == 1 {
        i + 1
    } else {
        i - 1
    }
}

/// Whether node `a` lies strictly above node `i`, on the way from `i` to the
/// root.
pub open spec fn is_ancestor(a: int, i: int) -> bool
    decreases i,
{
    i > 0 && (parent(i) == a || is_ancestor(a, parent(i)))
}

/// Whether node `a` is node `i` or lies above it.
pub open spec fn on_path(a: int, i: int) -> bool {
    a == i || is_ancestor(a, i)
}

/// The first leaf slot below node `i`; `i` itself when it is a leaf slot.
pub open spec fn leftmost_leaf(i: int) -> int
    decreases TREE_SIZE - i,
{
    if 0 <= i < FIRST_LEAF {
        leftmost_leaf(2 * i + 1)
    } else {
        i
    }
}

/// Whether at least one of the first `count` leaf slots lies at or below
/// node `i`.
pub open spec fn populated(i: int, count: nat) -> bool {
    leftmost_leaf(i) < FIRST_LEAF + count
}

} // verus!
