//! A fixed-depth, array-backed Merkle tree with append-only insertion, and a
//! stand-alone routine that folds a leaf and a list of sibling digests into
//! a candidate root.
//!
//! The tree has eight leaf slots and fifteen nodes. Inserting a leaf writes
//! its 32 bytes into the next free slot as they are and recomputes the nodes
//! above it. Verification hashes its leaf before it combines it with the
//! siblings. The two meet under one convention: a leaf slot holds the hash
//! of the data that the leaf stands for. Who wants to prove later that some
//! data is in the tree inserts `digest::hash(data)`, takes the siblings from
//! `MerkleTree::proof_path`, and calls `membership::authenticate` with the
//! data, the siblings and the root.
//!
//! Verification has no word on which side a sibling stands: the running
//! digest is always the left operand. A proof therefore leads to the root
//! only from a slot whose way up leans left, as the way from the first slot
//! does; `invariants` states this exactly.

pub mod digest;
pub mod error;
pub mod instruction;
pub mod invariants;
pub mod layout;
pub mod membership;
pub mod storage;
pub mod tree;

pub use error::CustomError;
pub use instruction::process_instruction;
pub use tree::insert_leaf;
pub use tree::MerkleTree;
