//! Telling the instructions of the tree program apart by their first byte.

use vstd::prelude::*;
use vstd::slice::slice_subrange;

verus! {

/// First byte of a request to allocate the storage of a tree.
pub const TAG_INITIALIZE_TREE: u8 = 0;

/// First byte of a request to insert a leaf.
pub const TAG_INSERT_LEAF: u8 = 1;

/// What a request asks for.
#[derive(Debug, Clone, Copy, PartialEq, Eq, Structural)]
pub enum Instruction {
    /// Allocate the storage of a new tree.
    InitializeTree,
    /// Insert the leaf that the payload holds.
    InsertLeaf,
}

/// The instruction that a first byte stands for, if any.
pub open spec fn instruction_of(tag: u8) -> Option<Instruction> {
    if tag == TAG_INITIALIZE_TREE {
        Some(Instruction::InitializeTree)
    } else if tag == TAG_INSERT_LEAF {
        Some(Instruction::InsertLeaf)
    } else {
        None
    }
}

/// Splits a request into the instruction that its first byte names and the
/// payload that follows. An empty request, or one with an unknown first
/// byte, names no instruction.
pub fn process_instruction(instruction_data: &[u8]) -> (request: Option<(Instruction, &[u8])>)
    ensures
        instruction_data.len() == 0 ==> request is None,
        instruction_data.len() > 0 ==> match request {
            Some((instruction, payload)) => instruction_of(instruction_data[0]) == Some(
                instruction,
            ) && payload@ == instruction_data@.skip(1),
            None => instruction_of(instruction_data[0]) is None,
        },
{
    if instruction_data.len() == 0 {
        return None;
    }
    let tag: u8 = instruction_data[0];
    let payload: &[u8] = slice_subrange(instruction_data, 1, instruction_data.len());
    if tag == TAG_INITIALIZE_TREE {
        Some((Instruction::InitializeTree, payload))
    } else if tag == TAG_INSERT_LEAF {
        Some((Instruction::InsertLeaf, payload))
    } else {
        None
    }
}

} // verus!
