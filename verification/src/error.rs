//! The closed set of failures that the tree and the verifier report.

use vstd::prelude::*;

verus! {

/// Every way in which an operation of this crate can fail.
#[derive(Debug, Clone, Copy, PartialEq, Eq, Structural)]
pub enum CustomError {
    /// A leaf payload was not exactly 32 bytes long.
    InvalidLeafLength,
    /// An insertion was attempted into a tree that is already full.
    TreeOverflow,
    /// A proof payload is too short to hold a leaf and a sibling count.
    InvalidInstructionDataLength,
    /// The length of a proof payload disagrees with the sibling count that
    /// it declares.
    ProofCountMismatch,
    /// A recomputed root differs from the root that was expected.
    RootMismatch,
}

impl CustomError {
    /// The number under which a host reports this error.
    pub open spec fn code_spec(self) -> u32 {
        match self {
            CustomError::InvalidLeafLength => 0,
            CustomError::TreeOverflow => 1,
            CustomError::InvalidInstructionDataLength => 2,
            CustomError::ProofCountMismatch => 3,
            CustomError::RootMismatch => 4,
        }
    }

    /// The number under which a host reports this error. Distinct errors
    /// have distinct numbers.
    pub fn code(&self) -> (code: u32)
        ensures
            code == self.code_spec(),
    {
        match self {
            CustomError::InvalidLeafLength => 0,
            CustomError::TreeOverflow => 1,
            CustomError::InvalidInstructionDataLength => 2,
            CustomError::ProofCountMismatch => 3,
            CustomError::RootMismatch => 4,
        }
    }
}

} // verus!
