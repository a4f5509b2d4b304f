use merkle_tree::CustomError;

#[test]
fn error_codes_are_fixed_and_distinct() {
    assert_eq!(CustomError::InvalidLeafLength.code(), 0);
    assert_eq!(CustomError::TreeOverflow.code(), 1);
    assert_eq!(CustomError::InvalidInstructionDataLength.code(), 2);
    assert_eq!(CustomError::ProofCountMismatch.code(), 3);
    assert_eq!(CustomError::RootMismatch.code(), 4);
}

#[test]
fn errors_compare_by_kind() {
    assert_eq!(CustomError::TreeOverflow, CustomError::TreeOverflow);
    assert_ne!(CustomError::TreeOverflow, CustomError::InvalidLeafLength);
    assert_eq!(format!("{:?}", CustomError::RootMismatch), "RootMismatch");
}
