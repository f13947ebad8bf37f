use vstd::prelude::*;

verus! {

/// Errors of the page and B+tree node operations.
#[derive(Debug, Clone, Copy, PartialEq, Eq, Structural)]
pub enum StorageError {
    DuplicateKey,
    KeyNotFound,
    InsertRecordFailed,
    InsufficientSpaceForMerge,
    InvalidSlotIndex,
    NewRightSiblingNotEmpty,
    PageFull,
}

} // verus!
