use vstd::prelude::*;

verus! {

/// Errors of the record serializer.
#[derive(Debug, Clone, Copy, PartialEq, Eq, Structural)]
pub enum SerializationError {
    DataTypeMismatch,
    PrimaryKeyNotFound,
    NullPrimaryKeyColumnValue,
    NullValueForNonNullColumnFound,
}

} // verus!
