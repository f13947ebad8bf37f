use vstd::prelude::*;

verus! {

/// Errors of the buffer pool.
#[derive(Debug, PartialEq, Eq)]
pub enum BufferPoolError {
    BufferFull,
    DiskRead(String),
    DiskWrite(String),
    Generic(String),
    PageProcessingBroadcast(String),
    PageAllocation(String),
}

} // verus!
