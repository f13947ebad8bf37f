use vstd::prelude::*;

verus! {

/// Size in bytes of a page on disk and of a buffer frame.
pub const PAGE_SIZE: usize = 8192;

/// Identifies a page: the table file it lives in and its index within that file.
#[derive(Clone, Copy, Debug, PartialEq, Eq, Hash, Structural)]
pub struct PageId {
    pub table_id: u32,
    pub page_index: u32,
}

impl PageId {
    pub fn new(table_id: u32, page_index: u32) -> (r: Self)
        ensures
            r.table_id == table_id,
            r.page_index == page_index,
    {
        PageId { table_id, page_index }
    }
}

} // verus!
