use vstd::prelude::*;

use crate::page_id::{PageId, PAGE_SIZE};

verus! {

/// The extension of a table file; the file of table `t` is named `t.tbl`.
pub const TABLE_FILE_EXTENSION: &'static str = "tbl";

/// Where page `page_index` starts in its table file.
pub fn page_offset(page_index: u32) -> (r: u64)
    ensures
        r == page_index as int * PAGE_SIZE as int,
{
    let i: u64 = page_index as u64;
    assert(i * 8192 <= u64::MAX) by (nonlinear_arith)
        requires
            i <= u32::MAX,
    ;
    i * PAGE_SIZE as u64
}

/// The page that an allocation appends to a table file of `file_length` bytes: its index is
/// the number of whole pages already in the file. The index must fit in a `u32`.
pub fn next_page_id(table_id: u32, file_length: u64) -> (r: PageId)
    requires
        file_length as int / (PAGE_SIZE as int) <= u32::MAX,
    ensures
        r.table_id == table_id,
        r.page_index == file_length as int / (PAGE_SIZE as int),
{
    let next_index: u64 = file_length / PAGE_SIZE as u64;
    PageId { table_id, page_index: next_index as u32 }
}

} // verus!
