use vstd::prelude::*;

verus! {

/// Size in bytes of the header at the start of every page.
pub const PAGE_HEADER_SIZE: usize = 32;

/// Offset of the log sequence number (`u64`).
pub const PAGE_HEADER_LSN_OFFSET: usize = 0;

/// Offset of the parent page index (`u64`).
pub const PAGE_HEADER_PARENT_INDEX_OFFSET: usize = 8;

/// Type specific slot 1: the root page of a table header page.
pub const PAGE_HEADER_ROOT_PAGE_OFFSET: usize = 12;

/// Type specific slot 1: the rightmost child pointer of an internal node.
pub const PAGE_HEADER_RIGHTMOST_CHILD_POINTER_OFFSET: usize = 12;

/// Type specific slot 1: the previous sibling of a leaf node.
pub const PAGE_HEADER_PREV_SIBLING_LEAF_PAGE_INDEX_OFFSET: usize = 12;

/// Type specific slot 2: the next sibling of a leaf node.
pub const PAGE_HEADER_NEXT_SIBLING_LEAF_PAGE_INDEX_OFFSET: usize = 16;

/// Offset of the number of records on the page (`u16`).
pub const PAGE_HEADER_ITEM_COUNT_OFFSET: usize = 20;

/// Offset of the start of the record data heap (`u16`).
pub const PAGE_HEADER_DATA_HEAP_END_OFFSET_OFFSET: usize = 22;

/// Offset of the page type byte.
pub const PAGE_HEADER_PAGE_TYPE_OFFSET: usize = 24;

/// Marks an absent page index (e.g. a leaf without a right sibling).
pub const INVALID_PAGE_INDEX: u32 = 0xFFFF_FFFFu32;

/// The kind of content that a page holds.
#[derive(Debug, Clone, Copy, PartialEq, Eq, Structural)]
pub enum PageType {
    Invalid,
    /// A B+Tree leaf page, containing actual table row data.
    LeafNode,
    /// A B+Tree internal page, containing keys and pointers to child pages.
    InternalNode,
    /// Metadata about the table, such as the root page index.
    TableHeader,
}

/// The byte that encodes a page type in the page header.
pub open spec fn page_type_code(t: PageType) -> u8 {
    match t {
        PageType::Invalid => 0,
        PageType::LeafNode => 1,
        PageType::InternalNode => 2,
        PageType::TableHeader => 3,
    }
}

/// The page type that a header byte decodes to.
pub open spec fn page_type_of_code(v: u8) -> PageType {
    if v == 1 {
        PageType::LeafNode
    } else if v == 2 {
        PageType::InternalNode
    } else if v == 3 {
        PageType::TableHeader
    } else {
        PageType::Invalid
    }
}

impl PageType {
    /// The header byte of this page type.
    pub fn code(self) -> (r: u8)
        ensures
            r == page_type_code(self),
    {
        match self {
            PageType::Invalid => 0,
            PageType::LeafNode => 1,
            PageType::InternalNode => 2,
            PageType::TableHeader => 3,
        }
    }

    /// Decodes a header byte; every unknown byte is `Invalid`.
    pub fn from_code(value: u8) -> (r: PageType)
        ensures
            r == page_type_of_code(value),
    {
        if value == 1 {
            PageType::LeafNode
        } else if value == 2 {
            PageType::InternalNode
        } else if value == 3 {
            PageType::TableHeader
        } else {
            PageType::Invalid
        }
    }
}

/// Decoding the code of a page type gives the page type back.
pub proof fn lemma_page_type_code_roundtrip(t: PageType)
    ensures
        page_type_of_code(page_type_code(t)) == t,
{
}

impl From<u8> for PageType {
    fn from(value: u8) -> (r: PageType) {
        PageType::from_code(value)
    }
}

impl vstd::std_specs::convert::FromSpecImpl<u8> for PageType {
    open spec fn obeys_from_spec() -> bool {
        true
    }

    open spec fn from_spec(v: u8) -> PageType {
        page_type_of_code(v)
    }
}

} // verus!
