use vstd::prelude::*;
use vstd::slice::{slice_subrange, slice_to_vec};

use crate::byte_codec::{
    le_u16_at, le_u16_bytes, le_u32_at, le_u32_bytes, le_u64_at, le_u64_bytes,
    lemma_le_u16_roundtrip, lemma_le_u32_roundtrip, lemma_le_u64_roundtrip, read_u16, read_u32,
    read_u64, u16_bytes, u32_bytes, u64_bytes,
};
use crate::page::{
    page_type_code, page_type_of_code, PageType, PAGE_HEADER_DATA_HEAP_END_OFFSET_OFFSET,
    PAGE_HEADER_ITEM_COUNT_OFFSET, PAGE_HEADER_NEXT_SIBLING_LEAF_PAGE_INDEX_OFFSET, PAGE_HEADER_PAGE_TYPE_OFFSET,
    PAGE_HEADER_PARENT_INDEX_OFFSET, PAGE_HEADER_PREV_SIBLING_LEAF_PAGE_INDEX_OFFSET, PAGE_HEADER_SIZE,
    INVALID_PAGE_INDEX,
};
use crate::page_id::PAGE_SIZE;
use crate::slot::SLOT_SIZE;
use crate::storage_error::StorageError;

verus! {

// ---------------------------------------------------------------------------------------------
// The model of a slotted page.
//
// [ Header | Slots -> | Free Space | <- Data Record Cells ]
//
// The header holds the record count and the start of the data heap; slot `i` holds the
// offset and the length of record `i`. The logical content of a page is the sequence of
// its records, in slot order.
// ---------------------------------------------------------------------------------------------

/// The number of records on the page.
pub open spec fn page_item_count(b: Seq<u8>) -> int {
    le_u16_at(b, PAGE_HEADER_ITEM_COUNT_OFFSET as int)
}

/// The offset where the data heap starts (it grows towards the slot array).
pub open spec fn page_data_start(b: Seq<u8>) -> int {
    le_u16_at(b, PAGE_HEADER_DATA_HEAP_END_OFFSET_OFFSET as int)
}

/// The position of slot `i` in the page.
pub open spec fn slot_pos(i: int) -> int {
    PAGE_HEADER_SIZE as int + SLOT_SIZE as int * i
}

/// The record offset stored in slot `i`.
pub open spec fn slot_offset(b: Seq<u8>, i: int) -> int {
    le_u16_at(b, slot_pos(i))
}

/// The record length stored in slot `i`.
pub open spec fn slot_length(b: Seq<u8>, i: int) -> int {
    le_u16_at(b, slot_pos(i) + 2)
}

/// The bytes of record `i`.
pub open spec fn page_record(b: Seq<u8>, i: int) -> Seq<u8> {
    b.subrange(slot_offset(b, i), slot_offset(b, i) + slot_length(b, i))
}

/// The records of the page, in slot order.
pub open spec fn page_records(b: Seq<u8>) -> Seq<Seq<u8>> {
    Seq::new(page_item_count(b) as nat, |i: int| page_record(b, i))
}

/// The total number of bytes of a sequence of records.
pub open spec fn total_size(rs: Seq<Seq<u8>>) -> int
    decreases rs.len(),
{
    if rs.len() == 0 {
        0
    } else {
        rs[0].len() + total_size(rs.drop_first())
    }
}

/// The free block between the slot array and the data heap.
pub open spec fn page_contiguous_free(b: Seq<u8>) -> int {
    page_data_start(b) - slot_pos(page_item_count(b))
}

/// All free space: the contiguous block plus the holes left in the data heap.
pub open spec fn page_total_free(b: Seq<u8>) -> int {
    page_contiguous_free(b) + (PAGE_SIZE as int - page_data_start(b) - total_size(page_records(b)))
}

/// A well formed slotted page: the slot array ends before the data heap, every record lies
/// in the data heap, no two records overlap, and the records fit in the heap.
pub open spec fn page_wf(b: Seq<u8>) -> bool {
    &&& b.len() == PAGE_SIZE
    &&& slot_pos(page_item_count(b)) <= page_data_start(b) <= PAGE_SIZE
    &&& forall|i: int|
        0 <= i < page_item_count(b) ==> page_data_start(b) <= #[trigger] slot_offset(b, i)
            && slot_offset(b, i) + slot_length(b, i) <= PAGE_SIZE
    &&& forall|i: int, j: int|
        0 <= i < page_item_count(b) && 0 <= j < page_item_count(b) && i != j ==> #[trigger] slot_offset(b, i)
            + slot_length(b, i) <= #[trigger] slot_offset(b, j) || slot_offset(b, j) + slot_length(b, j)
            <= slot_offset(b, i)
    &&& total_size(page_records(b)) <= PAGE_SIZE - page_data_start(b)
}

/// The header bytes other than the record count and the heap start are equal.
pub open spec fn fixed_header_same(b1: Seq<u8>, b2: Seq<u8>) -> bool {
    forall|k: int| (0 <= k < 20 || 24 <= k < 32) ==> #[trigger] b2[k] == b1[k]
}

/// `b` with `d` written at `off`.
pub open spec fn splice(b: Seq<u8>, off: int, d: Seq<u8>) -> Seq<u8> {
    Seq::new(b.len(), |k: int| if off <= k < off + d.len() { d[k - off] } else { b[k] })
}

// ---------------------------------------------------------------------------------------------
// Lemmas about record sizes.
// ---------------------------------------------------------------------------------------------

pub proof fn lemma_total_size_nonneg(rs: Seq<Seq<u8>>)
    ensures
        total_size(rs) >= 0,
    decreases rs.len(),
{
    if rs.len() > 0 {
        lemma_total_size_nonneg(rs.drop_first());
    }
}

pub proof fn lemma_total_size_concat(a: Seq<Seq<u8>>, b: Seq<Seq<u8>>)
    ensures
        total_size(a + b) == total_size(a) + total_size(b),
    decreases a.len(),
{
    if a.len() == 0 {
        assert(a + b =~= b);
    } else {
        assert((a + b).drop_first() =~= a.drop_first() + b);
        lemma_total_size_concat(a.drop_first(), b);
    }
}

pub proof fn lemma_total_size_single(x: Seq<u8>)
    ensures
        total_size(seq![x]) == x.len(),
{
    assert(seq![x].drop_first() =~= Seq::<Seq<u8>>::empty());
    assert(total_size(seq![x].drop_first()) == 0);
}

pub proof fn lemma_total_size_push(rs: Seq<Seq<u8>>, x: Seq<u8>)
    ensures
        total_size(rs.push(x)) == total_size(rs) + x.len(),
{
    assert(rs.push(x) =~= rs + seq![x]);
    lemma_total_size_concat(rs, seq![x]);
    lemma_total_size_single(x);
}

pub proof fn lemma_total_size_insert(rs: Seq<Seq<u8>>, i: int, x: Seq<u8>)
    requires
        0 <= i <= rs.len(),
    ensures
        total_size(rs.insert(i, x)) == total_size(rs) + x.len(),
{
    assert(rs.insert(i, x) =~= rs.take(i) + (seq![x] + rs.skip(i)));
    assert(rs =~= rs.take(i) + rs.skip(i));
    lemma_total_size_concat(rs.take(i), seq![x] + rs.skip(i));
    lemma_total_size_concat(seq![x], rs.skip(i));
    lemma_total_size_concat(rs.take(i), rs.skip(i));
    lemma_total_size_single(x);
}

pub proof fn lemma_total_size_remove(rs: Seq<Seq<u8>>, i: int)
    requires
        0 <= i < rs.len(),
    ensures
        total_size(rs.remove(i)) == total_size(rs) - rs[i].len(),
{
    lemma_total_size_insert(rs.remove(i), i, rs[i]);
    assert(rs.remove(i).insert(i, rs[i]) =~= rs);
}

pub proof fn lemma_total_size_update(rs: Seq<Seq<u8>>, i: int, x: Seq<u8>)
    requires
        0 <= i < rs.len(),
    ensures
        total_size(rs.update(i, x)) == total_size(rs) - rs[i].len() + x.len(),
{
    lemma_total_size_remove(rs, i);
    lemma_total_size_insert(rs.remove(i), i, x);
    assert(rs.remove(i).insert(i, x) =~= rs.update(i, x));
}

pub proof fn lemma_total_size_take(rs: Seq<Seq<u8>>, i: int)
    requires
        0 <= i < rs.len(),
    ensures
        total_size(rs.take(i + 1)) == total_size(rs.take(i)) + rs[i].len(),
{
    assert(rs.take(i + 1) =~= rs.take(i).push(rs[i]));
    lemma_total_size_push(rs.take(i), rs[i]);
}

pub proof fn lemma_total_size_prefix_bound(rs: Seq<Seq<u8>>, i: int)
    requires
        0 <= i <= rs.len(),
    ensures
        0 <= total_size(rs.take(i)) <= total_size(rs),
{
    assert(rs =~= rs.take(i) + rs.skip(i));
    lemma_total_size_concat(rs.take(i), rs.skip(i));
    lemma_total_size_nonneg(rs.take(i));
    lemma_total_size_nonneg(rs.skip(i));
}

/// In a well formed page, each record is a sub-range of the page of the length that its slot
/// gives.
pub proof fn lemma_page_record_len(b: Seq<u8>, i: int)
    requires
        page_wf(b),
        0 <= i < page_item_count(b),
    ensures
        page_record(b, i).len() == slot_length(b, i),
        page_records(b)[i] == page_record(b, i),
{
    assert(page_data_start(b) <= slot_offset(b, i));
}

/// The slots of `b2` below `n` equal those of `b1`.
pub open spec fn same_slots(b1: Seq<u8>, b2: Seq<u8>, lo: int, hi: int, shift: int) -> bool {
    forall|j: int|
        lo <= j < hi ==> #[trigger] slot_offset(b2, j) == slot_offset(b1, j - shift) && slot_length(b2, j)
            == slot_length(b1, j - shift)
}

/// Writing slot `w` leaves the other slots below `n` as they were.
proof fn lemma_other_slots_unchanged(c0: Seq<u8>, c1: Seq<u8>, w: int, n: int)
    requires
        c0.len() == PAGE_SIZE,
        c1.len() == PAGE_SIZE,
        slot_pos(n) <= PAGE_SIZE,
        forall|k: int| 0 <= k < PAGE_SIZE && !(slot_pos(w) <= k < slot_pos(w) + 4) ==> #[trigger] c1[k] == c0[k],
    ensures
        forall|i: int| 0 <= i < n && i != w ==> #[trigger] slot_offset(c1, i) == slot_offset(c0, i) && slot_length(c1, i)
            == slot_length(c0, i),
{
    assert forall|i: int| 0 <= i < n && i != w implies #[trigger] slot_offset(c1, i) == slot_offset(c0, i)
        && slot_length(c1, i) == slot_length(c0, i) by {
        let p = slot_pos(i);
        assert(c1[p] == c0[p]);
        assert(c1[p + 1] == c0[p + 1]);
        assert(c1[p + 2] == c0[p + 2]);
        assert(c1[p + 3] == c0[p + 3]);
    }
}

/// Copying slot `j + 1` into slot `j` extends by one the run of slots shifted left.
proof fn lemma_unshift_slot_step(b0: Seq<u8>, c0: Seq<u8>, c1: Seq<u8>, index: int, j: int, n0: int)
    requires
        c0.len() == PAGE_SIZE,
        c1.len() == PAGE_SIZE,
        0 <= index <= j,
        j + 1 < n0,
        slot_pos(n0) <= PAGE_SIZE,
        same_slots(b0, c0, 0, index, 0),
        same_slots(b0, c0, index, j, -1),
        same_slots(b0, c0, j, n0, 0),
        slot_offset(c1, j) == slot_offset(c0, j + 1),
        slot_length(c1, j) == slot_length(c0, j + 1),
        forall|k: int| 0 <= k < PAGE_SIZE && !(slot_pos(j) <= k < slot_pos(j) + 4) ==> #[trigger] c1[k] == c0[k],
    ensures
        same_slots(b0, c1, 0, index, 0),
        same_slots(b0, c1, index, j + 1, -1),
        same_slots(b0, c1, j + 1, n0, 0),
{
    lemma_other_slots_unchanged(c0, c1, j, n0);
    assert forall|i: int| 0 <= i < index implies #[trigger] slot_offset(c1, i) == slot_offset(b0, i) && slot_length(
        c1,
        i,
    ) == slot_length(b0, i) by {
        assert(slot_offset(c0, i) == slot_offset(b0, i));
    }
    assert forall|i: int| index <= i < j + 1 implies #[trigger] slot_offset(c1, i) == slot_offset(b0, i + 1)
        && slot_length(c1, i) == slot_length(b0, i + 1) by {
        if i < j {
            assert(slot_offset(c0, i) == slot_offset(b0, i + 1));
        } else {
            assert(slot_offset(c0, i + 1) == slot_offset(b0, i + 1));
        }
    }
    assert forall|i: int| j + 1 <= i < n0 implies #[trigger] slot_offset(c1, i) == slot_offset(b0, i) && slot_length(
        c1,
        i,
    ) == slot_length(b0, i) by {
        assert(slot_offset(c0, i) == slot_offset(b0, i));
    }
}

/// Copying slot `j - 1` into slot `j` extends by one the run of slots shifted right.
proof fn lemma_shift_slot_step(b2: Seq<u8>, c0: Seq<u8>, c1: Seq<u8>, j: int, n0: int)
    requires
        c0.len() == PAGE_SIZE,
        c1.len() == PAGE_SIZE,
        1 <= j <= n0,
        slot_pos(n0 + 1) <= PAGE_SIZE,
        same_slots(b2, c0, 0, j + 1, 0),
        same_slots(b2, c0, j + 1, n0 + 1, 1),
        slot_offset(c1, j) == slot_offset(c0, j - 1),
        slot_length(c1, j) == slot_length(c0, j - 1),
        forall|k: int| 0 <= k < PAGE_SIZE && !(slot_pos(j) <= k < slot_pos(j) + 4) ==> #[trigger] c1[k] == c0[k],
    ensures
        same_slots(b2, c1, 0, j, 0),
        same_slots(b2, c1, j, n0 + 1, 1),
{
    lemma_other_slots_unchanged(c0, c1, j, n0 + 1);
    assert forall|i: int| 0 <= i < j implies #[trigger] slot_offset(c1, i) == slot_offset(b2, i) && slot_length(
        c1,
        i,
    ) == slot_length(b2, i) by {
        assert(slot_offset(c1, i) == slot_offset(c0, i));
        assert(slot_offset(c0, i) == slot_offset(b2, i));
    }
    assert forall|i: int| j <= i < n0 + 1 implies #[trigger] slot_offset(c1, i) == slot_offset(b2, i - 1)
        && slot_length(c1, i) == slot_length(b2, i - 1) by {
        if i > j {
            assert(slot_offset(c1, i) == slot_offset(c0, i));
            assert(slot_offset(c0, i) == slot_offset(b2, i - 1));
        } else {
            assert(slot_offset(c0, i - 1) == slot_offset(b2, i - 1));
        }
    }
}

/// What an insertion of `d` at `index` leaves: the record list with `d` inserted, the heap
/// grown by the length of `d` and the new record at the start of the heap.
pub open spec fn page_inserted(b0: Seq<u8>, b1: Seq<u8>, index: int, d: Seq<u8>) -> bool {
    &&& page_wf(b1)
    &&& page_records(b1) == page_records(b0).insert(index, d)
    &&& page_item_count(b1) == page_item_count(b0) + 1
    &&& page_data_start(b1) == page_data_start(b0) - d.len()
    &&& slot_offset(b1, index) == page_data_start(b1)
    &&& fixed_header_same(b0, b1)
}

proof fn lemma_insert_result(b0: Seq<u8>, b5: Seq<u8>, index: int, d: Seq<u8>)
    requires
        page_wf(b0),
        b5.len() == PAGE_SIZE,
        0 <= index <= page_item_count(b0),
        d.len() + SLOT_SIZE <= page_contiguous_free(b0),
        page_item_count(b5) == page_item_count(b0) + 1,
        page_data_start(b5) == page_data_start(b0) - d.len(),
        same_slots(b0, b5, 0, index, 0),
        same_slots(b0, b5, index + 1, page_item_count(b0) + 1, 1),
        slot_offset(b5, index) == page_data_start(b5),
        slot_length(b5, index) == d.len(),
        forall|k: int| page_data_start(b5) <= k < page_data_start(b0) ==> #[trigger] b5[k] == d[k - page_data_start(b5)],
        forall|k: int| page_data_start(b0) <= k < PAGE_SIZE ==> #[trigger] b5[k] == b0[k],
        fixed_header_same(b0, b5),
    ensures
        page_inserted(b0, b5, index, d),
{
    let n0 = page_item_count(b0);
    let s0 = page_data_start(b0);
    let s5 = page_data_start(b5);
    let rs0 = page_records(b0);
    let rs5 = page_records(b5);
    assert forall|j: int| 0 <= j < n0 + 1 implies #[trigger] rs5[j] == rs0.insert(index, d)[j] by {
        if j < index {
            assert(slot_offset(b5, j) == slot_offset(b0, j));
            assert(s0 <= slot_offset(b0, j));
            assert(page_record(b5, j) =~= page_record(b0, j));
        } else if j == index {
            assert(page_record(b5, j) =~= d);
        } else {
            assert(slot_offset(b5, j) == slot_offset(b0, j - 1));
            assert(s0 <= slot_offset(b0, j - 1));
            assert(page_record(b5, j) =~= page_record(b0, j - 1));
        }
    }
    assert(rs5 =~= rs0.insert(index, d));
    lemma_total_size_insert(rs0, index, d);
    assert forall|i: int| 0 <= i < n0 + 1 implies s5 <= #[trigger] slot_offset(b5, i) && slot_offset(b5, i)
        + slot_length(b5, i) <= PAGE_SIZE by {
        if i < index {
            assert(slot_offset(b5, i) == slot_offset(b0, i));
        } else if i > index {
            assert(slot_offset(b5, i) == slot_offset(b0, i - 1));
        }
    }
    assert forall|i: int, j: int|
        0 <= i < n0 + 1 && 0 <= j < n0 + 1 && i != j implies #[trigger] slot_offset(b5, i) + slot_length(b5, i)
        <= #[trigger] slot_offset(b5, j) || slot_offset(b5, j) + slot_length(b5, j) <= slot_offset(b5, i) by {
        let pi = if i < index { i } else { i - 1 };
        let pj = if j < index { j } else { j - 1 };
        if i != index {
            assert(slot_offset(b5, i) == slot_offset(b0, pi));
            assert(s0 <= slot_offset(b0, pi));
        }
        if j != index {
            assert(slot_offset(b5, j) == slot_offset(b0, pj));
            assert(s0 <= slot_offset(b0, pj));
        }
        if i != index && j != index {
            assert(slot_offset(b0, pi) + slot_length(b0, pi) <= slot_offset(b0, pj) || slot_offset(b0, pj)
                + slot_length(b0, pj) <= slot_offset(b0, pi));
        }
    }
}


/// What a delete of record `index` leaves: the record list without it, the slot array one
/// slot shorter, and the data heap untouched.
pub open spec fn page_removed(b0: Seq<u8>, b1: Seq<u8>, index: int) -> bool {
    &&& page_wf(b1)
    &&& page_records(b1) == page_records(b0).remove(index)
    &&& page_item_count(b1) == page_item_count(b0) - 1
    &&& page_data_start(b1) == page_data_start(b0)
    &&& fixed_header_same(b0, b1)
    &&& forall|k: int| page_data_start(b0) <= k < PAGE_SIZE ==> #[trigger] b1[k] == b0[k]
}

proof fn lemma_remove_result(b0: Seq<u8>, b2: Seq<u8>, index: int)
    requires
        page_wf(b0),
        b2.len() == PAGE_SIZE,
        0 <= index < page_item_count(b0),
        page_item_count(b2) == page_item_count(b0) - 1,
        page_data_start(b2) == page_data_start(b0),
        same_slots(b0, b2, 0, index, 0),
        same_slots(b0, b2, index, page_item_count(b0) - 1, -1),
        forall|k: int| page_data_start(b0) <= k < PAGE_SIZE ==> #[trigger] b2[k] == b0[k],
        fixed_header_same(b0, b2),
    ensures
        page_removed(b0, b2, index),
{
    let n0 = page_item_count(b0);
    let s0 = page_data_start(b0);
    let rs0 = page_records(b0);
    let rs2 = page_records(b2);
    assert forall|j: int| 0 <= j < n0 - 1 implies #[trigger] rs2[j] == rs0.remove(index)[j] by {
        let pj = if j < index { j } else { j + 1 };
        assert(slot_offset(b2, j) == slot_offset(b0, pj));
        assert(s0 <= slot_offset(b0, pj));
        assert(page_record(b2, j) =~= page_record(b0, pj));
    }
    assert(rs2 =~= rs0.remove(index));
    lemma_total_size_remove(rs0, index);
    assert(slot_pos(n0 - 1) <= slot_pos(n0));
    assert forall|i: int| 0 <= i < n0 - 1 implies s0 <= #[trigger] slot_offset(b2, i) && slot_offset(b2, i)
        + slot_length(b2, i) <= PAGE_SIZE by {
        let pi = if i < index { i } else { i + 1 };
        assert(slot_offset(b2, i) == slot_offset(b0, pi));
    }
    assert forall|i: int, j: int|
        0 <= i < n0 - 1 && 0 <= j < n0 - 1 && i != j implies #[trigger] slot_offset(b2, i) + slot_length(b2, i)
        <= #[trigger] slot_offset(b2, j) || slot_offset(b2, j) + slot_length(b2, j) <= slot_offset(b2, i) by {
        let pi = if i < index { i } else { i + 1 };
        let pj = if j < index { j } else { j + 1 };
        assert(slot_offset(b2, i) == slot_offset(b0, pi));
        assert(slot_offset(b2, j) == slot_offset(b0, pj));
        assert(slot_offset(b0, pi) + slot_length(b0, pi) <= slot_offset(b0, pj) || slot_offset(b0, pj)
            + slot_length(b0, pj) <= slot_offset(b0, pi));
    }
}

/// What an update of record `index` to `d` leaves: the record list with `d` at `index`. A
/// record that is not longer than the old one is written in place; a longer one is written
/// at the start of the heap, which grows by its length.
pub open spec fn page_updated(b0: Seq<u8>, b1: Seq<u8>, index: int, d: Seq<u8>) -> bool {
    &&& page_wf(b1)
    &&& page_records(b1) == page_records(b0).update(index, d)
    &&& page_item_count(b1) == page_item_count(b0)
    &&& fixed_header_same(b0, b1)
    &&& d.len() <= slot_length(b0, index) ==> page_data_start(b1) == page_data_start(b0) && slot_offset(b1, index)
        == slot_offset(b0, index)
    &&& d.len() > slot_length(b0, index) ==> page_data_start(b1) == page_data_start(b0) - d.len() && slot_offset(
        b1,
        index,
    ) == page_data_start(b1)
}

proof fn lemma_update_result(b0: Seq<u8>, b2: Seq<u8>, index: int, d: Seq<u8>, at: int)
    requires
        page_wf(b0),
        b2.len() == PAGE_SIZE,
        0 <= index < page_item_count(b0),
        page_item_count(b2) == page_item_count(b0),
        same_slots(b0, b2, 0, index, 0),
        same_slots(b0, b2, index + 1, page_item_count(b0), 0),
        slot_offset(b2, index) == at,
        slot_length(b2, index) == d.len(),
        d.len() <= slot_length(b0, index) ==> at == slot_offset(b0, index) && page_data_start(b2) == page_data_start(b0),
        d.len() > slot_length(b0, index) ==> at == page_data_start(b2) && at + d.len() == page_data_start(b0)
            && slot_pos(page_item_count(b0)) <= at,
        forall|k: int| at <= k < at + d.len() ==> #[trigger] b2[k] == d[k - at],
        forall|k: int|
            page_data_start(b0) <= k < PAGE_SIZE && !(at <= k < at + d.len()) ==> #[trigger] b2[k] == b0[k],
        fixed_header_same(b0, b2),
    ensures
        page_updated(b0, b2, index, d),
{
    let n0 = page_item_count(b0);
    let s0 = page_data_start(b0);
    let s2 = page_data_start(b2);
    let rs0 = page_records(b0);
    let rs2 = page_records(b2);
    assert(s0 <= slot_offset(b0, index));
    assert forall|j: int| 0 <= j < n0 implies #[trigger] rs2[j] == rs0.update(index, d)[j] by {
        if j != index {
            assert(slot_offset(b2, j) == slot_offset(b0, j));
            assert(s0 <= slot_offset(b0, j));
            assert(slot_offset(b0, index) + slot_length(b0, index) <= slot_offset(b0, j) || slot_offset(b0, j)
                + slot_length(b0, j) <= slot_offset(b0, index));
            assert(page_record(b2, j) =~= page_record(b0, j));
        } else {
            assert(page_record(b2, j) =~= d);
        }
    }
    assert(rs2 =~= rs0.update(index, d));
    lemma_total_size_update(rs0, index, d);
    lemma_page_record_len(b0, index);
    assert forall|i: int| 0 <= i < n0 implies s2 <= #[trigger] slot_offset(b2, i) && slot_offset(b2, i)
        + slot_length(b2, i) <= PAGE_SIZE by {
        if i != index {
            assert(slot_offset(b2, i) == slot_offset(b0, i));
        }
    }
    assert forall|i: int, j: int|
        0 <= i < n0 && 0 <= j < n0 && i != j implies #[trigger] slot_offset(b2, i) + slot_length(b2, i)
        <= #[trigger] slot_offset(b2, j) || slot_offset(b2, j) + slot_length(b2, j) <= slot_offset(b2, i) by {
        if i != index {
            assert(slot_offset(b2, i) == slot_offset(b0, i));
            assert(s0 <= slot_offset(b0, i));
        }
        if j != index {
            assert(slot_offset(b2, j) == slot_offset(b0, j));
            assert(s0 <= slot_offset(b0, j));
        }
        assert(slot_offset(b0, i) + slot_length(b0, i) <= slot_offset(b0, j) || slot_offset(b0, j)
            + slot_length(b0, j) <= slot_offset(b0, i));
    }
}


pub proof fn lemma_total_size_prefix_mono(rs: Seq<Seq<u8>>, i: int, j: int)
    requires
        0 <= i <= j <= rs.len(),
    ensures
        total_size(rs.take(i)) <= total_size(rs.take(j)),
{
    assert(rs.take(j) =~= rs.take(i) + rs.take(j).skip(i));
    lemma_total_size_concat(rs.take(i), rs.take(j).skip(i));
    lemma_total_size_nonneg(rs.take(j).skip(i));
}

/// The offset at which compaction places record `k`: the records are packed against the end
/// of the page in slot order.
pub open spec fn packed_offset(rs: Seq<Seq<u8>>, k: int) -> int {
    PAGE_SIZE - total_size(rs.take(k + 1))
}

proof fn lemma_compact_result(b0: Seq<u8>, b2: Seq<u8>)
    requires
        page_wf(b0),
        b2.len() == PAGE_SIZE,
        page_item_count(b2) == page_item_count(b0),
        page_data_start(b2) == PAGE_SIZE - total_size(page_records(b0)),
        forall|k: int|
            0 <= k < page_item_count(b0) ==> #[trigger] slot_offset(b2, k) == packed_offset(page_records(b0), k)
                && slot_length(b2, k) == page_records(b0)[k].len(),
        forall|k: int| 0 <= k < page_item_count(b0) ==> #[trigger] page_record(b2, k) == page_records(b0)[k],
        fixed_header_same(b0, b2),
    ensures
        page_wf(b2),
        page_records(b2) == page_records(b0),
{
    let n0 = page_item_count(b0);
    let rs0 = page_records(b0);
    let s2 = page_data_start(b2);
    assert(page_records(b2) =~= rs0);
    assert(rs0.take(n0) =~= rs0);
    assert(s2 >= page_data_start(b0));
    assert forall|i: int| 0 <= i < n0 implies s2 <= #[trigger] slot_offset(b2, i) && slot_offset(b2, i)
        + slot_length(b2, i) <= PAGE_SIZE by {
        lemma_total_size_prefix_mono(rs0, i + 1, n0);
        lemma_total_size_take(rs0, i);
        lemma_total_size_prefix_bound(rs0, i);
    }
    assert forall|i: int, j: int|
        0 <= i < n0 && 0 <= j < n0 && i != j implies #[trigger] slot_offset(b2, i) + slot_length(b2, i)
        <= #[trigger] slot_offset(b2, j) || slot_offset(b2, j) + slot_length(b2, j) <= slot_offset(b2, i) by {
        lemma_total_size_take(rs0, i);
        lemma_total_size_take(rs0, j);
        if i < j {
            lemma_total_size_prefix_mono(rs0, i + 1, j);
        } else {
            lemma_total_size_prefix_mono(rs0, j + 1, i);
        }
    }
}

// ---------------------------------------------------------------------------------------------
// The view.
// ---------------------------------------------------------------------------------------------

/// A structured view of a page frame buffer that stores records in a slotted layout. The slot
/// array starts after the header and grows towards the data heap; the data heap starts at the
/// end of the page and grows towards the slot array. In between is free space.
pub struct SlottedPageView<'a> {
    pub buffer: &'a mut [u8; PAGE_SIZE],
}

impl<'a> SlottedPageView<'a> {
    /// The bytes of the page.
    pub open spec fn bytes(&self) -> Seq<u8> {
        (*self.buffer)@
    }

    pub fn new(buffer: &'a mut [u8; PAGE_SIZE]) -> (r: Self)
        ensures
            r.bytes() == old(buffer)@,
            *final(buffer) == *final(r.buffer),
    {
        SlottedPageView { buffer }
    }

    /// Writes `data` at `off`.
    fn write_bytes(&mut self, off: usize, data: &[u8])
        requires
            off + data@.len() <= PAGE_SIZE,
        ensures
            final(self).bytes() == splice(old(self).bytes(), off as int, data@),
            *final(final(self).buffer) == *final(old(self).buffer),
    {
        let ghost b0 = self.bytes();
        let mut i: usize = 0;
        while i < data.len()
            invariant
                off + data@.len() <= PAGE_SIZE,
                0 <= i <= data@.len(),
                self.bytes().len() == PAGE_SIZE,
                b0.len() == PAGE_SIZE,
                forall|k: int|
                    0 <= k < PAGE_SIZE ==> #[trigger] self.bytes()[k] == if off <= k < off + i {
                        data@[k - off]
                    } else {
                        b0[k]
                    },
                *final(self.buffer) == *final(old(self).buffer),
            decreases data@.len() - i,
        {
            self.buffer[off + i] = data[i];
            i = i + 1;
        }
        assert(self.bytes() =~= splice(b0, off as int, data@));
    }

    /// Sets every byte of the page to zero.
    fn zero_fill(&mut self)
        ensures
            final(self).bytes() == Seq::new(PAGE_SIZE as nat, |k: int| 0u8),
            *final(final(self).buffer) == *final(old(self).buffer),
    {
        let mut i: usize = 0;
        while i < PAGE_SIZE
            invariant
                0 <= i <= PAGE_SIZE,
                self.bytes().len() == PAGE_SIZE,
                forall|k: int| 0 <= k < i ==> #[trigger] self.bytes()[k] == 0,
                *final(self.buffer) == *final(old(self).buffer),
            decreases PAGE_SIZE - i,
        {
            self.buffer[i] = 0;
            i = i + 1;
        }
        assert(self.bytes() =~= Seq::new(PAGE_SIZE as nat, |k: int| 0u8));
    }

    /// Resets the page to an empty page of the given type with the given parent (the invalid
    /// page index for none). Every byte is zero but the parent, the first type-specific page
    /// index (the invalid index: a fresh leaf has no previous sibling), the heap start and the
    /// type. The second type-specific index, a leaf's next sibling, is left at zero: a leaf
    /// gets its next link from the sibling setter.
    pub fn initialize(&mut self, page_type: PageType, parent_page_index: Option<u32>)
        ensures
            page_wf(final(self).bytes()),
            page_item_count(final(self).bytes()) == 0,
            page_data_start(final(self).bytes()) == PAGE_SIZE,
            final(self).bytes()[PAGE_HEADER_PAGE_TYPE_OFFSET as int] == page_type_code(page_type),
            le_u32_at(final(self).bytes(), PAGE_HEADER_PARENT_INDEX_OFFSET as int) == match parent_page_index {
                Some(i) => i,
                None => INVALID_PAGE_INDEX,
            },
            le_u32_at(final(self).bytes(), PAGE_HEADER_PREV_SIBLING_LEAF_PAGE_INDEX_OFFSET as int) == INVALID_PAGE_INDEX,
            le_u32_at(final(self).bytes(), PAGE_HEADER_NEXT_SIBLING_LEAF_PAGE_INDEX_OFFSET as int) == 0,
            forall|k: int|
                0 <= k < PAGE_SIZE && !(8 <= k < 16) && !(22 <= k < 25) ==> #[trigger] final(self).bytes()[k] == 0,
            *final(final(self).buffer) == *final(old(self).buffer),
    {
        self.zero_fill();
        self.buffer[PAGE_HEADER_PAGE_TYPE_OFFSET] = page_type.code();
        self.set_page_header_u16_value(PAGE_HEADER_ITEM_COUNT_OFFSET, 0);
        let parent_index = match parent_page_index {
            Some(index) => index,
            None => INVALID_PAGE_INDEX,
        };
        self.set_page_header_u32_value(PAGE_HEADER_PARENT_INDEX_OFFSET, parent_index);
        let ghost b1 = self.bytes();
        self.set_page_header_u32_value(PAGE_HEADER_PREV_SIBLING_LEAF_PAGE_INDEX_OFFSET, INVALID_PAGE_INDEX);
        let ghost b2 = self.bytes();
        self.set_page_header_u16_value(PAGE_HEADER_DATA_HEAP_END_OFFSET_OFFSET, PAGE_SIZE as u16);
        let ghost b = self.bytes();
        assert(b[8] == b1[8] && b[9] == b1[9] && b[10] == b1[10] && b[11] == b1[11]);
        assert(b[12] == b2[12] && b[13] == b2[13] && b[14] == b2[14] && b[15] == b2[15]);
        assert(b[16] == 0 && b[17] == 0 && b[18] == 0 && b[19] == 0);
        assert(page_records(b) =~= Seq::<Seq<u8>>::empty());
    }

    /// Reads the byte at `offset`.
    pub fn get_page_header_u8_value(&self, offset: usize) -> (r: u8)
        requires
            offset < PAGE_SIZE,
        ensures
            r == self.bytes()[offset as int],
    {
        self.buffer[offset]
    }

    /// Reads the little-endian `u16` at `offset`.
    pub fn get_page_header_u16_value(&self, offset: usize) -> (r: u16)
        requires
            offset + 2 <= PAGE_SIZE,
        ensures
            r as int == le_u16_at(self.bytes(), offset as int),
    {
        read_u16(self.buffer.as_slice(), offset)
    }

    /// Reads the little-endian `u32` at `offset`.
    pub fn get_page_header_u32_value(&self, offset: usize) -> (r: u32)
        requires
            offset + 4 <= PAGE_SIZE,
        ensures
            r as int == le_u32_at(self.bytes(), offset as int),
    {
        read_u32(self.buffer.as_slice(), offset)
    }

    /// Reads the little-endian `u64` at `offset`.
    pub fn get_page_header_u64_value(&self, offset: usize) -> (r: u64)
        requires
            offset + 8 <= PAGE_SIZE,
        ensures
            r as int == le_u64_at(self.bytes(), offset as int),
    {
        read_u64(self.buffer.as_slice(), offset)
    }

    /// Writes the little-endian `u16` at `offset`.
    pub fn set_page_header_u16_value(&mut self, offset: usize, value: u16)
        requires
            offset + 2 <= PAGE_SIZE,
        ensures
            final(self).bytes() == splice(old(self).bytes(), offset as int, le_u16_bytes(value as int)),
            le_u16_at(final(self).bytes(), offset as int) == value,
            *final(final(self).buffer) == *final(old(self).buffer),
    {
        let bytes = u16_bytes(value);
        self.write_bytes(offset, bytes.as_slice());
        proof {
            let b = self.bytes();
            assert(b.subrange(offset as int, offset + 2) =~= le_u16_bytes(value as int));
            lemma_le_u16_roundtrip(value as int, b, offset as int);
        }
    }

    /// Writes the little-endian `u32` at `offset`.
    pub fn set_page_header_u32_value(&mut self, offset: usize, value: u32)
        requires
            offset + 4 <= PAGE_SIZE,
        ensures
            final(self).bytes() == splice(old(self).bytes(), offset as int, le_u32_bytes(value as int)),
            le_u32_at(final(self).bytes(), offset as int) == value,
            *final(final(self).buffer) == *final(old(self).buffer),
    {
        let bytes = u32_bytes(value);
        self.write_bytes(offset, bytes.as_slice());
        proof {
            let b = self.bytes();
            assert(b.subrange(offset as int, offset + 4) =~= le_u32_bytes(value as int));
            lemma_le_u32_roundtrip(value as int, b, offset as int);
        }
    }

    /// Writes the little-endian `u64` at `offset`.
    pub fn set_page_header_u64_value(&mut self, offset: usize, value: u64)
        requires
            offset + 8 <= PAGE_SIZE,
        ensures
            final(self).bytes() == splice(old(self).bytes(), offset as int, le_u64_bytes(value as int)),
            le_u64_at(final(self).bytes(), offset as int) == value,
            *final(final(self).buffer) == *final(old(self).buffer),
    {
        let bytes = u64_bytes(value);
        self.write_bytes(offset, bytes.as_slice());
        proof {
            let b = self.bytes();
            assert(b.subrange(offset as int, offset + 8) =~= le_u64_bytes(value as int));
            lemma_le_u64_roundtrip(value as int, b, offset as int);
        }
    }

    /// Reads slot `index`: the offset and the length of its record.
    pub fn get_slot(&self, index: u16) -> (r: (usize, usize))
        requires
            slot_pos(index as int) + 4 <= PAGE_SIZE,
        ensures
            r.0 as int == slot_offset(self.bytes(), index as int),
            r.1 as int == slot_length(self.bytes(), index as int),
    {
        let slot_offset = PAGE_HEADER_SIZE + index as usize * SLOT_SIZE;
        let record_offset = read_u16(self.buffer.as_slice(), slot_offset);
        let record_size = read_u16(self.buffer.as_slice(), slot_offset + 2);
        (record_offset as usize, record_size as usize)
    }

    /// Writes slot `index`; no other byte changes.
    pub fn set_slot(&mut self, index: u16, record_offset: u16, record_size: u16)
        requires
            slot_pos(index as int) + 4 <= PAGE_SIZE,
        ensures
            final(self).bytes().len() == PAGE_SIZE,
            slot_offset(final(self).bytes(), index as int) == record_offset,
            slot_length(final(self).bytes(), index as int) == record_size,
            forall|k: int|
                0 <= k < PAGE_SIZE && !(slot_pos(index as int) <= k < slot_pos(index as int) + 4)
                    ==> #[trigger] final(self).bytes()[k] == old(self).bytes()[k],
            *final(final(self).buffer) == *final(old(self).buffer),
    {
        let slot_offset = PAGE_HEADER_SIZE + index as usize * SLOT_SIZE;
        self.set_page_header_u16_value(slot_offset, record_offset);
        self.set_page_header_u16_value(slot_offset + 2, record_size);
    }

    /// Returns the number of records on the page.
    pub fn get_item_count(&self) -> (r: u16)
        ensures
            r as int == page_item_count(self.bytes()),
    {
        self.get_page_header_u16_value(PAGE_HEADER_ITEM_COUNT_OFFSET)
    }

    /// Returns the offset where the data heap starts.
    pub fn get_data_start_offset(&self) -> (r: u16)
        ensures
            r as int == page_data_start(self.bytes()),
    {
        self.get_page_header_u16_value(PAGE_HEADER_DATA_HEAP_END_OFFSET_OFFSET)
    }

    /// Returns the page type stored in the header.
    pub fn get_page_type(&self) -> (r: PageType)
        ensures
            r == page_type_of_code(self.bytes()[PAGE_HEADER_PAGE_TYPE_OFFSET as int]),
    {
        PageType::from_code(self.buffer[PAGE_HEADER_PAGE_TYPE_OFFSET])
    }

    /// The free block between the slot array and the data heap:
    /// page size - header - slot array - data heap.
    pub fn get_free_space_contiguous(&self) -> (r: usize)
        requires
            page_wf(self.bytes()),
        ensures
            r as int == page_contiguous_free(self.bytes()),
    {
        let item_count = self.get_item_count();
        let slot_array_size = item_count as usize * SLOT_SIZE;
        let data_heap_offset = self.get_data_start_offset();
        let data_heap_size = PAGE_SIZE - data_heap_offset as usize;
        PAGE_SIZE - PAGE_HEADER_SIZE - slot_array_size - data_heap_size
    }

    /// The total free space of the page, including the holes between records left by deletes
    /// and by updates.
    pub fn get_free_space(&self) -> (r: usize)
        requires
            page_wf(self.bytes()),
        ensures
            r as int == page_total_free(self.bytes()),
    {
        let ghost b = self.bytes();
        let ghost rs = page_records(b);
        let item_count = self.get_item_count();
        let free_space_contiguous = self.get_free_space_contiguous();
        let data_heap_size = PAGE_SIZE - self.get_data_start_offset() as usize;
        let mut total_used_data_space: usize = 0;
        let mut i: u16 = 0;
        while i < item_count
            invariant
                self.bytes() == b,
                rs == page_records(b),
                page_wf(b),
                item_count as int == page_item_count(b),
                0 <= i <= item_count,
                total_used_data_space as int == total_size(rs.take(i as int)),
                data_heap_size as int == PAGE_SIZE - page_data_start(b),
            decreases item_count - i,
        {
            proof {
                lemma_page_record_len(b, i as int);
                lemma_total_size_take(rs, i as int);
                lemma_total_size_prefix_bound(rs, i as int + 1);
            }
            let (_, len) = self.get_slot(i);
            total_used_data_space = total_used_data_space + len;
            i = i + 1;
        }
        assert(rs.take(item_count as int) =~= rs);
        free_space_contiguous + (data_heap_size - total_used_data_space)
    }


    /// Inserts a record at slot `index`. Fails with `PageFull` when the contiguous free space
    /// cannot hold the record and its slot, and then with `InvalidSlotIndex` when `index` is
    /// past the end of the slot array; otherwise returns `index`.
    pub fn try_insert_record(&mut self, index: u16, record_data: &[u8]) -> (r: Result<u16, StorageError>)
        requires
            page_wf(old(self).bytes()),
        ensures
            *final(final(self).buffer) == *final(old(self).buffer),
            page_contiguous_free(old(self).bytes()) < record_data@.len() + SLOT_SIZE ==> r == Err::<u16, StorageError>(StorageError::PageFull)
                && final(self).bytes() == old(self).bytes(),
            page_contiguous_free(old(self).bytes()) >= record_data@.len() + SLOT_SIZE && index > page_item_count(old(self).bytes())
                ==> r == Err::<u16, StorageError>(StorageError::InvalidSlotIndex) && final(self).bytes() == old(self).bytes(),
            page_contiguous_free(old(self).bytes()) >= record_data@.len() + SLOT_SIZE && index <= page_item_count(old(self).bytes())
                ==> r == Ok::<u16, StorageError>(index) && page_inserted(old(self).bytes(), final(self).bytes(), index as int, record_data@),
    {
        let free_space = self.get_free_space_contiguous();
        if record_data.len() > free_space || free_space - record_data.len() < SLOT_SIZE {
            return Err(StorageError::PageFull);
        }
        let initial_item_count = self.get_item_count();
        if index > initial_item_count {
            return Err(StorageError::InvalidSlotIndex);
        }
        let ghost b0 = self.bytes();
        let ghost n0 = page_item_count(b0);
        let ghost s0 = page_data_start(b0);
        let record_size = record_data.len();
        let data_heap_offset = self.get_data_start_offset();
        let new_data_heap_offset = data_heap_offset - record_size as u16;
        self.write_bytes(new_data_heap_offset as usize, record_data);
        self.set_page_header_u16_value(PAGE_HEADER_DATA_HEAP_END_OFFSET_OFFSET, new_data_heap_offset);
        let ghost b2 = self.bytes();
        assert(same_slots(b0, b2, 0, n0 + 1, 0));
        let mut j = initial_item_count;
        while j > index
            invariant
                self.bytes().len() == PAGE_SIZE,
                b2.len() == PAGE_SIZE,
                index <= j <= initial_item_count,
                initial_item_count as int == n0,
                slot_pos(n0 + 1) <= new_data_heap_offset <= PAGE_SIZE,
                forall|k: int|
                    0 <= k < PAGE_SIZE && !(slot_pos(index as int) <= k < slot_pos(n0 + 1)) ==> #[trigger] self.bytes()[k]
                        == b2[k],
                same_slots(b2, self.bytes(), 0, j as int + 1, 0),
                same_slots(b2, self.bytes(), j as int + 1, n0 + 1, 1),
                *final(self.buffer) == *final(old(self).buffer),
            decreases j - index,
        {
            let ghost c0 = self.bytes();
            let (record_offset, record_length) = self.get_slot(j - 1);
            self.set_slot(j, record_offset as u16, record_length as u16);
            proof {
                lemma_shift_slot_step(b2, c0, self.bytes(), j as int, n0);
            }
            j = j - 1;
        }
        let ghost b3 = self.bytes();
        self.set_slot(index, new_data_heap_offset, record_size as u16);
        let ghost b4 = self.bytes();
        self.set_page_header_u16_value(PAGE_HEADER_ITEM_COUNT_OFFSET, initial_item_count + 1);
        proof {
            let b5 = self.bytes();
            assert forall|i: int| 0 <= i < index as int implies #[trigger] slot_offset(b5, i) == slot_offset(b0, i)
                && slot_length(b5, i) == slot_length(b0, i) by {
                assert(slot_offset(b3, i) == slot_offset(b2, i));
                assert(slot_offset(b2, i) == slot_offset(b0, i));
            }
            assert forall|i: int| index as int + 1 <= i < n0 + 1 implies #[trigger] slot_offset(b5, i) == slot_offset(b0, i - 1)
                && slot_length(b5, i) == slot_length(b0, i - 1) by {
                assert(slot_offset(b3, i) == slot_offset(b2, i - 1));
                assert(slot_offset(b2, i - 1) == slot_offset(b0, i - 1));
            }
            assert(slot_offset(b5, index as int) == slot_offset(b4, index as int));
            lemma_insert_result(b0, b5, index as int, record_data@);
        }
        Ok(index)
    }


    /// Deletes record `index`, shifting the later slots one to the left. The record's bytes
    /// stay in the heap until the page is compacted. An index past the end is ignored.
    pub fn delete_record(&mut self, index: u16)
        requires
            page_wf(old(self).bytes()),
        ensures
            *final(final(self).buffer) == *final(old(self).buffer),
            index >= page_item_count(old(self).bytes()) ==> final(self).bytes() == old(self).bytes(),
            index < page_item_count(old(self).bytes()) ==> page_removed(old(self).bytes(), final(self).bytes(), index as int),
    {
        let item_count = self.get_item_count();
        if index >= item_count {
            return;
        }
        let ghost b0 = self.bytes();
        let ghost n0 = item_count as int;
        let mut j = index;
        while j + 1 < item_count
            invariant
                self.bytes().len() == PAGE_SIZE,
                page_wf(b0),
                n0 == page_item_count(b0),
                item_count as int == n0,
                index <= j < item_count,
                forall|k: int|
                    0 <= k < PAGE_SIZE && !(slot_pos(index as int) <= k < slot_pos(n0)) ==> #[trigger] self.bytes()[k]
                        == b0[k],
                same_slots(b0, self.bytes(), 0, index as int, 0),
                same_slots(b0, self.bytes(), index as int, j as int, -1),
                same_slots(b0, self.bytes(), j as int, n0, 0),
                *final(self.buffer) == *final(old(self).buffer),
            decreases item_count - j,
        {
            let ghost c0 = self.bytes();
            let (record_offset, record_length) = self.get_slot(j + 1);
            self.set_slot(j, record_offset as u16, record_length as u16);
            proof {
                lemma_unshift_slot_step(b0, c0, self.bytes(), index as int, j as int, n0);
            }
            j = j + 1;
        }
        let ghost c = self.bytes();
        self.set_page_header_u16_value(PAGE_HEADER_ITEM_COUNT_OFFSET, item_count - 1);
        proof {
            let b2 = self.bytes();
            assert(slot_pos(n0) <= page_data_start(b0));
            assert forall|i: int| 0 <= i < n0 implies #[trigger] slot_offset(b2, i) == slot_offset(c, i)
                && slot_length(b2, i) == slot_length(c, i) by {
            }
            assert(same_slots(b0, b2, 0, index as int, 0));
            assert(same_slots(b0, b2, index as int, n0 - 1, -1));
            lemma_remove_result(b0, b2, index as int);
        }
    }

    /// Overwrites record `index`. A record that is not longer than the old one is written in
    /// place; a longer one is written at the start of the heap when the contiguous free space
    /// holds it (else `PageFull`). An index past the end gives `InvalidSlotIndex`.
    pub fn try_update_record(&mut self, index: u16, record_data: &[u8]) -> (r: Result<u16, StorageError>)
        requires
            page_wf(old(self).bytes()),
        ensures
            *final(final(self).buffer) == *final(old(self).buffer),
            index >= page_item_count(old(self).bytes()) ==> r == Err::<u16, StorageError>(StorageError::InvalidSlotIndex)
                && final(self).bytes() == old(self).bytes(),
            index < page_item_count(old(self).bytes()) && record_data@.len() > slot_length(old(self).bytes(), index as int)
                && record_data@.len() > page_contiguous_free(old(self).bytes())
                ==> r == Err::<u16, StorageError>(StorageError::PageFull) && final(self).bytes() == old(self).bytes(),
            index < page_item_count(old(self).bytes()) && (record_data@.len() <= slot_length(old(self).bytes(), index as int)
                || record_data@.len() <= page_contiguous_free(old(self).bytes()))
                ==> r == Ok::<u16, StorageError>(index) && page_updated(old(self).bytes(), final(self).bytes(), index as int, record_data@),
    {
        let item_count = self.get_item_count();
        if index >= item_count {
            return Err(StorageError::InvalidSlotIndex);
        }
        let ghost b0 = self.bytes();
        let ghost n0 = item_count as int;
        proof {
            lemma_page_record_len(b0, index as int);
        }
        let (record_offset, orig_record_size) = self.get_slot(index);
        let updated_record_size = record_data.len();
        if updated_record_size <= orig_record_size {
            self.write_bytes(record_offset, record_data);
            if updated_record_size < orig_record_size {
                self.set_slot(index, record_offset as u16, updated_record_size as u16);
            }
            proof {
                let b2 = self.bytes();
                assert(slot_pos(n0) <= page_data_start(b0));
                assert(page_data_start(b0) <= record_offset);
                assert(same_slots(b0, b2, 0, index as int, 0));
                assert(same_slots(b0, b2, index as int + 1, n0, 0));
                lemma_update_result(b0, b2, index as int, record_data@, record_offset as int);
            }
        } else {
            let free_space = self.get_free_space_contiguous();
            if updated_record_size > free_space {
                return Err(StorageError::PageFull);
            }
            let data_heap_offset = self.get_data_start_offset();
            let new_data_heap_offset = data_heap_offset - updated_record_size as u16;
            self.write_bytes(new_data_heap_offset as usize, record_data);
            self.set_slot(index, new_data_heap_offset, updated_record_size as u16);
            self.set_page_header_u16_value(PAGE_HEADER_DATA_HEAP_END_OFFSET_OFFSET, new_data_heap_offset);
            proof {
                let b2 = self.bytes();
                assert(slot_pos(n0) <= page_data_start(b0));
                assert(same_slots(b0, b2, 0, index as int, 0));
                assert(same_slots(b0, b2, index as int + 1, n0, 0));
                lemma_update_result(b0, b2, index as int, record_data@, new_data_heap_offset as int);
            }
        }
        Ok(index)
    }


    /// Rewrites the data heap as one contiguous block against the end of the page, which
    /// removes the holes left by deletes and updates. A page without holes is left as it is.
    pub fn compact(&mut self)
        requires
            page_wf(old(self).bytes()),
        ensures
            *final(final(self).buffer) == *final(old(self).buffer),
            page_wf(final(self).bytes()),
            page_records(final(self).bytes()) == page_records(old(self).bytes()),
            page_item_count(final(self).bytes()) == page_item_count(old(self).bytes()),
            fixed_header_same(old(self).bytes(), final(self).bytes()),
            page_total_free(old(self).bytes()) == page_contiguous_free(old(self).bytes()) ==> final(self).bytes()
                == old(self).bytes(),
            page_data_start(final(self).bytes()) == PAGE_SIZE - total_size(page_records(old(self).bytes())),
            page_contiguous_free(final(self).bytes()) == page_total_free(final(self).bytes()),
            page_total_free(final(self).bytes()) == page_total_free(old(self).bytes()),
    {
        let free_space = self.get_free_space();
        if free_space == self.get_free_space_contiguous() {
            return;
        }
        let ghost b0 = self.bytes();
        let ghost rs0 = page_records(b0);
        let ghost n0 = page_item_count(b0);
        let item_count = self.get_item_count();
        let mut copies: Vec<Vec<u8>> = Vec::new();
        let mut i: u16 = 0;
        while i < item_count
            invariant
                self.bytes() == b0,
                rs0 == page_records(b0),
                page_wf(b0),
                item_count as int == n0,
                n0 == page_item_count(b0),
                0 <= i <= item_count,
                copies@.len() == i,
                forall|k: int| 0 <= k < i ==> (#[trigger] copies@[k])@ == rs0[k],
            decreases item_count - i,
        {
            let record = self.get_record(i);
            match record {
                Some(data) => {
                    copies.push(slice_to_vec(data));
                },
                None => {},
            }
            i = i + 1;
        }
        proof {
            lemma_total_size_nonneg(rs0);
        }
        let mut current_data_heap_offset: usize = PAGE_SIZE;
        let mut i: u16 = 0;
        while i < item_count
            invariant
                self.bytes().len() == PAGE_SIZE,
                rs0 == page_records(b0),
                page_wf(b0),
                item_count as int == n0,
                n0 == page_item_count(b0),
                0 <= i <= item_count,
                copies@.len() == n0,
                forall|k: int| 0 <= k < n0 ==> (#[trigger] copies@[k])@ == rs0[k],
                current_data_heap_offset as int == PAGE_SIZE - total_size(rs0.take(i as int)),
                forall|k: int|
                    0 <= k < PAGE_SIZE && !(slot_pos(0) <= k < slot_pos(i as int))
                        && !(current_data_heap_offset <= k < PAGE_SIZE) ==> #[trigger] self.bytes()[k] == b0[k],
                forall|k: int|
                    0 <= k < i ==> #[trigger] slot_offset(self.bytes(), k) == packed_offset(rs0, k) && slot_length(
                        self.bytes(),
                        k,
                    ) == rs0[k].len(),
                forall|k: int| 0 <= k < i ==> #[trigger] page_record(self.bytes(), k) == rs0[k],
                *final(self.buffer) == *final(old(self).buffer),
            decreases item_count - i,
        {
            let ghost c0 = self.bytes();
            proof {
                lemma_total_size_take(rs0, i as int);
                lemma_total_size_prefix_mono(rs0, i as int + 1, n0);
                lemma_total_size_prefix_bound(rs0, i as int);
                assert(rs0.take(n0) =~= rs0);
            }
            let record = &copies[i as usize];
            assert(record@ == rs0[i as int]);
            let record_size = record.len();
            assert(record_size as int == rs0[i as int].len());
            assert(total_size(rs0.take(i as int + 1)) <= total_size(rs0));
            assert(total_size(rs0) <= PAGE_SIZE);
            current_data_heap_offset = current_data_heap_offset - record_size;
            assert(current_data_heap_offset + record_size <= PAGE_SIZE);
            let record_slice = record.as_slice();
            assert(record_slice@.len() == record_size);
            self.write_bytes(current_data_heap_offset, record_slice);
            let ghost c1 = self.bytes();
            self.set_slot(i, current_data_heap_offset as u16, record_size as u16);
            proof {
                let c2 = self.bytes();
                assert forall|k: int| 0 <= k < i implies #[trigger] page_record(c2, k) == rs0[k] by {
                    lemma_total_size_prefix_mono(rs0, k + 1, i as int);
                    lemma_total_size_take(rs0, k);
                    lemma_total_size_prefix_bound(rs0, k);
                    assert(slot_offset(c2, k) == slot_offset(c0, k));
                    assert(page_record(c2, k) =~= page_record(c0, k));
                }
                assert(page_record(c2, i as int) =~= rs0[i as int]);
                assert forall|k: int| 0 <= k < i + 1 implies #[trigger] slot_offset(c2, k) == packed_offset(rs0, k)
                    && slot_length(c2, k) == rs0[k].len() by {
                    if k < i {
                        assert(slot_offset(c0, k) == packed_offset(rs0, k));
                    }
                }
            }
            i = i + 1;
        }
        proof {
            assert(rs0.take(n0) =~= rs0);
            assert(slot_pos(n0) <= page_data_start(b0));
        }
        let free_space_offset = PAGE_HEADER_SIZE + item_count as usize * SLOT_SIZE;
        let ghost c = self.bytes();
        let mut k: usize = free_space_offset;
        while k < free_space_offset + free_space
            invariant
                self.bytes().len() == PAGE_SIZE,
                c.len() == PAGE_SIZE,
                free_space_offset as int == slot_pos(n0),
                free_space_offset + free_space == current_data_heap_offset,
                current_data_heap_offset <= PAGE_SIZE,
                free_space_offset <= k <= current_data_heap_offset,
                forall|q: int|
                    0 <= q < PAGE_SIZE && !(free_space_offset <= q < k) ==> #[trigger] self.bytes()[q] == c[q],
                *final(self.buffer) == *final(old(self).buffer),
            decreases current_data_heap_offset - k,
        {
            self.buffer[k] = 0;
            k = k + 1;
        }
        let ghost d = self.bytes();
        self.set_page_header_u16_value(
            PAGE_HEADER_DATA_HEAP_END_OFFSET_OFFSET,
            current_data_heap_offset as u16,
        );
        proof {
            let b2 = self.bytes();
            assert forall|q: int| 0 <= q < n0 implies #[trigger] slot_offset(b2, q) == packed_offset(rs0, q)
                && slot_length(b2, q) == rs0[q].len() by {
                assert(slot_offset(c, q) == packed_offset(rs0, q));
            }
            assert forall|q: int| 0 <= q < n0 implies #[trigger] page_record(b2, q) == rs0[q] by {
                assert(slot_offset(c, q) == packed_offset(rs0, q));
                lemma_total_size_prefix_mono(rs0, q + 1, n0);
                lemma_total_size_take(rs0, q);
                lemma_total_size_prefix_bound(rs0, q);
                assert(page_record(c, q) == rs0[q]);
                assert(page_record(b2, q) =~= page_record(c, q));
            }
            lemma_compact_result(b0, b2);
        }
    }

    /// Returns the bytes of record `index`, or `None` when there is no such record.
    pub fn get_record(&self, index: u16) -> (r: Option<&[u8]>)
        requires
            page_wf(self.bytes()),
        ensures
            match r {
                Some(s) => index < page_item_count(self.bytes()) && s@ == page_records(self.bytes())[index as int],
                None => index >= page_item_count(self.bytes()),
            },
    {
        let item_count = self.get_item_count();
        if index >= item_count {
            return None;
        }
        proof {
            lemma_page_record_len(self.bytes(), index as int);
        }
        let (record_offset, record_size) = self.get_slot(index);
        Some(slice_subrange(self.buffer.as_slice(), record_offset, record_offset + record_size))
    }
}

} // verus!
