use vstd::prelude::*;

use vstd::slice::slice_to_vec;

use crate::btree_ops::{find_key, key_found_at, key_gap_at, keys_readable, page_key};
use crate::record_format::{key_read_upto, primary_key_names};
use crate::column_definition::ColumnDefinition;
use crate::data_value::ValueModel;
use crate::key::values_order;
use crate::order::ValueOrder;
use crate::byte_codec::le_u32_at;
use crate::key::Key;
use crate::page::{
    page_type_code, PageType, PAGE_HEADER_PAGE_TYPE_OFFSET, PAGE_HEADER_PARENT_INDEX_OFFSET, PAGE_HEADER_SIZE,
    INVALID_PAGE_INDEX, PAGE_HEADER_ITEM_COUNT_OFFSET, PAGE_HEADER_NEXT_SIBLING_LEAF_PAGE_INDEX_OFFSET,
    PAGE_HEADER_PREV_SIBLING_LEAF_PAGE_INDEX_OFFSET,
};
use crate::page_id::{PageId, PAGE_SIZE};
use crate::record::{values_at, Record};
use crate::record_format::{
    bitmap_size, counted_size, first_problem, is_serialized_record, lemma_serialized_size, serialize_panics,
};
use crate::record_serializer::RecordSerializer;
use crate::slot::SLOT_SIZE;
use crate::slotted_page_view::{
    page_contiguous_free, page_data_start, page_inserted, page_item_count, page_record, page_records,
    page_updated, page_wf, slot_length, slot_offset, slot_pos, total_size, SlottedPageView,
    lemma_total_size_prefix_mono, lemma_total_size_take, lemma_total_size_prefix_bound, fixed_header_same,
    lemma_total_size_insert, lemma_total_size_nonneg,
};
use crate::storage_error::StorageError;
use crate::table_definition::{primary_key_positions, TableDefinition};

verus! {

/// The page index stored at `off`, `None` for the invalid index.
pub open spec fn link_value(b: Seq<u8>, off: int) -> Option<u32> {
    let v = le_u32_at(b, off);
    if v == INVALID_PAGE_INDEX {
        None
    } else {
        Some(v as u32)
    }
}

/// The page index of the next leaf, if any.
pub open spec fn next_leaf_index(b: Seq<u8>) -> Option<u32> {
    link_value(b, PAGE_HEADER_NEXT_SIBLING_LEAF_PAGE_INDEX_OFFSET as int)
}

/// The page index of the previous leaf, if any.
pub open spec fn prev_leaf_index(b: Seq<u8>) -> Option<u32> {
    link_value(b, PAGE_HEADER_PREV_SIBLING_LEAF_PAGE_INDEX_OFFSET as int)
}

/// The index stored for an optional page index: the index, or the invalid index.
pub open spec fn link_of(page_index: Option<u32>) -> u32 {
    match page_index {
        Some(i) => i,
        None => INVALID_PAGE_INDEX,
    }
}

/// The two pages differ at most in the header bytes 8 to 19 (the parent and sibling links).
pub open spec fn same_but_links(b1: Seq<u8>, b2: Seq<u8>) -> bool {
    &&& b1.len() == b2.len()
    &&& forall|k: int| 0 <= k < b1.len() && !(8 <= k < 20) ==> #[trigger] b2[k] == b1[k]
}

/// The links in the header are no part of the slotted layout: changing them keeps the page
/// well formed and its records.
pub proof fn lemma_link_edit(b1: Seq<u8>, b2: Seq<u8>)
    requires
        page_wf(b1),
        same_but_links(b1, b2),
    ensures
        page_wf(b2),
        page_records(b2) == page_records(b1),
        page_item_count(b2) == page_item_count(b1),
        page_data_start(b2) == page_data_start(b1),
{
    assert(b2[20] == b1[20] && b2[21] == b1[21] && b2[22] == b1[22] && b2[23] == b1[23]);
    let n = page_item_count(b1);
    assert forall|i: int| 0 <= i < n implies #[trigger] slot_offset(b2, i) == slot_offset(b1, i) && slot_length(b2, i)
        == slot_length(b1, i) by {
        let p = slot_pos(i);
        assert(b2[p] == b1[p] && b2[p + 1] == b1[p + 1] && b2[p + 2] == b1[p + 2] && b2[p + 3] == b1[p + 3]);
    }
    assert forall|i: int| 0 <= i < n implies #[trigger] page_record(b2, i) == page_record(b1, i) by {
        assert(page_record(b2, i) =~= page_record(b1, i));
    }
    assert(page_records(b2) =~= page_records(b1));
}

/// The parent, the sibling links and the type survive a change that keeps the fixed header.
proof fn lemma_header_links_kept(b1: Seq<u8>, b2: Seq<u8>)
    requires
        fixed_header_same(b1, b2),
    ensures
        le_u32_at(b2, PAGE_HEADER_PARENT_INDEX_OFFSET as int) == le_u32_at(b1, PAGE_HEADER_PARENT_INDEX_OFFSET as int),
        le_u32_at(b2, PAGE_HEADER_PREV_SIBLING_LEAF_PAGE_INDEX_OFFSET as int) == le_u32_at(
            b1,
            PAGE_HEADER_PREV_SIBLING_LEAF_PAGE_INDEX_OFFSET as int,
        ),
        le_u32_at(b2, PAGE_HEADER_NEXT_SIBLING_LEAF_PAGE_INDEX_OFFSET as int) == le_u32_at(
            b1,
            PAGE_HEADER_NEXT_SIBLING_LEAF_PAGE_INDEX_OFFSET as int,
        ),
        b2[PAGE_HEADER_PAGE_TYPE_OFFSET as int] == b1[PAGE_HEADER_PAGE_TYPE_OFFSET as int],
{
    assert(b2[8] == b1[8] && b2[9] == b1[9] && b2[10] == b1[10] && b2[11] == b1[11]);
    assert(b2[12] == b1[12] && b2[13] == b1[13] && b2[14] == b1[14] && b2[15] == b1[15]);
    assert(b2[16] == b1[16] && b2[17] == b1[17] && b2[18] == b1[18] && b2[19] == b1[19]);
    assert(b2[24] == b1[24]);
}

/// The space a run of records takes when appended to a page: the records and one slot each.
pub open spec fn run_space(rs: Seq<Seq<u8>>) -> int {
    total_size(rs) + SLOT_SIZE * rs.len()
}

pub proof fn lemma_run_space_prefix(rs: Seq<Seq<u8>>, i: int, j: int)
    requires
        0 <= i <= j <= rs.len(),
    ensures
        run_space(rs.take(i)) <= run_space(rs.take(j)),
{
    lemma_total_size_prefix_mono(rs, i, j);
}

/// The contents of a list of byte vectors.
pub open spec fn byte_views(v: Seq<Vec<u8>>) -> Seq<Seq<u8>> {
    v.map_values(|x: Vec<u8>| x@)
}

/// Inserting into a longer prefix is inserting into the shorter one and pushing the next
/// element.
pub proof fn lemma_insert_take_push<A>(s: Seq<A>, i: int, p: int, x: A)
    requires
        0 <= p <= i < s.len(),
    ensures
        s.take(i + 1).insert(p, x) == s.take(i).insert(p, x).push(s[i]),
{
    let a = s.take(i + 1).insert(p, x);
    let b = s.take(i).insert(p, x).push(s[i]);
    assert(a.len() == b.len());
    assert forall|j: int| 0 <= j < a.len() implies a[j] == b[j] by {
        if j < p {
        } else if j == p {
        } else if j < i + 1 {
        } else {
        }
    }
    assert(a =~= b);
}

/// The split point falls on a record when the records from `i` on add more than `half` to
/// a running total that has not passed it.
pub proof fn lemma_split_point_in_range(rs: Seq<Seq<u8>>, half: int, i: int, acc: int)
    requires
        0 <= i <= rs.len(),
        acc <= half,
        acc + total_size(rs.skip(i)) > half,
    ensures
        i <= split_point(rs, half, i, acc) < rs.len(),
    decreases rs.len() - i,
{
    if i < rs.len() {
        assert(rs.skip(i).drop_first() =~= rs.skip(i + 1));
        if acc + rs[i].len() <= half {
            lemma_split_point_in_range(rs, half, i + 1, acc + rs[i].len());
        }
    } else {
        assert(rs.skip(i).len() == 0);
    }
}

/// From position `i` on, with `acc` the size of the records before `i` and the total past
/// `half`, the split point is the first record at which the running size passes `half`.
proof fn lemma_split_point_passes_half(rs: Seq<Seq<u8>>, half: int, i: int, acc: int)
    requires
        0 <= i <= rs.len(),
        acc == total_size(rs.take(i)),
        acc <= half,
        total_size(rs) > half,
    ensures
        i <= split_point(rs, half, i, acc) < rs.len(),
        total_size(rs.take(split_point(rs, half, i, acc))) <= half,
        total_size(rs.take(split_point(rs, half, i, acc) + 1)) > half,
    decreases rs.len() - i,
{
    if i == rs.len() {
        assert(rs.take(i) =~= rs);
    } else {
        lemma_total_size_take(rs, i);
        if acc + rs[i].len() <= half {
            lemma_split_point_passes_half(rs, half, i + 1, acc + rs[i].len());
        }
    }
}

/// A split divides the records by size. The total it halves is the size of all records,
/// the new one included. The records left of the split point hold at most half of it, and
/// those up to and including the split point more than half, so the new right sibling is
/// never left empty; when the first record holds at most half of the total, this page is not
/// left empty either.
pub proof fn lemma_split_divides_by_size(rs: Seq<Seq<u8>>, p: int, d: Seq<u8>)
    requires
        0 <= p <= rs.len(),
        split_total(rs, d) > 0,
    ensures
        ({
            let merged = rs.insert(p, d);
            let half = split_total(rs, d) / 2;
            let s = split_point(merged, half, 0, 0);
            &&& split_total(rs, d) == total_size(merged)
            &&& 0 <= s < merged.len()
            &&& total_size(merged.take(s)) <= half < total_size(merged.take(s + 1))
            &&& merged[0].len() <= half ==> 1 <= s
        }),
{
    let merged = rs.insert(p, d);
    let half = split_total(rs, d) / 2;
    lemma_total_size_insert(rs, p, d);
    assert(merged.take(0) =~= Seq::<Seq<u8>>::empty());
    lemma_split_point_passes_half(merged, half, 0, 0);
    if merged[0].len() <= half {
        lemma_total_size_take(merged, 0);
        lemma_split_point_passes_half(merged, half, 1, merged[0].len() as int);
    }
}

/// The values of a list of keys.
pub open spec fn key_views(v: Seq<Key>) -> Seq<Seq<ValueModel>> {
    v.map_values(|k: Key| k@)
}

/// The keys of the page's records, in slot order.
pub open spec fn page_keys(t: TableDefinition, b: Seq<u8>) -> Seq<Seq<ValueModel>> {
    Seq::new(page_item_count(b) as nat, |i: int| page_key(t, b, i))
}

/// The first position from `i` on whose key is greater than `key`, or the number of keys.
pub open spec fn insert_position_from(keys: Seq<Seq<ValueModel>>, key: Seq<ValueModel>, i: int) -> int
    decreases keys.len() - i,
{
    if i >= keys.len() {
        keys.len() as int
    } else if values_order(key, keys[i]) == ValueOrder::Less {
        i
    } else {
        insert_position_from(keys, key, i + 1)
    }
}

/// Where a split places the new record among the page's records: before the first record
/// with a greater key, else last.
pub open spec fn insert_position(keys: Seq<Seq<ValueModel>>, key: Seq<ValueModel>) -> int {
    insert_position_from(keys, key, 0)
}

pub proof fn lemma_insert_position_from(keys: Seq<Seq<ValueModel>>, key: Seq<ValueModel>, i: int, p: int)
    requires
        0 <= i <= p <= keys.len(),
        forall|j: int| i <= j < p ==> values_order(key, #[trigger] keys[j]) != ValueOrder::Less,
        p == keys.len() || values_order(key, keys[p]) == ValueOrder::Less,
    ensures
        insert_position_from(keys, key, i) == p,
    decreases p - i,
{
    if i < p {
        lemma_insert_position_from(keys, key, i + 1, p);
    }
}

pub proof fn lemma_insert_position_range(keys: Seq<Seq<ValueModel>>, key: Seq<ValueModel>, i: int)
    requires
        0 <= i <= keys.len(),
    ensures
        i <= insert_position_from(keys, key, i) <= keys.len(),
    decreases keys.len() - i,
{
    if i < keys.len() {
        lemma_insert_position_range(keys, key, i + 1);
    }
}

/// The first index from `i` on at which the running total of record sizes (`acc` before `i`)
/// exceeds `half`, or the number of records.
pub open spec fn split_point(rs: Seq<Seq<u8>>, half: int, i: int, acc: int) -> int
    decreases rs.len() - i,
{
    if i >= rs.len() {
        rs.len() as int
    } else if acc + rs[i].len() > half {
        i
    } else {
        split_point(rs, half, i + 1, acc + rs[i].len())
    }
}

/// The total a split divides in two: the sizes of the page's records and of the new record.
pub open spec fn split_total(rs: Seq<Seq<u8>>, d: Seq<u8>) -> int {
    total_size(rs) + d.len()
}

/// `serialize` writes the record without error or panic: it has a value for each column,
/// each value suits its column, and the bytes fit in memory.
pub open spec fn serializable(cols: Seq<ColumnDefinition>, vals: Seq<ValueModel>) -> bool {
    &&& vals.len() >= cols.len()
    &&& bitmap_size(cols.len() as int) + counted_size(cols, vals, cols.len() as int) <= usize::MAX
    &&& !serialize_panics(cols, vals)
    &&& first_problem(cols, vals, cols.len() as int) == cols.len()
}

/// A leaf node of the B+tree: a slotted page whose records are table rows ordered by primary
/// key, linked to its left and right siblings.
pub struct LeafNodeView<'a> {
    pub page_id: PageId,
    pub page_view: SlottedPageView<'a>,
}

impl<'a> LeafNodeView<'a> {
    /// The bytes of the page.
    pub open spec fn bytes(&self) -> Seq<u8> {
        self.page_view.bytes()
    }

    pub fn new(page_id: PageId, page_view: SlottedPageView<'a>) -> (r: Self)
        ensures
            r.page_id == page_id,
            r.page_view == page_view,
    {
        LeafNodeView { page_id, page_view }
    }

    /// Appends a record after the last slot. The caller knows that its key is the largest on
    /// the page (as when a split or a merge copies ordered records), so no search is made.
    pub fn append(&mut self, record_data: &[u8]) -> (r: Result<u16, StorageError>)
        requires
            page_wf(old(self).bytes()),
        ensures
            final(self).page_id == old(self).page_id,
            *final(final(self).page_view.buffer) == *final(old(self).page_view.buffer),
            page_contiguous_free(old(self).bytes()) < record_data@.len() + SLOT_SIZE ==> r == Err::<u16, StorageError>(
                StorageError::PageFull,
            ) && final(self).bytes() == old(self).bytes(),
            page_contiguous_free(old(self).bytes()) >= record_data@.len() + SLOT_SIZE ==> r == Ok::<u16, StorageError>(
                page_item_count(old(self).bytes()) as u16,
            ) && page_inserted(
                old(self).bytes(),
                final(self).bytes(),
                page_item_count(old(self).bytes()),
                record_data@,
            ),
    {
        let item_count = self.page_view.get_page_header_u16_value(PAGE_HEADER_ITEM_COUNT_OFFSET);
        self.page_view.try_insert_record(item_count, record_data)
    }

    /// The number of records.
    pub fn get_item_count(&self) -> (r: u16)
        ensures
            r == page_item_count(self.bytes()),
    {
        self.page_view.get_page_header_u16_value(PAGE_HEADER_ITEM_COUNT_OFFSET)
    }

    /// The page index of the right sibling, if any.
    pub fn get_next_leaf_index(&self) -> (r: Option<u32>)
        ensures
            r == next_leaf_index(self.bytes()),
    {
        let val = self.page_view.get_page_header_u32_value(PAGE_HEADER_NEXT_SIBLING_LEAF_PAGE_INDEX_OFFSET);
        if val == INVALID_PAGE_INDEX {
            None
        } else {
            Some(val)
        }
    }

    /// The page index of the left sibling, if any.
    pub fn get_prev_leaf_index(&self) -> (r: Option<u32>)
        ensures
            r == prev_leaf_index(self.bytes()),
    {
        let val = self.page_view.get_page_header_u32_value(PAGE_HEADER_PREV_SIBLING_LEAF_PAGE_INDEX_OFFSET);
        if val == INVALID_PAGE_INDEX {
            None
        } else {
            Some(val)
        }
    }

    /// Binary search by primary key: `Ok` with the slot of the record holding the key, or
    /// `Err` with the slot where the key would be inserted.
    pub fn find_key(&self, key: &Key, table_def: &TableDefinition) -> (r: Result<usize, usize>)
        requires
            page_wf(self.bytes()),
            keys_readable(*table_def, self.bytes()),
        ensures
            match r {
                Ok(i) => key_found_at(*table_def, self.bytes(), key@, i as int),
                Err(i) => key_gap_at(*table_def, self.bytes(), key@, i as int),
            },
    {
        find_key(&self.page_view, key, table_def)
    }

    /// Inserts already serialized record bytes at a slot.
    pub fn insert_raw_record(&mut self, slot_index: u16, record_bytes: &[u8]) -> (r: Result<u16, StorageError>)
        requires
            page_wf(old(self).bytes()),
        ensures
            final(self).page_id == old(self).page_id,
            *final(final(self).page_view.buffer) == *final(old(self).page_view.buffer),
            page_contiguous_free(old(self).bytes()) < record_bytes@.len() + SLOT_SIZE ==> r == Err::<u16, StorageError>(
                StorageError::PageFull,
            ) && final(self).bytes() == old(self).bytes(),
            page_contiguous_free(old(self).bytes()) >= record_bytes@.len() + SLOT_SIZE && slot_index > page_item_count(
                old(self).bytes(),
            ) ==> r == Err::<u16, StorageError>(StorageError::InvalidSlotIndex) && final(self).bytes() == old(
                self,
            ).bytes(),
            page_contiguous_free(old(self).bytes()) >= record_bytes@.len() + SLOT_SIZE && slot_index <= page_item_count(
                old(self).bytes(),
            ) ==> r == Ok::<u16, StorageError>(slot_index) && page_inserted(
                old(self).bytes(),
                final(self).bytes(),
                slot_index as int,
                record_bytes@,
            ),
    {
        self.page_view.try_insert_record(slot_index, record_bytes)
    }

    /// Inserts a record at the slot that its primary key's order gives. A record with the
    /// same key gives `DuplicateKey`; a page without room for it gives `PageFull`.
    pub fn insert_record(&mut self, record: &Record, table_def: &TableDefinition) -> (r: Result<u16, StorageError>)
        requires
            page_wf(old(self).bytes()),
            keys_readable(*table_def, old(self).bytes()),
            primary_key_positions(*table_def) is Some,
            forall|i: int|
                0 <= i < primary_key_positions(*table_def)->0.len() ==> #[trigger] primary_key_positions(
                    *table_def,
                )->0[i] < record@.len(),
            (exists|i: int|
                key_gap_at(
                    *table_def,
                    old(self).bytes(),
                    values_at(record@, primary_key_positions(*table_def)->0),
                    i,
                )) ==> serializable(table_def.columns@, record@),
        ensures
            final(self).page_id == old(self).page_id,
            *final(final(self).page_view.buffer) == *final(old(self).page_view.buffer),
            ({
                let b0 = old(self).bytes();
                let b1 = final(self).bytes();
                let pk = values_at(record@, primary_key_positions(*table_def)->0);
                let cols = table_def.columns@;
                match r {
                    Err(StorageError::DuplicateKey) => b1 == b0 && exists|i: int| key_found_at(*table_def, b0, pk, i),
                    Err(StorageError::PageFull) => b1 == b0 && exists|i: int, d: Seq<u8>|
                        key_gap_at(*table_def, b0, pk, i) && is_serialized_record(cols, record@, d)
                            && page_contiguous_free(b0) < d.len() + SLOT_SIZE,
                    Ok(slot) => exists|d: Seq<u8>|
                        key_gap_at(*table_def, b0, pk, slot as int) && is_serialized_record(cols, record@, d)
                            && page_contiguous_free(b0) >= d.len() + SLOT_SIZE && page_inserted(b0, b1, slot as int, d),
                    _ => false,
                }
            }),
    {
        let primary_key = record.get_primary_key(table_def);
        let slot_index = self.find_key(&primary_key, table_def);
        match slot_index {
            Err(insertion_slot) => {
                proof {
                    assert(key_gap_at(*table_def, self.bytes(), primary_key@, insertion_slot as int));
                }
                let record_bytes = RecordSerializer::serialize(table_def.columns.as_slice(), record).unwrap();
                let r = self.page_view.try_insert_record(insertion_slot as u16, record_bytes.as_slice());
                proof {
                    if r is Ok {
                        assert(is_serialized_record(table_def.columns@, record@, record_bytes@));
                    }
                }
                r
            },
            Ok(_) => Err(StorageError::DuplicateKey),
        }
    }

    /// Replaces the record that has the same primary key. No such record gives `KeyNotFound`;
    /// a larger record without room for it gives `PageFull`.
    pub fn update_record(&mut self, record: &Record, table_def: &TableDefinition) -> (r: Result<u16, StorageError>)
        requires
            page_wf(old(self).bytes()),
            keys_readable(*table_def, old(self).bytes()),
            primary_key_positions(*table_def) is Some,
            forall|i: int|
                0 <= i < primary_key_positions(*table_def)->0.len() ==> #[trigger] primary_key_positions(
                    *table_def,
                )->0[i] < record@.len(),
            (exists|i: int|
                key_found_at(
                    *table_def,
                    old(self).bytes(),
                    values_at(record@, primary_key_positions(*table_def)->0),
                    i,
                )) ==> serializable(table_def.columns@, record@),
        ensures
            final(self).page_id == old(self).page_id,
            *final(final(self).page_view.buffer) == *final(old(self).page_view.buffer),
            ({
                let b0 = old(self).bytes();
                let b1 = final(self).bytes();
                let pk = values_at(record@, primary_key_positions(*table_def)->0);
                let cols = table_def.columns@;
                match r {
                    Err(StorageError::KeyNotFound) => b1 == b0 && exists|i: int| key_gap_at(*table_def, b0, pk, i),
                    Err(StorageError::PageFull) => b1 == b0 && exists|i: int, d: Seq<u8>|
                        key_found_at(*table_def, b0, pk, i) && is_serialized_record(cols, record@, d) && d.len()
                            > slot_length(b0, i) && d.len() > page_contiguous_free(b0),
                    Ok(slot) => key_found_at(*table_def, b0, pk, slot as int) && exists|d: Seq<u8>|
                        is_serialized_record(cols, record@, d) && (d.len() <= slot_length(b0, slot as int) || d.len()
                            <= page_contiguous_free(b0)) && page_updated(b0, b1, slot as int, d),
                    _ => false,
                }
            }),
    {
        let key = record.get_primary_key(table_def);
        let slot_result = find_key(&self.page_view, &key, table_def);
        match slot_result {
            Ok(slot_index) => {
                proof {
                    assert(key_found_at(*table_def, self.bytes(), key@, slot_index as int));
                }
                let record_data = RecordSerializer::serialize(table_def.columns.as_slice(), record).unwrap();
                let r = self.page_view.try_update_record(slot_index as u16, record_data.as_slice());
                proof {
                    assert(is_serialized_record(table_def.columns@, record@, record_data@));
                }
                r
            },
            Err(_) => Err(StorageError::KeyNotFound),
        }
    }

    /// Appends the records `from..to` of the list, in order, stopping at the first that does
    /// not fit.
    fn append_records(&mut self, records: &Vec<Vec<u8>>, from: usize, to: usize) -> (r: Result<(), StorageError>)
        requires
            page_wf(old(self).bytes()),
            from <= to <= records@.len(),
        ensures
            final(self).page_id == old(self).page_id,
            *final(final(self).page_view.buffer) == *final(old(self).page_view.buffer),
            ({
                let run = byte_views(records@).subrange(from as int, to as int);
                &&& run_space(run) <= page_contiguous_free(old(self).bytes()) ==> r is Ok && page_wf(
                    final(self).bytes(),
                ) && page_records(final(self).bytes()) == page_records(old(self).bytes()) + run
                    && fixed_header_same(old(self).bytes(), final(self).bytes()) && page_data_start(
                    final(self).bytes(),
                ) == page_data_start(old(self).bytes()) - total_size(run)
                &&& run_space(run) > page_contiguous_free(old(self).bytes()) ==> r == Err::<(), StorageError>(
                    StorageError::PageFull,
                ) && page_wf(final(self).bytes()) && fixed_header_same(old(self).bytes(), final(self).bytes())
                    && exists|m: int|
                    0 <= m < run.len() && page_records(final(self).bytes()) == page_records(old(self).bytes())
                        + #[trigger] run.take(m)
            }),
    {
        let ghost run = byte_views(records@).subrange(from as int, to as int);
        let ghost b0 = self.bytes();
        let mut index = from;
        proof {
            assert(run.take(0) =~= Seq::<Seq<u8>>::empty());
            assert(page_records(b0) + run.take(0) =~= page_records(b0));
        }
        while index < to
            invariant
                from <= index <= to,
                to <= records@.len(),
                run == byte_views(records@).subrange(from as int, to as int),
                b0 == old(self).bytes(),
                page_wf(b0),
                self.page_id == old(self).page_id,
                *final(self.page_view.buffer) == *final(old(self).page_view.buffer),
                page_wf(self.bytes()),
                page_records(self.bytes()) == page_records(b0) + run.take(index - from),
                page_contiguous_free(self.bytes()) == page_contiguous_free(b0) - run_space(run.take(index - from)),
                page_data_start(self.bytes()) == page_data_start(b0) - total_size(run.take(index - from)),
                fixed_header_same(b0, self.bytes()),
            decreases to - index,
        {
            let ghost k = index - from;
            let ghost b1 = self.bytes();
            proof {
                lemma_total_size_take(run, k);
                assert(run.take(k + 1) =~= run.take(k).push(run[k]));
                assert(run[k] == records@[index as int]@);
            }
            match self.append(records[index].as_slice()) {
                Ok(_) => {},
                Err(e) => {
                    proof {
                        lemma_run_space_prefix(run, k + 1, run.len() as int);
                        assert(run.take(run.len() as int) =~= run);
                        assert(page_records(self.bytes()) == page_records(b0) + run.take(k));
                    }
                    return Err(e);
                },
            }
            proof {
                assert(page_records(b1).len() == page_item_count(b1));
                assert(page_records(b1).insert(page_item_count(b1), run[k]) =~= page_records(b1).push(run[k]));
                assert(page_records(self.bytes()) =~= page_records(b0) + run.take(k + 1));
            }
            index = index + 1;
        }
        proof {
            assert(run.take(run.len() as int) =~= run);
        }
        Ok(())
    }

    /// The index at which the running total of record sizes first exceeds half of
    /// `total_size`, or the number of records: where a split divides the records.
    fn find_split_index_by_size(sorted_records: &Vec<Vec<u8>>, total_record_size: usize) -> (r: usize)
        requires
            total_size(byte_views(sorted_records@)) <= usize::MAX,
        ensures
            r == split_point(byte_views(sorted_records@), (total_record_size / 2) as int, 0, 0),
    {
        let ghost rs = byte_views(sorted_records@);
        let half_of_total = total_record_size / 2;
        let mut current_data_size: usize = 0;
        let mut index: usize = 0;
        proof {
            assert(rs.take(0) =~= Seq::<Seq<u8>>::empty());
        }
        while index < sorted_records.len()
            invariant
                rs == byte_views(sorted_records@),
                half_of_total == total_record_size / 2,
                total_size(rs) <= usize::MAX,
                0 <= index <= rs.len(),
                current_data_size == total_size(rs.take(index as int)),
                current_data_size <= half_of_total,
                split_point(rs, half_of_total as int, 0, 0) == split_point(rs, half_of_total as int, index as int, current_data_size as int),
            decreases rs.len() - index,
        {
            proof {
                lemma_total_size_take(rs, index as int);
                lemma_total_size_prefix_bound(rs, index + 1);
                assert(rs[index as int] == sorted_records@[index as int]@);
            }
            let ghost before = current_data_size;
            current_data_size = current_data_size + sorted_records[index].len();
            assert(split_point(rs, half_of_total as int, index as int, before as int) == if before
                + rs[index as int].len() > half_of_total {
                index as int
            } else {
                split_point(rs, half_of_total as int, index + 1, before + rs[index as int].len())
            });
            if current_data_size > half_of_total {
                return index;
            }
            index = index + 1;
        }
        index
    }

    /// The page's records with the new record placed before the first record whose key is
    /// greater than the new key (else last), their keys in the same order, and the size total
    /// that a split divides.
    fn sorted_with_new_record(&self, new_record: &Vec<u8>, new_key: &Key, table_def: &TableDefinition) -> (r: Result<
        (Vec<Key>, Vec<Vec<u8>>, usize),
        StorageError,
    >)
        requires
            page_wf(self.bytes()),
            keys_readable(*table_def, self.bytes()),
            new_record@.len() + PAGE_SIZE <= usize::MAX,
        ensures
            r matches Ok(res) && ({
                let ks = page_keys(*table_def, self.bytes());
                let rs = page_records(self.bytes());
                let p = insert_position(ks, new_key@);
                &&& key_views(res.0@) == ks.insert(p, new_key@)
                &&& byte_views(res.1@) == rs.insert(p, new_record@)
                &&& res.2 == split_total(rs, new_record@)
            }),
    {
        let ghost b = self.bytes();
        let ghost ks = page_keys(*table_def, b);
        let ghost rs = page_records(b);
        let ghost nk = new_key@;
        let ghost d = new_record@;
        let item_count = self.get_item_count();
        let mut sorted_keys: Vec<Key> = Vec::new();
        let mut sorted_records: Vec<Vec<u8>> = Vec::new();
        let mut new_record_inserted = false;
        let ghost mut p: int = 0;
        let mut total_size: usize = 0;
        let mut index: u16 = 0;
        proof {
            assert(ks.take(0) =~= Seq::<Seq<ValueModel>>::empty());
            assert(rs.take(0) =~= Seq::<Seq<u8>>::empty());
            assert(key_views(sorted_keys@) =~= ks.take(0));
            assert(byte_views(sorted_records@) =~= rs.take(0));
            lemma_total_size_prefix_bound(rs, 0);
        }
        while index < item_count
            invariant
                b == self.bytes(),
                page_wf(b),
                keys_readable(*table_def, b),
                ks == page_keys(*table_def, b),
                rs == page_records(b),
                nk == new_key@,
                d == new_record@,
                d.len() + PAGE_SIZE <= usize::MAX,
                item_count == page_item_count(b),
                0 <= index <= item_count,
                new_record_inserted ==> p == insert_position(ks, nk) && 0 <= p < index,
                !new_record_inserted ==> forall|j: int| 0 <= j < index ==> values_order(nk, #[trigger] ks[j]) != ValueOrder::Less,
                key_views(sorted_keys@) == if new_record_inserted {
                    ks.take(index as int).insert(p, nk)
                } else {
                    ks.take(index as int)
                },
                byte_views(sorted_records@) == if new_record_inserted {
                    rs.take(index as int).insert(p, d)
                } else {
                    rs.take(index as int)
                },
                total_size == crate::slotted_page_view::total_size(rs.take(index as int)) + if new_record_inserted {
                    d.len() as int
                } else {
                    0
                },
            decreases item_count - index,
        {
            let record_option = self.page_view.get_record(index);
            let record_bytes = match record_option {
                Some(record_bytes) => record_bytes,
                None => {
                    return Err(StorageError::InvalidSlotIndex);
                },
            };
            proof {
                lemma_total_size_take(rs, index as int);
                lemma_total_size_prefix_bound(rs, index + 1);
                assert(rs.len() == item_count);
            }
            total_size = total_size + record_bytes.len();
            assert(key_read_upto(
                table_def.columns@,
                primary_key_names(*table_def)->0,
                page_records(b)[index as int],
                table_def.columns@.len() as int,
            ) is Done);
            let current_key = RecordSerializer::deserialize_primary_key(table_def, record_bytes).unwrap();
            assert(current_key@ == ks[index as int]);
            let goes_before = match new_key.compare(&current_key) {
                ValueOrder::Less => true,
                _ => false,
            };
            if !new_record_inserted && goes_before {
                proof {
                    lemma_insert_position_from(ks, nk, 0, index as int);
                    p = index as int;
                }
                sorted_keys.push(new_key.clone());
                sorted_records.push(slice_to_vec(new_record.as_slice()));
                new_record_inserted = true;
                total_size = total_size + new_record.len();
            }
            let ghost kv = key_views(sorted_keys@);
            let ghost bv = byte_views(sorted_records@);
            sorted_keys.push(current_key);
            sorted_records.push(slice_to_vec(record_bytes));
            proof {
                assert(key_views(sorted_keys@) =~= kv.push(ks[index as int]));
                assert(byte_views(sorted_records@) =~= bv.push(rs[index as int]));
                assert(ks.len() == item_count as int);
                if new_record_inserted {
                    lemma_insert_take_push(ks, index as int, p, nk);
                    lemma_insert_take_push(rs, index as int, p, d);
                } else {
                    assert(ks.take(index + 1) =~= ks.take(index as int).push(ks[index as int]));
                    assert(rs.take(index + 1) =~= rs.take(index as int).push(rs[index as int]));
                }
            }
            index = index + 1;
        }
        proof {
            assert(ks.take(item_count as int) =~= ks);
            assert(rs.take(item_count as int) =~= rs);
        }
        if !new_record_inserted {
            proof {
                lemma_insert_position_from(ks, nk, 0, item_count as int);
                p = item_count as int;
            }
            let ghost kv = key_views(sorted_keys@);
            let ghost bv = byte_views(sorted_records@);
            sorted_keys.push(new_key.clone());
            sorted_records.push(slice_to_vec(new_record.as_slice()));
            proof {
                lemma_total_size_nonneg(rs);
                lemma_total_size_prefix_bound(rs, item_count as int);
            }
            total_size = total_size + new_record.len();
            proof {
                assert(key_views(sorted_keys@) =~= ks.insert(p, nk));
                assert(byte_views(sorted_records@) =~= rs.insert(p, d));
            }
        }
        Ok((sorted_keys, sorted_records, total_size))
    }

    /// Splits a full leaf while inserting a record: the page's records and the new one, in
    /// key order, are divided by size; the first part stays on this page (reset as an empty
    /// leaf with the same parent), the rest goes to the new right sibling, which must be empty.
    /// The siblings are linked: this page, then the new one, then the old right sibling.
    /// Returns the key of the first record of the new sibling, the separator for the parent.
    pub fn split_and_insert(
        &mut self,
        record: &Record,
        right_sibling: &mut LeafNodeView,
        orig_right_sibling: Option<&mut LeafNodeView>,
        table_def: &TableDefinition,
    ) -> (r: Result<Key, StorageError>)
        requires
            page_wf(old(self).bytes()),
            page_wf(old(right_sibling).bytes()),
            orig_right_sibling matches Some(o) ==> page_wf(o.bytes()),
            page_item_count(old(right_sibling).bytes()) == 0 ==> keys_readable(*table_def, old(self).bytes()),
            page_item_count(old(right_sibling).bytes()) == 0 ==> table_def.columns@.len() >= 1,
            page_item_count(old(right_sibling).bytes()) == 0 ==> primary_key_positions(*table_def) is Some,
            page_item_count(old(right_sibling).bytes()) == 0 ==> forall|i: int|
                0 <= i < primary_key_positions(*table_def)->0.len() ==> #[trigger] primary_key_positions(
                    *table_def,
                )->0[i] < record@.len(),
            page_item_count(old(right_sibling).bytes()) == 0 ==> serializable(table_def.columns@, record@)
                && bitmap_size(table_def.columns@.len() as int) + counted_size(
                table_def.columns@,
                record@,
                table_def.columns@.len() as int,
            ) + PAGE_SIZE <= usize::MAX,
        ensures
            final(self).page_id == old(self).page_id,
            final(right_sibling).page_id == old(right_sibling).page_id,
            *final(final(self).page_view.buffer) == *final(old(self).page_view.buffer),
            *final(final(right_sibling).page_view.buffer) == *final(old(right_sibling).page_view.buffer),
            page_item_count(old(right_sibling).bytes()) != 0 ==> r == Err::<Key, StorageError>(
                StorageError::NewRightSiblingNotEmpty,
            ) && final(self).bytes() == old(self).bytes() && final(right_sibling).bytes() == old(
                right_sibling,
            ).bytes() && (orig_right_sibling matches Some(o) ==> *final(o) == *o),
            page_item_count(old(right_sibling).bytes()) == 0 ==> final(self).bytes()[PAGE_HEADER_PAGE_TYPE_OFFSET as int]
                == page_type_code(PageType::LeafNode) && le_u32_at(
                final(self).bytes(),
                PAGE_HEADER_PARENT_INDEX_OFFSET as int,
            ) == le_u32_at(old(self).bytes(), PAGE_HEADER_PARENT_INDEX_OFFSET as int) && le_u32_at(
                final(self).bytes(),
                PAGE_HEADER_PREV_SIBLING_LEAF_PAGE_INDEX_OFFSET as int,
            ) == le_u32_at(old(self).bytes(), PAGE_HEADER_PREV_SIBLING_LEAF_PAGE_INDEX_OFFSET as int),
            page_item_count(old(right_sibling).bytes()) == 0 ==> exists|d: Seq<u8>|
                is_serialized_record(table_def.columns@, record@, d) && ({
                    let b0 = old(self).bytes();
                    let ks = page_keys(*table_def, b0);
                    let rs = page_records(b0);
                    let nk = values_at(record@, primary_key_positions(*table_def)->0);
                    let p = insert_position(ks, nk);
                    let merged = rs.insert(p, d);
                    let split = split_point(merged, split_total(rs, d) / 2, 0, 0);
                    let left = merged.take(split);
                    let right = merged.skip(split);
                    let fits = run_space(left) <= PAGE_SIZE - PAGE_HEADER_SIZE && run_space(right)
                        <= page_contiguous_free(old(right_sibling).bytes());
                    &&& fits ==> (r matches Ok(mid) && mid@ == ks.insert(p, nk)[split])
                    &&& fits ==> page_wf(final(self).bytes()) && page_records(final(self).bytes()) == left
                    &&& fits ==> page_wf(final(right_sibling).bytes()) && page_records(final(right_sibling).bytes())
                        == right
                    &&& fits ==> le_u32_at(final(self).bytes(), PAGE_HEADER_NEXT_SIBLING_LEAF_PAGE_INDEX_OFFSET as int)
                        == old(right_sibling).page_id.page_index
                    &&& fits ==> le_u32_at(
                        final(right_sibling).bytes(),
                        PAGE_HEADER_NEXT_SIBLING_LEAF_PAGE_INDEX_OFFSET as int,
                    ) == le_u32_at(b0, PAGE_HEADER_NEXT_SIBLING_LEAF_PAGE_INDEX_OFFSET as int)
                    &&& fits ==> le_u32_at(
                        final(right_sibling).bytes(),
                        PAGE_HEADER_PREV_SIBLING_LEAF_PAGE_INDEX_OFFSET as int,
                    ) == old(self).page_id.page_index
                    &&& fits ==> (orig_right_sibling matches Some(o) ==> page_wf(final(o).bytes()) && page_records(
                        final(o).bytes(),
                    ) == page_records(o.bytes()) && le_u32_at(
                        final(o).bytes(),
                        PAGE_HEADER_PREV_SIBLING_LEAF_PAGE_INDEX_OFFSET as int,
                    ) == old(right_sibling).page_id.page_index)
                    &&& !fits ==> r == Err::<Key, StorageError>(StorageError::PageFull)
                    &&& !fits ==> le_u32_at(final(self).bytes(), PAGE_HEADER_NEXT_SIBLING_LEAF_PAGE_INDEX_OFFSET as int)
                        == 0
                    &&& !fits ==> page_wf(final(self).bytes()) && page_wf(final(right_sibling).bytes())
                    &&& !fits ==> (orig_right_sibling matches Some(o) ==> *final(o) == *o)
                    &&& !fits ==> ((exists|k: int|
                        0 <= k < left.len() && page_records(final(self).bytes()) == #[trigger] left.take(k))
                        && final(right_sibling).bytes() == old(right_sibling).bytes()) || (page_records(
                        final(self).bytes(),
                    ) == left && exists|k: int|
                        0 <= k < right.len() && page_records(final(right_sibling).bytes()) == #[trigger] right.take(k))
                }),
    {
        if right_sibling.get_item_count() != 0 {
            return Err(StorageError::NewRightSiblingNotEmpty);
        }
        let ghost b0 = self.bytes();
        let ghost cols = table_def.columns@;
        let item_count = self.get_item_count();
        let serialized_new_record = RecordSerializer::serialize(table_def.columns.as_slice(), record).unwrap();
        let ghost d = serialized_new_record@;
        proof {
            lemma_serialized_size(cols, record@, cols.len() as int);
        }
        let new_record_key = record.get_primary_key(table_def);
        let sorted = self.sorted_with_new_record(&serialized_new_record, &new_record_key, table_def);
        let (sorted_keys, sorted_records, total_size) = match sorted {
            Ok(x) => x,
            Err(e) => {
                return Err(e);
            },
        };
        let ghost ks = page_keys(*table_def, b0);
        let ghost rs = page_records(b0);
        let ghost p = insert_position(ks, new_record_key@);
        let ghost merged = rs.insert(p, d);
        proof {
            lemma_insert_position_range(ks, new_record_key@, 0);
            assert(ks.len() == rs.len());
            assert(is_serialized_record(cols, record@, d));
            assert(d.len() >= 1);
            lemma_total_size_insert(rs, p, d);
            lemma_total_size_nonneg(rs);
            assert(byte_views(sorted_records@) == merged);
            assert(crate::slotted_page_view::total_size(merged) >= total_size);
            assert(merged.skip(0) =~= merged);
            lemma_split_point_in_range(merged, (total_size / 2) as int, 0, 0);
        }
        let split_index = LeafNodeView::find_split_index_by_size(&sorted_records, total_size);
        proof {
            assert(key_views(sorted_keys@) == ks.insert(p, new_record_key@));
            assert(key_views(sorted_keys@).len() == sorted_keys@.len());
            assert(ks.insert(p, new_record_key@).len() == ks.len() + 1);
            assert(sorted_keys@.len() == merged.len());
        }
        let mid_point_key = sorted_keys[split_index].clone();
        let raw_parent_index = self.page_view.get_page_header_u32_value(PAGE_HEADER_PARENT_INDEX_OFFSET);
        let parent_index = if raw_parent_index == INVALID_PAGE_INDEX {
            None
        } else {
            Some(raw_parent_index)
        };
        let orig_prev_page_index = self.get_prev_leaf_index();
        let orig_next_page_index = self.get_next_leaf_index();
        let final_count: usize = item_count as usize + 1;
        proof {
            assert(sorted_records@.len() == final_count);
        }
        match self.write_split(
            right_sibling,
            orig_right_sibling,
            &sorted_records,
            split_index,
            parent_index,
            orig_prev_page_index,
            orig_next_page_index,
        ) {
            Ok(_) => {},
            Err(err) => {
                return Err(err);
            },
        }
        Ok(mid_point_key)
    }

    /// Writes the two halves of a split: this page is reset as an empty leaf with the given
    /// parent and left sibling and receives the records before `split_index`; the empty right
    /// sibling receives the rest; then the sibling links are set.
    fn write_split(
        &mut self,
        right_sibling: &mut LeafNodeView,
        orig_right_sibling: Option<&mut LeafNodeView>,
        records: &Vec<Vec<u8>>,
        split_index: usize,
        parent_index: Option<u32>,
        orig_prev_page_index: Option<u32>,
        orig_next_page_index: Option<u32>,
    ) -> (r: Result<(), StorageError>)
        requires
            page_wf(old(right_sibling).bytes()),
            page_item_count(old(right_sibling).bytes()) == 0,
            orig_right_sibling matches Some(o) ==> page_wf(o.bytes()),
            split_index <= records@.len(),
        ensures
            final(self).page_id == old(self).page_id,
            final(right_sibling).page_id == old(right_sibling).page_id,
            *final(final(self).page_view.buffer) == *final(old(self).page_view.buffer),
            *final(final(right_sibling).page_view.buffer) == *final(old(right_sibling).page_view.buffer),
            ({
                let m = byte_views(records@);
                let left = m.take(split_index as int);
                let right = m.skip(split_index as int);
                let fits = run_space(left) <= PAGE_SIZE - PAGE_HEADER_SIZE && run_space(right)
                    <= page_contiguous_free(old(right_sibling).bytes());
                &&& fits ==> r is Ok
                &&& fits ==> page_wf(final(self).bytes()) && page_records(final(self).bytes()) == left
                &&& fits ==> page_wf(final(right_sibling).bytes()) && page_records(final(right_sibling).bytes()) == right
                &&& le_u32_at(final(self).bytes(), PAGE_HEADER_PARENT_INDEX_OFFSET as int) == link_of(parent_index)
                &&& le_u32_at(final(self).bytes(), PAGE_HEADER_PREV_SIBLING_LEAF_PAGE_INDEX_OFFSET as int) == link_of(
                    orig_prev_page_index,
                )
                &&& final(self).bytes()[PAGE_HEADER_PAGE_TYPE_OFFSET as int] == page_type_code(PageType::LeafNode)
                &&& !fits ==> le_u32_at(final(self).bytes(), PAGE_HEADER_NEXT_SIBLING_LEAF_PAGE_INDEX_OFFSET as int)
                    == 0
                &&& fits ==> le_u32_at(final(self).bytes(), PAGE_HEADER_NEXT_SIBLING_LEAF_PAGE_INDEX_OFFSET as int)
                    == old(right_sibling).page_id.page_index
                &&& fits ==> le_u32_at(final(right_sibling).bytes(), PAGE_HEADER_NEXT_SIBLING_LEAF_PAGE_INDEX_OFFSET as int)
                    == link_of(orig_next_page_index)
                &&& fits ==> le_u32_at(final(right_sibling).bytes(), PAGE_HEADER_PREV_SIBLING_LEAF_PAGE_INDEX_OFFSET as int)
                    == old(self).page_id.page_index
                &&& fits ==> (orig_right_sibling matches Some(o) ==> page_wf(final(o).bytes()) && page_records(
                    final(o).bytes(),
                ) == page_records(o.bytes()) && le_u32_at(final(o).bytes(), PAGE_HEADER_PREV_SIBLING_LEAF_PAGE_INDEX_OFFSET as int)
                    == old(right_sibling).page_id.page_index)
                &&& !fits ==> r == Err::<(), StorageError>(StorageError::PageFull)
                &&& !fits ==> page_wf(final(self).bytes()) && page_wf(final(right_sibling).bytes())
                &&& !fits ==> (orig_right_sibling matches Some(o) ==> *final(o) == *o)
                &&& !fits ==> ((exists|k: int|
                    0 <= k < left.len() && page_records(final(self).bytes()) == #[trigger] left.take(k))
                    && final(right_sibling).bytes() == old(right_sibling).bytes()) || (page_records(
                    final(self).bytes(),
                ) == left && exists|k: int|
                    0 <= k < right.len() && page_records(final(right_sibling).bytes()) == #[trigger] right.take(k))
            }),
    {
        let ghost m = byte_views(records@);
        self.page_view.initialize(PageType::LeafNode, parent_index);
        let ghost b0i = self.bytes();
        proof {
            assert(page_records(self.bytes()) =~= Seq::<Seq<u8>>::empty());
        }
        self.set_prev_leaf_index(orig_prev_page_index);
        proof {
            let bp = self.bytes();
            assert(bp[8] == b0i[8] && bp[9] == b0i[9] && bp[10] == b0i[10] && bp[11] == b0i[11]);
            assert(bp[16] == b0i[16] && bp[17] == b0i[17] && bp[18] == b0i[18] && bp[19] == b0i[19]);
            assert(bp[PAGE_HEADER_PAGE_TYPE_OFFSET as int] == b0i[PAGE_HEADER_PAGE_TYPE_OFFSET as int]);
            assert(page_records(self.bytes()) =~= Seq::<Seq<u8>>::empty());
            assert(m.subrange(0, split_index as int) =~= m.take(split_index as int));
            assert(m.subrange(split_index as int, records@.len() as int) =~= m.skip(split_index as int));
            assert(page_records(old(right_sibling).bytes()) =~= Seq::<Seq<u8>>::empty());
        }
        let ghost b1 = self.bytes();
        match self.append_records(records, 0, split_index) {
            Ok(_) => {},
            Err(err) => {
                proof {
                    lemma_header_links_kept(b1, self.bytes());
                    let k = choose|k: int|
                        0 <= k < m.take(split_index as int).len() && page_records(self.bytes()) == page_records(b1)
                            + #[trigger] m.subrange(0, split_index as int).take(k);
                    assert(m.subrange(0, split_index as int).take(k) =~= m.take(split_index as int).take(k));
                    assert(page_records(self.bytes()) =~= m.take(split_index as int).take(k));
                }
                return Err(err);
            },
        }
        let ghost b2 = self.bytes();
        proof {
            assert(page_records(b2) =~= m.take(split_index as int));
            lemma_header_links_kept(b1, b2);
        }
        match right_sibling.append_records(records, split_index, records.len()) {
            Ok(_) => {},
            Err(err) => {
                proof {
                    let k = choose|k: int|
                        0 <= k < m.skip(split_index as int).len() && page_records(right_sibling.bytes()) == page_records(
                            old(right_sibling).bytes(),
                        ) + #[trigger] m.subrange(split_index as int, records@.len() as int).take(k);
                    assert(m.subrange(split_index as int, records@.len() as int).take(k) =~= m.skip(
                        split_index as int,
                    ).take(k));
                    assert(page_records(right_sibling.bytes()) =~= m.skip(split_index as int).take(k));
                    lemma_header_links_kept(b1, b2);
                }
                return Err(err);
            },
        }
        proof {
            assert(page_records(right_sibling.bytes()) =~= m.skip(split_index as int));
        }
        self.set_next_leaf_index(Some(right_sibling.page_id.page_index));
        let ghost b3 = self.bytes();
        proof {
            assert(b3[PAGE_HEADER_PAGE_TYPE_OFFSET as int] == b2[PAGE_HEADER_PAGE_TYPE_OFFSET as int]);
            assert(b3[8] == b2[8] && b3[9] == b2[9] && b3[10] == b2[10] && b3[11] == b2[11]);
            assert(b3[12] == b2[12] && b3[13] == b2[13] && b3[14] == b2[14] && b3[15] == b2[15]);
        }
        right_sibling.set_next_leaf_index(orig_next_page_index);
        let ghost r1 = right_sibling.bytes();
        right_sibling.set_prev_leaf_index(Some(self.page_id.page_index));
        proof {
            assert(le_u32_at(right_sibling.bytes(), PAGE_HEADER_NEXT_SIBLING_LEAF_PAGE_INDEX_OFFSET as int) == le_u32_at(
                r1,
                PAGE_HEADER_NEXT_SIBLING_LEAF_PAGE_INDEX_OFFSET as int,
            ));
        }
        if let Some(orig_right) = orig_right_sibling {
            orig_right.set_prev_leaf_index(Some(right_sibling.page_id.page_index));
        }
        Ok(())
    }

    /// Sets the page index of the right sibling (`None` for no sibling).
    pub fn set_next_leaf_index(&mut self, page_index: Option<u32>)
        requires
            page_wf(old(self).bytes()),
        ensures
            final(self).page_id == old(self).page_id,
            *final(final(self).page_view.buffer) == *final(old(self).page_view.buffer),
            same_but_links(old(self).bytes(), final(self).bytes()),
            page_wf(final(self).bytes()),
            page_records(final(self).bytes()) == page_records(old(self).bytes()),
            page_data_start(final(self).bytes()) == page_data_start(old(self).bytes()),
            le_u32_at(final(self).bytes(), PAGE_HEADER_NEXT_SIBLING_LEAF_PAGE_INDEX_OFFSET as int) == link_of(page_index),
            le_u32_at(final(self).bytes(), PAGE_HEADER_PARENT_INDEX_OFFSET as int) == le_u32_at(
                old(self).bytes(),
                PAGE_HEADER_PARENT_INDEX_OFFSET as int,
            ),
            le_u32_at(final(self).bytes(), PAGE_HEADER_PREV_SIBLING_LEAF_PAGE_INDEX_OFFSET as int) == le_u32_at(
                old(self).bytes(),
                PAGE_HEADER_PREV_SIBLING_LEAF_PAGE_INDEX_OFFSET as int,
            ),
            page_item_count(final(self).bytes()) == page_item_count(old(self).bytes()),
            next_leaf_index(final(self).bytes()) == (if link_of(page_index) == INVALID_PAGE_INDEX {
                None
            } else {
                page_index
            }),
            forall|k: int|
                0 <= k < PAGE_SIZE && !(16 <= k < 20) ==> #[trigger] final(self).bytes()[k] == old(self).bytes()[k],
    {
        let index = if let Some(i) = page_index {
            i
        } else {
            INVALID_PAGE_INDEX
        };
        self.page_view.set_page_header_u32_value(PAGE_HEADER_NEXT_SIBLING_LEAF_PAGE_INDEX_OFFSET, index);
        proof {
            lemma_link_edit(old(self).bytes(), self.bytes());
        }
    }

    /// Sets the page index of the left sibling (`None` for no sibling).
    pub fn set_prev_leaf_index(&mut self, page_index: Option<u32>)
        requires
            page_wf(old(self).bytes()),
        ensures
            final(self).page_id == old(self).page_id,
            *final(final(self).page_view.buffer) == *final(old(self).page_view.buffer),
            same_but_links(old(self).bytes(), final(self).bytes()),
            page_wf(final(self).bytes()),
            page_records(final(self).bytes()) == page_records(old(self).bytes()),
            page_data_start(final(self).bytes()) == page_data_start(old(self).bytes()),
            le_u32_at(final(self).bytes(), PAGE_HEADER_PREV_SIBLING_LEAF_PAGE_INDEX_OFFSET as int) == link_of(page_index),
            le_u32_at(final(self).bytes(), PAGE_HEADER_PARENT_INDEX_OFFSET as int) == le_u32_at(
                old(self).bytes(),
                PAGE_HEADER_PARENT_INDEX_OFFSET as int,
            ),
            le_u32_at(final(self).bytes(), PAGE_HEADER_NEXT_SIBLING_LEAF_PAGE_INDEX_OFFSET as int) == le_u32_at(
                old(self).bytes(),
                PAGE_HEADER_NEXT_SIBLING_LEAF_PAGE_INDEX_OFFSET as int,
            ),
            page_item_count(final(self).bytes()) == page_item_count(old(self).bytes()),
            prev_leaf_index(final(self).bytes()) == (if link_of(page_index) == INVALID_PAGE_INDEX {
                None
            } else {
                page_index
            }),
            forall|k: int|
                0 <= k < PAGE_SIZE && !(12 <= k < 16) ==> #[trigger] final(self).bytes()[k] == old(self).bytes()[k],
    {
        let index = if let Some(i) = page_index {
            i
        } else {
            INVALID_PAGE_INDEX
        };
        self.page_view.set_page_header_u32_value(PAGE_HEADER_PREV_SIBLING_LEAF_PAGE_INDEX_OFFSET, index);
        proof {
            lemma_link_edit(old(self).bytes(), self.bytes());
        }
    }
}

} // verus!
