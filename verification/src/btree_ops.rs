use vstd::prelude::*;

use crate::data_value::ValueModel;
use crate::key::{values_order, Key};
use crate::order::ValueOrder;
use crate::record_format::{bitmap_size, key_read_upto, primary_key_names, KeyReadOutcome};
use crate::record_serializer::RecordSerializer;
use crate::slotted_page_view::{page_item_count, page_records, page_wf, SlottedPageView};
use crate::table_definition::TableDefinition;

verus! {

/// The primary key that the serialized record `r` holds for the table (empty where it cannot
/// be read).
pub open spec fn record_key(t: TableDefinition, r: Seq<u8>) -> Seq<ValueModel> {
    match primary_key_names(t) {
        Some(names) => match key_read_upto(t.columns@, names, r, t.columns@.len() as int) {
            KeyReadOutcome::Done(st) => st.values,
            _ => Seq::empty(),
        },
        None => Seq::empty(),
    }
}

/// The table has a primary key and it can be read from every record of the page.
pub open spec fn keys_readable(t: TableDefinition, b: Seq<u8>) -> bool {
    &&& primary_key_names(t) is Some
    &&& bitmap_size(t.columns@.len() as int) + 16 * t.columns@.len() <= usize::MAX
    &&& forall|i: int|
        0 <= i < page_item_count(b) ==> #[trigger] key_read_upto(
            t.columns@,
            primary_key_names(t)->0,
            page_records(b)[i],
            t.columns@.len() as int,
        ) is Done
}

/// The key of record `i` of the page.
pub open spec fn page_key(t: TableDefinition, b: Seq<u8>, i: int) -> Seq<ValueModel> {
    record_key(t, page_records(b)[i])
}

/// Record `i` holds the key.
pub open spec fn key_found_at(t: TableDefinition, b: Seq<u8>, key: Seq<ValueModel>, i: int) -> bool {
    0 <= i < page_item_count(b) && values_order(key, page_key(t, b, i)) == ValueOrder::Equal
}

/// Position `i` is where the key goes: after a record with a smaller key (if any) and before
/// one with a greater key (if any).
pub open spec fn key_gap_at(t: TableDefinition, b: Seq<u8>, key: Seq<ValueModel>, i: int) -> bool {
    &&& 0 <= i <= page_item_count(b)
    &&& i > 0 ==> values_order(key, page_key(t, b, i - 1)) == ValueOrder::Greater
    &&& i < page_item_count(b) ==> values_order(key, page_key(t, b, i)) == ValueOrder::Less
}

/// Binary search of the records of a leaf page by primary key: `Ok` with the slot of a
/// record holding the key, or `Err` with the slot where the key would be inserted.
pub fn find_key(slotted_page: &SlottedPageView, key: &Key, table_def: &TableDefinition) -> (r: Result<usize, usize>)
    requires
        page_wf(slotted_page.bytes()),
        keys_readable(*table_def, slotted_page.bytes()),
    ensures
        match r {
            Ok(i) => key_found_at(*table_def, slotted_page.bytes(), key@, i as int),
            Err(i) => key_gap_at(*table_def, slotted_page.bytes(), key@, i as int),
        },
{
    let ghost b = slotted_page.bytes();
    let item_count = slotted_page.get_item_count();
    let mut low: u16 = 0;
    let mut high: u16 = item_count;
    while low < high
        invariant
            b == slotted_page.bytes(),
            page_wf(b),
            keys_readable(*table_def, b),
            item_count == page_item_count(b),
            0 <= low <= high <= item_count,
            low > 0 ==> values_order(key@, page_key(*table_def, b, low - 1)) == ValueOrder::Greater,
            high < item_count ==> values_order(key@, page_key(*table_def, b, high as int)) == ValueOrder::Less,
        decreases high - low,
    {
        let mid = low + (high - low) / 2;
        let mid_point_data = slotted_page.get_record(mid).unwrap();
        assert(key_read_upto(
            table_def.columns@,
            primary_key_names(*table_def)->0,
            page_records(b)[mid as int],
            table_def.columns@.len() as int,
        ) is Done);
        let mid_point_key = RecordSerializer::deserialize_primary_key(table_def, mid_point_data).unwrap();
        match key.compare(&mid_point_key) {
            ValueOrder::Equal => {
                return Ok(mid as usize);
            },
            ValueOrder::Greater => {
                low = mid + 1;
            },
            ValueOrder::Less => {
                high = mid;
            },
        }
    }
    Err(low as usize)
}

} // verus!
