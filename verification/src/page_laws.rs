use vstd::prelude::*;

use crate::slot::SLOT_SIZE;
use crate::slotted_page_view::{
    lemma_total_size_insert, lemma_total_size_remove, lemma_total_size_update, page_inserted, page_item_count,
    page_records, page_removed, page_total_free, page_updated, page_wf, slot_pos,
};

verus! {

/// A record inserted at a slot reads back from that slot; the records before it keep their
/// slots, those after it move up one, and the free space shrinks by the record and its slot.
pub proof fn lemma_inserted_record_reads_back(b0: Seq<u8>, b1: Seq<u8>, index: int, d: Seq<u8>)
    requires
        page_wf(b0),
        0 <= index <= page_item_count(b0),
        page_inserted(b0, b1, index, d),
    ensures
        page_item_count(b1) == page_item_count(b0) + 1,
        page_records(b1)[index] == d,
        forall|i: int| 0 <= i < index ==> #[trigger] page_records(b1)[i] == page_records(b0)[i],
        forall|i: int| index < i < page_item_count(b1) ==> #[trigger] page_records(b1)[i] == page_records(b0)[i - 1],
        page_total_free(b1) == page_total_free(b0) - d.len() - SLOT_SIZE,
{
    let rs0 = page_records(b0);
    assert(page_records(b1)[index] == rs0.insert(index, d)[index]);
    assert forall|i: int| 0 <= i < index implies #[trigger] page_records(b1)[i] == rs0[i] by {
        assert(page_records(b1)[i] == rs0.insert(index, d)[i]);
    }
    assert forall|i: int| index < i < page_item_count(b1) implies #[trigger] page_records(b1)[i] == rs0[i - 1] by {
        assert(page_records(b1)[i] == rs0.insert(index, d)[i]);
    }
    lemma_total_size_insert(rs0, index, d);
    assert(slot_pos(page_item_count(b1)) == slot_pos(page_item_count(b0)) + SLOT_SIZE);
}

/// A deleted record is gone: the records before it keep their slots, those after it move
/// down one, and the free space grows by the record and its slot.
pub proof fn lemma_deleted_record_is_gone(b0: Seq<u8>, b1: Seq<u8>, index: int)
    requires
        page_wf(b0),
        0 <= index < page_item_count(b0),
        page_removed(b0, b1, index),
    ensures
        page_item_count(b1) == page_item_count(b0) - 1,
        forall|i: int| 0 <= i < index ==> #[trigger] page_records(b1)[i] == page_records(b0)[i],
        forall|i: int| index <= i < page_item_count(b1) ==> #[trigger] page_records(b1)[i] == page_records(b0)[i + 1],
        page_total_free(b1) == page_total_free(b0) + page_records(b0)[index].len() + SLOT_SIZE,
{
    let rs0 = page_records(b0);
    assert forall|i: int| 0 <= i < index implies #[trigger] page_records(b1)[i] == rs0[i] by {
        assert(page_records(b1)[i] == rs0.remove(index)[i]);
    }
    assert forall|i: int| index <= i < page_item_count(b1) implies #[trigger] page_records(b1)[i] == rs0[i + 1] by {
        assert(page_records(b1)[i] == rs0.remove(index)[i]);
    }
    lemma_total_size_remove(rs0, index);
    assert(slot_pos(page_item_count(b0)) == slot_pos(page_item_count(b1)) + SLOT_SIZE);
}

/// An updated record reads back with its new bytes and every other record is unchanged; the
/// free space changes by the difference in length.
pub proof fn lemma_updated_record_reads_back(b0: Seq<u8>, b1: Seq<u8>, index: int, d: Seq<u8>)
    requires
        page_wf(b0),
        0 <= index < page_item_count(b0),
        page_updated(b0, b1, index, d),
    ensures
        page_records(b1)[index] == d,
        forall|i: int| 0 <= i < page_item_count(b1) && i != index ==> #[trigger] page_records(b1)[i] == page_records(
            b0,
        )[i],
        page_total_free(b1) == page_total_free(b0) + page_records(b0)[index].len() - d.len(),
{
    let rs0 = page_records(b0);
    assert(page_records(b1)[index] == rs0.update(index, d)[index]);
    assert forall|i: int| 0 <= i < page_item_count(b1) && i != index implies #[trigger] page_records(b1)[i] == rs0[i] by {
        assert(page_records(b1)[i] == rs0.update(index, d)[i]);
    }
    lemma_total_size_update(rs0, index, d);
}

} // verus!
