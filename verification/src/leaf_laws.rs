use vstd::prelude::*;

use crate::btree_ops::{key_found_at, key_gap_at, keys_readable, page_key, record_key};
use crate::leaf_node_view::{insert_position, lemma_insert_position_from, page_keys};
use crate::data_value::{value_order, ValueModel};
use crate::key::values_order;
use crate::order::ValueOrder;
use crate::order_laws::{
    flipped, is_total_order, key_order, lemma_value_order_laws, lemma_values_order_is_total, lemma_values_order_laws,
};
use crate::record::values_at;
use crate::record_format::{bitmap_size, is_serialized_record, key_read_upto, primary_key_names};
use crate::record_laws::{
    key_positions_readable, lemma_serialized_key_reads_back, normalize_value, record_fits_columns,
};
use crate::slotted_page_view::{page_inserted, page_item_count, page_records, page_updated, page_wf};
use crate::table_definition::{primary_key_positions, TableDefinition};

verus! {

/// The items are in strictly increasing order for `ord`.
pub open spec fn increasing_by<T>(ord: spec_fn(T, T) -> ValueOrder, ks: Seq<T>) -> bool {
    forall|i: int, j: int| #![trigger ord(ks[i], ks[j])] 0 <= i < j < ks.len() ==> ord(ks[i], ks[j]) == ValueOrder::Less
}

/// The keys are in strictly increasing order.
pub open spec fn strictly_increasing(ks: Seq<Seq<ValueModel>>) -> bool {
    increasing_by(key_order(), ks)
}

/// The records of the page are in strictly increasing order of their primary keys.
pub open spec fn keys_sorted(t: TableDefinition, b: Seq<u8>) -> bool {
    strictly_increasing(page_keys(t, b))
}

/// A value compares equal to the value it reads back as.
proof fn lemma_normalize_equal(v: ValueModel)
    ensures
        value_order(normalize_value(v), v) == ValueOrder::Equal,
{
    lemma_value_order_laws(v, v, v);
}

/// Sequences that compare equal value by value compare equal.
proof fn lemma_values_order_pointwise_equal(a: Seq<ValueModel>, b: Seq<ValueModel>)
    requires
        a.len() == b.len(),
        forall|i: int| 0 <= i < a.len() ==> value_order(#[trigger] a[i], b[i]) == ValueOrder::Equal,
    ensures
        values_order(a, b) == ValueOrder::Equal,
    decreases a.len(),
{
    if a.len() > 0 {
        assert(value_order(a[0], b[0]) == ValueOrder::Equal);
        lemma_values_order_pointwise_equal(a.drop_first(), b.drop_first());
    }
}

/// The primary key read back from the serialized bytes of a record compares equal to the
/// record's key values, when the record fits its columns and its key columns are readable.
pub proof fn lemma_serialized_record_key(t: TableDefinition, record: Seq<ValueModel>, d: Seq<u8>)
    requires
        primary_key_positions(t) is Some,
        record_fits_columns(t.columns@, record),
        key_positions_readable(t.columns@, record, primary_key_positions(t)->0),
        is_serialized_record(t.columns@, record, d),
        d.len() <= usize::MAX,
    ensures
        key_read_upto(t.columns@, primary_key_names(t)->0, d, t.columns@.len() as int) is Done,
        values_order(record_key(t, d), values_at(record, primary_key_positions(t)->0)) == ValueOrder::Equal,
{
    let ps = primary_key_positions(t)->0;
    lemma_serialized_key_reads_back(t.columns@, record, d, ps);
    let read = ps.map_values(|p: int| normalize_value(record[p]));
    let key = values_at(record, ps);
    assert forall|i: int| 0 <= i < read.len() implies value_order(#[trigger] read[i], key[i]) == ValueOrder::Equal by {
        lemma_normalize_equal(record[ps[i]]);
    }
    lemma_values_order_pointwise_equal(read, key);
}

/// An item placed after the smaller items and before the greater ones keeps the items
/// strictly increasing, for any total order.
proof fn lemma_insert_increasing<T>(ord: spec_fn(T, T) -> ValueOrder, ks: Seq<T>, slot: int, k: T)
    requires
        is_total_order(ord),
        increasing_by(ord, ks),
        0 <= slot <= ks.len(),
        slot > 0 ==> ord(k, ks[slot - 1]) == ValueOrder::Greater,
        slot < ks.len() ==> ord(k, ks[slot]) == ValueOrder::Less,
    ensures
        increasing_by(ord, ks.insert(slot, k)),
{
    let ks1 = ks.insert(slot, k);
    assert forall|m: int| 0 <= m < ks.len() implies #[trigger] ord(k, ks[m]) == if m < slot {
        ValueOrder::Greater
    } else {
        ValueOrder::Less
    } by {
        if m < slot - 1 {
            assert(ord(ks[m], ks[slot - 1]) == ValueOrder::Less);
            assert(ord(ks[slot - 1], k) == flipped(ord(k, ks[slot - 1])));
            assert(ord(ks[m], k) == ValueOrder::Less);
            assert(ord(k, ks[m]) == flipped(ord(ks[m], k)));
        } else if m > slot {
            assert(ord(ks[slot], ks[m]) == ValueOrder::Less);
        }
    }
    assert forall|i: int, j: int| #![trigger ord(ks1[i], ks1[j])] 0 <= i < j < ks1.len() implies ord(ks1[i], ks1[j])
        == ValueOrder::Less by {
        if i == slot {
            assert(ks1[j] == ks[j - 1]);
            assert(ord(k, ks[j - 1]) == ValueOrder::Less);
        } else if j == slot {
            assert(ks1[i] == ks[i]);
            assert(ord(k, ks[i]) == ValueOrder::Greater);
            assert(ord(ks[i], k) == flipped(ord(k, ks[i])));
        } else {
            let oi = if i < slot { i } else { i - 1 };
            let oj = if j < slot { j } else { j - 1 };
            assert(ks1[i] == ks[oi] && ks1[j] == ks[oj]);
            assert(ord(ks[oi], ks[oj]) == ValueOrder::Less);
        }
    }
}

/// The keys of a page after an insertion of `d` at `slot` are the old keys with the key of
/// `d` at that place, and they stay readable when the key of `d` is.
proof fn lemma_inserted_page_keys(t: TableDefinition, b0: Seq<u8>, b1: Seq<u8>, slot: int, d: Seq<u8>)
    requires
        keys_readable(t, b0),
        key_read_upto(t.columns@, primary_key_names(t)->0, d, t.columns@.len() as int) is Done,
        0 <= slot <= page_item_count(b0),
        page_inserted(b0, b1, slot, d),
    ensures
        keys_readable(t, b1),
        page_keys(t, b1) == page_keys(t, b0).insert(slot, record_key(t, d)),
{
    let rs0 = page_records(b0);
    let rs1 = page_records(b1);
    assert forall|i: int|
        0 <= i < page_item_count(b1) implies #[trigger] key_read_upto(
        t.columns@,
        primary_key_names(t)->0,
        page_records(b1)[i],
        t.columns@.len() as int,
    ) is Done by {
        assert(rs1[i] == rs0.insert(slot, d)[i]);
        if i < slot {
            assert(rs1[i] == rs0[i]);
        } else if i > slot {
            assert(rs1[i] == rs0[i - 1]);
        }
    }
    assert(page_keys(t, b1) =~= page_keys(t, b0).insert(slot, record_key(t, d))) by {
        assert forall|m: int| 0 <= m < page_item_count(b1) implies #[trigger] page_keys(t, b1)[m] == page_keys(
            t,
            b0,
        ).insert(slot, record_key(t, d))[m] by {
            assert(rs1[m] == rs0.insert(slot, d)[m]);
        }
    }
}

/// Inserting at its key's gap the serialized bytes of a record whose key reads back keeps the
/// primary keys of the page readable and in strictly increasing order.
pub proof fn lemma_insert_keeps_keys_sorted(
    t: TableDefinition,
    b0: Seq<u8>,
    b1: Seq<u8>,
    record: Seq<ValueModel>,
    slot: int,
    d: Seq<u8>,
)
    requires
        keys_readable(t, b0),
        keys_sorted(t, b0),
        primary_key_positions(t) is Some,
        record_fits_columns(t.columns@, record),
        key_positions_readable(t.columns@, record, primary_key_positions(t)->0),
        is_serialized_record(t.columns@, record, d),
        d.len() <= usize::MAX,
        key_gap_at(t, b0, values_at(record, primary_key_positions(t)->0), slot),
        page_inserted(b0, b1, slot, d),
    ensures
        keys_readable(t, b1),
        keys_sorted(t, b1),
{
    let ps = primary_key_positions(t)->0;
    let pk = values_at(record, ps);
    let ks = page_keys(t, b0);
    lemma_serialized_record_key(t, record, d);
    let kd = record_key(t, d);
    lemma_inserted_page_keys(t, b0, b1, slot, d);
    if slot > 0 {
        assert(ks[slot - 1] == page_key(t, b0, slot - 1));
        lemma_values_order_laws(kd, pk, ks[slot - 1]);
    }
    if slot < ks.len() {
        assert(ks[slot] == page_key(t, b0, slot));
        lemma_values_order_laws(kd, pk, ks[slot]);
    }
    lemma_values_order_is_total();
    lemma_insert_increasing(key_order(), ks, slot, kd);
}


/// Replacing the record whose key is found with the serialized bytes of a record whose key
/// reads back keeps the primary keys of the page readable and in strictly increasing order.
pub proof fn lemma_update_keeps_keys_sorted(
    t: TableDefinition,
    b0: Seq<u8>,
    b1: Seq<u8>,
    record: Seq<ValueModel>,
    slot: int,
    d: Seq<u8>,
)
    requires
        keys_readable(t, b0),
        keys_sorted(t, b0),
        primary_key_positions(t) is Some,
        record_fits_columns(t.columns@, record),
        key_positions_readable(t.columns@, record, primary_key_positions(t)->0),
        is_serialized_record(t.columns@, record, d),
        d.len() <= usize::MAX,
        key_found_at(t, b0, values_at(record, primary_key_positions(t)->0), slot),
        page_updated(b0, b1, slot, d),
    ensures
        keys_readable(t, b1),
        keys_sorted(t, b1),
{
    let ps = primary_key_positions(t)->0;
    let pk = values_at(record, ps);
    let ks = page_keys(t, b0);
    let rs0 = page_records(b0);
    let rs1 = page_records(b1);
    lemma_serialized_record_key(t, record, d);
    let kd = record_key(t, d);
    assert forall|i: int|
        0 <= i < page_item_count(b1) implies #[trigger] key_read_upto(
        t.columns@,
        primary_key_names(t)->0,
        page_records(b1)[i],
        t.columns@.len() as int,
    ) is Done by {
        assert(rs1[i] == rs0.update(slot, d)[i]);
    }
    assert(page_keys(t, b1) =~= ks.update(slot, kd)) by {
        assert forall|m: int| 0 <= m < page_item_count(b1) implies #[trigger] page_keys(t, b1)[m] == ks.update(
            slot,
            kd,
        )[m] by {
            assert(rs1[m] == rs0.update(slot, d)[m]);
        }
    }
    // The new key equals the old one, so it stands against every other key as the old did.
    assert(ks[slot] == page_key(t, b0, slot));
    lemma_values_order_laws(kd, pk, ks[slot]);
    lemma_values_order_is_total();
    let ord = key_order();
    assert(ord(kd, ks[slot]) == ValueOrder::Equal);
    let ks1 = ks.update(slot, kd);
    assert forall|i: int, j: int| #![trigger ord(ks1[i], ks1[j])] 0 <= i < j < ks1.len() implies ord(ks1[i], ks1[j])
        == ValueOrder::Less by {
        assert(ord(ks[i], ks[j]) == ValueOrder::Less);
        if i == slot {
            assert(ord(ks1[i], ks[i]) == ValueOrder::Equal);
        } else if j == slot {
            assert(ord(ks[j], ks1[j]) == flipped(ord(ks1[j], ks[j])));
        }
    }
}

/// The new key's gap in the page is where a split places the new record.
proof fn lemma_gap_is_insert_position(t: TableDefinition, b0: Seq<u8>, key: Seq<ValueModel>, slot: int)
    requires
        keys_sorted(t, b0),
        key_gap_at(t, b0, key, slot),
    ensures
        insert_position(page_keys(t, b0), key) == slot,
{
    let ks = page_keys(t, b0);
    lemma_values_order_is_total();
    let ord = key_order();
    assert forall|j: int| 0 <= j < slot implies ord(key, #[trigger] ks[j]) != ValueOrder::Less by {
        assert(ks[slot - 1] == page_key(t, b0, slot - 1));
        if j < slot - 1 {
            assert(ord(ks[j], ks[slot - 1]) == ValueOrder::Less);
            assert(ord(ks[slot - 1], key) == flipped(ord(key, ks[slot - 1])));
            assert(ord(ks[j], key) == ValueOrder::Less);
            assert(ord(key, ks[j]) == flipped(ord(ks[j], key)));
        }
    }
    if slot < ks.len() {
        assert(ks[slot] == page_key(t, b0, slot));
    }
    lemma_insert_position_from(ks, key, 0, slot);
}

/// The keys of a page whose records are the given ones, readable when each record's key is.
proof fn lemma_page_keys_of_records(t: TableDefinition, b: Seq<u8>, rs: Seq<Seq<u8>>)
    requires
        page_records(b) == rs,
        page_item_count(b) == rs.len(),
        primary_key_names(t) is Some,
        bitmap_size(t.columns@.len() as int) + 16 * t.columns@.len() <= usize::MAX,
        forall|i: int|
            0 <= i < rs.len() ==> #[trigger] key_read_upto(
                t.columns@,
                primary_key_names(t)->0,
                rs[i],
                t.columns@.len() as int,
            ) is Done,
    ensures
        keys_readable(t, b),
        page_keys(t, b) == rs.map_values(|r: Seq<u8>| record_key(t, r)),
{
    assert(page_keys(t, b) =~= rs.map_values(|r: Seq<u8>| record_key(t, r)));
}

/// A split of a page whose keys are sorted, made for a record whose key is not on the page,
/// leaves both halves sorted and every key of the left half below every key of the right
/// half.
pub proof fn lemma_split_keeps_keys_ordered(
    t: TableDefinition,
    b0: Seq<u8>,
    left: Seq<u8>,
    right: Seq<u8>,
    record: Seq<ValueModel>,
    slot: int,
    d: Seq<u8>,
    split: int,
)
    requires
        keys_readable(t, b0),
        keys_sorted(t, b0),
        primary_key_positions(t) is Some,
        record_fits_columns(t.columns@, record),
        key_positions_readable(t.columns@, record, primary_key_positions(t)->0),
        is_serialized_record(t.columns@, record, d),
        d.len() <= usize::MAX,
        key_gap_at(t, b0, values_at(record, primary_key_positions(t)->0), slot),
        0 <= split <= page_item_count(b0) + 1,
        ({
            let merged = page_records(b0).insert(
                insert_position(page_keys(t, b0), values_at(record, primary_key_positions(t)->0)),
                d,
            );
            &&& page_wf(left) && page_records(left) == merged.take(split)
            &&& page_wf(right) && page_records(right) == merged.skip(split)
        }),
    ensures
        keys_readable(t, left),
        keys_readable(t, right),
        keys_sorted(t, left),
        keys_sorted(t, right),
        forall|i: int, j: int|
            0 <= i < page_item_count(left) && 0 <= j < page_item_count(right) ==> values_order(
                #[trigger] page_key(t, left, i),
                #[trigger] page_key(t, right, j),
            ) == ValueOrder::Less,
{
    let ps = primary_key_positions(t)->0;
    let pk = values_at(record, ps);
    let ks = page_keys(t, b0);
    let rs0 = page_records(b0);
    lemma_gap_is_insert_position(t, b0, pk, slot);
    let merged = rs0.insert(slot, d);
    lemma_serialized_record_key(t, record, d);
    let kd = record_key(t, d);
    let mk = ks.insert(slot, kd);
    assert forall|m: int| 0 <= m < merged.len() implies #[trigger] key_read_upto(
        t.columns@,
        primary_key_names(t)->0,
        merged[m],
        t.columns@.len() as int,
    ) is Done && record_key(t, merged[m]) == mk[m] by {
        if m < slot {
            assert(merged[m] == rs0[m]);
            assert(ks[m] == page_key(t, b0, m));
        } else if m > slot {
            assert(merged[m] == rs0[m - 1]);
            assert(ks[m - 1] == page_key(t, b0, m - 1));
        }
    }
    // The merged keys are strictly increasing.
    if slot > 0 {
        assert(ks[slot - 1] == page_key(t, b0, slot - 1));
        lemma_values_order_laws(kd, pk, ks[slot - 1]);
    }
    if slot < ks.len() {
        assert(ks[slot] == page_key(t, b0, slot));
        lemma_values_order_laws(kd, pk, ks[slot]);
    }
    lemma_values_order_is_total();
    lemma_insert_increasing(key_order(), ks, slot, kd);
    let ord = key_order();
    let lrs = merged.take(split);
    let rrs = merged.skip(split);
    lemma_page_keys_of_records(t, left, lrs);
    lemma_page_keys_of_records(t, right, rrs);
    assert(page_keys(t, left) =~= mk.take(split)) by {
        assert forall|m: int| 0 <= m < split implies #[trigger] page_keys(t, left)[m] == mk[m] by {
            assert(lrs[m] == merged[m]);
        }
    }
    assert(page_keys(t, right) =~= mk.skip(split)) by {
        assert forall|m: int| 0 <= m < rrs.len() implies #[trigger] page_keys(t, right)[m] == mk[split + m] by {
            assert(rrs[m] == merged[split + m]);
        }
    }
    let lk = page_keys(t, left);
    let rk = page_keys(t, right);
    assert forall|i: int, j: int| #![trigger ord(lk[i], lk[j])] 0 <= i < j < lk.len() implies ord(lk[i], lk[j])
        == ValueOrder::Less by {
        assert(ord(mk[i], mk[j]) == ValueOrder::Less);
    }
    assert forall|i: int, j: int| #![trigger ord(rk[i], rk[j])] 0 <= i < j < rk.len() implies ord(rk[i], rk[j])
        == ValueOrder::Less by {
        assert(ord(mk[split + i], mk[split + j]) == ValueOrder::Less);
    }
    assert forall|i: int, j: int|
        0 <= i < page_item_count(left) && 0 <= j < page_item_count(right) implies values_order(
        #[trigger] page_key(t, left, i),
        #[trigger] page_key(t, right, j),
    ) == ValueOrder::Less by {
        assert(lk[i] == page_key(t, left, i));
        assert(rk[j] == page_key(t, right, j));
        assert(ord(mk[i], mk[split + j]) == ValueOrder::Less);
    }
}


/// On a page whose keys are sorted, a key is found at one slot at most, and a key that is
/// found has no gap: a search for it can only find it, at that slot.
pub proof fn lemma_sorted_search(t: TableDefinition, b: Seq<u8>, key: Seq<ValueModel>, i: int)
    requires
        keys_sorted(t, b),
        key_found_at(t, b, key, i),
    ensures
        forall|j: int| #[trigger] key_found_at(t, b, key, j) ==> j == i,
        forall|j: int| !#[trigger] key_gap_at(t, b, key, j),
{
    let ks = page_keys(t, b);
    lemma_values_order_is_total();
    let ord = key_order();
    assert(ks[i] == page_key(t, b, i));
    assert(ord(key, ks[i]) == ValueOrder::Equal);
    assert forall|j: int| #[trigger] key_found_at(t, b, key, j) implies j == i by {
        assert(ks[j] == page_key(t, b, j));
        assert(ord(ks[i], key) == flipped(ord(key, ks[i])));
        assert(ord(ks[i], ks[j]) == ValueOrder::Equal);
        if i < j {
            assert(ord(ks[i], ks[j]) == ValueOrder::Less);
        } else if j < i {
            assert(ord(ks[j], ks[i]) == ValueOrder::Less);
            assert(ord(ks[j], ks[i]) == flipped(ord(ks[i], ks[j])));
        }
    }
    assert forall|j: int| !#[trigger] key_gap_at(t, b, key, j) by {
        if key_gap_at(t, b, key, j) {
            if i < j {
                assert(ks[j - 1] == page_key(t, b, j - 1));
                assert(ord(key, ks[j - 1]) == ValueOrder::Greater);
                if i < j - 1 {
                    assert(ord(ks[i], ks[j - 1]) == ValueOrder::Less);
                }
                assert(ord(ks[j - 1], key) == flipped(ord(key, ks[j - 1])));
            } else {
                assert(ks[j] == page_key(t, b, j));
                assert(ord(key, ks[j]) == ValueOrder::Less);
                if j < i {
                    assert(ord(ks[j], ks[i]) == ValueOrder::Less);
                }
            }
        }
    }
}

/// After a record is inserted at its key's gap, its key is found at the slot where it went,
/// and at no other: a search for it gives that slot.
pub proof fn lemma_inserted_key_is_found(
    t: TableDefinition,
    b0: Seq<u8>,
    b1: Seq<u8>,
    record: Seq<ValueModel>,
    slot: int,
    d: Seq<u8>,
)
    requires
        keys_readable(t, b0),
        keys_sorted(t, b0),
        primary_key_positions(t) is Some,
        record_fits_columns(t.columns@, record),
        key_positions_readable(t.columns@, record, primary_key_positions(t)->0),
        is_serialized_record(t.columns@, record, d),
        d.len() <= usize::MAX,
        key_gap_at(t, b0, values_at(record, primary_key_positions(t)->0), slot),
        page_inserted(b0, b1, slot, d),
    ensures
        key_found_at(t, b1, values_at(record, primary_key_positions(t)->0), slot),
        forall|j: int| #[trigger] key_found_at(t, b1, values_at(record, primary_key_positions(t)->0), j) ==> j == slot,
        forall|j: int| !#[trigger] key_gap_at(t, b1, values_at(record, primary_key_positions(t)->0), j),
{
    let pk = values_at(record, primary_key_positions(t)->0);
    lemma_insert_keeps_keys_sorted(t, b0, b1, record, slot, d);
    lemma_serialized_record_key(t, record, d);
    lemma_inserted_page_keys(t, b0, b1, slot, d);
    let kd = record_key(t, d);
    assert(page_keys(t, b1)[slot] == kd);
    assert(page_key(t, b1, slot) == kd);
    lemma_values_order_laws(kd, pk, pk);
    lemma_sorted_search(t, b1, pk, slot);
}

} // verus!
