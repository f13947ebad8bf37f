use vstd::prelude::*;
use vstd::utf8::{encode_utf8, encode_utf8_decode_utf8, encode_utf8_valid_utf8};

use crate::byte_codec::{le_u32_at, le_u32_bytes, le_u64_at, le_u64_bytes, lemma_le_u32_roundtrip, lemma_le_u64_roundtrip};
use crate::column_definition::{spec_is_fixed_type, ColumnDefinition};
use crate::data_value::ValueModel;
use crate::decimal::{bytes_scale, decimal_bytes, normal_negative, normalized, parts_of_bytes, DecimalParts, MAX_SCALE};
use crate::primitive_data_type::{spec_fixed_size, PrimitiveDataType};
use crate::record_format::{
    bitmap_size, decode_fixed, first_name_index, first_problem, fixed_bytes, fixed_data_length, fixed_size_of,
    fixed_upto, is_fixed_column, is_null_bitmap, is_payload_column, is_serialized_record, key_read_step, key_read_upto,
    lemma_first_name_index, length_prefix, names_at, null_bit, payload, read_step, read_upto, read_value, ser_problem,
    serialize_panics, unknown_present, var_bytes, var_upto, zeros, KeyReadOutcome, KeyReadState, ReadOutcome, ReadState,
};

verus! {

/// A value that its column reads back as it was written: null in a nullable column, or a
/// value of the column's own kind, with text and blobs shorter than 2^31 bytes and a decimal
/// of at most 28 digits after the point.
pub open spec fn value_fits_column(c: ColumnDefinition, v: ValueModel) -> bool {
    match v {
        ValueModel::Null => c.is_nullable,
        ValueModel::Int(_) => c.data_type is Int,
        ValueModel::BigInt(_) => c.data_type is BigInt,
        ValueModel::DateTime(_) => c.data_type is DateTime,
        ValueModel::Boolean(_) => c.data_type is Boolean,
        ValueModel::Float(_) => c.data_type is Float,
        ValueModel::Decimal(d) => c.data_type is Decimal && d.scale <= MAX_SCALE,
        ValueModel::Text(s) => c.data_type is Varchar && encode_utf8(s).len() < 0x8000_0000,
        ValueModel::Blob(b) => c.data_type is Blob && b.len() < 0x8000_0000,
    }
}

/// The record has one value per column and each fits its column.
pub open spec fn record_fits_columns(cols: Seq<ColumnDefinition>, vals: Seq<ValueModel>) -> bool {
    &&& vals.len() == cols.len()
    &&& forall|i: int| 0 <= i < cols.len() ==> value_fits_column(#[trigger] cols[i], vals[i])
}

/// The value as it reads back: a decimal loses the sign of a zero magnitude.
pub open spec fn normalize_value(v: ValueModel) -> ValueModel {
    match v {
        ValueModel::Decimal(d) => ValueModel::Decimal(normalized(d)),
        _ => v,
    }
}

/// A record whose values fit their columns is written without error.
pub proof fn lemma_fitting_record_serializes(cols: Seq<ColumnDefinition>, vals: Seq<ValueModel>)
    requires
        record_fits_columns(cols, vals),
    ensures
        first_problem(cols, vals, cols.len() as int) == cols.len(),
        !serialize_panics(cols, vals),
{
    lemma_no_problem_upto(cols, vals, cols.len() as int);
}

proof fn lemma_no_problem_upto(cols: Seq<ColumnDefinition>, vals: Seq<ValueModel>, k: int)
    requires
        record_fits_columns(cols, vals),
        0 <= k <= cols.len(),
    ensures
        first_problem(cols, vals, k) == k,
    decreases k,
{
    if k > 0 {
        lemma_no_problem_upto(cols, vals, k - 1);
        assert(value_fits_column(cols[k - 1], vals[k - 1]));
        assert(!ser_problem(cols[k - 1], vals[k - 1]));
    }
}

proof fn lemma_fixed_upto_prefix(cols: Seq<ColumnDefinition>, vals: Seq<ValueModel>, k: int, m: int)
    requires
        0 <= k <= m,
    ensures
        fixed_upto(cols, vals, k).len() <= fixed_upto(cols, vals, m).len(),
        fixed_upto(cols, vals, m).subrange(0, fixed_upto(cols, vals, k).len() as int) == fixed_upto(cols, vals, k),
    decreases m - k,
{
    if m > k {
        lemma_fixed_upto_prefix(cols, vals, k, m - 1);
        let a = fixed_upto(cols, vals, k);
        let b = fixed_upto(cols, vals, m - 1);
        assert(fixed_upto(cols, vals, m).subrange(0, a.len() as int) =~= b.subrange(0, a.len() as int));
    } else {
        assert(fixed_upto(cols, vals, k).subrange(0, fixed_upto(cols, vals, k).len() as int) =~= fixed_upto(
            cols,
            vals,
            k,
        ));
    }
}

proof fn lemma_var_upto_prefix(cols: Seq<ColumnDefinition>, vals: Seq<ValueModel>, k: int, m: int)
    requires
        0 <= k <= m,
    ensures
        var_upto(cols, vals, k).len() <= var_upto(cols, vals, m).len(),
        var_upto(cols, vals, m).subrange(0, var_upto(cols, vals, k).len() as int) == var_upto(cols, vals, k),
    decreases m - k,
{
    if m > k {
        lemma_var_upto_prefix(cols, vals, k, m - 1);
        let a = var_upto(cols, vals, k);
        let b = var_upto(cols, vals, m - 1);
        assert(var_upto(cols, vals, m).subrange(0, a.len() as int) =~= b.subrange(0, a.len() as int));
    } else {
        assert(var_upto(cols, vals, k).subrange(0, var_upto(cols, vals, k).len() as int) =~= var_upto(
            cols,
            vals,
            k,
        ));
    }
}

proof fn lemma_u32_bytes_read(v: int)
    requires
        0 <= v < 0x1_0000_0000,
    ensures
        le_u32_bytes(v).len() == 4,
        le_u32_at(le_u32_bytes(v), 0) == v,
{
    let b = le_u32_bytes(v);
    assert(b.subrange(0, 4) =~= b);
    lemma_le_u32_roundtrip(v, b, 0);
}

proof fn lemma_u64_bytes_read(v: int)
    requires
        0 <= v < 0x1_0000_0000_0000_0000,
    ensures
        le_u64_bytes(v).len() == 8,
        le_u64_at(le_u64_bytes(v), 0) == v,
{
    let b = le_u64_bytes(v);
    assert(b.subrange(0, 8) =~= b);
    lemma_le_u64_roundtrip(v, b, 0);
}

proof fn lemma_i32_cast(x: i32)
    ensures
        (x as u32) as i32 == x,
{
    assert((x as u32) as i32 == x) by (bit_vector);
}

proof fn lemma_i64_cast(x: i64)
    ensures
        (x as u64) as i64 == x,
{
    assert((x as u64) as i64 == x) by (bit_vector);
}

/// The fixed-size bytes of a value that fits its column take the column's size and decode to
/// the value.
/// Reading back the sixteen bytes of a decimal gives the decimal, the sign of a zero
/// magnitude cleared: `Decimal::from_bytes` undoes `Decimal::to_bytes`.
pub proof fn lemma_decimal_bytes_roundtrip(d: DecimalParts)
    requires
        d.scale <= MAX_SCALE,
    ensures
        decimal_bytes(d).len() == 16,
        bytes_scale(decimal_bytes(d)) <= MAX_SCALE,
        parts_of_bytes(decimal_bytes(d)) == normalized(d),
{
    let b = decimal_bytes(d);
    let lo = le_u32_bytes(d.lo as int);
    let mid = le_u32_bytes(d.mid as int);
    let hi = le_u32_bytes(d.hi as int);
    lemma_u32_bytes_read(d.lo as int);
    lemma_u32_bytes_read(d.mid as int);
    lemma_u32_bytes_read(d.hi as int);
    assert(b.len() == 16);
    assert(b.subrange(4, 8) =~= lo);
    assert(b.subrange(8, 12) =~= mid);
    assert(b.subrange(12, 16) =~= hi);
    lemma_le_u32_roundtrip(d.lo as int, b, 4);
    lemma_le_u32_roundtrip(d.mid as int, b, 8);
    lemma_le_u32_roundtrip(d.hi as int, b, 12);
    assert(parts_of_bytes(b) == normalized(d));
}

proof fn lemma_fixed_bytes_roundtrip(c: ColumnDefinition, v: ValueModel)
    requires
        value_fits_column(c, v),
        !(v is Null),
        is_fixed_column(c),
    ensures
        fixed_bytes(v, fixed_size_of(c)).len() == fixed_size_of(c),
        decode_fixed(c.data_type, fixed_bytes(v, fixed_size_of(c))) == normalize_value(v),
{
    let b = fixed_bytes(v, fixed_size_of(c));
    match v {
        ValueModel::Int(x) => {
            lemma_u32_bytes_read((x as u32) as int);
            lemma_i32_cast(x);
        },
        ValueModel::BigInt(x) => {
            lemma_u64_bytes_read((x as u64) as int);
            lemma_i64_cast(x);
        },
        ValueModel::DateTime(x) => {
            lemma_u64_bytes_read((x as u64) as int);
            lemma_i64_cast(x);
        },
        ValueModel::Float(bits) => {
            lemma_u64_bytes_read(bits as int);
        },
        ValueModel::Boolean(_) => {
            assert(b.len() == 1);
        },
        ValueModel::Decimal(d) => {
            lemma_decimal_bytes_roundtrip(d);
        },
        _ => {},
    }
}

proof fn lemma_bitmap_bits(cols: Seq<ColumnDefinition>, vals: Seq<ValueModel>, bytes: Seq<u8>)
    requires
        is_serialized_record(cols, vals, bytes),
    ensures
        forall|i: int| 0 <= i < cols.len() ==> #[trigger] null_bit(bytes, i) == (vals[i] is Null),
{
    let n = cols.len() as int;
    let nb = bitmap_size(n);
    let bm = bytes.subrange(0, nb);
    assert forall|i: int| 0 <= i < n implies #[trigger] null_bit(bytes, i) == (vals[i] is Null) by {
        assert(null_bit(bm, i) == (i < n && vals[i] is Null));
        assert(bm[i / 8] == bytes[i / 8]);
    }
}

proof fn lemma_fixed_data_length(cols: Seq<ColumnDefinition>, vals: Seq<ValueModel>, bytes: Seq<u8>, k: int)
    requires
        record_fits_columns(cols, vals),
        forall|i: int| 0 <= i < cols.len() ==> #[trigger] null_bit(bytes, i) == (vals[i] is Null),
        0 <= k <= cols.len(),
    ensures
        fixed_data_length(cols, bytes, k) == fixed_upto(cols, vals, k).len(),
    decreases k,
{
    if k > 0 {
        lemma_fixed_data_length(cols, vals, bytes, k - 1);
        let c = cols[k - 1];
        let v = vals[k - 1];
        assert(value_fits_column(c, v));
        assert(null_bit(bytes, k - 1) == (v is Null));
        if !(v is Null) && is_fixed_column(c) {
            lemma_fixed_bytes_roundtrip(c, v);
        }
    }
}

/// The state of reading serialized bytes after the first `k` columns.
pub open spec fn roundtrip_state(cols: Seq<ColumnDefinition>, vals: Seq<ValueModel>, k: int) -> ReadState {
    ReadState {
        values: vals.take(k).map_values(|v: ValueModel| normalize_value(v)),
        fixed_offset: bitmap_size(cols.len() as int) + fixed_upto(cols, vals, k).len(),
        var_offset: bitmap_size(cols.len() as int) + fixed_upto(cols, vals, cols.len() as int).len() + var_upto(
            cols,
            vals,
            k,
        ).len(),
    }
}

proof fn lemma_values_step(vals: Seq<ValueModel>, i: int)
    requires
        0 <= i < vals.len(),
    ensures
        vals.take(i + 1).map_values(|x: ValueModel| normalize_value(x)) == vals.take(i).map_values(
            |x: ValueModel| normalize_value(x),
        ).push(normalize_value(vals[i])),
{
    assert(vals.take(i + 1).map_values(|x: ValueModel| normalize_value(x)) =~= vals.take(i).map_values(
        |x: ValueModel| normalize_value(x),
    ).push(normalize_value(vals[i])));
}

proof fn lemma_step_null(cols: Seq<ColumnDefinition>, vals: Seq<ValueModel>, bytes: Seq<u8>, i: int)
    requires
        record_fits_columns(cols, vals),
        is_serialized_record(cols, vals, bytes),
        0 <= i < cols.len(),
        vals[i] is Null,
    ensures
        read_step(cols[i], i, bytes, roundtrip_state(cols, vals, i)) == ReadOutcome::Done(
            roundtrip_state(cols, vals, i + 1),
        ),
{
    lemma_bitmap_bits(cols, vals, bytes);
    lemma_values_step(vals, i);
    assert(value_fits_column(cols[i], vals[i]));
    assert(fixed_upto(cols, vals, i + 1) =~= fixed_upto(cols, vals, i));
    assert(var_upto(cols, vals, i + 1) =~= var_upto(cols, vals, i));
}

/// A piece that follows a prefix `a` within a region of `bytes` sits right after that prefix.
proof fn lemma_piece(bytes: Seq<u8>, base: int, whole: Seq<u8>, a: Seq<u8>, piece: Seq<u8>)
    requires
        0 <= base,
        base + whole.len() <= bytes.len(),
        bytes.subrange(base, base + whole.len()) == whole,
        a.len() + piece.len() <= whole.len(),
        whole.subrange(0, (a.len() + piece.len()) as int) == a + piece,
    ensures
        bytes.subrange(base + a.len(), base + a.len() + piece.len()) == piece,
{
    assert forall|j: int| 0 <= j < piece.len() implies #[trigger] bytes.subrange(
        base + a.len(),
        base + a.len() + piece.len(),
    )[j] == piece[j] by {
        let k = a.len() + j;
        assert(bytes.subrange(base, base + whole.len())[k] == whole[k]);
        assert(bytes[base + k] == whole[k]);
        assert(whole.subrange(0, (a.len() + piece.len()) as int)[k] == (a + piece)[k]);
        assert((a + piece)[k] == piece[j]);
        assert(whole[k] == piece[j]);
    }
    assert(bytes.subrange(base + a.len(), base + a.len() + piece.len()) =~= piece);
}

proof fn lemma_step_fixed(cols: Seq<ColumnDefinition>, vals: Seq<ValueModel>, bytes: Seq<u8>, i: int)
    requires
        record_fits_columns(cols, vals),
        is_serialized_record(cols, vals, bytes),
        0 <= i < cols.len(),
        !(vals[i] is Null),
        is_fixed_column(cols[i]),
    ensures
        read_step(cols[i], i, bytes, roundtrip_state(cols, vals, i)) == ReadOutcome::Done(
            roundtrip_state(cols, vals, i + 1),
        ),
{
    let n = cols.len() as int;
    let nb = bitmap_size(n);
    let fall = fixed_upto(cols, vals, n);
    let c = cols[i];
    let v = vals[i];
    lemma_bitmap_bits(cols, vals, bytes);
    lemma_values_step(vals, i);
    assert(value_fits_column(c, v));
    lemma_fixed_upto_prefix(cols, vals, i + 1, n);
    lemma_fixed_bytes_roundtrip(c, v);
    let fa = fixed_upto(cols, vals, i);
    let size = fixed_size_of(c);
    let piece = fixed_bytes(v, size);
    assert(fixed_upto(cols, vals, i + 1) == fa + piece);
    assert(var_upto(cols, vals, i + 1) =~= var_upto(cols, vals, i));
    lemma_piece(bytes, nb, fall, fa, piece);
}

/// A four-byte length followed by that many bytes reads back as the length and the bytes.
proof fn lemma_prefixed_payload(bytes: Seq<u8>, off: int, p: Seq<u8>)
    requires
        0 <= off,
        p.len() < 0x8000_0000,
        off + 4 + p.len() <= bytes.len(),
        bytes.subrange(off, off + 4 + p.len()) == le_u32_bytes(p.len() as int) + p,
    ensures
        le_u32_at(bytes, off) == p.len(),
        bytes.subrange(off + 4, off + 4 + p.len()) == p,
{
    let len = p.len() as int;
    let prefix = le_u32_bytes(len);
    lemma_u32_bytes_read(len);
    assert(bytes.subrange(off, off + 4) =~= prefix) by {
        assert forall|j: int| 0 <= j < 4 implies #[trigger] bytes.subrange(off, off + 4)[j] == prefix[j] by {
            assert(bytes.subrange(off, off + 4 + len)[j] == (prefix + p)[j]);
        }
    }
    lemma_le_u32_roundtrip(len, bytes, off);
    assert(bytes.subrange(off + 4, off + 4 + len) =~= p) by {
        assert forall|j: int| 0 <= j < len implies #[trigger] bytes.subrange(off + 4, off + 4 + len)[j] == p[j] by {
            assert(bytes.subrange(off, off + 4 + len)[4 + j] == (prefix + p)[4 + j]);
        }
    }
}

proof fn lemma_read_value_variable(c: ColumnDefinition, v: ValueModel, bytes: Seq<u8>, foff: int, voff: int)
    requires
        value_fits_column(c, v),
        v is Text || v is Blob,
        0 <= voff,
        voff + 4 + payload(v).len() <= bytes.len(),
        le_u32_at(bytes, voff) == payload(v).len(),
        bytes.subrange(voff + 4, voff + 4 + payload(v).len()) == payload(v),
    ensures
        read_value(c, bytes, foff, voff) == Some((normalize_value(v), foff, voff + 4 + payload(v).len())),
{
    if let ValueModel::Text(s) = v {
        encode_utf8_valid_utf8(s);
        encode_utf8_decode_utf8(s);
    }
}

#[verifier::spinoff_prover]
proof fn lemma_step_variable(cols: Seq<ColumnDefinition>, vals: Seq<ValueModel>, bytes: Seq<u8>, i: int)
    requires
        record_fits_columns(cols, vals),
        is_serialized_record(cols, vals, bytes),
        0 <= i < cols.len(),
        !(vals[i] is Null),
        !is_fixed_column(cols[i]),
    ensures
        read_step(cols[i], i, bytes, roundtrip_state(cols, vals, i)) == ReadOutcome::Done(
            roundtrip_state(cols, vals, i + 1),
        ),
{
    let n = cols.len() as int;
    let nb = bitmap_size(n);
    let fall = fixed_upto(cols, vals, n);
    let vall = var_upto(cols, vals, n);
    let c = cols[i];
    let v = vals[i];
    lemma_bitmap_bits(cols, vals, bytes);
    lemma_values_step(vals, i);
    assert(value_fits_column(c, v));
    lemma_var_upto_prefix(cols, vals, i + 1, n);
    let va = var_upto(cols, vals, i);
    let p = payload(v);
    let len = p.len() as int;
    let prefix = le_u32_bytes(len);
    assert(is_payload_column(c, v));
    assert(length_prefix(len) == prefix);
    assert(var_upto(cols, vals, i + 1) == va + (prefix + p));
    assert(fixed_upto(cols, vals, i + 1) =~= fixed_upto(cols, vals, i));
    let base = nb + fall.len();
    assert(bytes.subrange(base, base + vall.len()) == vall);
    lemma_piece(bytes, base, vall, va, prefix + p);
    lemma_prefixed_payload(bytes, base + va.len(), p);
    lemma_read_value_variable(c, v, bytes, roundtrip_state(cols, vals, i).fixed_offset, base + va.len());
}

/// Reading the first `k` columns back from serialized bytes gives their values, with the
/// offsets just past the data of those columns.
proof fn lemma_read_upto_roundtrip(cols: Seq<ColumnDefinition>, vals: Seq<ValueModel>, bytes: Seq<u8>, k: int)
    requires
        record_fits_columns(cols, vals),
        is_serialized_record(cols, vals, bytes),
        0 <= k <= cols.len(),
    ensures
        read_upto(cols, bytes, k) == ReadOutcome::Done(roundtrip_state(cols, vals, k)),
    decreases k,
{
    let n = cols.len() as int;
    if k == 0 {
        lemma_bitmap_bits(cols, vals, bytes);
        lemma_fixed_data_length(cols, vals, bytes, n);
        assert(!unknown_present(cols, bytes, n)) by {
            assert forall|i: int| 0 <= i < n && !null_bit(bytes, i) implies !((#[trigger] cols[i]).data_type is Unknown) by {
                assert(value_fits_column(cols[i], vals[i]));
            }
        }
        assert(vals.take(0).map_values(|v: ValueModel| normalize_value(v)) =~= Seq::<ValueModel>::empty());
    } else {
        lemma_read_upto_roundtrip(cols, vals, bytes, k - 1);
        if vals[k - 1] is Null {
            lemma_step_null(cols, vals, bytes, k - 1);
        } else if is_fixed_column(cols[k - 1]) {
            lemma_step_fixed(cols, vals, bytes, k - 1);
        } else {
            lemma_step_variable(cols, vals, bytes, k - 1);
        }
    }
}

/// Reading back the bytes that `serialize` wrote for a record gives the record's values (a
/// decimal zero losing its sign), for a record whose values fit their columns.
pub proof fn lemma_serialize_then_deserialize(cols: Seq<ColumnDefinition>, vals: Seq<ValueModel>, bytes: Seq<u8>)
    requires
        record_fits_columns(cols, vals),
        is_serialized_record(cols, vals, bytes),
    ensures
        read_upto(cols, bytes, cols.len() as int) matches ReadOutcome::Done(st) && st.values == vals.map_values(
            |v: ValueModel| normalize_value(v),
        ),
{
    lemma_read_upto_roundtrip(cols, vals, bytes, cols.len() as int);
    assert(vals.take(cols.len() as int) =~= vals);
}


/// How many of the first `l` positions lie before column `k`.
pub open spec fn count_below(ps: Seq<int>, k: int, l: int) -> int
    decreases l,
{
    if l <= 0 {
        0
    } else {
        count_below(ps, k, l - 1) + if ps[l - 1] < k {
            1int
        } else {
            0int
        }
    }
}

/// The key values known once the first `k` columns are read: the value of each key column
/// among them (as it reads back), null for the others.
pub open spec fn key_values_upto(vals: Seq<ValueModel>, ps: Seq<int>, k: int) -> Seq<ValueModel> {
    Seq::new(ps.len(), |j: int| if ps[j] < k { normalize_value(vals[ps[j]]) } else { ValueModel::Null })
}

/// The key positions can be read back: they are distinct columns of the record, their values
/// are not null, and the columns have distinct names.
pub open spec fn key_positions_readable(cols: Seq<ColumnDefinition>, vals: Seq<ValueModel>, ps: Seq<int>) -> bool {
    &&& forall|j: int| 0 <= j < ps.len() ==> 0 <= #[trigger] ps[j] < cols.len()
    &&& forall|j: int| 0 <= j < ps.len() ==> !(vals[#[trigger] ps[j]] is Null)
    &&& forall|i: int, j: int| 0 <= i < j < ps.len() ==> #[trigger] ps[i] != #[trigger] ps[j]
    &&& forall|i: int, j: int| 0 <= i < j < cols.len() ==> (#[trigger] cols[i]).name@ != (#[trigger] cols[j]).name@
}

proof fn lemma_count_below_bound(ps: Seq<int>, k: int, l: int)
    requires
        0 <= l <= ps.len(),
    ensures
        0 <= count_below(ps, k, l) <= l,
        count_below(ps, k, l) == l <==> forall|j: int| 0 <= j < l ==> #[trigger] ps[j] < k,
    decreases l,
{
    if l > 0 {
        lemma_count_below_bound(ps, k, l - 1);
        if count_below(ps, k, l) == l {
            assert forall|j: int| 0 <= j < l implies #[trigger] ps[j] < k by {
                if j < l - 1 {
                    assert(count_below(ps, k, l - 1) == l - 1);
                }
            }
        }
    }
}

proof fn lemma_count_below_step(ps: Seq<int>, k: int, l: int)
    requires
        0 <= l <= ps.len(),
        forall|i: int, j: int| 0 <= i < j < ps.len() ==> #[trigger] ps[i] != #[trigger] ps[j],
    ensures
        count_below(ps, k + 1, l) == count_below(ps, k, l) + if exists|j: int| 0 <= j < l && #[trigger] ps[j] == k {
            1int
        } else {
            0int
        },
    decreases l,
{
    if l > 0 {
        lemma_count_below_step(ps, k, l - 1);
        if ps[l - 1] == k {
            assert forall|j: int| 0 <= j < l - 1 implies #[trigger] ps[j] != k by {
                assert(ps[j] != ps[l - 1]);
            }
        }
    }
}

/// The facts about reading column `i` in full that a key read of it relies on: the bitmap
/// bit, the value read and the offsets after it, within the bytes.
proof fn lemma_column_read(cols: Seq<ColumnDefinition>, vals: Seq<ValueModel>, bytes: Seq<u8>, i: int)
    requires
        record_fits_columns(cols, vals),
        is_serialized_record(cols, vals, bytes),
        0 <= i < cols.len(),
    ensures
        null_bit(bytes, i) == (vals[i] is Null),
        value_fits_column(cols[i], vals[i]),
        read_step(cols[i], i, bytes, roundtrip_state(cols, vals, i)) == ReadOutcome::Done(
            roundtrip_state(cols, vals, i + 1),
        ),
        roundtrip_state(cols, vals, i + 1).var_offset <= bytes.len(),
        ({
            let c = cols[i];
            let rs = roundtrip_state(cols, vals, i);
            let rs1 = roundtrip_state(cols, vals, i + 1);
            &&& vals[i] is Null ==> rs1.fixed_offset == rs.fixed_offset && rs1.var_offset == rs.var_offset
            &&& !(vals[i] is Null) ==> read_value(c, bytes, rs.fixed_offset, rs.var_offset) == Some(
                (normalize_value(vals[i]), rs1.fixed_offset, rs1.var_offset),
            )
            &&& !(vals[i] is Null) ==> !(c.data_type is Unknown)
            &&& !(vals[i] is Null) && spec_is_fixed_type(c.data_type) ==> rs1.fixed_offset == rs.fixed_offset
                + spec_fixed_size(c.data_type)->0 as int && rs1.var_offset == rs.var_offset
            &&& !(vals[i] is Null) && !spec_is_fixed_type(c.data_type) ==> rs.var_offset + 4 <= bytes.len()
                && le_u32_at(bytes, rs.var_offset) < 0x8000_0000 && rs1.var_offset == rs.var_offset + 4 + le_u32_at(
                bytes,
                rs.var_offset,
            ) && rs1.fixed_offset == rs.fixed_offset
        }),
{
    let n = cols.len() as int;
    assert(value_fits_column(cols[i], vals[i]));
    lemma_bitmap_bits(cols, vals, bytes);
    if vals[i] is Null {
        lemma_step_null(cols, vals, bytes, i);
    } else if is_fixed_column(cols[i]) {
        lemma_step_fixed(cols, vals, bytes, i);
    } else {
        lemma_step_variable(cols, vals, bytes, i);
    }
    lemma_var_upto_prefix(cols, vals, i + 1, n);
    lemma_values_step(vals, i);
    let rs = roundtrip_state(cols, vals, i);
    let rs1 = roundtrip_state(cols, vals, i + 1);
    assert(rs1.values[i] == normalize_value(vals[i]));
    assert(rs.values.len() == i);
}

/// The names of the key columns other than the one at `ps[j]` differ from its name; no key
/// name is the name of a column that is not a key column.
proof fn lemma_key_name_index(cols: Seq<ColumnDefinition>, vals: Seq<ValueModel>, ps: Seq<int>, i: int)
    requires
        key_positions_readable(cols, vals, ps),
        0 <= i < cols.len(),
    ensures
        (exists|j: int| 0 <= j < ps.len() && #[trigger] ps[j] == i) ==> ps[first_name_index(
            names_at(cols, ps),
            cols[i].name@,
        )] == i && 0 <= first_name_index(names_at(cols, ps), cols[i].name@) < ps.len(),
        !(exists|j: int| 0 <= j < ps.len() && #[trigger] ps[j] == i) ==> first_name_index(
            names_at(cols, ps),
            cols[i].name@,
        ) == ps.len(),
{
    let names = names_at(cols, ps);
    let l = ps.len() as int;
    let c = cols[i];
    if exists|j: int| 0 <= j < l && #[trigger] ps[j] == i {
        let j = choose|j: int| 0 <= j < l && #[trigger] ps[j] == i;
        assert forall|m: int| 0 <= m < j implies #[trigger] names[m] != c.name@ by {
            assert(ps[m] != ps[j]);
            if ps[m] < i {
                assert(cols[ps[m]].name@ != cols[i].name@);
            } else {
                assert(cols[i].name@ != cols[ps[m]].name@);
            }
        }
        lemma_first_name_index(names, c.name@, j);
    } else {
        assert forall|m: int| 0 <= m < l implies #[trigger] names[m] != c.name@ by {
            assert(ps[m] != i);
            if ps[m] < i {
                assert(cols[ps[m]].name@ != cols[i].name@);
            } else {
                assert(cols[i].name@ != cols[ps[m]].name@);
            }
        }
        lemma_first_name_index(names, c.name@, l);
    }
}

/// One step of a key read over column `i`, before every key column was met, moves as a read
/// of the whole record does, and records the value of a key column at its place.
proof fn lemma_key_step(
    cols: Seq<ColumnDefinition>,
    vals: Seq<ValueModel>,
    bytes: Seq<u8>,
    ps: Seq<int>,
    i: int,
    st: KeyReadState,
)
    requires
        record_fits_columns(cols, vals),
        is_serialized_record(cols, vals, bytes),
        bytes.len() <= usize::MAX,
        key_positions_readable(cols, vals, ps),
        0 <= i < cols.len(),
        st.values == key_values_upto(vals, ps, i),
        st.found == count_below(ps, i, ps.len() as int),
        st.found < ps.len(),
        st.fixed_offset == roundtrip_state(cols, vals, i).fixed_offset,
        st.var_offset == roundtrip_state(cols, vals, i).var_offset,
    ensures
        key_read_step(cols[i], i, names_at(cols, ps), bytes, st) == KeyReadOutcome::Done(
            KeyReadState {
                values: key_values_upto(vals, ps, i + 1),
                found: count_below(ps, i + 1, ps.len() as int),
                fixed_offset: roundtrip_state(cols, vals, i + 1).fixed_offset,
                var_offset: roundtrip_state(cols, vals, i + 1).var_offset,
            },
        ),
{
    let l = ps.len() as int;
    let names = names_at(cols, ps);
    let c = cols[i];
    let v = vals[i];
    let rs = roundtrip_state(cols, vals, i);
    let rs1 = roundtrip_state(cols, vals, i + 1);
    lemma_column_read(cols, vals, bytes, i);
    lemma_key_name_index(cols, vals, ps, i);
    lemma_count_below_step(ps, i, l);
    if exists|j: int| 0 <= j < l && #[trigger] ps[j] == i {
        let j = first_name_index(names, c.name@);
        assert(!(v is Null));
        assert(key_values_upto(vals, ps, i + 1) =~= st.values.update(j, normalize_value(v)));
    } else {
        assert(key_values_upto(vals, ps, i + 1) =~= key_values_upto(vals, ps, i));
    }
}

/// Where a key read stands after the first `k` columns of a serialized record: the key
/// values known so far, how many key columns were met and, until all were met, the offsets
/// of reading the whole record.
proof fn lemma_key_read_upto_roundtrip(
    cols: Seq<ColumnDefinition>,
    vals: Seq<ValueModel>,
    bytes: Seq<u8>,
    ps: Seq<int>,
    k: int,
)
    requires
        record_fits_columns(cols, vals),
        is_serialized_record(cols, vals, bytes),
        bytes.len() <= usize::MAX,
        key_positions_readable(cols, vals, ps),
        0 <= k <= cols.len(),
    ensures
        key_read_upto(cols, names_at(cols, ps), bytes, k) matches KeyReadOutcome::Done(st) && st.values
            == key_values_upto(vals, ps, k) && st.found == count_below(ps, k, ps.len() as int) && (st.found
            < ps.len() ==> st.fixed_offset == roundtrip_state(cols, vals, k).fixed_offset && st.var_offset
            == roundtrip_state(cols, vals, k).var_offset),
    decreases k,
{
    let l = ps.len() as int;
    let names = names_at(cols, ps);
    if k == 0 {
        lemma_read_upto_roundtrip(cols, vals, bytes, 0);
        assert(key_values_upto(vals, ps, 0) =~= Seq::new(names.len(), |j: int| ValueModel::Null));
        lemma_count_below_zero(ps, l);
    } else {
        let i = k - 1;
        lemma_key_read_upto_roundtrip(cols, vals, bytes, ps, i);
        let st = key_read_upto(cols, names, bytes, i)->Done_0;
        assert(key_read_upto(cols, names, bytes, k) == key_read_step(cols[i], i, names, bytes, st));
        if st.found >= l {
            lemma_count_below_bound(ps, i, l);
            lemma_count_below_step(ps, i, l);
            assert(key_values_upto(vals, ps, k) =~= key_values_upto(vals, ps, i));
        } else {
            lemma_key_step(cols, vals, bytes, ps, i, st);
        }
    }
}

proof fn lemma_count_below_zero(ps: Seq<int>, l: int)
    requires
        0 <= l <= ps.len(),
        forall|j: int| 0 <= j < ps.len() ==> 0 <= #[trigger] ps[j],
    ensures
        count_below(ps, 0, l) == 0,
    decreases l,
{
    if l > 0 {
        lemma_count_below_zero(ps, l - 1);
    }
}

/// Reading the key columns back from the bytes that `serialize` wrote for a record gives the
/// record's values at the key positions (a decimal zero losing its sign), when the key columns
/// are distinct, hold no null and the columns have distinct names.
pub proof fn lemma_serialized_key_reads_back(
    cols: Seq<ColumnDefinition>,
    vals: Seq<ValueModel>,
    bytes: Seq<u8>,
    ps: Seq<int>,
)
    requires
        record_fits_columns(cols, vals),
        is_serialized_record(cols, vals, bytes),
        bytes.len() <= usize::MAX,
        key_positions_readable(cols, vals, ps),
    ensures
        key_read_upto(cols, names_at(cols, ps), bytes, cols.len() as int) matches KeyReadOutcome::Done(st)
            && st.values == ps.map_values(|p: int| normalize_value(vals[p])),
{
    let n = cols.len() as int;
    lemma_key_read_upto_roundtrip(cols, vals, bytes, ps, n);
    lemma_count_below_bound(ps, n, ps.len() as int);
    assert(key_values_upto(vals, ps, n) =~= ps.map_values(|p: int| normalize_value(vals[p])));
}

} // verus!
