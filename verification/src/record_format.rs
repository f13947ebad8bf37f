use vstd::prelude::*;
use vstd::utf8::encode_utf8;

use vstd::utf8::{decode_utf8, valid_utf8};

use crate::byte_codec::{le_u32_at, le_u32_bytes, le_u64_at, le_u64_bytes};
use crate::column_definition::{spec_is_fixed_type, ColumnDefinition};
use crate::data_value::ValueModel;
use crate::decimal::{bytes_scale, decimal_bytes, deserialized_decimal, parts_of_bytes, MAX_SCALE};
use crate::primitive_data_type::{spec_fixed_size, spec_is_fixed_size, PrimitiveDataType};
use crate::serialization_error::SerializationError;
use crate::table_definition::{primary_key_positions, TableDefinition};

verus! {

// The serialized form of a record is | null bitmap | fixed-length data | variable-length data |.
// Bit `i % 8` of bitmap byte `i / 8` is set when the value of column `i` is null; a null value
// takes no other byte. The values of the columns with a fixed size follow the bitmap in column
// order, each in exactly its column's size. Then come the values of the other columns in column
// order, each as a four-byte little-endian length followed by that many bytes.

/// The number of bitmap bytes for `n` columns: one bit per column.
pub open spec fn bitmap_size(n: int) -> int {
    (n + 7) / 8
}

/// Bit `i` of a null bitmap.
pub open spec fn null_bit(bitmap: Seq<u8>, i: int) -> bool {
    bitmap[i / 8] & (1u8 << ((i % 8) as u8)) != 0u8
}

/// The column's type has a fixed size.
pub open spec fn is_fixed_column(c: ColumnDefinition) -> bool {
    spec_fixed_size(c.data_type) is Some
}

/// The fixed size of the column's type.
pub open spec fn fixed_size_of(c: ColumnDefinition) -> int {
    spec_fixed_size(c.data_type)->0 as int
}

/// Text or a blob: a value stored as a length and its bytes.
pub open spec fn is_var_payload(v: ValueModel) -> bool {
    v is Text || v is Blob
}

/// The bytes of a text (UTF-8) or blob value.
pub open spec fn payload(v: ValueModel) -> Seq<u8> {
    match v {
        ValueModel::Text(s) => encode_utf8(s),
        ValueModel::Blob(b) => b,
        _ => Seq::empty(),
    }
}

/// The number of bytes of a value of a fixed-size kind.
pub open spec fn value_width(v: ValueModel) -> int {
    match v {
        ValueModel::Boolean(_) => 1,
        ValueModel::Int(_) => 4,
        ValueModel::BigInt(_) => 8,
        ValueModel::DateTime(_) => 8,
        ValueModel::Float(_) => 8,
        ValueModel::Decimal(_) => 16,
        _ => 0,
    }
}

/// `n` zero bytes.
pub open spec fn zeros(n: int) -> Seq<u8> {
    Seq::new(n as nat, |i: int| 0u8)
}

/// The bytes of a value in a fixed-size column of size `size`: little-endian two's complement
/// for integers, the bit pattern for a double, the sixteen bytes of a decimal, and for a
/// boolean one byte (1 or 0) padded with zeros to the column's size.
pub open spec fn fixed_bytes(v: ValueModel, size: int) -> Seq<u8> {
    match v {
        ValueModel::Boolean(b) => seq![if b { 1u8 } else { 0u8 }] + zeros(size - 1),
        ValueModel::Int(x) => le_u32_bytes((x as u32) as int),
        ValueModel::BigInt(x) => le_u64_bytes((x as u64) as int),
        ValueModel::DateTime(x) => le_u64_bytes((x as u64) as int),
        ValueModel::Float(bits) => le_u64_bytes(bits as int),
        ValueModel::Decimal(d) => decimal_bytes(d),
        _ => Seq::empty(),
    }
}

/// The four-byte length written before variable-length data: the length's low 32 bits.
pub open spec fn length_prefix(len: int) -> Seq<u8> {
    le_u32_bytes(len % 0x1_0000_0000)
}

/// The bytes of a text or blob value in a variable-length column.
pub open spec fn var_bytes(v: ValueModel) -> Seq<u8> {
    length_prefix(payload(v).len() as int) + payload(v)
}

/// The value does not fit the kind of its column: text or a blob in a fixed-size column, or
/// any other non-null value in a variable-length column.
pub open spec fn ser_error(c: ColumnDefinition, v: ValueModel) -> bool {
    !(v is Null) && if is_fixed_column(c) {
        is_var_payload(v)
    } else {
        !is_var_payload(v)
    }
}

/// A fixed-size value that is neither a boolean nor of the width of its column.
pub open spec fn ser_mis_sized(c: ColumnDefinition, v: ValueModel) -> bool {
    !(v is Null) && is_fixed_column(c) && !is_var_payload(v) && !(v is Boolean) && value_width(v)
        != fixed_size_of(c)
}

/// A column whose value cannot be written as it stands.
pub open spec fn ser_problem(c: ColumnDefinition, v: ValueModel) -> bool {
    ser_error(c, v) || ser_mis_sized(c, v)
}

/// The first of the first `k` columns whose value cannot be written, or `k`.
pub open spec fn first_problem(cols: Seq<ColumnDefinition>, vals: Seq<ValueModel>, k: int) -> int
    decreases k,
{
    if k <= 0 {
        0
    } else {
        let p = first_problem(cols, vals, k - 1);
        if p < k - 1 {
            p
        } else if ser_problem(cols[k - 1], vals[k - 1]) {
            k - 1
        } else {
            k
        }
    }
}

/// The fixed-length data of the first `k` columns.
pub open spec fn fixed_upto(cols: Seq<ColumnDefinition>, vals: Seq<ValueModel>, k: int) -> Seq<u8>
    decreases k,
{
    if k <= 0 {
        Seq::empty()
    } else {
        fixed_upto(cols, vals, k - 1) + if !(vals[k - 1] is Null) && is_fixed_column(cols[k - 1]) {
            fixed_bytes(vals[k - 1], fixed_size_of(cols[k - 1]))
        } else {
            Seq::empty()
        }
    }
}

/// A non-null text or blob value in a variable-length column.
pub open spec fn is_payload_column(c: ColumnDefinition, v: ValueModel) -> bool {
    !(v is Null) && !is_fixed_column(c) && is_var_payload(v)
}

/// The variable-length data of the first `k` columns.
pub open spec fn var_upto(cols: Seq<ColumnDefinition>, vals: Seq<ValueModel>, k: int) -> Seq<u8>
    decreases k,
{
    if k <= 0 {
        Seq::empty()
    } else {
        var_upto(cols, vals, k - 1) + if is_payload_column(cols[k - 1], vals[k - 1]) {
            var_bytes(vals[k - 1])
        } else {
            Seq::empty()
        }
    }
}

/// The lengths of the text and blob values in variable-length columns among the first `k`.
pub open spec fn payload_lengths(cols: Seq<ColumnDefinition>, vals: Seq<ValueModel>, k: int) -> Seq<int>
    decreases k,
{
    if k <= 0 {
        Seq::empty()
    } else if is_payload_column(cols[k - 1], vals[k - 1]) {
        payload_lengths(cols, vals, k - 1).push(payload(vals[k - 1]).len() as int)
    } else {
        payload_lengths(cols, vals, k - 1)
    }
}

/// The total of the fixed sizes of the non-null values in fixed-size columns among the first `k`.
pub open spec fn fixed_size_sum(cols: Seq<ColumnDefinition>, vals: Seq<ValueModel>, k: int) -> int
    decreases k,
{
    if k <= 0 {
        0
    } else {
        fixed_size_sum(cols, vals, k - 1) + if !(vals[k - 1] is Null) && is_fixed_column(cols[k - 1]) {
            fixed_size_of(cols[k - 1])
        } else {
            0
        }
    }
}

/// The size that the first `k` columns are counted to need: the fixed size of each non-null
/// value of a fixed-size column, and four bytes plus the data of each other non-null value
/// (text and blobs count their bytes, other values none).
pub open spec fn counted_size(cols: Seq<ColumnDefinition>, vals: Seq<ValueModel>, k: int) -> int
    decreases k,
{
    if k <= 0 {
        0
    } else {
        counted_size(cols, vals, k - 1) + if vals[k - 1] is Null {
            0
        } else if is_fixed_column(cols[k - 1]) {
            fixed_size_of(cols[k - 1])
        } else {
            4 + payload(vals[k - 1]).len() as int
        }
    }
}

/// Writing the record stops at a column with no entry left in the list of text and blob
/// lengths, or at a fixed-size value of the wrong width: writing cannot go on there, so
/// `serialize` does not accept such a record.
pub open spec fn serialize_panics(cols: Seq<ColumnDefinition>, vals: Seq<ValueModel>) -> bool {
    let n = cols.len() as int;
    let p = first_problem(cols, vals, n);
    p < n && (ser_mis_sized(cols[p], vals[p]) || (ser_error(cols[p], vals[p]) && !is_fixed_column(
        cols[p],
    ) && payload_lengths(cols, vals, n).len() <= payload_lengths(cols, vals, p).len()))
}

/// The null bitmap of the first `n` values: bit `i` set exactly when value `i` is null.
pub open spec fn is_null_bitmap(bitmap: Seq<u8>, vals: Seq<ValueModel>, n: int) -> bool {
    &&& bitmap.len() == bitmap_size(n)
    &&& forall|i: int| 0 <= i < 8 * bitmap_size(n) ==> #[trigger] null_bit(bitmap, i) == (i < n && vals[i] is Null)
}

/// `bytes` is the serialized form of the record: the null bitmap, the fixed-length data and
/// the variable-length data, in that order.
pub open spec fn is_serialized_record(cols: Seq<ColumnDefinition>, vals: Seq<ValueModel>, bytes: Seq<u8>) -> bool {
    let n = cols.len() as int;
    let nb = bitmap_size(n);
    let f = fixed_upto(cols, vals, n);
    let v = var_upto(cols, vals, n);
    &&& bytes.len() == nb + f.len() + v.len()
    &&& is_null_bitmap(bytes.subrange(0, nb), vals, n)
    &&& bytes.subrange(nb, nb + f.len()) == f
    &&& bytes.subrange(nb + f.len(), bytes.len() as int) == v
}

pub proof fn lemma_first_problem_bound(cols: Seq<ColumnDefinition>, vals: Seq<ValueModel>, k: int)
    requires
        k >= 0,
    ensures
        0 <= first_problem(cols, vals, k) <= k,
    decreases k,
{
    if k > 0 {
        lemma_first_problem_bound(cols, vals, k - 1);
    }
}

/// Once a problem is found, later columns do not move it.
pub proof fn lemma_first_problem_stable(cols: Seq<ColumnDefinition>, vals: Seq<ValueModel>, k: int, m: int)
    requires
        0 <= k <= m,
        first_problem(cols, vals, k) < k,
    ensures
        first_problem(cols, vals, m) == first_problem(cols, vals, k),
    decreases m - k,
{
    if m > k {
        lemma_first_problem_stable(cols, vals, k, m - 1);
    }
}

/// Without a problem among the first `m` columns there is none among fewer.
pub proof fn lemma_first_problem_prefix(cols: Seq<ColumnDefinition>, vals: Seq<ValueModel>, k: int, m: int)
    requires
        0 <= k <= m,
        first_problem(cols, vals, m) == m,
    ensures
        first_problem(cols, vals, k) == k,
{
    lemma_first_problem_bound(cols, vals, k);
    if first_problem(cols, vals, k) < k {
        lemma_first_problem_stable(cols, vals, k, m);
    }
}

/// The list of lengths of a prefix is a prefix of the whole list.
pub proof fn lemma_payload_lengths_prefix(cols: Seq<ColumnDefinition>, vals: Seq<ValueModel>, k: int, m: int)
    requires
        0 <= k <= m,
    ensures
        payload_lengths(cols, vals, k).len() <= payload_lengths(cols, vals, m).len(),
        payload_lengths(cols, vals, k) == payload_lengths(cols, vals, m).take(
            payload_lengths(cols, vals, k).len() as int,
        ),
    decreases m - k,
{
    if m > k {
        lemma_payload_lengths_prefix(cols, vals, k, m - 1);
        let a = payload_lengths(cols, vals, k);
        let b = payload_lengths(cols, vals, m - 1);
        let c = payload_lengths(cols, vals, m);
        if is_payload_column(cols[m - 1], vals[m - 1]) {
            assert(c.take(a.len() as int) =~= b.take(a.len() as int));
        } else {
            assert(c == b);
        }
    } else {
        assert(payload_lengths(cols, vals, k).take(payload_lengths(cols, vals, k).len() as int)
            =~= payload_lengths(cols, vals, k));
    }
}

/// The counted size only grows with more columns.
pub proof fn lemma_counted_size_mono(cols: Seq<ColumnDefinition>, vals: Seq<ValueModel>, k: int, m: int)
    requires
        0 <= k <= m,
    ensures
        0 <= counted_size(cols, vals, k) <= counted_size(cols, vals, m),
        0 <= fixed_size_sum(cols, vals, k) <= fixed_size_sum(cols, vals, m),
        fixed_size_sum(cols, vals, k) <= counted_size(cols, vals, k),
    decreases m,
{
    if m > k {
        lemma_counted_size_mono(cols, vals, k, m - 1);
    } else if k > 0 {
        lemma_counted_size_mono(cols, vals, k - 1, k - 1);
    }
}

/// How far reading a record has come: the values read so far, and the offsets of the next
/// fixed-length and variable-length data.
pub struct ReadState {
    pub values: Seq<ValueModel>,
    pub fixed_offset: int,
    pub var_offset: int,
}

/// Where reading a record stands: it cannot go on (bytes that `deserialize` does not accept),
/// fails with an error, or goes on from a state.
pub enum ReadOutcome {
    Panic,
    Fail(SerializationError),
    Done(ReadState),
}

/// The value that the fixed-size bytes `b` hold for a column of type `t`.
pub open spec fn decode_fixed(t: PrimitiveDataType, b: Seq<u8>) -> ValueModel {
    match t {
        PrimitiveDataType::Int => ValueModel::Int(le_u32_at(b, 0) as i32),
        PrimitiveDataType::BigInt => ValueModel::BigInt(le_u64_at(b, 0) as i64),
        PrimitiveDataType::DateTime => ValueModel::DateTime(le_u64_at(b, 0) as i64),
        PrimitiveDataType::Boolean => ValueModel::Boolean(b[0] != 0),
        PrimitiveDataType::Float => ValueModel::Float(le_u64_at(b, 0) as u64),
        PrimitiveDataType::Decimal(..) => ValueModel::Decimal(
            if bytes_scale(b) <= MAX_SCALE {
                parts_of_bytes(b)
            } else {
                deserialized_decimal(b)
            },
        ),
        _ => ValueModel::Null,
    }
}

/// The total of the fixed sizes of the columns among the first `k` that the bitmap marks
/// non-null and whose type is not text or a blob: the offset of the variable-length data past
/// the bitmap.
pub open spec fn fixed_data_length(cols: Seq<ColumnDefinition>, bitmap: Seq<u8>, k: int) -> int
    decreases k,
{
    if k <= 0 {
        0
    } else {
        fixed_data_length(cols, bitmap, k - 1) + if !null_bit(bitmap, k - 1) && spec_is_fixed_type(
            cols[k - 1].data_type,
        ) {
            spec_fixed_size(cols[k - 1].data_type).unwrap_or(0) as int
        } else {
            0
        }
    }
}

/// Some column among the first `k` has no size and no length yet is marked non-null: the
/// fixed-size total cannot be counted.
pub open spec fn unknown_present(cols: Seq<ColumnDefinition>, bitmap: Seq<u8>, k: int) -> bool {
    exists|i: int| 0 <= i < k && !null_bit(bitmap, i) && (#[trigger] cols[i]).data_type is Unknown
}

/// The state after the first `k` values are read, or how reading ended before.
pub open spec fn read_upto(cols: Seq<ColumnDefinition>, bytes: Seq<u8>, k: int) -> ReadOutcome
    decreases k,
{
    let nb = bitmap_size(cols.len() as int);
    if k <= 0 {
        if bytes.len() < nb || unknown_present(cols, bytes, cols.len() as int) {
            ReadOutcome::Panic
        } else {
            ReadOutcome::Done(
                ReadState {
                    values: Seq::empty(),
                    fixed_offset: nb,
                    var_offset: nb + fixed_data_length(cols, bytes, cols.len() as int),
                },
            )
        }
    } else {
        match read_upto(cols, bytes, k - 1) {
            ReadOutcome::Done(st) => read_step(cols[k - 1], k - 1, bytes, st),
            other => other,
        }
    }
}

/// Reads the value of a non-null column whose fixed-length data is next at `fixed_offset` and
/// whose variable-length data is next at `var_offset`: the value and the two offsets after it,
/// or `None` where reading cannot go on (data past the end, a length of 2^31 or more,
/// text that is not UTF-8, a column type with no size and no length).
pub open spec fn read_value(c: ColumnDefinition, bytes: Seq<u8>, fixed_offset: int, var_offset: int) -> Option<
    (ValueModel, int, int),
> {
    if spec_is_fixed_size(c.data_type) {
        let size = spec_fixed_size(c.data_type)->0 as int;
        if fixed_offset + size > bytes.len() {
            None
        } else {
            Some(
                (
                    decode_fixed(c.data_type, bytes.subrange(fixed_offset, fixed_offset + size)),
                    fixed_offset + size,
                    var_offset,
                ),
            )
        }
    } else if var_offset + 4 > bytes.len() {
        None
    } else {
        let len = le_u32_at(bytes, var_offset);
        if len >= 0x8000_0000 || var_offset + 4 + len > bytes.len() {
            None
        } else {
            let data = bytes.subrange(var_offset + 4, var_offset + 4 + len);
            match c.data_type {
                PrimitiveDataType::Blob(_) => Some((ValueModel::Blob(data), fixed_offset, var_offset + 4 + len)),
                PrimitiveDataType::Varchar(_) => if valid_utf8(data) {
                    Some((ValueModel::Text(decode_utf8(data)), fixed_offset, var_offset + 4 + len))
                } else {
                    None
                },
                _ => None,
            }
        }
    }
}

/// Reads the value of column `i`: null when the bitmap says so (an error for a column that is
/// not nullable), else as `read_value` does.
pub open spec fn read_step(c: ColumnDefinition, i: int, bytes: Seq<u8>, st: ReadState) -> ReadOutcome {
    if null_bit(bytes, i) {
        if !c.is_nullable {
            ReadOutcome::Fail(SerializationError::NullValueForNonNullColumnFound)
        } else {
            ReadOutcome::Done(ReadState { values: st.values.push(ValueModel::Null), ..st })
        }
    } else {
        match read_value(c, bytes, st.fixed_offset, st.var_offset) {
            Some((v, f, w)) => ReadOutcome::Done(ReadState { values: st.values.push(v), fixed_offset: f, var_offset: w }),
            None => ReadOutcome::Panic,
        }
    }
}

/// Once reading has ended, later columns change nothing.
pub proof fn lemma_read_ended(cols: Seq<ColumnDefinition>, bytes: Seq<u8>, k: int, m: int)
    requires
        0 <= k <= m,
        !(read_upto(cols, bytes, k) is Done),
    ensures
        read_upto(cols, bytes, m) == read_upto(cols, bytes, k),
    decreases m - k,
{
    if m > k {
        lemma_read_ended(cols, bytes, k, m - 1);
    }
}

/// The index of the first name in `names` equal to `name`, or the number of names.
pub open spec fn first_name_index(names: Seq<Seq<char>>, name: Seq<char>) -> int
    decreases names.len(),
{
    if names.len() == 0 {
        0
    } else if names[0] == name {
        0
    } else {
        1 + first_name_index(names.drop_first(), name)
    }
}

/// How far reading the key columns of a record has come: the key values so far (null where
/// not read yet), how many key columns were met, and the offsets of the next data.
pub struct KeyReadState {
    pub values: Seq<ValueModel>,
    pub found: int,
    pub fixed_offset: int,
    pub var_offset: int,
}

/// Where reading a key stands.
pub enum KeyReadOutcome {
    Panic,
    Fail(SerializationError),
    Done(KeyReadState),
}

/// The state after the first `k` record columns are looked at for the key columns named
/// `names`, or how reading ended before.
pub open spec fn key_read_upto(cols: Seq<ColumnDefinition>, names: Seq<Seq<char>>, bytes: Seq<u8>, k: int) -> KeyReadOutcome
    decreases k,
{
    let nb = bitmap_size(cols.len() as int);
    if k <= 0 {
        if bytes.len() < nb || unknown_present(cols, bytes, cols.len() as int) {
            KeyReadOutcome::Panic
        } else {
            KeyReadOutcome::Done(
                KeyReadState {
                    values: Seq::new(names.len(), |j: int| ValueModel::Null),
                    found: 0,
                    fixed_offset: nb,
                    var_offset: nb + fixed_data_length(cols, bytes, cols.len() as int),
                },
            )
        }
    } else {
        match key_read_upto(cols, names, bytes, k - 1) {
            KeyReadOutcome::Done(st) => key_read_step(cols[k - 1], k - 1, names, bytes, st),
            other => other,
        }
    }
}

/// Looks at record column `i` when reading a key: once every key column was met nothing more
/// is read; a null key value is an error; the value of a key column is read as `read_value`
/// does and put at the key column's place; the data of any other column is stepped over.
pub open spec fn key_read_step(c: ColumnDefinition, i: int, names: Seq<Seq<char>>, bytes: Seq<u8>, st: KeyReadState) -> KeyReadOutcome {
    if st.found >= names.len() {
        KeyReadOutcome::Done(st)
    } else {
        let idx = first_name_index(names, c.name@);
        let is_key = idx < names.len();
        let found = if is_key { st.found + 1 } else { st.found };
        if null_bit(bytes, i) {
            if is_key {
                KeyReadOutcome::Fail(SerializationError::NullPrimaryKeyColumnValue)
            } else {
                KeyReadOutcome::Done(KeyReadState { found, ..st })
            }
        } else if is_key {
            match read_value(c, bytes, st.fixed_offset, st.var_offset) {
                Some((v, f, w)) => if w > usize::MAX {
                    KeyReadOutcome::Panic
                } else {
                    KeyReadOutcome::Done(
                        KeyReadState { values: st.values.update(idx, v), found, fixed_offset: f, var_offset: w },
                    )
                },
                None => KeyReadOutcome::Panic,
            }
        } else if spec_is_fixed_type(c.data_type) {
            if c.data_type is Unknown {
                KeyReadOutcome::Panic
            } else {
                KeyReadOutcome::Done(
                    KeyReadState {
                        found,
                        fixed_offset: st.fixed_offset + spec_fixed_size(c.data_type)->0 as int,
                        ..st
                    },
                )
            }
        } else if st.var_offset + 4 > bytes.len() {
            KeyReadOutcome::Panic
        } else {
            let len = le_u32_at(bytes, st.var_offset);
            if len >= 0x8000_0000 || st.var_offset + 4 + len > usize::MAX {
                KeyReadOutcome::Panic
            } else {
                KeyReadOutcome::Done(KeyReadState { found, var_offset: st.var_offset + 4 + len, ..st })
            }
        }
    }
}

/// Once reading a key has ended, later columns change nothing.
pub proof fn lemma_key_read_ended(cols: Seq<ColumnDefinition>, names: Seq<Seq<char>>, bytes: Seq<u8>, k: int, m: int)
    requires
        0 <= k <= m,
        !(key_read_upto(cols, names, bytes, k) is Done),
    ensures
        key_read_upto(cols, names, bytes, m) == key_read_upto(cols, names, bytes, k),
    decreases m - k,
{
    if m > k {
        lemma_key_read_ended(cols, names, bytes, k, m - 1);
    }
}

/// Once every key column was met, later columns change nothing.
pub proof fn lemma_key_read_complete(
    cols: Seq<ColumnDefinition>,
    names: Seq<Seq<char>>,
    bytes: Seq<u8>,
    k: int,
    m: int,
    st: KeyReadState,
)
    requires
        0 <= k <= m,
        key_read_upto(cols, names, bytes, k) == KeyReadOutcome::Done(st),
        st.found >= names.len(),
    ensures
        key_read_upto(cols, names, bytes, m) == KeyReadOutcome::Done(st),
    decreases m - k,
{
    if m > k {
        lemma_key_read_complete(cols, names, bytes, k, m - 1, st);
    }
}

/// `first_name_index` is the first index holding the name.
pub proof fn lemma_first_name_index(names: Seq<Seq<char>>, name: Seq<char>, k: int)
    requires
        0 <= k <= names.len(),
        forall|i: int| 0 <= i < k ==> #[trigger] names[i] != name,
        k == names.len() || names[k] == name,
    ensures
        first_name_index(names, name) == k,
    decreases k,
{
    if k > 0 {
        lemma_first_name_index(names.drop_first(), name, k - 1);
    }
}

/// The names of the primary key columns of a table that it has, in key order; `None` without
/// a primary key.
pub open spec fn primary_key_names(t: TableDefinition) -> Option<Seq<Seq<char>>> {
    match primary_key_positions(t) {
        Some(ps) => Some(names_at(t.columns@, ps)),
        None => None,
    }
}

/// The names of the columns at the given positions, in the order of the positions.
pub open spec fn names_at(cols: Seq<ColumnDefinition>, ps: Seq<int>) -> Seq<Seq<char>> {
    ps.map_values(|p: int| cols[p].name@)
}

/// A record written without a problem takes exactly the counted size past its bitmap.
pub proof fn lemma_serialized_size(cols: Seq<ColumnDefinition>, vals: Seq<ValueModel>, k: int)
    requires
        0 <= k <= cols.len(),
        first_problem(cols, vals, cols.len() as int) == cols.len(),
    ensures
        fixed_upto(cols, vals, k).len() + var_upto(cols, vals, k).len() == counted_size(cols, vals, k),
    decreases k,
{
    if k > 0 {
        lemma_serialized_size(cols, vals, k - 1);
        lemma_first_problem_prefix(cols, vals, k, cols.len() as int);
        let c = cols[k - 1];
        let v = vals[k - 1];
        assert(!ser_problem(c, v));
        if !(v is Null) && is_fixed_column(c) {
            let size = fixed_size_of(c);
            assert(size >= 1);
            assert(fixed_bytes(v, size).len() == size);
        }
    }
}

} // verus!
