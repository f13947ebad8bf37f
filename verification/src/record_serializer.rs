use vstd::prelude::*;

use vstd::slice::{slice_subrange, slice_to_vec};
use vstd::utf8::valid_utf8;

use crate::byte_codec::{read_u32, read_u64, u32_bytes, u64_bytes};
use crate::column_definition::{spec_is_fixed_type, ColumnDefinition};
use crate::data_value::{DataValue, ValueModel};
use crate::decimal::Decimal;
use crate::primitive_data_type::{spec_fixed_size, spec_is_fixed_size, PrimitiveDataType};
use crate::key::Key;
use crate::record::Record;
use crate::table_definition::{primary_key_positions, TableDefinition};
use crate::text::str_equal;
use crate::text::string_from_utf8;
use crate::record_format::{
    bitmap_size, counted_size, first_problem, fixed_bytes, fixed_size_sum, fixed_upto,
    is_payload_column, is_serialized_record, is_var_payload, payload, var_bytes, decode_fixed,
    fixed_data_length, read_upto, read_value, read_step, unknown_present, lemma_read_ended,
    ReadOutcome, ReadState, key_read_upto, key_read_step, first_name_index, lemma_key_read_ended,
    lemma_key_read_complete, lemma_first_name_index, KeyReadOutcome, KeyReadState, primary_key_names,
    lemma_counted_size_mono, lemma_first_problem_stable, lemma_payload_lengths_prefix, null_bit,
    payload_lengths, ser_problem, serialize_panics, var_upto, zeros,
};
use crate::serialization_error::SerializationError;

verus! {

/// Setting bit `k` of a byte sets that bit and leaves the others as they were.
proof fn lemma_set_bit(x: u8, k: u8, j: u8)
    by (bit_vector)
    requires
        k < 8,
        j < 8,
    ensures
        ((x | (1u8 << k)) & (1u8 << j) != 0u8) == ((x & (1u8 << j) != 0u8) || j == k),
{
}

/// A zero byte has no bit set.
proof fn lemma_zero_byte_bits(j: u8)
    by (bit_vector)
    requires
        j < 8,
    ensures
        0u8 & (1u8 << j) == 0u8,
{
}

/// Appends the bytes of a slice to a vector.
fn append_bytes(out: &mut Vec<u8>, data: &[u8])
    ensures
        final(out)@ == old(out)@ + data@,
{
    let ghost start = out@;
    let mut i: usize = 0;
    while i < data.len()
        invariant
            0 <= i <= data@.len(),
            out@ == start + data@.take(i as int),
        decreases data@.len() - i,
    {
        out.push(data[i]);
        i = i + 1;
        proof {
            assert(data@.take(i as int) =~= data@.take(i - 1).push(data@[i - 1]));
        }
    }
    proof {
        assert(data@.take(data@.len() as int) =~= data@);
    }
}

/// Appends `count` zero bytes to a vector.
fn push_zeros(out: &mut Vec<u8>, count: usize)
    ensures
        final(out)@ == old(out)@ + zeros(count as int),
{
    let ghost start = out@;
    let mut i: usize = 0;
    while i < count
        invariant
            0 <= i <= count,
            out@ == start + zeros(i as int),
        decreases count - i,
    {
        out.push(0u8);
        i = i + 1;
        proof {
            assert(zeros(i as int) =~= zeros(i - 1).push(0u8));
        }
    }
}

/// Sets bit `i` of a null bitmap.
fn set_null_bit(bitmap: &mut Vec<u8>, i: usize)
    requires
        i / 8 < old(bitmap)@.len(),
    ensures
        final(bitmap)@.len() == old(bitmap)@.len(),
        forall|j: int|
            0 <= j < 8 * old(bitmap)@.len() ==> #[trigger] null_bit(final(bitmap)@, j) == (null_bit(
                old(bitmap)@,
                j,
            ) || j == i),
{
    let ghost before = bitmap@;
    let byte_index = i / 8;
    let bit_in_byte = (i % 8) as u8;
    let old_byte = bitmap[byte_index];
    bitmap.set(byte_index, old_byte | (1u8 << bit_in_byte));
    proof {
        assert forall|j: int| 0 <= j < 8 * before.len() implies #[trigger] null_bit(bitmap@, j) == (
        null_bit(before, j) || j == i) by {
            if j / 8 == i / 8 {
                lemma_set_bit(old_byte, bit_in_byte, (j % 8) as u8);
            }
        }
    }
}

/// Appends the bytes of a value in a fixed-size column of size `fixed_size`; returns `false`,
/// appending nothing, for text, a blob or null.
fn write_fixed_value(out: &mut Vec<u8>, value: &DataValue, fixed_size: usize) -> (r: bool)
    requires
        fixed_size >= 1,
    ensures
        r == !(is_var_payload(value@) || value@ is Null),
        r ==> final(out)@ == old(out)@ + fixed_bytes(value@, fixed_size as int),
        !r ==> final(out)@ == old(out)@,
{
    match value {
        DataValue::BigInt(val) => {
            append_bytes(out, &u64_bytes(*val as u64));
        },
        DataValue::Boolean(val) => {
            let ghost start = out@;
            out.push(if *val { 1u8 } else { 0u8 });
            push_zeros(out, fixed_size - 1);
            proof {
                assert(out@ =~= start + fixed_bytes(value@, fixed_size as int));
            }
        },
        DataValue::DateTime(val) => {
            append_bytes(out, &u64_bytes(*val as u64));
        },
        DataValue::Decimal(val) => {
            append_bytes(out, &val.to_bytes());
        },
        DataValue::Float(val) => {
            append_bytes(out, &u64_bytes(val.0));
        },
        DataValue::Int(val) => {
            append_bytes(out, &u32_bytes(*val as u32));
        },
        _ => {
            return false;
        },
    }
    true
}

/// Appends a text or blob value as its four-byte length `length` followed by its bytes;
/// returns `false`, appending nothing, for any other value.
fn write_variable_value(out: &mut Vec<u8>, value: &DataValue, length: usize) -> (r: bool)
    requires
        is_var_payload(value@) ==> length == payload(value@).len(),
    ensures
        r == is_var_payload(value@),
        r ==> final(out)@ == old(out)@ + var_bytes(value@),
        !r ==> final(out)@ == old(out)@,
{
    let prefix = u32_bytes((length as u64 % 0x1_0000_0000) as u32);
    match value {
        DataValue::Blob(val) => {
            append_bytes(out, &prefix);
            append_bytes(out, val.as_slice());
        },
        DataValue::Text(val) => {
            append_bytes(out, &prefix);
            append_bytes(out, val.as_str().as_bytes());
        },
        _ => {
            return false;
        },
    }
    true
}

/// Writes records to the bytes of a slotted page cell and reads them back. The layout is
/// | null bitmap | fixed-length data | variable-length data | (see `record_format`).
pub struct RecordSerializer;

impl RecordSerializer {
    /// The number of null bitmap bytes for the columns: one bit per column.
    pub fn get_null_bitmap_size(columns: &[ColumnDefinition]) -> (r: usize)
        ensures
            r == bitmap_size(columns@.len() as int),
    {
        columns.len() / 8 + if columns.len() % 8 == 0 {
            0
        } else {
            1
        }
    }

    /// Counts the bytes that the record needs, adds the fixed sizes to `fixed_length_size` and
    /// lists the lengths of the text and blob values in `variable_length_sizes`.
    fn calculate_serialized_record_size(
        columns: &[ColumnDefinition],
        record: &Record,
        variable_length_sizes: &mut Vec<usize>,
        fixed_length_size: &mut usize,
    ) -> (r: usize)
        requires
            record@.len() >= columns@.len(),
            old(variable_length_sizes)@.len() == 0,
            *old(fixed_length_size) == 0,
            bitmap_size(columns@.len() as int) + counted_size(columns@, record@, columns@.len() as int)
                <= usize::MAX,
        ensures
            r == bitmap_size(columns@.len() as int) + counted_size(columns@, record@, columns@.len() as int),
            *final(fixed_length_size) == fixed_size_sum(columns@, record@, columns@.len() as int),
            final(variable_length_sizes)@.len() == payload_lengths(columns@, record@, columns@.len() as int).len(),
            forall|k: int|
                0 <= k < final(variable_length_sizes)@.len() ==> #[trigger] final(variable_length_sizes)@[k] as int
                    == payload_lengths(columns@, record@, columns@.len() as int)[k],
    {
        let ghost cols = columns@;
        let ghost vals = record@;
        let ghost n = columns@.len() as int;
        let null_bitmap_size = RecordSerializer::get_null_bitmap_size(columns);
        let values = record.as_slice();
        let mut total_record_size: usize = null_bitmap_size;
        let col_len = columns.len();
        let mut i: usize = 0;
        while i < col_len
            invariant
                0 <= i <= col_len,
                col_len == n,
                col_len == columns@.len(),
                cols == columns@,
                vals == record@,
                values@.map_values(|x: DataValue| x@) == vals,
                vals.len() >= n,
                null_bitmap_size == bitmap_size(n),
                bitmap_size(n) + counted_size(cols, vals, n) <= usize::MAX,
                total_record_size == null_bitmap_size + counted_size(cols, vals, i as int),
                *fixed_length_size == fixed_size_sum(cols, vals, i as int),
                variable_length_sizes@.len() == payload_lengths(cols, vals, i as int).len(),
                forall|k: int|
                    0 <= k < variable_length_sizes@.len() ==> #[trigger] variable_length_sizes@[k] as int
                        == payload_lengths(cols, vals, i as int)[k],
            decreases col_len - i,
        {
            proof {
                lemma_counted_size_mono(cols, vals, i + 1, n);
                lemma_counted_size_mono(cols, vals, i + 1, i + 1);
            }
            let row_value = &values[i];
            assert(row_value@ == vals[i as int]);
            if row_value.is_null() {
                i = i + 1;
                continue;
            }
            let col_def = &columns[i];
            if let Some(fixed_size) = col_def.data_type.get_fixed_size() {
                total_record_size = total_record_size + fixed_size;
                *fixed_length_size = *fixed_length_size + fixed_size;
            } else {
                total_record_size = total_record_size + 4;
                match row_value {
                    DataValue::Blob(val) => {
                        let blob_size = val.len();
                        total_record_size = total_record_size + blob_size;
                        variable_length_sizes.push(blob_size);
                    },
                    DataValue::Text(val) => {
                        let string_size = val.as_str().as_bytes().len();
                        total_record_size = total_record_size + string_size;
                        variable_length_sizes.push(string_size);
                    },
                    _ => {
                        i = i + 1;
                        continue;
                    },
                }
            }
            i = i + 1;
        }
        total_record_size
    }

    /// Serializes a record into bytes using the given column definitions: the values are
    /// expected in the columns' order and kinds. Text or a blob in a fixed-size column, or
    /// another non-null value in a variable-length column, gives `DataTypeMismatch`.
    pub fn serialize(columns: &[ColumnDefinition], record: &Record) -> (r: Result<Vec<u8>, SerializationError>)
        requires
            record@.len() >= columns@.len(),
            bitmap_size(columns@.len() as int) + counted_size(columns@, record@, columns@.len() as int)
                <= usize::MAX,
            !serialize_panics(columns@, record@),
        ensures
            match r {
                Ok(bytes) => first_problem(columns@, record@, columns@.len() as int) == columns@.len()
                    && is_serialized_record(columns@, record@, bytes@),
                Err(e) => first_problem(columns@, record@, columns@.len() as int) < columns@.len() && e
                    == SerializationError::DataTypeMismatch,
            },
    {
        let ghost cols = columns@;
        let ghost vals = record@;
        let ghost n = columns@.len() as int;
        let null_bitmap_size = RecordSerializer::get_null_bitmap_size(columns);
        let mut variable_length_sizes: Vec<usize> = Vec::new();
        let mut fixed_length_size: usize = 0;
        let total_record_size = RecordSerializer::calculate_serialized_record_size(
            columns,
            record,
            &mut variable_length_sizes,
            &mut fixed_length_size,
        );
        let values = record.as_slice();
        let mut bitmap: Vec<u8> = vec![0u8; null_bitmap_size];
        let mut fixed: Vec<u8> = Vec::new();
        let mut variable: Vec<u8> = Vec::new();
        let mut variable_length_col_index: usize = 0;
        proof {
            assert forall|j: int| 0 <= j < 8 * bitmap_size(n) implies #[trigger] null_bit(bitmap@, j) == (j < 0
                && vals[j] is Null) by {
                lemma_zero_byte_bits((j % 8) as u8);
            }
            lemma_payload_lengths_prefix(cols, vals, 0, n);
        }
        let mut i: usize = 0;
        while i < columns.len()
            invariant
                0 <= i <= n,
                n == columns@.len(),
                cols == columns@,
                vals == record@,
                values@.map_values(|x: DataValue| x@) == vals,
                vals.len() >= n,
                !serialize_panics(cols, vals),
                first_problem(cols, vals, i as int) == i,
                bitmap@.len() == bitmap_size(n),
                forall|j: int|
                    0 <= j < 8 * bitmap_size(n) ==> #[trigger] null_bit(bitmap@, j) == (j < i && vals[j] is Null),
                fixed@ == fixed_upto(cols, vals, i as int),
                variable@ == var_upto(cols, vals, i as int),
                variable_length_col_index == payload_lengths(cols, vals, i as int).len(),
                variable_length_sizes@.len() == payload_lengths(cols, vals, n).len(),
                forall|k: int|
                    0 <= k < variable_length_sizes@.len() ==> #[trigger] variable_length_sizes@[k] as int
                        == payload_lengths(cols, vals, n)[k],
            decreases n - i,
        {
            let current_value = &values[i];
            assert(current_value@ == vals[i as int]);
            proof {
                lemma_payload_lengths_prefix(cols, vals, i + 1, n);
                if ser_problem(cols[i as int], vals[i as int]) {
                    lemma_first_problem_stable(cols, vals, i + 1, n);
                }
            }
            if current_value.is_null() {
                set_null_bit(&mut bitmap, i);
                proof {
                    assert(fixed_upto(cols, vals, i + 1) =~= fixed_upto(cols, vals, i as int));
                    assert(var_upto(cols, vals, i + 1) =~= var_upto(cols, vals, i as int));
                }
                i = i + 1;
                continue;
            }
            let col_def = &columns[i];
            if let Some(fixed_size) = col_def.data_type.get_fixed_size() {
                if !write_fixed_value(&mut fixed, current_value, fixed_size) {
                    return Err(SerializationError::DataTypeMismatch);
                }
                proof {
                    assert(var_upto(cols, vals, i + 1) =~= var_upto(cols, vals, i as int));
                }
            } else {
                proof {
                    if is_var_payload(vals[i as int]) {
                        assert(is_payload_column(cols[i as int], vals[i as int]));
                    }
                }
                assert(variable_length_col_index < variable_length_sizes.len());
                let variable_length = variable_length_sizes[variable_length_col_index];
                proof {
                    if is_var_payload(vals[i as int]) {
                        let idx = variable_length_col_index as int;
                        assert(payload_lengths(cols, vals, i + 1) == payload_lengths(cols, vals, i as int).push(
                            payload(vals[i as int]).len() as int,
                        ));
                        assert(payload_lengths(cols, vals, i + 1)[idx] == payload_lengths(cols, vals, n)[idx]);
                    }
                }
                variable_length_col_index = variable_length_col_index + 1;
                if !write_variable_value(&mut variable, current_value, variable_length) {
                    return Err(SerializationError::DataTypeMismatch);
                }
                proof {
                    assert(fixed_upto(cols, vals, i + 1) =~= fixed_upto(cols, vals, i as int));
                }
            }
            i = i + 1;
        }
        let mut bytes: Vec<u8> = Vec::with_capacity(total_record_size);
        append_bytes(&mut bytes, bitmap.as_slice());
        append_bytes(&mut bytes, fixed.as_slice());
        append_bytes(&mut bytes, variable.as_slice());
        proof {
            let nb = bitmap_size(n);
            let f = fixed_upto(cols, vals, n);
            assert(bytes@.subrange(0, nb) =~= bitmap@);
            assert(bytes@.subrange(nb, nb + f.len()) =~= fixed@);
            assert(bytes@.subrange(nb + f.len(), bytes@.len() as int) =~= variable@);
        }
        Ok(bytes)
    }

    /// Whether bit `index` of the null bitmap is set.
    fn is_col_value_null(null_bitmap: &[u8], index: usize) -> (r: bool)
        requires
            index / 8 < null_bitmap@.len(),
        ensures
            r == null_bit(null_bitmap@, index as int),
    {
        let null_bitmap_byte = null_bitmap[index / 8];
        let bit_in_byte = (index % 8) as u8;
        (null_bitmap_byte & (1u8 << bit_in_byte)) != 0
    }

    /// The offset of the variable-length data: past the bitmap and the fixed sizes of the
    /// non-null columns whose type is not text or a blob.
    fn get_variable_length_data_offset(
        columns: &[ColumnDefinition],
        null_bitmap: &[u8],
        null_bitmap_size: usize,
    ) -> (r: usize)
        requires
            null_bitmap_size == bitmap_size(columns@.len() as int),
            null_bitmap@.len() >= null_bitmap_size,
            !unknown_present(columns@, null_bitmap@, columns@.len() as int),
            null_bitmap_size + 16 * columns@.len() <= usize::MAX,
        ensures
            r == null_bitmap_size + fixed_data_length(columns@, null_bitmap@, columns@.len() as int),
    {
        let mut offset = null_bitmap_size;
        let mut i: usize = 0;
        while i < columns.len()
            invariant
                0 <= i <= columns@.len(),
                null_bitmap_size == bitmap_size(columns@.len() as int),
                null_bitmap@.len() >= null_bitmap_size,
                !unknown_present(columns@, null_bitmap@, columns@.len() as int),
                null_bitmap_size + 16 * columns@.len() <= usize::MAX,
                offset == null_bitmap_size + fixed_data_length(columns@, null_bitmap@, i as int),
                fixed_data_length(columns@, null_bitmap@, i as int) <= 16 * i,
            decreases columns@.len() - i,
        {
            if RecordSerializer::is_col_value_null(null_bitmap, i) {
                i = i + 1;
                continue;
            }
            let col_def = &columns[i];
            if col_def.is_fixed_type() {
                assert(!(columns@[i as int].data_type is Unknown));
                offset = offset + col_def.data_type.get_fixed_size().unwrap();
            }
            i = i + 1;
        }
        offset
    }

    /// Reads the value of a fixed-size column from `data_size` bytes at the offset.
    fn deserialize_fixed_sized_col_value(
        col_def: &ColumnDefinition,
        bytes: &[u8],
        current_fixed_sized_data_offset: &usize,
        data_size: usize,
    ) -> (r: Result<DataValue, SerializationError>)
        requires
            spec_fixed_size(col_def.data_type) == Some(data_size),
            *current_fixed_sized_data_offset + data_size <= bytes@.len(),
        ensures
            r matches Ok(v) && v@ == decode_fixed(
                col_def.data_type,
                bytes@.subrange(
                    *current_fixed_sized_data_offset as int,
                    *current_fixed_sized_data_offset + data_size,
                ),
            ),
    {
        let off = *current_fixed_sized_data_offset;
        let ghost b = bytes@.subrange(off as int, off + data_size);
        match col_def.data_type {
            PrimitiveDataType::BigInt => {
                let val = read_u64(bytes, off);
                proof {
                    assert(crate::byte_codec::le_u64_at(b, 0) == crate::byte_codec::le_u64_at(bytes@, off as int));
                }
                Ok(DataValue::BigInt(val as i64))
            },
            PrimitiveDataType::Boolean => {
                let val = bytes[off];
                Ok(DataValue::Boolean(val != 0))
            },
            PrimitiveDataType::DateTime => {
                let val = read_u64(bytes, off);
                proof {
                    assert(crate::byte_codec::le_u64_at(b, 0) == crate::byte_codec::le_u64_at(bytes@, off as int));
                }
                Ok(DataValue::DateTime(val as i64))
            },
            PrimitiveDataType::Decimal(_, _) => {
                let arr: [u8; 16] = [
                    bytes[off],
                    bytes[off + 1],
                    bytes[off + 2],
                    bytes[off + 3],
                    bytes[off + 4],
                    bytes[off + 5],
                    bytes[off + 6],
                    bytes[off + 7],
                    bytes[off + 8],
                    bytes[off + 9],
                    bytes[off + 10],
                    bytes[off + 11],
                    bytes[off + 12],
                    bytes[off + 13],
                    bytes[off + 14],
                    bytes[off + 15],
                ];
                assert(arr@ =~= b);
                Ok(DataValue::Decimal(Decimal::from_bytes(arr)))
            },
            PrimitiveDataType::Float => {
                let val = read_u64(bytes, off);
                proof {
                    assert(crate::byte_codec::le_u64_at(b, 0) == crate::byte_codec::le_u64_at(bytes@, off as int));
                }
                Ok(DataValue::Float(crate::ordered_float::OrderedFloat(val)))
            },
            PrimitiveDataType::Int => {
                let val = read_u32(bytes, off);
                proof {
                    assert(crate::byte_codec::le_u32_at(b, 0) == crate::byte_codec::le_u32_at(bytes@, off as int));
                }
                Ok(DataValue::Int(val as i32))
            },
            _ => Err(SerializationError::DataTypeMismatch),
        }
    }

    /// Reads the value of a variable-length column from the first `data_size` bytes.
    fn deserialize_variable_sized_col_value(
        col_def: &ColumnDefinition,
        bytes: &[u8],
        data_size: i32,
    ) -> (r: Result<DataValue, SerializationError>)
        requires
            0 <= data_size <= bytes@.len(),
            col_def.data_type is Varchar ==> valid_utf8(bytes@.take(data_size as int)),
        ensures
            match col_def.data_type {
                PrimitiveDataType::Blob(_) => r matches Ok(v) && v@ == ValueModel::Blob(
                    bytes@.take(data_size as int),
                ),
                PrimitiveDataType::Varchar(_) => r matches Ok(v) && v@ == ValueModel::Text(
                    vstd::utf8::decode_utf8(bytes@.take(data_size as int)),
                ),
                _ => r == Err::<DataValue, SerializationError>(SerializationError::DataTypeMismatch),
            },
    {
        let end_offset = data_size as usize;
        let data_bytes = slice_subrange(bytes, 0, end_offset);
        assert(data_bytes@ =~= bytes@.take(data_size as int));
        match col_def.data_type {
            PrimitiveDataType::Blob(_) => Ok(DataValue::Blob(slice_to_vec(data_bytes))),
            PrimitiveDataType::Varchar(_) => Ok(DataValue::Text(string_from_utf8(slice_to_vec(data_bytes)).unwrap())),
            _ => Err(SerializationError::DataTypeMismatch),
        }
    }

    /// Reads the value of a non-null column at the current offsets and moves them past it.
    fn deserialize_col_value(
        col_def: &ColumnDefinition,
        bytes: &[u8],
        current_fixed_sized_data_offset: &mut usize,
        current_variable_sized_data_offset: &mut usize,
    ) -> (r: DataValue)
        requires
            read_value(
                *col_def,
                bytes@,
                *old(current_fixed_sized_data_offset) as int,
                *old(current_variable_sized_data_offset) as int,
            ) is Some,
        ensures
            read_value(
                *col_def,
                bytes@,
                *old(current_fixed_sized_data_offset) as int,
                *old(current_variable_sized_data_offset) as int,
            ) == Some(
                (
                    r@,
                    *final(current_fixed_sized_data_offset) as int,
                    *final(current_variable_sized_data_offset) as int,
                ),
            ),
    {
        if col_def.data_type.is_fixed_size() {
            let data_size = col_def.data_type.get_fixed_size().unwrap();
            assert(*current_fixed_sized_data_offset + data_size <= bytes.len());
            let row_value = RecordSerializer::deserialize_fixed_sized_col_value(
                col_def,
                bytes,
                current_fixed_sized_data_offset,
                data_size,
            );
            *current_fixed_sized_data_offset = *current_fixed_sized_data_offset + data_size;
            row_value.unwrap()
        } else {
            let start = *current_variable_sized_data_offset;
            assert(start + 4 <= bytes.len());
            let data_size = read_u32(bytes, start) as i32;
            *current_variable_sized_data_offset = start + 4;
            let rest = slice_subrange(bytes, start + 4, bytes.len());
            assert(rest@.take(data_size as int) =~= bytes@.subrange(start + 4, start + 4 + data_size));
            let row_value = RecordSerializer::deserialize_variable_sized_col_value(col_def, rest, data_size);
            *current_variable_sized_data_offset = *current_variable_sized_data_offset + data_size as usize;
            row_value.unwrap()
        }
    }

    /// Reads a record from its bytes: null values from the bitmap, fixed-size values in
    /// column order after it, then variable-length values. A null value in a column that is
    /// not nullable gives `NullValueForNonNullColumnFound`.
    pub fn deserialize(columns: &[ColumnDefinition], bytes: &[u8]) -> (r: Result<Record, SerializationError>)
        requires
            !(read_upto(columns@, bytes@, columns@.len() as int) is Panic),
            bitmap_size(columns@.len() as int) + 16 * columns@.len() <= usize::MAX,
        ensures
            read_upto(columns@, bytes@, columns@.len() as int) matches ReadOutcome::Done(st) ==> r matches Ok(
                rec,
            ) && rec@ == st.values,
            read_upto(columns@, bytes@, columns@.len() as int) matches ReadOutcome::Fail(e) ==> r == Err::<
                Record,
                SerializationError,
            >(e),
    {
        let ghost cols = columns@;
        let ghost n = columns@.len() as int;
        let col_count = columns.len();
        let null_bitmap_size = RecordSerializer::get_null_bitmap_size(columns);
        proof {
            if !(read_upto(cols, bytes@, 0) is Done) {
                lemma_read_ended(cols, bytes@, 0, n);
            }
        }
        let mut current_fixed_size_offset = null_bitmap_size;
        let mut current_variable_size_offset = RecordSerializer::get_variable_length_data_offset(
            columns,
            bytes,
            null_bitmap_size,
        );
        let mut data_values: Vec<DataValue> = Vec::new();
        proof {
            assert(data_values@.map_values(|x: DataValue| x@) =~= Seq::<ValueModel>::empty());
        }
        let mut i: usize = 0;
        while i < col_count
            invariant
                0 <= i <= col_count,
                col_count == n,
                cols == columns@,
                n == columns@.len(),
                null_bitmap_size == bitmap_size(n),
                bytes@.len() >= null_bitmap_size,
                !(read_upto(cols, bytes@, n) is Panic),
                read_upto(cols, bytes@, i as int) == ReadOutcome::Done(
                    ReadState {
                        values: data_values@.map_values(|x: DataValue| x@),
                        fixed_offset: current_fixed_size_offset as int,
                        var_offset: current_variable_size_offset as int,
                    },
                ),
            decreases col_count - i,
        {
            proof {
                if !(read_upto(cols, bytes@, i + 1) is Done) {
                    lemma_read_ended(cols, bytes@, i + 1, n);
                }
            }
            let ghost before = data_values@;
            if RecordSerializer::is_col_value_null(bytes, i) {
                if !columns[i].is_nullable {
                    proof {
                        lemma_read_ended(cols, bytes@, i + 1, n);
                    }
                    return Err(SerializationError::NullValueForNonNullColumnFound);
                }
                data_values.push(DataValue::Null);
                proof {
                    assert(data_values@.map_values(|x: DataValue| x@) =~= before.map_values(|x: DataValue| x@).push(
                        ValueModel::Null,
                    ));
                }
                i = i + 1;
                continue;
            }
            let value = RecordSerializer::deserialize_col_value(
                &columns[i],
                bytes,
                &mut current_fixed_size_offset,
                &mut current_variable_size_offset,
            );
            let ghost vm = value@;
            data_values.push(value);
            proof {
                assert(data_values@.map_values(|x: DataValue| x@) =~= before.map_values(|x: DataValue| x@).push(vm));
            }
            i = i + 1;
        }
        Ok(Record::from_values(data_values))
    }

    /// Reads the values of the key columns from a record's bytes, in the order of `key_cols`; a
    /// key column is found among the record's columns by name. Reading stops once every key
    /// column was met. A null key value gives `NullPrimaryKeyColumnValue`.
    pub fn deserialize_key(
        record_cols: &[ColumnDefinition],
        key_cols: &[&ColumnDefinition],
        record_bytes: &[u8],
    ) -> (r: Result<Key, SerializationError>)
        requires
            !(key_read_upto(
                record_cols@,
                key_cols@.map_values(|c: &ColumnDefinition| c.name@),
                record_bytes@,
                record_cols@.len() as int,
            ) is Panic),
            bitmap_size(record_cols@.len() as int) + 16 * record_cols@.len() <= usize::MAX,
        ensures
            key_read_upto(
                record_cols@,
                key_cols@.map_values(|c: &ColumnDefinition| c.name@),
                record_bytes@,
                record_cols@.len() as int,
            ) matches KeyReadOutcome::Done(st) ==> r matches Ok(key) && key@ == st.values,
            key_read_upto(
                record_cols@,
                key_cols@.map_values(|c: &ColumnDefinition| c.name@),
                record_bytes@,
                record_cols@.len() as int,
            ) matches KeyReadOutcome::Fail(e) ==> r == Err::<Key, SerializationError>(e),
    {
        let ghost cols = record_cols@;
        let ghost names = key_cols@.map_values(|c: &ColumnDefinition| c.name@);
        let ghost n = record_cols@.len() as int;
        let key_col_count = key_cols.len();
        let col_count = record_cols.len();
        let mut row_values: Vec<DataValue> = Vec::new();
        while row_values.len() < key_col_count
            invariant
                row_values@.len() <= key_col_count,
                forall|j: int| 0 <= j < row_values@.len() ==> #[trigger] row_values@[j]@ == ValueModel::Null,
            decreases key_col_count - row_values@.len(),
        {
            row_values.push(DataValue::Null);
        }
        let null_bitmap_size = RecordSerializer::get_null_bitmap_size(record_cols);
        proof {
            if !(key_read_upto(cols, names, record_bytes@, 0) is Done) {
                lemma_key_read_ended(cols, names, record_bytes@, 0, n);
            }
            assert(row_values@.map_values(|x: DataValue| x@) =~= Seq::new(names.len(), |j: int| ValueModel::Null));
        }
        let mut current_fixed_offset = null_bitmap_size;
        let mut current_variable_offset = RecordSerializer::get_variable_length_data_offset(
            record_cols,
            record_bytes,
            null_bitmap_size,
        );
        let mut key_cols_found: usize = 0;
        let mut i: usize = 0;
        while i < col_count
            invariant
                0 <= i <= col_count,
                col_count == n,
                n == record_cols@.len(),
                cols == record_cols@,
                names == key_cols@.map_values(|c: &ColumnDefinition| c.name@),
                key_col_count == names.len(),
                row_values@.len() == key_col_count,
                null_bitmap_size == bitmap_size(n),
                record_bytes@.len() >= null_bitmap_size,
                !unknown_present(cols, record_bytes@, n),
                bitmap_size(n) + 16 * n <= usize::MAX,
                current_fixed_offset <= null_bitmap_size + 16 * i,
                !(key_read_upto(cols, names, record_bytes@, n) is Panic),
                key_read_upto(cols, names, record_bytes@, i as int) == KeyReadOutcome::Done(
                    KeyReadState {
                        values: row_values@.map_values(|x: DataValue| x@),
                        found: key_cols_found as int,
                        fixed_offset: current_fixed_offset as int,
                        var_offset: current_variable_offset as int,
                    },
                ),
            ensures
                key_read_upto(cols, names, record_bytes@, n) == KeyReadOutcome::Done(
                    KeyReadState {
                        values: row_values@.map_values(|x: DataValue| x@),
                        found: key_cols_found as int,
                        fixed_offset: current_fixed_offset as int,
                        var_offset: current_variable_offset as int,
                    },
                ),
            decreases col_count - i,
        {
            let ghost st = KeyReadState {
                values: row_values@.map_values(|x: DataValue| x@),
                found: key_cols_found as int,
                fixed_offset: current_fixed_offset as int,
                var_offset: current_variable_offset as int,
            };
            if key_cols_found >= key_col_count {
                proof {
                    lemma_key_read_complete(cols, names, record_bytes@, i as int, n, st);
                }
                break;
            }
            proof {
                if !(key_read_upto(cols, names, record_bytes@, i + 1) is Done) {
                    lemma_key_read_ended(cols, names, record_bytes@, i + 1, n);
                }
            }
            let col_def = &record_cols[i];
            let mut key_col_index: usize = 0;
            while key_col_index < key_col_count && !str_equal(
                key_cols[key_col_index].name.as_str(),
                col_def.name.as_str(),
            )
                invariant
                    0 <= key_col_index <= key_col_count,
                    key_col_count == names.len(),
                    names == key_cols@.map_values(|c: &ColumnDefinition| c.name@),
                    forall|q: int| 0 <= q < key_col_index ==> #[trigger] names[q] != col_def.name@,
                decreases key_col_count - key_col_index,
            {
                key_col_index = key_col_index + 1;
            }
            proof {
                lemma_first_name_index(names, col_def.name@, key_col_index as int);
            }
            let is_key_col = key_col_index < key_col_count;
            if is_key_col {
                key_cols_found = key_cols_found + 1;
            }
            if RecordSerializer::is_col_value_null(record_bytes, i) {
                if is_key_col {
                    return Err(SerializationError::NullPrimaryKeyColumnValue);
                }
                i = i + 1;
                continue;
            }
            if col_def.is_fixed_type() {
                assert(!(col_def.data_type is Unknown));
                let data_size = col_def.data_type.get_fixed_size().unwrap();
                if is_key_col {
                    let value = RecordSerializer::deserialize_fixed_sized_col_value(
                        col_def,
                        record_bytes,
                        &current_fixed_offset,
                        data_size,
                    ).unwrap();
                    let ghost before = row_values@;
                    row_values.set(key_col_index, value);
                    proof {
                        assert(row_values@.map_values(|x: DataValue| x@) =~= before.map_values(|x: DataValue| x@).update(
                            key_col_index as int,
                            value@,
                        ));
                    }
                }
                current_fixed_offset = current_fixed_offset + data_size;
            } else {
                let start = current_variable_offset;
                assert(start + 4 <= record_bytes.len());
                let data_size = read_u32(record_bytes, start) as i32;
                current_variable_offset = start + 4;
                if is_key_col {
                    let rest = slice_subrange(record_bytes, start + 4, record_bytes.len());
                    assert(rest@.take(data_size as int) =~= record_bytes@.subrange(start + 4, start + 4 + data_size));
                    let value = RecordSerializer::deserialize_variable_sized_col_value(col_def, rest, data_size).unwrap();
                    let ghost before = row_values@;
                    row_values.set(key_col_index, value);
                    proof {
                        assert(row_values@.map_values(|x: DataValue| x@) =~= before.map_values(|x: DataValue| x@).update(
                            key_col_index as int,
                            value@,
                        ));
                    }
                }
                current_variable_offset = current_variable_offset + data_size as usize;
            }
            i = i + 1;
        }
        Ok(Key::from_values(row_values))
    }

    /// Reads the primary key from a record's bytes: the values of the table's primary key
    /// columns in key order. A table without a primary key gives `PrimaryKeyNotFound`.
    pub fn deserialize_primary_key(table_def: &TableDefinition, record_bytes: &[u8]) -> (r: Result<Key, SerializationError>)
        requires
            primary_key_names(*table_def) matches Some(names) ==> key_read_upto(
                table_def.columns@,
                names,
                record_bytes@,
                table_def.columns@.len() as int,
            ) is Done,
            bitmap_size(table_def.columns@.len() as int) + 16 * table_def.columns@.len() <= usize::MAX,
        ensures
            primary_key_names(*table_def) is None ==> r == Err::<Key, SerializationError>(
                SerializationError::PrimaryKeyNotFound,
            ),
            primary_key_names(*table_def) matches Some(names) ==> key_read_upto(
                table_def.columns@,
                names,
                record_bytes@,
                table_def.columns@.len() as int,
            ) matches KeyReadOutcome::Done(st) && r matches Ok(key) && key@ == st.values,
    {
        match table_def.get_primary_key_positions() {
            Some(positions) => {
                let ghost ps = primary_key_positions(*table_def)->0;
                let mut key_cols: Vec<&ColumnDefinition> = Vec::new();
                let mut i: usize = 0;
                while i < positions.len()
                    invariant
                        0 <= i <= positions@.len(),
                        positions@.len() == ps.len(),
                        forall|k: int| 0 <= k < ps.len() ==> #[trigger] positions@[k] as int == ps[k],
                        forall|k: int| 0 <= k < positions@.len() ==> #[trigger] positions@[k] < table_def.columns@.len(),
                        key_cols@.len() == i,
                        forall|k: int| 0 <= k < i ==> (#[trigger] key_cols@[k]).name@ == table_def.columns@[ps[k]].name@,
                    decreases positions@.len() - i,
                {
                    let p = positions[i];
                    key_cols.push(&table_def.columns[p]);
                    i = i + 1;
                }
                proof {
                    assert(key_cols@.map_values(|c: &ColumnDefinition| c.name@) =~= primary_key_names(*table_def)->0);
                }
                let key = RecordSerializer::deserialize_key(table_def.columns.as_slice(), key_cols.as_slice(), record_bytes);
                Ok(key.unwrap())
            },
            None => Err(SerializationError::PrimaryKeyNotFound),
        }
    }
}

} // verus!
