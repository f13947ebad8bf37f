use rarmdb::column_definition::ColumnDefinition;
use rarmdb::constraint::Constraint;
use rarmdb::data_value::DataValue;
use rarmdb::decimal::Decimal;
use rarmdb::ordered_float::OrderedFloat;
use rarmdb::primitive_data_type::PrimitiveDataType;
use rarmdb::record::Record;
use rarmdb::record_serializer::RecordSerializer;
use rarmdb::serialization_error::SerializationError;
use rarmdb::table_definition::TableDefinition;

fn col(name: &str, t: PrimitiveDataType, nullable: bool) -> ColumnDefinition {
    ColumnDefinition::new(name.to_string(), t, nullable, None).unwrap()
}

fn float(v: f64) -> OrderedFloat {
    OrderedFloat(v.to_bits())
}

fn from_rust_decimal(d: rust_decimal::Decimal) -> Decimal {
    let u = d.unpack();
    Decimal::from_parts(u.lo, u.mid, u.hi, u.negative, u.scale)
}

#[test]
fn test_serialize_fixed_length_only() {
    let columns = vec![
        col("id", PrimitiveDataType::Int, false),
        col("is_active", PrimitiveDataType::Boolean, false),
        col("score", PrimitiveDataType::Float, false),
    ];
    let record = Record::from_values(vec![DataValue::Int(42), DataValue::Boolean(true), DataValue::Float(float(99.9))]);
    let bytes = RecordSerializer::serialize(&columns, &record).unwrap();

    let mut expected_bytes = vec![0u8];
    expected_bytes.extend_from_slice(&42i32.to_le_bytes());
    expected_bytes.extend_from_slice(&[1u8]);
    expected_bytes.extend_from_slice(&99.9f64.to_le_bytes());
    assert_eq!(expected_bytes, bytes, "Serialized byte array does not match expected fixed-length layout!");
}

#[test]
fn test_serialize_fixed_length_with_null() {
    let columns = vec![
        col("id", PrimitiveDataType::Int, false),
        col("is_active", PrimitiveDataType::Boolean, true),
        col("score", PrimitiveDataType::Float, false),
    ];
    let record = Record::from_values(vec![DataValue::Int(42), DataValue::Null, DataValue::Float(float(99.9))]);
    let bytes = RecordSerializer::serialize(&columns, &record).unwrap();

    let mut expected_bytes = vec![2u8];
    expected_bytes.extend_from_slice(&42i32.to_le_bytes());
    expected_bytes.extend_from_slice(&99.9f64.to_le_bytes());
    assert_eq!(expected_bytes.len(), 13);
    assert_eq!(expected_bytes, bytes, "Serialized byte array does not match expected layout for null values!");
}

#[test]
fn test_serialize_variable_length() {
    let columns = vec![col("id", PrimitiveDataType::Int, false), col("name", PrimitiveDataType::Varchar(255), false)];
    let record = Record::from_values(vec![DataValue::Int(10), DataValue::Text("Alice".to_string())]);
    let bytes = RecordSerializer::serialize(&columns, &record).unwrap();

    let mut expected_bytes = vec![0u8];
    expected_bytes.extend_from_slice(&10i32.to_le_bytes());
    expected_bytes.extend_from_slice(&5i32.to_le_bytes());
    expected_bytes.extend_from_slice("Alice".as_bytes());
    assert_eq!(14, expected_bytes.len());
    assert_eq!(expected_bytes, bytes, "Serialized byte array does not match expected layout for variable-length data!");
}

#[test]
fn test_serialize_interleaved_fixed_and_variable() {
    let columns = vec![
        col("id", PrimitiveDataType::Int, false),
        col("name", PrimitiveDataType::Varchar(255), false),
        col("is_active", PrimitiveDataType::Boolean, false),
    ];
    let record = Record::from_values(vec![
        DataValue::Int(10),
        DataValue::Text("Alice".to_string()),
        DataValue::Boolean(true),
    ]);
    let bytes = RecordSerializer::serialize(&columns, &record).unwrap();

    let mut expected_bytes = vec![0u8];
    expected_bytes.extend_from_slice(&10i32.to_le_bytes());
    expected_bytes.extend_from_slice(&[1u8]);
    expected_bytes.extend_from_slice(&5i32.to_le_bytes());
    expected_bytes.extend_from_slice("Alice".as_bytes());
    assert_eq!(15, expected_bytes.len());
    assert_eq!(expected_bytes, bytes, "Serialized byte array did not group fixed and variable length data correctly!");
}

#[test]
fn test_serialize_all_data_types() {
    let columns = vec![
        col("col_int", PrimitiveDataType::Int, false),
        col("col_bigint", PrimitiveDataType::BigInt, false),
        col("col_bool", PrimitiveDataType::Boolean, false),
        col("col_float", PrimitiveDataType::Float, false),
        col("col_decimal", PrimitiveDataType::Decimal(10, 2), false),
        col("col_datetime", PrimitiveDataType::DateTime, false),
        col("col_varchar", PrimitiveDataType::Varchar(255), false),
        col("col_blob", PrimitiveDataType::Blob(255), false),
    ];
    let decimal_val = rust_decimal::Decimal::new(1234, 2);
    let datetime_ticks = 1672531200000i64;
    let blob_data = vec![0xDE, 0xAD, 0xBE, 0xEF];
    let record = Record::from_values(vec![
        DataValue::Int(42),
        DataValue::BigInt(1234567890),
        DataValue::Boolean(true),
        DataValue::Float(float(3.14159)),
        DataValue::Decimal(from_rust_decimal(decimal_val)),
        DataValue::DateTime(datetime_ticks),
        DataValue::Text("Alice".to_string()),
        DataValue::Blob(blob_data.clone()),
    ]);
    let bytes = RecordSerializer::serialize(&columns, &record).unwrap();

    let mut expected_bytes = vec![0u8];
    expected_bytes.extend_from_slice(&42i32.to_le_bytes());
    expected_bytes.extend_from_slice(&1234567890i64.to_le_bytes());
    expected_bytes.extend_from_slice(&[1u8]);
    expected_bytes.extend_from_slice(&3.14159f64.to_le_bytes());
    expected_bytes.extend_from_slice(&decimal_val.serialize());
    expected_bytes.extend_from_slice(&datetime_ticks.to_le_bytes());
    expected_bytes.extend_from_slice(&5i32.to_le_bytes());
    expected_bytes.extend_from_slice("Alice".as_bytes());
    expected_bytes.extend_from_slice(&(blob_data.len() as i32).to_le_bytes());
    expected_bytes.extend_from_slice(&blob_data);
    assert_eq!(63, expected_bytes.len(), "Expected size mismatch. 1 (bitmap) + 45 (fixed) + 17 (variable) = 63 bytes");
    assert_eq!(expected_bytes, bytes, "Serialized byte array failed the 'All Types' gauntlet!");
}

#[test]
fn test_serialize_bitmap_overflow_and_empty_strings() {
    let mut columns = Vec::new();
    for i in 0..8 {
        columns.push(col(&format!("col_{}", i), PrimitiveDataType::Int, true));
    }
    columns.push(col("last_col", PrimitiveDataType::Varchar(255), true));
    let mut values = vec![DataValue::Null];
    for _ in 1..8 {
        values.push(DataValue::Int(1));
    }
    values.push(DataValue::Text("".to_string()));
    let record = Record::from_values(values);
    let bytes = RecordSerializer::serialize(&columns, &record).unwrap();

    assert_eq!(bytes[0], 1);
    assert_eq!(bytes[1], 0);
    let length_bytes: [u8; 4] = bytes[30..34].try_into().unwrap();
    assert_eq!(i32::from_le_bytes(length_bytes), 0);
    assert_eq!(bytes.len(), 34);
}

#[test]
fn test_serialize_complex_utf8() {
    let columns = vec![col("emoji", PrimitiveDataType::Varchar(255), false)];
    let record = Record::from_values(vec![DataValue::Text("\u{1F980}".to_string())]);
    let bytes = RecordSerializer::serialize(&columns, &record).unwrap();
    assert_eq!(bytes.len(), 9);
    assert_eq!(i32::from_le_bytes(bytes[1..5].try_into().unwrap()), 4);
    assert_eq!(&bytes[5..9], "\u{1F980}".as_bytes());
}

#[test]
fn test_serialize_all_null_record() {
    let mut columns = Vec::new();
    for i in 0..8 {
        columns.push(col(&format!("col_{}", i), PrimitiveDataType::Int, true));
    }
    let mut values = Vec::new();
    for _ in 0..8 {
        values.push(DataValue::Null);
    }
    let record = Record::from_values(values);
    let bytes = RecordSerializer::serialize(&columns, &record).unwrap();
    assert_eq!(bytes.len(), 1);
    assert_eq!(bytes[0], 255);
}

#[test]
fn test_serialize_large_blob_boundary() {
    let columns = vec![col("large_data", PrimitiveDataType::Blob(1024 * 1024), false)];
    let size = 65536;
    let data: Vec<u8> = (0..size).map(|i| (i % 256) as u8).collect();
    let record = Record::from_values(vec![DataValue::Blob(data.clone())]);
    let bytes = RecordSerializer::serialize(&columns, &record).unwrap();
    assert_eq!(bytes.len(), 1 + 4 + size);
    let length_bytes: [u8; 4] = bytes[1..5].try_into().unwrap();
    assert_eq!(i32::from_le_bytes(length_bytes), size as i32);
    assert_eq!(&bytes[5..], &data[..]);
}

#[test]
fn serialize_rejects_values_of_the_wrong_kind() {
    let columns = vec![col("id", PrimitiveDataType::Int, false)];
    let record = Record::from_values(vec![DataValue::Text("x".to_string())]);
    assert_eq!(RecordSerializer::serialize(&columns, &record), Err(SerializationError::DataTypeMismatch));

    let columns = vec![col("name", PrimitiveDataType::Varchar(10), false), col("bio", PrimitiveDataType::Blob(10), true)];
    let record = Record::from_values(vec![DataValue::Int(3), DataValue::Blob(vec![1])]);
    assert_eq!(RecordSerializer::serialize(&columns, &record), Err(SerializationError::DataTypeMismatch));
}

#[test]
fn serialize_negative_integers_in_twos_complement() {
    let columns = vec![col("a", PrimitiveDataType::Int, false), col("b", PrimitiveDataType::BigInt, false)];
    let record = Record::from_values(vec![DataValue::Int(-2), DataValue::BigInt(-1)]);
    let bytes = RecordSerializer::serialize(&columns, &record).unwrap();
    let mut expected = vec![0u8];
    expected.extend_from_slice(&(-2i32).to_le_bytes());
    expected.extend_from_slice(&(-1i64).to_le_bytes());
    assert_eq!(bytes, expected);
}

#[test]
fn test_deserialize_fixed_length_only() {
    let columns = vec![
        col("id", PrimitiveDataType::Int, false),
        col("is_active", PrimitiveDataType::Boolean, false),
        col("score", PrimitiveDataType::Float, false),
    ];
    let mut bytes = vec![0u8];
    bytes.extend_from_slice(&42i32.to_le_bytes());
    bytes.extend_from_slice(&[1u8]);
    bytes.extend_from_slice(&99.9f64.to_le_bytes());
    let record = RecordSerializer::deserialize(&columns, &bytes).expect("Deserialization should succeed");
    assert_eq!(3, record.len());
    assert_eq!(DataValue::Int(42), record.as_slice()[0]);
    assert_eq!(DataValue::Boolean(true), record.as_slice()[1]);
    assert_eq!(DataValue::Float(float(99.9)), record.as_slice()[2]);
}

#[test]
fn test_deserialize_fixed_length_with_null() {
    let columns = vec![
        col("id", PrimitiveDataType::Int, false),
        col("is_active", PrimitiveDataType::Boolean, true),
        col("score", PrimitiveDataType::Float, false),
    ];
    let mut bytes = vec![2u8];
    bytes.extend_from_slice(&42i32.to_le_bytes());
    bytes.extend_from_slice(&99.9f64.to_le_bytes());
    let record = RecordSerializer::deserialize(&columns, &bytes).expect("Deserialization should succeed");
    assert_eq!(3, record.len());
    assert_eq!(DataValue::Int(42), record.as_slice()[0]);
    assert_eq!(DataValue::Null, record.as_slice()[1]);
    assert_eq!(DataValue::Float(float(99.9)), record.as_slice()[2]);
}

#[test]
fn test_deserialize_variable_length() {
    let columns = vec![col("id", PrimitiveDataType::Int, false), col("name", PrimitiveDataType::Varchar(255), false)];
    let mut bytes = vec![0u8];
    bytes.extend_from_slice(&10i32.to_le_bytes());
    bytes.extend_from_slice(&5i32.to_le_bytes());
    bytes.extend_from_slice("Alice".as_bytes());
    let record = RecordSerializer::deserialize(&columns, &bytes).expect("Deserialization should succeed");
    assert_eq!(2, record.len());
    assert_eq!(DataValue::Int(10), record.as_slice()[0]);
    assert_eq!(DataValue::Text("Alice".to_string()), record.as_slice()[1]);
}

#[test]
fn test_deserialize_interleaved_and_nulls() {
    let columns = vec![
        col("id", PrimitiveDataType::Int, false),
        col("name", PrimitiveDataType::Varchar(255), true),
        col("is_active", PrimitiveDataType::Boolean, false),
        col("bio", PrimitiveDataType::Blob(1024), true),
    ];
    let mut bytes = vec![2u8];
    bytes.extend_from_slice(&100i32.to_le_bytes());
    bytes.extend_from_slice(&[1u8]);
    bytes.extend_from_slice(&2i32.to_le_bytes());
    bytes.extend_from_slice(&[0xDE, 0xAD]);
    let record = RecordSerializer::deserialize(&columns, &bytes).expect("Complex deserialization should succeed");
    assert_eq!(4, record.len());
    assert_eq!(DataValue::Int(100), record.as_slice()[0]);
    assert_eq!(DataValue::Null, record.as_slice()[1]);
    assert_eq!(DataValue::Boolean(true), record.as_slice()[2]);
    assert_eq!(DataValue::Blob(vec![0xDE, 0xAD]), record.as_slice()[3]);
}

#[test]
fn test_deserialize_bitmap_overflow() {
    let mut columns = Vec::new();
    for i in 0..10 {
        columns.push(col(&format!("col_{}", i), PrimitiveDataType::Int, true));
    }
    let mut bytes = vec![1u8, 2u8];
    for i in 1..9 {
        bytes.extend_from_slice(&(i as i32).to_le_bytes());
    }
    let record = RecordSerializer::deserialize(&columns, &bytes).expect("Should handle multi-byte bitmap");
    assert_eq!(10, record.len());
    assert_eq!(DataValue::Null, record.as_slice()[0]);
    assert_eq!(DataValue::Int(1), record.as_slice()[1]);
    assert_eq!(DataValue::Int(8), record.as_slice()[8]);
    assert_eq!(DataValue::Null, record.as_slice()[9]);
}

#[test]
fn test_deserialize_primary_key() {
    let mut schema = TableDefinition::new("multi_pk_table".to_string()).unwrap();
    schema.add_column(col("id", PrimitiveDataType::Int, false));
    schema.add_column(col("name", PrimitiveDataType::Varchar(255), false));
    schema.add_column(col("region_code", PrimitiveDataType::Int, false));
    schema.add_constraint(
        Constraint::primary_key("pk".to_string(), vec!["id".to_string(), "region_code".to_string()]).unwrap(),
    );
    let mut bytes = vec![0u8];
    bytes.extend_from_slice(&500i32.to_le_bytes());
    bytes.extend_from_slice(&99i32.to_le_bytes());
    bytes.extend_from_slice(&6i32.to_le_bytes());
    bytes.extend_from_slice("Worker".as_bytes());
    let key = RecordSerializer::deserialize_primary_key(&schema, &bytes).expect("Should extract PK");
    assert_eq!(2, key.len());
    assert_eq!(DataValue::Int(500), key.as_slice()[0]);
    assert_eq!(DataValue::Int(99), key.as_slice()[1]);
}

#[test]
fn deserialize_rejects_null_in_non_nullable_column() {
    let columns = vec![col("id", PrimitiveDataType::Int, false)];
    let bytes = vec![1u8];
    assert_eq!(
        RecordSerializer::deserialize(&columns, &bytes),
        Err(SerializationError::NullValueForNonNullColumnFound)
    );
}

#[test]
fn deserialize_key_rejects_null_key_value() {
    let columns = vec![col("id", PrimitiveDataType::Int, true), col("name", PrimitiveDataType::Varchar(10), false)];
    let mut bytes = vec![1u8];
    bytes.extend_from_slice(&1i32.to_le_bytes());
    bytes.push(b'a');
    let key_cols = vec![&columns[0]];
    assert_eq!(
        RecordSerializer::deserialize_key(&columns, &key_cols, &bytes),
        Err(SerializationError::NullPrimaryKeyColumnValue)
    );
}

#[test]
fn deserialize_key_follows_key_column_order() {
    let columns = vec![
        col("name", PrimitiveDataType::Varchar(10), false),
        col("a", PrimitiveDataType::Int, false),
        col("b", PrimitiveDataType::BigInt, false),
    ];
    let record = Record::from_values(vec![DataValue::Text("zed".to_string()), DataValue::Int(7), DataValue::BigInt(-9)]);
    let bytes = RecordSerializer::serialize(&columns, &record).unwrap();
    let key_cols = vec![&columns[2], &columns[0]];
    let key = RecordSerializer::deserialize_key(&columns, &key_cols, &bytes).unwrap();
    assert_eq!(key.as_slice(), &[DataValue::BigInt(-9), DataValue::Text("zed".to_string())]);
}

#[test]
fn deserialize_primary_key_without_primary_key() {
    let mut schema = TableDefinition::new("t".to_string()).unwrap();
    schema.add_column(col("id", PrimitiveDataType::Int, false));
    let bytes = vec![0u8, 1, 0, 0, 0];
    assert_eq!(
        RecordSerializer::deserialize_primary_key(&schema, &bytes).err(),
        Some(SerializationError::PrimaryKeyNotFound)
    );
}

#[test]
fn serialize_then_deserialize_gives_the_record_back() {
    let columns = vec![
        col("id", PrimitiveDataType::Int, false),
        col("name", PrimitiveDataType::Varchar(50), true),
        col("big", PrimitiveDataType::BigInt, false),
        col("bio", PrimitiveDataType::Blob(50), true),
        col("flag", PrimitiveDataType::Boolean, false),
        col("price", PrimitiveDataType::Decimal(10, 3), false),
        col("at", PrimitiveDataType::DateTime, true),
        col("score", PrimitiveDataType::Float, false),
        col("note", PrimitiveDataType::Varchar(50), true),
    ];
    let record = Record::from_values(vec![
        DataValue::Int(-17),
        DataValue::Text("h\u{e9}llo".to_string()),
        DataValue::BigInt(i64::MIN),
        DataValue::Null,
        DataValue::Boolean(false),
        DataValue::Decimal(from_rust_decimal(rust_decimal::Decimal::new(-123456, 3))),
        DataValue::DateTime(1_700_000_000),
        DataValue::Float(float(-0.5)),
        DataValue::Null,
    ]);
    let bytes = RecordSerializer::serialize(&columns, &record).unwrap();
    assert_eq!(bytes[0], 0b1000);
    assert_eq!(bytes[1], 0b1);
    let back = RecordSerializer::deserialize(&columns, &bytes).unwrap();
    assert_eq!(back, record);
}

#[test]
fn null_bitmap_size_rounds_up() {
    let mut columns = Vec::new();
    assert_eq!(RecordSerializer::get_null_bitmap_size(&columns), 0);
    for i in 0..9 {
        columns.push(col(&format!("c{}", i), PrimitiveDataType::Int, true));
    }
    assert_eq!(RecordSerializer::get_null_bitmap_size(&columns[..8]), 1);
    assert_eq!(RecordSerializer::get_null_bitmap_size(&columns), 2);
}
