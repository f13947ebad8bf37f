use std::collections::hash_map::DefaultHasher;
use std::collections::HashSet;
use std::hash::{Hash, Hasher};
use std::str::FromStr;

use rarmdb::data_value::DataValue;
use rarmdb::decimal::Decimal;
use rarmdb::key::Key;
use rarmdb::order::ValueOrder;
use rarmdb::ordered_float::OrderedFloat;
use rarmdb::primitive_data_type::PrimitiveDataType;
use rarmdb::record::Record;

fn dec(s: &str) -> Decimal {
    let d = rust_decimal::Decimal::from_str(s).unwrap();
    let u = d.unpack();
    Decimal::from_parts(u.lo, u.mid, u.hi, u.negative, u.scale)
}

fn float(v: f64) -> OrderedFloat {
    OrderedFloat(v.to_bits())
}

#[test]
fn test_float_nan_equality() {
    let v1 = DataValue::Float(float(f64::NAN));
    let v2 = DataValue::Float(float(f64::NAN));
    assert_eq!(v1, v2);
}

#[test]
fn test_blob_equality() {
    let v1 = DataValue::Blob(vec![1, 2, 3]);
    let v2 = DataValue::Blob(vec![1, 2, 3]);
    assert_eq!(v1, v2);
}

#[test]
fn test_structural_ordering() {
    let null_val = DataValue::Null;
    let int_val = DataValue::Int(0);
    assert_eq!(null_val.compare(&int_val), ValueOrder::Less);
}

#[test]
fn test_decimal_equality_normalization() {
    let d1 = DataValue::Decimal(dec("1.0"));
    let d2 = DataValue::Decimal(dec("1.00"));
    assert_eq!(d1, d2);
}

#[test]
fn test_type_compatibility_varchar() {
    let schema_type = PrimitiveDataType::Varchar(5);
    let val_valid = DataValue::Text("Hello".to_string());
    assert!(val_valid.is_compatible(&schema_type), "'Hello' should fit in VARCHAR(5)");
    let val_too_long = DataValue::Text("Hello World".to_string());
    assert!(!val_too_long.is_compatible(&schema_type), "'Hello World' should NOT fit in VARCHAR(5)");
}

#[test]
fn test_type_compatibility_blob() {
    let schema_type = PrimitiveDataType::Blob(5);
    let val_valid = DataValue::Blob(vec![1, 2, 3, 4, 5]);
    assert!(val_valid.is_compatible(&schema_type), "5 bytes should fit in BLOB(5)");
    let val_empty = DataValue::Blob(vec![]);
    assert!(val_empty.is_compatible(&schema_type), "Empty bytes should fit in BLOB(5)");
    let val_too_long = DataValue::Blob(vec![1, 2, 3, 4, 5, 6]);
    assert!(!val_too_long.is_compatible(&schema_type), "6 bytes should NOT fit in BLOB(5)");
}

#[test]
fn test_type_compatibility_mismatch() {
    let schema_blob = PrimitiveDataType::Blob(10);
    let val_text = DataValue::Text("hello".to_string());
    assert!(!val_text.is_compatible(&schema_blob), "Text should not be compatible with Blob schema");
    let schema_varchar = PrimitiveDataType::Varchar(10);
    let val_blob = DataValue::Blob(vec![1]);
    assert!(!val_blob.is_compatible(&schema_varchar), "Blob should not be compatible with Varchar schema");
}

#[test]
fn test_type_compatibility_int() {
    let schema_int = PrimitiveDataType::Int;
    let schema_bigint = PrimitiveDataType::BigInt;
    let val_int = DataValue::Int(100);
    let val_bigint = DataValue::BigInt(100);
    assert!(val_int.is_compatible(&schema_int));
    assert!(val_int.is_compatible(&schema_bigint));
    assert!(!val_bigint.is_compatible(&schema_int));
}

#[test]
fn test_type_compatibility_decimal() {
    let schema_decimal = PrimitiveDataType::Decimal(4, 2);
    assert!(DataValue::Decimal(dec("10.50")).is_compatible(&schema_decimal));
    assert!(DataValue::Decimal(dec("1.1")).is_compatible(&schema_decimal));
    assert!(DataValue::Decimal(dec("0.99")).is_compatible(&schema_decimal));
    assert!(!DataValue::Decimal(dec("100.50")).is_compatible(&schema_decimal));
    assert!(!DataValue::Decimal(dec("1.123")).is_compatible(&schema_decimal));
}

#[test]
fn compatibility_of_text_counts_utf8_bytes() {
    let schema_type = PrimitiveDataType::Varchar(4);
    assert!(DataValue::Text("\u{e9}\u{e9}".to_string()).is_compatible(&schema_type));
    assert!(!DataValue::Text("\u{e9}\u{e9}\u{e9}".to_string()).is_compatible(&schema_type));
    assert!(DataValue::Null.is_compatible(&schema_type));
    assert!(DataValue::Decimal(dec("-99.99")).is_compatible(&PrimitiveDataType::Decimal(4, 2)));
    assert!(!DataValue::Decimal(dec("-100")).is_compatible(&PrimitiveDataType::Decimal(4, 2)));
}

#[test]
fn value_order_by_kind_then_payload() {
    assert_eq!(DataValue::Int(3).compare(&DataValue::Int(-3)), ValueOrder::Greater);
    assert_eq!(DataValue::Boolean(false).compare(&DataValue::Boolean(true)), ValueOrder::Less);
    assert_eq!(DataValue::Text("b".to_string()).compare(&DataValue::Text("ab".to_string())), ValueOrder::Greater);
    assert_eq!(DataValue::Blob(vec![1, 2]).compare(&DataValue::Blob(vec![1, 2, 0])), ValueOrder::Less);
    assert_eq!(DataValue::Decimal(dec("2.5")).compare(&DataValue::Decimal(dec("10"))), ValueOrder::Less);
    assert_eq!(DataValue::Decimal(dec("-0.00")).compare(&DataValue::Decimal(dec("0"))), ValueOrder::Equal);
    assert_eq!(DataValue::Int(5).compare(&DataValue::Text("1".to_string())), ValueOrder::Less);
    assert_eq!(DataValue::Decimal(dec("1")).compare(&DataValue::Null), ValueOrder::Greater);
}

#[test]
fn cloned_value_is_equal() {
    let v = DataValue::Text("Alice".to_string());
    assert_eq!(v.clone(), v);
    let d = DataValue::Decimal(dec("12.345"));
    assert_eq!(d.clone(), d);
}

#[test]
fn test_key_equality() {
    let k1 = Key::from_values(vec![DataValue::Int(1)]);
    let k2 = Key::from_values(vec![DataValue::Int(1)]);
    let k3 = Key::from_values(vec![DataValue::Int(2)]);
    assert_eq!(k1, k2);
    assert_ne!(k1, k3);
}

#[test]
fn test_single_column_ordering() {
    let k1 = Key::from_values(vec![DataValue::Int(10)]);
    let k2 = Key::from_values(vec![DataValue::Int(20)]);
    assert_eq!(k1.compare(&k2), ValueOrder::Less);
    assert_eq!(k2.compare(&k1), ValueOrder::Greater);
}

#[test]
fn test_composite_key_ordering() {
    let k1 = Key::from_values(vec![DataValue::Int(1), DataValue::Int(1)]);
    let k2 = Key::from_values(vec![DataValue::Int(1), DataValue::Int(2)]);
    let k3 = Key::from_values(vec![DataValue::Int(2), DataValue::Int(1)]);
    assert_eq!(k1.compare(&k2), ValueOrder::Less);
    assert_eq!(k2.compare(&k3), ValueOrder::Less);
    assert_eq!(k1.compare(&k3), ValueOrder::Less);
}

#[test]
fn test_mixed_type_ordering() {
    let k_int = Key::from_values(vec![DataValue::Int(1)]);
    let k_text = Key::from_values(vec![DataValue::Text("1".to_string())]);
    assert!(k_int.compare(&k_text) == ValueOrder::Less || k_text.compare(&k_int) == ValueOrder::Less);
}

#[test]
fn test_from_conversions() {
    let k1 = Key::from_value(DataValue::Int(100));
    assert_eq!(k1.len(), 1);
    assert_eq!(k1.get(0), Some(&DataValue::Int(100)));
    let k2 = Key::from_values(vec![DataValue::Int(1), DataValue::Int(2)]);
    assert_eq!(k2.len(), 2);
}

#[test]
fn test_len() {
    let k1 = Key::from_values(vec![DataValue::Int(1)]);
    assert_eq!(k1.len(), 1);
    let k0 = Key::from_values(Vec::new());
    assert_eq!(k0.len(), 0);
}

#[test]
fn test_is_empty() {
    let k_empty = Key::from_values(Vec::new());
    assert!(k_empty.is_empty());
    let k_full = Key::from_value(DataValue::Int(1));
    assert!(!k_full.is_empty());
}

#[test]
fn test_slice_behavior() {
    let v1 = DataValue::Int(10);
    let v2 = DataValue::Text("test".to_string());
    let key = Key::from_values(vec![v1.clone(), v2.clone()]);
    let slice = key.as_slice();
    assert_eq!(slice.len(), 2);
    assert_eq!(slice[0], v1);
    assert_eq!(slice[1], v2);
}

#[test]
fn test_complex_composite_key_ordering_mixed() {
    let k1 = Key::from_values(vec![
        DataValue::Int(5),
        DataValue::Text("Abe".to_string()),
        DataValue::Float(float(3.533)),
    ]);
    let k2 = Key::from_values(vec![
        DataValue::Int(5),
        DataValue::Text("Bob".to_string()),
        DataValue::Float(float(3.533)),
    ]);
    assert_eq!(k1.compare(&k2), ValueOrder::Less, "(5, Abe, ...) should be less than (5, Bob, ...)");
    assert_ne!(k1, k2);
}

#[test]
fn shorter_key_prefix_comes_first() {
    let k1 = Key::from_values(vec![DataValue::Int(5)]);
    let k2 = Key::from_values(vec![DataValue::Int(5), DataValue::Null]);
    assert_eq!(k1.compare(&k2), ValueOrder::Less);
    assert_eq!(k1.clone(), k1);
}

#[test]
fn test_equality_normal_numbers() {
    let a = float(1.5);
    let b = float(1.5);
    let c = float(2.0);
    assert_eq!(a, b);
    assert_ne!(a, c);
}

#[test]
fn test_equality_nan() {
    let nan1 = float(f64::NAN);
    let nan2 = float(f64::NAN);
    let num = float(1.0);
    assert_eq!(nan1, nan2, "NaN should equal NaN");
    assert_ne!(nan1, num, "NaN should not equal a number");
}

#[test]
fn test_ordering_normal_numbers() {
    let a = float(1.0);
    let b = float(2.0);
    let c = float(1.0);
    assert_eq!(a.compare(&b), ValueOrder::Less);
    assert_eq!(b.compare(&a), ValueOrder::Greater);
    assert_ne!(a.compare(&c), ValueOrder::Greater);
    assert_ne!(a.compare(&c), ValueOrder::Less);
}

#[test]
fn test_ordering_nan() {
    let nan = float(f64::NAN);
    let inf = float(f64::INFINITY);
    let neg_inf = float(f64::NEG_INFINITY);
    let zero = float(0.0);
    assert_eq!(nan.compare(&inf), ValueOrder::Greater);
    assert_eq!(nan.compare(&zero), ValueOrder::Greater);
    assert_eq!(nan.compare(&neg_inf), ValueOrder::Greater);
    assert_eq!(inf.compare(&nan), ValueOrder::Less);
}

#[test]
fn test_sorting_vec() {
    let mut list = vec![
        float(1.0),
        float(f64::NAN),
        float(f64::NEG_INFINITY),
        float(0.0),
        float(f64::INFINITY),
        float(-5.0),
    ];
    // Insertion sort by `compare`.
    for i in 1..list.len() {
        let mut j = i;
        while j > 0 && list[j - 1].compare(&list[j]) == ValueOrder::Greater {
            list.swap(j - 1, j);
            j -= 1;
        }
    }
    assert_eq!(f64::from_bits(list[0].0), f64::NEG_INFINITY);
    assert_eq!(f64::from_bits(list[1].0), -5.0);
    assert_eq!(f64::from_bits(list[2].0), 0.0);
    assert_eq!(f64::from_bits(list[3].0), 1.0);
    assert_eq!(f64::from_bits(list[4].0), f64::INFINITY);
    assert!(f64::from_bits(list[5].0).is_nan());
}

fn hash_of<T: Hash>(v: &T) -> u64 {
    let mut hasher = DefaultHasher::new();
    v.hash(&mut hasher);
    hasher.finish()
}

#[test]
fn test_hash_zeros() {
    let zero = float(0.0);
    let neg_zero = float(-0.0);
    assert_eq!(zero, neg_zero);
    assert_eq!(hash_of(&zero), hash_of(&neg_zero), "0.0 and -0.0 must hash to the same value");
    assert_eq!(zero.hash_bits(), neg_zero.hash_bits());
}

#[test]
fn test_hash_nan() {
    let nan1 = float(f64::NAN);
    let nan2 = float(f64::NAN);
    assert_eq!(hash_of(&nan1), hash_of(&nan2), "All NaNs must hash to the same value");
    let other_nan = OrderedFloat(f64::NAN.to_bits() | 1);
    assert!(other_nan.is_nan());
    assert_eq!(hash_of(&nan1), hash_of(&other_nan));
}

#[test]
fn test_hash_map_usage() {
    let mut set = HashSet::new();
    set.insert(float(0.0));
    set.insert(float(f64::NAN));
    set.insert(float(1.5));

    assert!(set.contains(&float(-0.0)));
    assert!(set.contains(&float(f64::NAN)));
    assert!(set.contains(&float(1.5)));
    assert!(!set.contains(&float(2.0)));
}

#[test]
fn test_hashing_capabilities() {
    let mut set = HashSet::new();
    let v1 = DataValue::Int(42);
    set.insert(v1.clone());
    assert!(set.contains(&v1));
}

#[test]
fn equal_decimals_hash_alike() {
    let a = DataValue::Decimal(dec("1.50"));
    let b = DataValue::Decimal(dec("1.5"));
    assert_eq!(a, b);
    assert_eq!(hash_of(&a), hash_of(&b));
    let mut keys = HashSet::new();
    keys.insert(Key::from_values(vec![DataValue::Int(1), a]));
    assert!(keys.contains(&Key::from_values(vec![DataValue::Int(1), b])));
}

#[test]
fn float_order_of_signs() {
    assert_eq!(float(-2.0).compare(&float(-1.0)), ValueOrder::Less);
    assert_eq!(float(-0.0).compare(&float(0.0)), ValueOrder::Equal);
    assert_eq!(float(1.0e300).compare(&float(f64::INFINITY)), ValueOrder::Less);
    assert_eq!(float(-1.5).hash_bits(), (-1.5f64).to_bits());
}

#[test]
fn test_record_creation_and_access() {
    let values = vec![DataValue::Int(1), DataValue::Text("Alice".to_string()), DataValue::Boolean(true)];
    let record = Record::from_values(values.clone());
    assert_eq!(record.len(), 3);
    assert!(!record.is_empty());
    assert_eq!(record.get(0), Some(&values[0]));
    assert_eq!(record.get(1), Some(&values[1]));
    assert_eq!(record.get(2), Some(&values[2]));
    assert_eq!(record.get(3), None);
    assert_eq!(record.as_slice()[0], values[0]);
}

#[test]
fn test_record_equality() {
    let r1 = Record::from_values(vec![DataValue::Int(1), DataValue::Int(2)]);
    let r2 = Record::from_values(vec![DataValue::Int(1), DataValue::Int(2)]);
    let r3 = Record::from_values(vec![DataValue::Int(1), DataValue::Int(3)]);
    assert_eq!(r1, r2);
    assert_ne!(r1, r3);
}

#[test]
fn test_small_record_optimization() {
    let small = Record::from_values(vec![DataValue::Int(1), DataValue::Int(2), DataValue::Int(3), DataValue::Int(4)]);
    assert_eq!(small.len(), 4);
}

#[test]
fn test_large_record_spill() {
    let large = Record::from_values(vec![
        DataValue::Int(1),
        DataValue::Int(2),
        DataValue::Int(3),
        DataValue::Int(4),
        DataValue::Int(5),
    ]);
    assert_eq!(large.len(), 5);
    assert_eq!(large.get(4), Some(&DataValue::Int(5)));
}

#[test]
fn record_from_one_value() {
    let r = Record::from_value(DataValue::Int(42));
    assert_eq!(r.len(), 1);
    assert_eq!(r.clone(), r);
}

fn flip(o: ValueOrder) -> ValueOrder {
    match o {
        ValueOrder::Less => ValueOrder::Greater,
        ValueOrder::Equal => ValueOrder::Equal,
        ValueOrder::Greater => ValueOrder::Less,
    }
}

#[test]
fn key_order_is_antisymmetric_and_transitive() {
    let keys = vec![
        Key::from_values(vec![DataValue::Null]),
        Key::from_values(vec![DataValue::Int(-3), DataValue::Text("a".to_string())]),
        Key::from_values(vec![DataValue::Int(-3), DataValue::Text("b".to_string())]),
        Key::from_values(vec![DataValue::Int(7)]),
        Key::from_values(vec![DataValue::Float(float(f64::NAN))]),
        Key::from_values(vec![DataValue::Decimal(dec("1.50"))]),
        Key::from_values(vec![DataValue::Decimal(dec("1.5"))]),
        Key::from_values(vec![DataValue::Blob(vec![1, 2]), DataValue::BigInt(4)]),
    ];
    for a in &keys {
        assert_eq!(ValueOrder::Equal, a.compare(a));
        for b in &keys {
            assert_eq!(flip(a.compare(b)), b.compare(a));
            for c in &keys {
                let (ab, bc) = (a.compare(b), b.compare(c));
                if ab == ValueOrder::Equal {
                    assert_eq!(bc, a.compare(c));
                } else if bc == ValueOrder::Equal || ab == bc {
                    assert_eq!(ab, a.compare(c));
                }
            }
        }
    }
}

#[test]
fn decimals_with_different_scales_compare_equal() {
    let a = DataValue::Decimal(dec("1.50"));
    let b = DataValue::Decimal(dec("1.5"));
    assert_eq!(ValueOrder::Equal, a.compare(&b));
    assert_eq!(ValueOrder::Less, DataValue::Decimal(dec("-0.01")).compare(&DataValue::Decimal(dec("0"))));
}

#[test]
fn decimal_bytes_read_back() {
    for s in ["0", "-0.000", "1.5", "-123456789.0123456789", "79228162514264337593543950335"] {
        let d = dec(s);
        let back = Decimal::from_bytes(d.to_bytes());
        assert_eq!(d.scale(), back.scale());
        assert!(d == back);
        assert_eq!(d.to_bytes(), back.to_bytes());
    }
}

fn decimal_bytes_of(flags_scale: u8, flags_sign: u8, lo: u32) -> [u8; 16] {
    let mut b = [0u8; 16];
    b[2] = flags_scale;
    b[3] = flags_sign;
    b[4..8].copy_from_slice(&lo.to_le_bytes());
    b
}

#[test]
fn decimal_bytes_with_scale_above_28_are_rounded_to_28() {
    assert_eq!(decimal_bytes_of(28, 0, 2), Decimal::from_bytes(decimal_bytes_of(29, 0, 15)).to_bytes());
    assert_eq!(decimal_bytes_of(28, 0, 1), Decimal::from_bytes(decimal_bytes_of(29, 0, 14)).to_bytes());
    assert_eq!(decimal_bytes_of(28, 128, 3), Decimal::from_bytes(decimal_bytes_of(29, 128, 25)).to_bytes());
    assert_eq!(decimal_bytes_of(28, 0, 2), Decimal::from_bytes(decimal_bytes_of(31, 0, 1234)).to_bytes());
    assert_eq!(decimal_bytes_of(28, 0, 13), Decimal::from_bytes(decimal_bytes_of(30, 0, 1234)).to_bytes());
    assert_eq!(28, Decimal::from_bytes(decimal_bytes_of(31, 0, 7)).scale());
    assert_eq!(decimal_bytes_of(5, 0, 77), Decimal::from_bytes(decimal_bytes_of(5, 0, 77)).to_bytes());
}
