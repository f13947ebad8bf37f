use vstd::prelude::*;
use vstd::utf8::encode_utf8;

use crate::decimal::{digit_count, parts_mantissa, pow10, decimal_order, Decimal, DecimalParts};
use crate::order::{bytes_order, compare_bytes, int_order, ValueOrder};
use crate::ordered_float::{float_order, OrderedFloat};
use crate::primitive_data_type::PrimitiveDataType;

verus! {

/// What a data value is, mathematically: text as its characters, a blob as its bytes, a double
/// as its bit pattern and a decimal as its parts.
pub enum ValueModel {
    Null,
    Int(i32),
    BigInt(i64),
    Boolean(bool),
    Float(u64),
    Text(Seq<char>),
    Blob(Seq<u8>),
    DateTime(i64),
    Decimal(DecimalParts),
}

/// A single value of a record, of one of the supported types.
#[derive(Debug, Hash)]
pub enum DataValue {
    Null,
    Int(i32),
    BigInt(i64),
    Boolean(bool),
    Float(OrderedFloat),
    Text(String),
    Blob(Vec<u8>),
    DateTime(i64),
    Decimal(Decimal),
}

impl View for DataValue {
    type V = ValueModel;

    open spec fn view(&self) -> ValueModel {
        match self {
            DataValue::Null => ValueModel::Null,
            DataValue::Int(v) => ValueModel::Int(*v),
            DataValue::BigInt(v) => ValueModel::BigInt(*v),
            DataValue::Boolean(v) => ValueModel::Boolean(*v),
            DataValue::Float(v) => ValueModel::Float(v.0),
            DataValue::Text(v) => ValueModel::Text(v@),
            DataValue::Blob(v) => ValueModel::Blob(v@),
            DataValue::DateTime(v) => ValueModel::DateTime(*v),
            DataValue::Decimal(v) => ValueModel::Decimal(v@),
        }
    }
}

/// The position of a value's kind in the order of kinds: `Null` first, `Decimal` last.
pub open spec fn kind_rank(v: ValueModel) -> int {
    match v {
        ValueModel::Null => 0,
        ValueModel::Int(_) => 1,
        ValueModel::BigInt(_) => 2,
        ValueModel::Boolean(_) => 3,
        ValueModel::Float(_) => 4,
        ValueModel::Text(_) => 5,
        ValueModel::Blob(_) => 6,
        ValueModel::DateTime(_) => 7,
        ValueModel::Decimal(_) => 8,
    }
}

/// The order of values: values of different kinds are ordered by kind; integers by value,
/// `false` before `true`, doubles by `float_order`, text by its UTF-8 bytes, blobs by their
/// bytes and decimals by numeric value.
pub open spec fn value_order(a: ValueModel, b: ValueModel) -> ValueOrder {
    match (a, b) {
        (ValueModel::Null, ValueModel::Null) => ValueOrder::Equal,
        (ValueModel::Int(x), ValueModel::Int(y)) => int_order(x as int, y as int),
        (ValueModel::BigInt(x), ValueModel::BigInt(y)) => int_order(x as int, y as int),
        (ValueModel::Boolean(x), ValueModel::Boolean(y)) => int_order(
            if x { 1 } else { 0 },
            if y { 1 } else { 0 },
        ),
        (ValueModel::Float(x), ValueModel::Float(y)) => float_order(x, y),
        (ValueModel::Text(x), ValueModel::Text(y)) => bytes_order(encode_utf8(x), encode_utf8(y)),
        (ValueModel::Blob(x), ValueModel::Blob(y)) => bytes_order(x, y),
        (ValueModel::DateTime(x), ValueModel::DateTime(y)) => int_order(x as int, y as int),
        (ValueModel::Decimal(x), ValueModel::Decimal(y)) => decimal_order(x, y),
        _ => int_order(kind_rank(a), kind_rank(b)),
    }
}

/// Whether a value may be stored in a column of the given type. `Null` fits every type; an
/// `Int` also fits a `BigInt` column; text and blobs must not exceed the type's length in
/// bytes; a decimal must not have more digits after the point than the type's scale, nor more
/// digits before it than precision minus scale.
pub open spec fn value_compatible(v: ValueModel, t: PrimitiveDataType) -> bool {
    match (v, t) {
        (ValueModel::Null, _) => true,
        (ValueModel::Int(_), PrimitiveDataType::Int) => true,
        (ValueModel::Int(_), PrimitiveDataType::BigInt) => true,
        (ValueModel::BigInt(_), PrimitiveDataType::BigInt) => true,
        (ValueModel::Boolean(_), PrimitiveDataType::Boolean) => true,
        (ValueModel::Float(_), PrimitiveDataType::Float) => true,
        (ValueModel::Text(s), PrimitiveDataType::Varchar(max)) => encode_utf8(s).len() <= max,
        (ValueModel::Blob(b), PrimitiveDataType::Blob(max)) => b.len() <= max,
        (ValueModel::DateTime(_), PrimitiveDataType::DateTime) => true,
        (ValueModel::Decimal(d), PrimitiveDataType::Decimal(p, s)) => {
            let int_part = parts_mantissa(d) / pow10(d.scale as nat);
            d.scale <= s && (int_part == 0 || digit_count(int_part) <= p - s)
        },
        _ => false,
    }
}

/// A decimal value with a nonzero integer part is checked against a decimal type whose scale
/// exceeds its precision: the check would subtract the scale from the precision below zero.
pub open spec fn compatibility_underflows(v: ValueModel, t: PrimitiveDataType) -> bool {
    match (v, t) {
        (ValueModel::Decimal(d), PrimitiveDataType::Decimal(p, s)) => d.scale <= s && parts_mantissa(d)
            / pow10(d.scale as nat) != 0 && s > p,
        _ => false,
    }
}

/// The number of decimal digits of a positive integer.
fn count_digits(n: u128) -> (r: u32)
    requires
        n > 0,
    ensures
        r == digit_count(n as nat),
{
    proof {
        reveal_with_fuel(pow10, 40);
        assert(pow10(39) == 1000000000000000000000000000000000000000nat);
        lemma_digits_le(n as nat, 39);
    }
    let mut q: u128 = n;
    let mut c: u32 = 1;
    while q >= 10
        invariant
            q > 0,
            c + digit_count(q as nat) == 1 + digit_count(n as nat),
            digit_count(n as nat) <= 39,
        decreases q,
    {
        q = q / 10;
        c = c + 1;
    }
    c
}

/// A number below 10^k has at most k digits.
proof fn lemma_digits_le(n: nat, k: nat)
    requires
        k >= 1,
        n < pow10(k),
    ensures
        digit_count(n) <= k,
    decreases k,
{
    if n >= 10 {
        assert(pow10(k) == 10 * pow10((k - 1) as nat));
        assert(n / 10 < pow10((k - 1) as nat));
        if k - 1 >= 1 {
            lemma_digits_le(n / 10, (k - 1) as nat);
        } else {
            assert(pow10(0) == 1);
        }
    }
}

impl DataValue {
    /// Whether the value may be stored in a column of the given type (see `value_compatible`).
    pub fn is_compatible(&self, schema_type: &PrimitiveDataType) -> (r: bool)
        requires
            !compatibility_underflows(self@, *schema_type),
        ensures
            r == value_compatible(self@, *schema_type),
    {
        match (self, *schema_type) {
            (DataValue::Null, _) => true,
            (DataValue::Int(_), PrimitiveDataType::Int) => true,
            (DataValue::Int(_), PrimitiveDataType::BigInt) => true,
            (DataValue::BigInt(_), PrimitiveDataType::BigInt) => true,
            (DataValue::Boolean(_), PrimitiveDataType::Boolean) => true,
            (DataValue::Float(_), PrimitiveDataType::Float) => true,
            (DataValue::Text(val), PrimitiveDataType::Varchar(max_len)) => {
                val.as_str().as_bytes().len() <= max_len as usize
            },
            (DataValue::Blob(val), PrimitiveDataType::Blob(max_len)) => {
                val.len() <= max_len as usize
            },
            (DataValue::DateTime(_), PrimitiveDataType::DateTime) => true,
            (DataValue::Decimal(val), PrimitiveDataType::Decimal(p, s)) => {
                let scale = val.scale();
                if scale > s as u32 {
                    return false;
                }
                let integer_part = val.integer_part();
                if integer_part == 0 {
                    return true;
                }
                let integer_digit_count = count_digits(integer_part);
                integer_digit_count <= (p - s) as u32
            },
            _ => false,
        }
    }

    /// Compares two values in the order of `value_order`.
    pub fn compare(&self, other: &DataValue) -> (r: ValueOrder)
        ensures
            r == value_order(self@, other@),
    {
        match (self, other) {
            (DataValue::Null, DataValue::Null) => ValueOrder::Equal,
            (DataValue::Int(x), DataValue::Int(y)) => compare_i64(*x as i64, *y as i64),
            (DataValue::BigInt(x), DataValue::BigInt(y)) => compare_i64(*x, *y),
            (DataValue::Boolean(x), DataValue::Boolean(y)) => compare_i64(
                if *x { 1 } else { 0 },
                if *y { 1 } else { 0 },
            ),
            (DataValue::Float(x), DataValue::Float(y)) => x.compare(y),
            (DataValue::Text(x), DataValue::Text(y)) => compare_bytes(
                x.as_str().as_bytes(),
                y.as_str().as_bytes(),
            ),
            (DataValue::Blob(x), DataValue::Blob(y)) => compare_bytes(x.as_slice(), y.as_slice()),
            (DataValue::DateTime(x), DataValue::DateTime(y)) => compare_i64(*x, *y),
            (DataValue::Decimal(x), DataValue::Decimal(y)) => x.compare(y),
            _ => compare_i64(self.kind_rank(), other.kind_rank()),
        }
    }

    fn kind_rank(&self) -> (r: i64)
        ensures
            r == kind_rank(self@),
    {
        match self {
            DataValue::Null => 0,
            DataValue::Int(_) => 1,
            DataValue::BigInt(_) => 2,
            DataValue::Boolean(_) => 3,
            DataValue::Float(_) => 4,
            DataValue::Text(_) => 5,
            DataValue::Blob(_) => 6,
            DataValue::DateTime(_) => 7,
            DataValue::Decimal(_) => 8,
        }
    }

    /// Whether the value is `Null`.
    pub fn is_null(&self) -> (r: bool)
        ensures
            r == (self@ is Null),
    {
        match self {
            DataValue::Null => true,
            _ => false,
        }
    }
}

fn compare_i64(a: i64, b: i64) -> (r: ValueOrder)
    ensures
        r == int_order(a as int, b as int),
{
    if a < b {
        ValueOrder::Less
    } else if a == b {
        ValueOrder::Equal
    } else {
        ValueOrder::Greater
    }
}

impl Clone for DataValue {
    fn clone(&self) -> (r: Self)
        ensures
            r@ == self@,
    {
        match self {
            DataValue::Null => DataValue::Null,
            DataValue::Int(v) => DataValue::Int(*v),
            DataValue::BigInt(v) => DataValue::BigInt(*v),
            DataValue::Boolean(v) => DataValue::Boolean(*v),
            DataValue::Float(v) => DataValue::Float(*v),
            DataValue::Text(v) => DataValue::Text(v.clone()),
            DataValue::Blob(v) => DataValue::Blob(v.clone()),
            DataValue::DateTime(v) => DataValue::DateTime(*v),
            DataValue::Decimal(v) => DataValue::Decimal(*v),
        }
    }
}

impl PartialEq for DataValue {
    fn eq(&self, other: &Self) -> (r: bool) {
        match self.compare(other) {
            ValueOrder::Equal => true,
            _ => false,
        }
    }
}

impl vstd::std_specs::cmp::PartialEqSpecImpl for DataValue {
    open spec fn obeys_eq_spec() -> bool {
        true
    }

    open spec fn eq_spec(&self, other: &Self) -> bool {
        value_order(self@, other@) == ValueOrder::Equal
    }
}

impl Eq for DataValue {

}

} // verus!
