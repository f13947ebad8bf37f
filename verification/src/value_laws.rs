use vstd::prelude::*;
use vstd::std_specs::cmp::PartialEqSpec;
use vstd::utf8::{encode_utf8, encode_utf8_decode_utf8};

use crate::data_value::{value_compatible, value_order, DataValue, ValueModel};
use crate::decimal::{digit_count, lemma_pow10_positive, parts_mantissa, signed_mantissa, pow10, DecimalParts};
use crate::key::{values_order, Key};
use crate::record::Record;
use crate::order::{bytes_order, ValueOrder};
use crate::order_laws::{lemma_bytes_order_laws, lemma_value_order_laws};
use crate::ordered_float::{float_equal, float_is_nan, SIGN_BIT};
use crate::primitive_data_type::PrimitiveDataType;

verus! {

/// Numbers, date-times and booleans compare by their value, as `DataValue::compare` does:
/// the smaller integer, the earlier date-time and `false` come first, and two values compare
/// equal exactly when they are the same.
pub proof fn lemma_scalar_values_compare_by_value(i: i32, j: i32, x: i64, y: i64, p: bool, q: bool)
    ensures
        (value_order(ValueModel::Int(i), ValueModel::Int(j)) == ValueOrder::Less) == (i < j),
        (value_order(ValueModel::Int(i), ValueModel::Int(j)) == ValueOrder::Equal) == (i == j),
        (value_order(ValueModel::Int(i), ValueModel::Int(j)) == ValueOrder::Greater) == (i > j),
        (value_order(ValueModel::BigInt(x), ValueModel::BigInt(y)) == ValueOrder::Less) == (x < y),
        (value_order(ValueModel::BigInt(x), ValueModel::BigInt(y)) == ValueOrder::Equal) == (x == y),
        (value_order(ValueModel::BigInt(x), ValueModel::BigInt(y)) == ValueOrder::Greater) == (x > y),
        (value_order(ValueModel::DateTime(x), ValueModel::DateTime(y)) == ValueOrder::Less) == (x < y),
        (value_order(ValueModel::DateTime(x), ValueModel::DateTime(y)) == ValueOrder::Equal) == (x == y),
        (value_order(ValueModel::DateTime(x), ValueModel::DateTime(y)) == ValueOrder::Greater) == (x > y),
        (value_order(ValueModel::Boolean(p), ValueModel::Boolean(q)) == ValueOrder::Less) == (!p && q),
        (value_order(ValueModel::Boolean(p), ValueModel::Boolean(q)) == ValueOrder::Equal) == (p == q),
        (value_order(ValueModel::Boolean(p), ValueModel::Boolean(q)) == ValueOrder::Greater) == (p && !q),
{
}

/// Values of different kinds compare by the order in which the kinds are declared, whatever
/// they hold: `Null`, `Int`, `BigInt`, `Boolean`, `Float`, `Text`, `Blob`, `DateTime`,
/// `Decimal`. Each kind comes before the next; the order being total, it comes before every
/// later one.
pub proof fn lemma_kinds_compare_in_declaration_order(
    i: i32,
    x: i64,
    p: bool,
    f: u64,
    s: Seq<char>,
    b: Seq<u8>,
    t: i64,
    d: DecimalParts,
)
    ensures
        value_order(ValueModel::Null, ValueModel::Int(i)) == ValueOrder::Less,
        value_order(ValueModel::Int(i), ValueModel::BigInt(x)) == ValueOrder::Less,
        value_order(ValueModel::BigInt(x), ValueModel::Boolean(p)) == ValueOrder::Less,
        value_order(ValueModel::Boolean(p), ValueModel::Float(f)) == ValueOrder::Less,
        value_order(ValueModel::Float(f), ValueModel::Text(s)) == ValueOrder::Less,
        value_order(ValueModel::Text(s), ValueModel::Blob(b)) == ValueOrder::Less,
        value_order(ValueModel::Blob(b), ValueModel::DateTime(t)) == ValueOrder::Less,
        value_order(ValueModel::DateTime(t), ValueModel::Decimal(d)) == ValueOrder::Less,
{
}

/// Two byte strings agreeing on their first `i` bytes and differing at byte `i` are ordered
/// by that byte.
proof fn lemma_bytes_first_difference(x: Seq<u8>, y: Seq<u8>, i: int)
    requires
        0 <= i < x.len(),
        i < y.len(),
        x.take(i) == y.take(i),
        x[i] < y[i],
    ensures
        bytes_order(x, y) == ValueOrder::Less,
    decreases i,
{
    if i > 0 {
        assert(x[0] == x.take(i)[0] && y[0] == y.take(i)[0]);
        assert(x.drop_first().take(i - 1) =~= x.take(i).drop_first());
        assert(y.drop_first().take(i - 1) =~= y.take(i).drop_first());
        lemma_bytes_first_difference(x.drop_first(), y.drop_first(), i - 1);
    }
}

/// A proper prefix comes before the longer byte string.
proof fn lemma_bytes_proper_prefix(x: Seq<u8>, y: Seq<u8>)
    requires
        x.len() < y.len(),
        y.take(x.len() as int) == x,
    ensures
        bytes_order(x, y) == ValueOrder::Less,
    decreases x.len(),
{
    if x.len() > 0 {
        assert(y[0] == y.take(x.len() as int)[0]);
        assert(y.drop_first().take(x.len() - 1) =~= x.drop_first());
        lemma_bytes_proper_prefix(x.drop_first(), y.drop_first());
    }
}

/// Blobs compare lexicographically by their bytes: the first byte in which they differ
/// decides, a proper prefix comes first, and two blobs compare equal exactly when they hold
/// the same bytes. Text compares as the blobs of its UTF-8 bytes, and two texts compare equal
/// exactly when they hold the same characters.
pub proof fn lemma_bytes_and_text_compare_lexicographically(x: Seq<u8>, y: Seq<u8>, s: Seq<char>, t: Seq<char>)
    ensures
        (value_order(ValueModel::Blob(x), ValueModel::Blob(y)) == ValueOrder::Equal) == (x == y),
        forall|i: int|
            0 <= i < x.len() && i < y.len() && x.take(i) == y.take(i) && x[i] < y[i] ==> value_order(
                ValueModel::Blob(x),
                ValueModel::Blob(y),
            ) == ValueOrder::Less,
        x.len() < y.len() && y.take(x.len() as int) == x ==> value_order(ValueModel::Blob(x), ValueModel::Blob(y))
            == ValueOrder::Less,
        value_order(ValueModel::Text(s), ValueModel::Text(t)) == value_order(
            ValueModel::Blob(encode_utf8(s)),
            ValueModel::Blob(encode_utf8(t)),
        ),
        (value_order(ValueModel::Text(s), ValueModel::Text(t)) == ValueOrder::Equal) == (s == t),
{
    lemma_bytes_order_laws(x, y, y);
    lemma_bytes_order_laws(encode_utf8(s), encode_utf8(t), encode_utf8(t));
    assert forall|i: int|
        0 <= i < x.len() && i < y.len() && x.take(i) == y.take(i) && x[i] < y[i] implies value_order(
            ValueModel::Blob(x),
            ValueModel::Blob(y),
        ) == ValueOrder::Less by {
        lemma_bytes_first_difference(x, y, i);
    }
    if x.len() < y.len() && y.take(x.len() as int) == x {
        lemma_bytes_proper_prefix(x, y);
    }
    if encode_utf8(s) == encode_utf8(t) {
        encode_utf8_decode_utf8(s);
        encode_utf8_decode_utf8(t);
    }
}

/// `==` on values is equality of what they hold: doubles are equal as `OrderedFloat`s are
/// (every NaN equals every NaN, and `0.0` equals `-0.0`), decimals when they are the same
/// number (`1.0` equals `1.00`), and every other pair of values when they are of the same kind
/// and hold the same integer, boolean, characters or bytes. Values of different kinds are
/// never equal.
pub proof fn lemma_value_equality(a: DataValue, b: DataValue)
    ensures
        (a@, b@) matches (ValueModel::Float(x), ValueModel::Float(y)) ==> (a.eq_spec(&b) <==> float_equal(x, y)),
        (a@, b@) matches (ValueModel::Decimal(x), ValueModel::Decimal(y)) ==> (a.eq_spec(&b) <==> signed_mantissa(x)
            * pow10(y.scale as nat) == signed_mantissa(y) * pow10(x.scale as nat)),
        !(a@ is Float && b@ is Float) && !(a@ is Decimal && b@ is Decimal) ==> (a.eq_spec(&b) <==> a@ == b@),
        (a@, b@) matches (ValueModel::Blob(x), ValueModel::Blob(y)) ==> (a.eq_spec(&b) <==> x == y),
        (a@, b@) matches (ValueModel::Text(x), ValueModel::Text(y)) ==> (a.eq_spec(&b) <==> x == y),
        kind_differs(a@, b@) ==> !a.eq_spec(&b),
{
    lemma_value_order_laws(a@, a@, a@);
    match (a@, b@) {
        (ValueModel::Blob(x), ValueModel::Blob(y)) => {
            lemma_bytes_and_text_compare_lexicographically(x, y, Seq::empty(), Seq::empty());
        },
        (ValueModel::Text(s), ValueModel::Text(t)) => {
            lemma_bytes_and_text_compare_lexicographically(Seq::empty(), Seq::empty(), s, t);
        },
        _ => {},
    }
}

/// The two values are of different kinds.
pub open spec fn kind_differs(a: ValueModel, b: ValueModel) -> bool {
    match (a, b) {
        (ValueModel::Null, ValueModel::Null) => false,
        (ValueModel::Int(_), ValueModel::Int(_)) => false,
        (ValueModel::BigInt(_), ValueModel::BigInt(_)) => false,
        (ValueModel::Boolean(_), ValueModel::Boolean(_)) => false,
        (ValueModel::Float(_), ValueModel::Float(_)) => false,
        (ValueModel::Text(_), ValueModel::Text(_)) => false,
        (ValueModel::Blob(_), ValueModel::Blob(_)) => false,
        (ValueModel::DateTime(_), ValueModel::DateTime(_)) => false,
        (ValueModel::Decimal(_), ValueModel::Decimal(_)) => false,
        _ => true,
    }
}

/// Which column types a value fits, as `DataValue::is_compatible` answers: `Null` fits every
/// type; an `Int` fits `INT` and `BIGINT`; a `BigInt`, a `Boolean`, a `Float` and a
/// `DateTime` fit exactly the type of their own kind; text fits a `VARCHAR` of at least its
/// number of UTF-8 bytes and a blob a `BLOB` of at least its number of bytes, nothing else;
/// a decimal fits only a `DECIMAL` type whose scale is at least its own.
pub proof fn lemma_value_fits_its_own_kind(
    i: i32,
    x: i64,
    p: bool,
    f: u64,
    s: Seq<char>,
    b: Seq<u8>,
    d: DecimalParts,
    ty: PrimitiveDataType,
)
    ensures
        value_compatible(ValueModel::Null, ty),
        value_compatible(ValueModel::Int(i), ty) == (ty == PrimitiveDataType::Int || ty == PrimitiveDataType::BigInt),
        value_compatible(ValueModel::BigInt(x), ty) == (ty == PrimitiveDataType::BigInt),
        value_compatible(ValueModel::Boolean(p), ty) == (ty == PrimitiveDataType::Boolean),
        value_compatible(ValueModel::Float(f), ty) == (ty == PrimitiveDataType::Float),
        value_compatible(ValueModel::DateTime(x), ty) == (ty == PrimitiveDataType::DateTime),
        value_compatible(ValueModel::Text(s), ty) == (ty matches PrimitiveDataType::Varchar(m) && encode_utf8(s).len()
            <= m),
        value_compatible(ValueModel::Blob(b), ty) == (ty matches PrimitiveDataType::Blob(m) && b.len() <= m),
        value_compatible(ValueModel::Decimal(d), ty) ==> (ty matches PrimitiveDataType::Decimal(_, sc) && d.scale
            <= sc),
{
}

/// After a run of pairs that compare equal, sequences of values compare as what follows.
proof fn lemma_values_order_after_equal_prefix(a: Seq<ValueModel>, b: Seq<ValueModel>, i: int)
    requires
        0 <= i <= a.len(),
        i <= b.len(),
        forall|j: int| 0 <= j < i ==> value_order(#[trigger] a[j], b[j]) == ValueOrder::Equal,
    ensures
        values_order(a, b) == values_order(a.skip(i), b.skip(i)),
    decreases i,
{
    if i > 0 {
        assert(value_order(a[0], b[0]) == ValueOrder::Equal);
        assert forall|j: int| 0 <= j < i - 1 implies value_order(#[trigger] a.drop_first()[j], b.drop_first()[j])
            == ValueOrder::Equal by {
            assert(value_order(a[j + 1], b[j + 1]) == ValueOrder::Equal);
        }
        lemma_values_order_after_equal_prefix(a.drop_first(), b.drop_first(), i - 1);
        assert(a.drop_first().skip(i - 1) =~= a.skip(i));
        assert(b.drop_first().skip(i - 1) =~= b.skip(i));
    } else {
        assert(a.skip(0) =~= a);
        assert(b.skip(0) =~= b);
    }
}

/// Two sequences of values compare equal exactly when they have the same length and their
/// values compare equal pair by pair.
proof fn lemma_values_equal_pairwise(a: Seq<ValueModel>, b: Seq<ValueModel>)
    ensures
        (values_order(a, b) == ValueOrder::Equal) == (a.len() == b.len() && forall|j: int|
            0 <= j < a.len() ==> value_order(#[trigger] a[j], b[j]) == ValueOrder::Equal),
    decreases a.len(),
{
    if a.len() > 0 && b.len() > 0 {
        lemma_values_equal_pairwise(a.drop_first(), b.drop_first());
        if a.len() == b.len() && forall|j: int| 0 <= j < a.len() ==> value_order(#[trigger] a[j], b[j])
            == ValueOrder::Equal {
            assert(value_order(a[0], b[0]) == ValueOrder::Equal);
            assert forall|j: int| 0 <= j < a.len() - 1 implies value_order(
                #[trigger] a.drop_first()[j],
                b.drop_first()[j],
            ) == ValueOrder::Equal by {
                assert(value_order(a[j + 1], b[j + 1]) == ValueOrder::Equal);
            }
        }
        if values_order(a, b) == ValueOrder::Equal {
            assert forall|j: int| 0 <= j < a.len() implies value_order(#[trigger] a[j], b[j]) == ValueOrder::Equal by {
                if j > 0 {
                    assert(a[j] == a.drop_first()[j - 1] && b[j] == b.drop_first()[j - 1]);
                }
            }
        }
    }
}

/// Keys and records compare lexicographically, value by value, as `Key::compare` and
/// `Record::compare` do: the first pair of values that do not compare equal decides; when
/// one sequence runs out first, with every pair before equal, the shorter comes first; and two
/// sequences compare equal exactly when they have the same length and every pair compares
/// equal.
#[verifier::rlimit(50)]
pub proof fn lemma_values_compare_lexicographically(a: Seq<ValueModel>, b: Seq<ValueModel>)
    ensures
        forall|i: int|
            0 <= i < a.len() && i < b.len() && (forall|j: int| 0 <= j < i ==> value_order(#[trigger] a[j], b[j])
                == ValueOrder::Equal) && value_order(a[i], b[i]) != ValueOrder::Equal ==> values_order(a, b)
                == value_order(a[i], b[i]),
        a.len() < b.len() && (forall|j: int| 0 <= j < a.len() ==> value_order(#[trigger] a[j], b[j]) == ValueOrder::Equal)
            ==> values_order(a, b) == ValueOrder::Less,
        (values_order(a, b) == ValueOrder::Equal) == (a.len() == b.len() && forall|j: int|
            0 <= j < a.len() ==> value_order(#[trigger] a[j], b[j]) == ValueOrder::Equal),
{
    assert forall|i: int|
        0 <= i < a.len() && i < b.len() && (forall|j: int| 0 <= j < i ==> value_order(#[trigger] a[j], b[j])
            == ValueOrder::Equal) && value_order(a[i], b[i]) != ValueOrder::Equal implies values_order(a, b)
            == value_order(a[i], b[i]) by {
        lemma_values_first_unequal_pair(a, b, i);
    }
    if a.len() < b.len() && (forall|j: int| 0 <= j < a.len() ==> value_order(#[trigger] a[j], b[j]) == ValueOrder::Equal) {
        lemma_values_order_after_equal_prefix(a, b, a.len() as int);
        assert(a.skip(a.len() as int).len() == 0);
    }
    lemma_values_equal_pairwise(a, b);
}

/// The first pair of values that do not compare equal decides.
proof fn lemma_values_first_unequal_pair(a: Seq<ValueModel>, b: Seq<ValueModel>, i: int)
    requires
        0 <= i < a.len(),
        i < b.len(),
        forall|j: int| 0 <= j < i ==> value_order(#[trigger] a[j], b[j]) == ValueOrder::Equal,
        value_order(a[i], b[i]) != ValueOrder::Equal,
    ensures
        values_order(a, b) == value_order(a[i], b[i]),
{
    lemma_values_order_after_equal_prefix(a, b, i);
    let sa = a.skip(i);
    let sb = b.skip(i);
    assert(sa[0] == a[i] && sb[0] == b[i]);
    assert(sa.len() > 0 && sb.len() > 0);
}

/// `==` on keys and on records holds exactly when they have the same number of values and
/// their values are equal pair by pair (in the sense of `==` on values).
pub proof fn lemma_keys_and_records_equal_pairwise(k1: Key, k2: Key, r1: Record, r2: Record)
    ensures
        k1.eq_spec(&k2) == (k1@.len() == k2@.len() && forall|j: int|
            0 <= j < k1@.len() ==> value_order(#[trigger] k1@[j], k2@[j]) == ValueOrder::Equal),
        r1.eq_spec(&r2) == (r1@.len() == r2@.len() && forall|j: int|
            0 <= j < r1@.len() ==> value_order(#[trigger] r1@[j], r2@[j]) == ValueOrder::Equal),
{
    lemma_values_equal_pairwise(k1@, k2@);
    lemma_values_equal_pairwise(r1@, r2@);
}

/// Doubles, held by their IEEE 754 bits, compare as numbers, with NaN above everything: two
/// NaNs compare equal and a NaN is greater than any number; two non-negative numbers compare
/// as their bit patterns and two negative ones the other way round (a larger magnitude is
/// smaller); a negative number is below a non-negative one, save that `-0.0` equals `0.0`.
pub proof fn lemma_doubles_compare_as_numbers(a: u64, b: u64)
    ensures
        float_is_nan(a) && float_is_nan(b) ==> value_order(ValueModel::Float(a), ValueModel::Float(b))
            == ValueOrder::Equal,
        float_is_nan(a) && !float_is_nan(b) ==> value_order(ValueModel::Float(a), ValueModel::Float(b))
            == ValueOrder::Greater,
        !float_is_nan(a) && !float_is_nan(b) && a < SIGN_BIT && b < SIGN_BIT ==> (value_order(
            ValueModel::Float(a),
            ValueModel::Float(b),
        ) == ValueOrder::Less) == (a < b) && (value_order(ValueModel::Float(a), ValueModel::Float(b))
            == ValueOrder::Equal) == (a == b),
        !float_is_nan(a) && !float_is_nan(b) && a >= SIGN_BIT && b >= SIGN_BIT ==> (value_order(
            ValueModel::Float(a),
            ValueModel::Float(b),
        ) == ValueOrder::Less) == (a > b) && (value_order(ValueModel::Float(a), ValueModel::Float(b))
            == ValueOrder::Equal) == (a == b),
        !float_is_nan(a) && !float_is_nan(b) && a >= SIGN_BIT && b < SIGN_BIT && !(a == SIGN_BIT && b == 0)
            ==> value_order(ValueModel::Float(a), ValueModel::Float(b)) == ValueOrder::Less,
        value_order(ValueModel::Float(SIGN_BIT), ValueModel::Float(0)) == ValueOrder::Equal,
{
    assert(!float_is_nan(SIGN_BIT) && !float_is_nan(0));
}

/// A positive integer has at most `k` digits exactly when it is below 10^k.
proof fn lemma_digit_count_bound(n: nat, k: nat)
    requires
        n > 0,
    ensures
        (digit_count(n) <= k) == (n < pow10(k)),
    decreases k,
{
    if k > 0 {
        lemma_pow10_positive((k - 1) as nat);
        assert(pow10(k) == 10 * pow10((k - 1) as nat));
        if n >= 10 {
            lemma_digit_count_bound(n / 10, (k - 1) as nat);
        }
    } else {
        assert(pow10(0) == 1);
    }
}

/// A decimal fits a `DECIMAL(p, s)` column exactly when it has at most `s` digits after the
/// point and its integer part is below 10^(p - s) (only zero when `s` exceeds `p`).
pub proof fn lemma_decimal_fits_by_digits(d: DecimalParts, p: u8, s: u8)
    ensures
        value_compatible(ValueModel::Decimal(d), PrimitiveDataType::Decimal(p, s)) == (d.scale <= s && (parts_mantissa(d)
            / pow10(d.scale as nat) == 0 || (s <= p && parts_mantissa(d) / pow10(d.scale as nat) < pow10(
            (p - s) as nat,
        )))),
{
    lemma_pow10_positive(d.scale as nat);
    let ip = parts_mantissa(d) / pow10(d.scale as nat);
    if ip != 0 && s <= p {
        lemma_digit_count_bound(ip, (p - s) as nat);
    }
}

/// Decimals compare as numbers: two decimals of the same scale compare as their signed
/// magnitudes, and zero compares equal to zero whatever its sign and scale.
pub proof fn lemma_decimals_compare_as_numbers(x: DecimalParts, y: DecimalParts)
    ensures
        x.scale == y.scale ==> (value_order(ValueModel::Decimal(x), ValueModel::Decimal(y)) == ValueOrder::Less)
            == (signed_mantissa(x) < signed_mantissa(y)) && (value_order(ValueModel::Decimal(x), ValueModel::Decimal(y))
            == ValueOrder::Equal) == (signed_mantissa(x) == signed_mantissa(y)),
        parts_mantissa(x) == 0 && parts_mantissa(y) == 0 ==> value_order(ValueModel::Decimal(x), ValueModel::Decimal(y))
            == ValueOrder::Equal,
{
    lemma_pow10_positive(x.scale as nat);
    let m = pow10(x.scale as nat) as int;
    let a = signed_mantissa(x);
    let b = signed_mantissa(y);
    if x.scale == y.scale {
        assert((a * m < b * m) == (a < b) && (a * m == b * m) == (a == b)) by (nonlinear_arith)
            requires
                m > 0,
        ;
    }
    if parts_mantissa(x) == 0 && parts_mantissa(y) == 0 {
        assert(a == 0 && b == 0);
        assert(a * pow10(y.scale as nat) == 0 && b * pow10(x.scale as nat) == 0);
    }
}

} // verus!
