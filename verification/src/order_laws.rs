use vstd::prelude::*;
use vstd::utf8::encode_utf8;

use crate::data_value::{value_order, ValueModel};
use crate::decimal::{decimal_order, lemma_pow10_positive, pow10, signed_mantissa, DecimalParts};
use crate::key::values_order;
use crate::order::{bytes_order, int_order, ValueOrder};
use crate::ordered_float::float_order;

verus! {

/// The outcome of comparing the other way round.
pub open spec fn flipped(o: ValueOrder) -> ValueOrder {
    match o {
        ValueOrder::Less => ValueOrder::Greater,
        ValueOrder::Equal => ValueOrder::Equal,
        ValueOrder::Greater => ValueOrder::Less,
    }
}

/// What `a` against `c` must be, knowing `a` against `b` and `b` against `c`: equal steps
/// change nothing, two steps the same way go that way, and two opposite steps tell nothing.
pub open spec fn chained(o1: ValueOrder, o2: ValueOrder) -> Option<ValueOrder> {
    if o1 == ValueOrder::Equal {
        Some(o2)
    } else if o2 == ValueOrder::Equal || o1 == o2 {
        Some(o1)
    } else {
        None
    }
}

/// A way of comparing is a total order on the values it compares.
pub open spec fn is_total_order<T>(order: spec_fn(T, T) -> ValueOrder) -> bool {
    &&& forall|a: T| #[trigger] order(a, a) == ValueOrder::Equal
    &&& forall|a: T, b: T| #[trigger] order(b, a) == flipped(#[trigger] order(a, b))
    &&& forall|a: T, b: T, c: T|
        #![trigger order(a, b), order(b, c)]
        chained(order(a, b), order(b, c)) matches Some(o) ==> order(a, c) == o
}

/// Byte strings are totally ordered by `bytes_order`, and compare equal only when equal.
pub proof fn lemma_bytes_order_laws(a: Seq<u8>, b: Seq<u8>, c: Seq<u8>)
    ensures
        bytes_order(a, a) == ValueOrder::Equal,
        bytes_order(b, a) == flipped(bytes_order(a, b)),
        bytes_order(a, b) == ValueOrder::Equal ==> a == b,
        chained(bytes_order(a, b), bytes_order(b, c)) matches Some(o) ==> bytes_order(a, c) == o,
    decreases a.len(),
{
    if a.len() > 0 && b.len() > 0 && c.len() > 0 {
        lemma_bytes_order_laws(a.drop_first(), b.drop_first(), c.drop_first());
        if bytes_order(a, b) == ValueOrder::Equal {
            assert(a =~= seq![a[0]] + a.drop_first());
            assert(b =~= seq![b[0]] + b.drop_first());
        }
    } else if a.len() > 0 && b.len() > 0 {
        lemma_bytes_order_laws(a.drop_first(), b.drop_first(), b.drop_first());
        if bytes_order(a, b) == ValueOrder::Equal {
            assert(a =~= seq![a[0]] + a.drop_first());
            assert(b =~= seq![b[0]] + b.drop_first());
        }
    } else if a.len() > 0 {
        lemma_bytes_order_laws(a.drop_first(), a.drop_first(), a.drop_first());
    }
}

proof fn lemma_cross_chain(x: int, y: int, z: int, px: int, py: int, pz: int)
    requires
        px > 0,
        py > 0,
        pz > 0,
    ensures
        chained(int_order(x * py, y * px), int_order(y * pz, z * py)) matches Some(o) ==> int_order(x * pz, z * px)
            == o,
{
    // Scaling both comparisons to the common denominator px * py * pz.
    assert((x * py < y * px ==> x * py * pz < y * px * pz) && (x * py == y * px ==> x * py * pz == y * px * pz) && (x
        * py > y * px ==> x * py * pz > y * px * pz)) by (nonlinear_arith)
        requires
            pz > 0,
    ;
    assert((y * pz < z * py ==> y * pz * px < z * py * px) && (y * pz == z * py ==> y * pz * px == z * py * px) && (y
        * pz > z * py ==> y * pz * px > z * py * px)) by (nonlinear_arith)
        requires
            px > 0,
    ;
    assert(y * px * pz == y * pz * px && x * py * pz == x * pz * py && z * py * px == z * px * py) by (nonlinear_arith);
    assert((x * pz * py < z * px * py ==> x * pz < z * px) && (x * pz * py == z * px * py ==> x * pz == z * px) && (x
        * pz * py > z * px * py ==> x * pz > z * px)) by (nonlinear_arith)
        requires
            py > 0,
    ;
}

proof fn lemma_decimal_order_laws(a: DecimalParts, b: DecimalParts, c: DecimalParts)
    ensures
        decimal_order(a, a) == ValueOrder::Equal,
        decimal_order(b, a) == flipped(decimal_order(a, b)),
        chained(decimal_order(a, b), decimal_order(b, c)) matches Some(o) ==> decimal_order(a, c) == o,
{
    lemma_pow10_positive(a.scale as nat);
    lemma_pow10_positive(b.scale as nat);
    lemma_pow10_positive(c.scale as nat);
    lemma_cross_chain(
        signed_mantissa(a),
        signed_mantissa(b),
        signed_mantissa(c),
        pow10(a.scale as nat) as int,
        pow10(b.scale as nat) as int,
        pow10(c.scale as nat) as int,
    );
}

proof fn lemma_float_order_laws(a: u64, b: u64, c: u64)
    ensures
        float_order(a, a) == ValueOrder::Equal,
        float_order(b, a) == flipped(float_order(a, b)),
        chained(float_order(a, b), float_order(b, c)) matches Some(o) ==> float_order(a, c) == o,
{
}

/// The order of values is a total order: every value equals itself, swapping the two values
/// flips the outcome, and comparisons chain.
pub proof fn lemma_value_order_laws(a: ValueModel, b: ValueModel, c: ValueModel)
    ensures
        value_order(a, a) == ValueOrder::Equal,
        value_order(b, a) == flipped(value_order(a, b)),
        chained(value_order(a, b), value_order(b, c)) matches Some(o) ==> value_order(a, c) == o,
{
    match (a, b, c) {
        (ValueModel::Float(x), ValueModel::Float(y), ValueModel::Float(z)) => lemma_float_order_laws(x, y, z),
        (ValueModel::Decimal(x), ValueModel::Decimal(y), ValueModel::Decimal(z)) => lemma_decimal_order_laws(x, y, z),
        (ValueModel::Blob(x), ValueModel::Blob(y), ValueModel::Blob(z)) => lemma_bytes_order_laws(x, y, z),
        (ValueModel::Text(x), ValueModel::Text(y), ValueModel::Text(z)) => lemma_bytes_order_laws(
            encode_utf8(x),
            encode_utf8(y),
            encode_utf8(z),
        ),
        _ => {
            match a {
                ValueModel::Float(x) => lemma_float_order_laws(x, x, x),
                ValueModel::Decimal(x) => lemma_decimal_order_laws(x, x, x),
                ValueModel::Blob(x) => lemma_bytes_order_laws(x, x, x),
                ValueModel::Text(x) => lemma_bytes_order_laws(encode_utf8(x), encode_utf8(x), encode_utf8(x)),
                _ => {},
            }
            match (a, b) {
                (ValueModel::Float(x), ValueModel::Float(y)) => lemma_float_order_laws(x, y, y),
                (ValueModel::Decimal(x), ValueModel::Decimal(y)) => lemma_decimal_order_laws(x, y, y),
                (ValueModel::Blob(x), ValueModel::Blob(y)) => lemma_bytes_order_laws(x, y, y),
                (ValueModel::Text(x), ValueModel::Text(y)) => lemma_bytes_order_laws(encode_utf8(x), encode_utf8(y), encode_utf8(y)),
                _ => {},
            }
        },
    }
}


/// The order of value sequences (keys and records) is a total order: every sequence equals
/// itself, swapping flips the outcome, and comparisons chain.
pub proof fn lemma_values_order_laws(a: Seq<ValueModel>, b: Seq<ValueModel>, c: Seq<ValueModel>)
    ensures
        values_order(a, a) == ValueOrder::Equal,
        values_order(b, a) == flipped(values_order(a, b)),
        chained(values_order(a, b), values_order(b, c)) matches Some(o) ==> values_order(a, c) == o,
    decreases a.len(),
{
    if a.len() > 0 {
        lemma_value_order_laws(a[0], a[0], a[0]);
    }
    if a.len() > 0 && b.len() > 0 {
        lemma_value_order_laws(a[0], b[0], b[0]);
    }
    if a.len() > 0 && b.len() > 0 && c.len() > 0 {
        lemma_value_order_laws(a[0], b[0], c[0]);
        lemma_values_order_laws(a.drop_first(), b.drop_first(), c.drop_first());
    } else if a.len() > 0 && b.len() > 0 {
        lemma_values_order_laws(a.drop_first(), b.drop_first(), b.drop_first());
    } else if a.len() > 0 {
        lemma_values_order_laws(a.drop_first(), a.drop_first(), a.drop_first());
    }
}

/// The order of keys and records, as a function.
pub open spec fn key_order() -> spec_fn(Seq<ValueModel>, Seq<ValueModel>) -> ValueOrder {
    |a: Seq<ValueModel>, b: Seq<ValueModel>| values_order(a, b)
}

/// Keys and records are totally ordered by `values_order`, the order that `Key::compare` and
/// `Record::compare` compute.
pub proof fn lemma_values_order_is_total()
    ensures
        is_total_order(key_order()),
{
    let order = key_order();
    assert forall|a: Seq<ValueModel>| #[trigger] order(a, a) == ValueOrder::Equal by {
        lemma_values_order_laws(a, a, a);
    }
    assert forall|a: Seq<ValueModel>, b: Seq<ValueModel>| #[trigger] order(b, a) == flipped(#[trigger] order(a, b)) by {
        lemma_values_order_laws(a, b, b);
    }
    assert forall|a: Seq<ValueModel>, b: Seq<ValueModel>, c: Seq<ValueModel>|
        #![trigger order(a, b), order(b, c)]
        chained(order(a, b), order(b, c)) is Some implies order(a, c) == chained(order(a, b), order(b, c))->0 by {
        lemma_values_order_laws(a, b, c);
    }
}

} // verus!
