use smallvec::SmallVec;
use vstd::prelude::*;

use crate::data_value::{value_order, DataValue, ValueModel};
use crate::order::ValueOrder;

verus! {

/// The storage of a key's values: a `SmallVec` that keeps one value inline and spills more
/// to the heap.
#[verifier::external_body]
#[derive(Debug, Hash)]
pub struct KeyInner {
    values: SmallVec<[DataValue; 1]>,
}

/// The values, in order, that the inner vector of a key holds.
pub uninterp spec fn key_values(v: KeyInner) -> Seq<ValueModel>;

/// Builds the inner vector with `SmallVec::from_vec`, which moves the vector's elements in,
/// in order. Claimed: the new vector holds the models of the given values, in order.
#[verifier::external_body]
fn key_inner_from_vec(values: Vec<DataValue>) -> (r: KeyInner)
    ensures
        key_values(r) == values@.map_values(|v: DataValue| v@),
{
    KeyInner { values: SmallVec::from_vec(values) }
}

/// Views the inner vector as a slice with `SmallVec::as_slice`. Claimed: the slice holds the
/// vector's values in order.
#[verifier::external_body]
fn key_inner_as_slice(v: &KeyInner) -> (r: &[DataValue])
    ensures
        r@.map_values(|x: DataValue| x@) == key_values(*v),
{
    v.values.as_slice()
}

/// Lexicographic order of two sequences of values: the first unequal pair decides, and a
/// proper prefix comes first.
pub open spec fn values_order(a: Seq<ValueModel>, b: Seq<ValueModel>) -> ValueOrder
    decreases a.len(),
{
    if a.len() == 0 {
        if b.len() == 0 {
            ValueOrder::Equal
        } else {
            ValueOrder::Less
        }
    } else if b.len() == 0 {
        ValueOrder::Greater
    } else if value_order(a[0], b[0]) != ValueOrder::Equal {
        value_order(a[0], b[0])
    } else {
        values_order(a.drop_first(), b.drop_first())
    }
}

/// Compares two slices of values lexicographically.
pub fn compare_values(a: &[DataValue], b: &[DataValue]) -> (r: ValueOrder)
    ensures
        r == values_order(a@.map_values(|x: DataValue| x@), b@.map_values(|x: DataValue| x@)),
{
    let ghost am = a@.map_values(|x: DataValue| x@);
    let ghost bm = b@.map_values(|x: DataValue| x@);
    let mut i: usize = 0;
    proof {
        assert(am.skip(0) =~= am);
        assert(bm.skip(0) =~= bm);
    }
    while i < a.len() && i < b.len()
        invariant
            0 <= i <= a@.len(),
            i <= b@.len(),
            am == a@.map_values(|x: DataValue| x@),
            bm == b@.map_values(|x: DataValue| x@),
            values_order(am, bm) == values_order(am.skip(i as int), bm.skip(i as int)),
        decreases a@.len() - i,
    {
        let c = a[i].compare(&b[i]);
        match c {
            ValueOrder::Equal => {},
            _ => {
                return c;
            },
        }
        proof {
            assert(am.skip(i as int).drop_first() =~= am.skip(i + 1));
            assert(bm.skip(i as int).drop_first() =~= bm.skip(i + 1));
        }
        i = i + 1;
    }
    if i == a.len() {
        if i == b.len() {
            ValueOrder::Equal
        } else {
            ValueOrder::Less
        }
    } else {
        ValueOrder::Greater
    }
}

/// A key: the values of the key columns of a record, in key column order. A key of one column
/// is kept inline.
#[derive(Debug, Hash)]
pub struct Key(KeyInner);

impl View for Key {
    type V = Seq<ValueModel>;

    closed spec fn view(&self) -> Seq<ValueModel> {
        key_values(self.0)
    }
}

impl Key {
    /// A key of the given values, in order.
    pub fn from_values(values: Vec<DataValue>) -> (r: Key)
        ensures
            r@ == values@.map_values(|v: DataValue| v@),
    {
        Key(key_inner_from_vec(values))
    }

    /// A key of one value.
    pub fn from_value(value: DataValue) -> (r: Key)
        ensures
            r@ == seq![value@],
    {
        let ghost m = value@;
        let mut v: Vec<DataValue> = Vec::new();
        v.push(value);
        let r = Key::from_values(v);
        proof {
            assert(r@ =~= seq![m]);
        }
        r
    }

    /// The values of the key, in order.
    pub fn as_slice(&self) -> (r: &[DataValue])
        ensures
            r@.map_values(|x: DataValue| x@) == self@,
    {
        key_inner_as_slice(&self.0)
    }

    /// The number of values.
    pub fn len(&self) -> (r: usize)
        ensures
            r == self@.len(),
    {
        self.as_slice().len()
    }

    /// Whether the key has no value.
    pub fn is_empty(&self) -> (r: bool)
        ensures
            r == (self@.len() == 0),
    {
        self.len() == 0
    }

    /// The value at `index`, if there is one.
    pub fn get(&self, index: usize) -> (r: Option<&DataValue>)
        ensures
            match r {
                Some(v) => index < self@.len() && v@ == self@[index as int],
                None => index >= self@.len(),
            },
    {
        let s = self.as_slice();
        if index < s.len() {
            Some(&s[index])
        } else {
            None
        }
    }

    /// Compares two keys lexicographically, value by value.
    pub fn compare(&self, other: &Key) -> (r: ValueOrder)
        ensures
            r == values_order(self@, other@),
    {
        compare_values(self.as_slice(), other.as_slice())
    }
}

impl Clone for Key {
    fn clone(&self) -> (r: Self)
        ensures
            r@ == self@,
    {
        let s = self.as_slice();
        let mut v: Vec<DataValue> = Vec::new();
        let mut i: usize = 0;
        while i < s.len()
            invariant
                0 <= i <= s@.len(),
                v@.len() == i,
                forall|j: int| 0 <= j < i ==> #[trigger] v@[j]@ == s@[j]@,
            decreases s@.len() - i,
        {
            v.push(s[i].clone());
            i = i + 1;
        }
        let r = Key::from_values(v);
        proof {
            assert(r@ =~= self@);
        }
        r
    }
}

impl PartialEq for Key {
    fn eq(&self, other: &Self) -> (r: bool) {
        match self.compare(other) {
            ValueOrder::Equal => true,
            _ => false,
        }
    }
}

impl vstd::std_specs::cmp::PartialEqSpecImpl for Key {
    open spec fn obeys_eq_spec() -> bool {
        true
    }

    open spec fn eq_spec(&self, other: &Self) -> bool {
        values_order(self@, other@) == ValueOrder::Equal
    }
}

impl Eq for Key {

}

} // verus!
