use smallvec::SmallVec;
use vstd::prelude::*;

use crate::data_value::{DataValue, ValueModel};
use crate::key::{compare_values, values_order, Key};
use crate::order::ValueOrder;
use crate::table_definition::{primary_key_positions, TableDefinition};

verus! {

/// The storage of a record's values: a `SmallVec` that keeps up to four values inline and
/// spills more to the heap.
#[verifier::external_body]
#[derive(Debug, Hash)]
pub struct RecordInner {
    values: SmallVec<[DataValue; 4]>,
}

/// The values, in order, that the inner vector of a record holds.
pub uninterp spec fn record_values(v: RecordInner) -> Seq<ValueModel>;

/// Builds the inner vector with `SmallVec::from_vec`, which moves the vector's elements in,
/// in order. Claimed: the new vector holds the models of the given values, in order.
#[verifier::external_body]
fn record_inner_from_vec(values: Vec<DataValue>) -> (r: RecordInner)
    ensures
        record_values(r) == values@.map_values(|v: DataValue| v@),
{
    RecordInner { values: SmallVec::from_vec(values) }
}

/// Views the inner vector as a slice with `SmallVec::as_slice`. Claimed: the slice holds the
/// vector's values in order.
#[verifier::external_body]
fn record_inner_as_slice(v: &RecordInner) -> (r: &[DataValue])
    ensures
        r@.map_values(|x: DataValue| x@) == record_values(*v),
{
    v.values.as_slice()
}

/// The values of a record at the given positions, in the order of the positions.
pub open spec fn values_at(values: Seq<ValueModel>, positions: Seq<int>) -> Seq<ValueModel> {
    positions.map_values(|p: int| values[p])
}

/// A database record: the values of one row, in column order.
#[derive(Debug, Hash)]
pub struct Record(RecordInner);

impl View for Record {
    type V = Seq<ValueModel>;

    closed spec fn view(&self) -> Seq<ValueModel> {
        record_values(self.0)
    }
}

impl Record {
    /// A record of the given values, in order.
    pub fn from_values(values: Vec<DataValue>) -> (r: Record)
        ensures
            r@ == values@.map_values(|v: DataValue| v@),
    {
        Record(record_inner_from_vec(values))
    }

    /// A record of one value.
    pub fn from_value(value: DataValue) -> (r: Record)
        ensures
            r@ == seq![value@],
    {
        let ghost m = value@;
        let mut v: Vec<DataValue> = Vec::new();
        v.push(value);
        let r = Record::from_values(v);
        proof {
            assert(r@ =~= seq![m]);
        }
        r
    }

    /// The values of the record, in order.
    pub fn as_slice(&self) -> (r: &[DataValue])
        ensures
            r@.map_values(|x: DataValue| x@) == self@,
    {
        record_inner_as_slice(&self.0)
    }

    /// The number of values.
    pub fn len(&self) -> (r: usize)
        ensures
            r == self@.len(),
    {
        self.as_slice().len()
    }

    /// Whether the record has no value.
    pub fn is_empty(&self) -> (r: bool)
        ensures
            r == (self@.len() == 0),
    {
        self.len() == 0
    }

    /// The value at `index`, if there is one.
    pub fn get(&self, index: usize) -> (r: Option<&DataValue>)
        ensures
            match r {
                Some(v) => index < self@.len() && v@ == self@[index as int],
                None => index >= self@.len(),
            },
    {
        let s = self.as_slice();
        if index < s.len() {
            Some(&s[index])
        } else {
            None
        }
    }

    /// Compares two records lexicographically, value by value.
    pub fn compare(&self, other: &Record) -> (r: ValueOrder)
        ensures
            r == values_order(self@, other@),
    {
        compare_values(self.as_slice(), other.as_slice())
    }

    /// The primary key of the record: the values of the table's primary key columns, in the
    /// order the primary key names them. A primary key column name that the table lacks is
    /// skipped.
    pub fn get_primary_key(&self, table_def: &TableDefinition) -> (r: Key)
        requires
            primary_key_positions(*table_def) is Some,
            forall|i: int|
                0 <= i < primary_key_positions(*table_def)->0.len() ==> #[trigger] primary_key_positions(
                    *table_def,
                )->0[i] < self@.len(),
        ensures
            r@ == values_at(self@, primary_key_positions(*table_def)->0),
    {
        let positions = table_def.get_primary_key_positions().unwrap();
        let values = self.as_slice();
        let ghost ps = primary_key_positions(*table_def)->0;
        let mut key_values: Vec<DataValue> = Vec::new();
        let mut i: usize = 0;
        while i < positions.len()
            invariant
                0 <= i <= positions@.len(),
                positions@.len() == ps.len(),
                forall|k: int| 0 <= k < ps.len() ==> #[trigger] positions@[k] as int == ps[k],
                forall|k: int| 0 <= k < ps.len() ==> #[trigger] ps[k] < values@.len(),
                values@.map_values(|x: DataValue| x@) == self@,
                key_values@.len() == i,
                forall|k: int| 0 <= k < i ==> #[trigger] key_values@[k]@ == self@[ps[k]],
            decreases positions@.len() - i,
        {
            let p = positions[i];
            assert(ps[i as int] < values@.len());
            key_values.push(values[p].clone());
            i = i + 1;
        }
        let r = Key::from_values(key_values);
        proof {
            assert(r@ =~= values_at(self@, ps));
        }
        r
    }
}

impl Clone for Record {
    fn clone(&self) -> (r: Self)
        ensures
            r@ == self@,
    {
        let s = self.as_slice();
        let mut v: Vec<DataValue> = Vec::new();
        let mut i: usize = 0;
        while i < s.len()
            invariant
                0 <= i <= s@.len(),
                v@.len() == i,
                forall|j: int| 0 <= j < i ==> #[trigger] v@[j]@ == s@[j]@,
            decreases s@.len() - i,
        {
            v.push(s[i].clone());
            i = i + 1;
        }
        let r = Record::from_values(v);
        proof {
            assert(r@ =~= self@);
        }
        r
    }
}

impl PartialEq for Record {
    fn eq(&self, other: &Self) -> (r: bool) {
        match self.compare(other) {
            ValueOrder::Equal => true,
            _ => false,
        }
    }
}

impl vstd::std_specs::cmp::PartialEqSpecImpl for Record {
    open spec fn obeys_eq_spec() -> bool {
        true
    }

    open spec fn eq_spec(&self, other: &Self) -> bool {
        values_order(self@, other@) == ValueOrder::Equal
    }
}

impl Eq for Record {

}

} // verus!
