use vstd::prelude::*;

use crate::column_definition::{spec_is_fixed_type, ColumnDefinition};
use crate::constraint::Constraint;
use crate::primitive_data_type::{spec_fixed_size, spec_is_fixed_size, PrimitiveDataType};
use crate::table_definition::{first_column_index, key_positions, primary_key_index};

verus! {

/// Looking a column up by name, as `get_column` does, finds the first column with that name,
/// and finds none exactly when no column has it.
pub proof fn lemma_column_lookup(cols: Seq<ColumnDefinition>, name: Seq<char>)
    ensures
        0 <= first_column_index(cols, name) <= cols.len(),
        first_column_index(cols, name) < cols.len() ==> cols[first_column_index(cols, name)].name@ == name,
        forall|j: int| 0 <= j < first_column_index(cols, name) ==> (#[trigger] cols[j]).name@ != name,
        (first_column_index(cols, name) == cols.len()) == (forall|j: int|
            0 <= j < cols.len() ==> (#[trigger] cols[j]).name@ != name),
    decreases cols.len(),
{
    if cols.len() > 0 {
        let t = cols.drop_first();
        lemma_column_lookup(t, name);
        if cols[0].name@ != name {
            assert forall|j: int| 0 <= j < first_column_index(cols, name) implies (#[trigger] cols[j]).name@ != name by {
                if j > 0 {
                    assert(cols[j] == t[j - 1]);
                }
            }
            if first_column_index(cols, name) < cols.len() {
                let k = first_column_index(t, name);
                assert(cols[k + 1] == t[k]);
            } else {
                assert forall|j: int| 0 <= j < cols.len() implies (#[trigger] cols[j]).name@ != name by {
                    if j > 0 {
                        assert(cols[j] == t[j - 1]);
                    }
                }
            }
        }
    }
}

/// Looking the primary key up, as `get_primary_key` does, finds the first primary key
/// constraint, and finds none exactly when there is no primary key.
pub proof fn lemma_primary_key_lookup(cons: Seq<Constraint>)
    ensures
        0 <= primary_key_index(cons) <= cons.len(),
        primary_key_index(cons) < cons.len() ==> cons[primary_key_index(cons)] is PrimaryKey,
        forall|j: int| 0 <= j < primary_key_index(cons) ==> !(#[trigger] cons[j] is PrimaryKey),
        (primary_key_index(cons) == cons.len()) == (forall|j: int| 0 <= j < cons.len() ==> !(#[trigger] cons[j] is PrimaryKey)),
    decreases cons.len(),
{
    if cons.len() > 0 {
        let t = cons.drop_first();
        lemma_primary_key_lookup(t);
        if !(cons[0] is PrimaryKey) {
            assert forall|j: int| 0 <= j < primary_key_index(cons) implies !(#[trigger] cons[j] is PrimaryKey) by {
                if j > 0 {
                    assert(cons[j] == t[j - 1]);
                }
            }
            if primary_key_index(cons) < cons.len() {
                let k = primary_key_index(t);
                assert(cons[k + 1] == t[k]);
            } else {
                assert forall|j: int| 0 <= j < cons.len() implies !(#[trigger] cons[j] is PrimaryKey) by {
                    if j > 0 {
                        assert(cons[j] == t[j - 1]);
                    }
                }
            }
        }
    }
}

/// When every key column name names a column, the key's positions are, in key order, the
/// positions of the first column of each name.
pub proof fn lemma_key_positions_name_the_columns(cols: Seq<ColumnDefinition>, names: Seq<String>)
    requires
        forall|i: int| 0 <= i < names.len() ==> exists|j: int| 0 <= j < cols.len() && (#[trigger] cols[j]).name@ == (
            #[trigger] names[i])@,
    ensures
        key_positions(cols, names).len() == names.len(),
        forall|i: int|
            0 <= i < names.len() ==> {
                let p = #[trigger] key_positions(cols, names)[i];
                &&& 0 <= p < cols.len()
                &&& cols[p].name@ == names[i]@
                &&& forall|j: int| 0 <= j < p ==> (#[trigger] cols[j]).name@ != names[i]@
            },
    decreases names.len(),
{
    if names.len() > 0 {
        let m = names.drop_last();
        assert forall|i: int| 0 <= i < m.len() implies exists|j: int|
            0 <= j < cols.len() && (#[trigger] cols[j]).name@ == (#[trigger] m[i])@ by {
            assert(m[i] == names[i]);
        }
        lemma_key_positions_name_the_columns(cols, m);
        let last = names[names.len() - 1];
        assert(names.last() == last);
        lemma_column_lookup(cols, last@);
        let w = choose|j: int| 0 <= j < cols.len() && (#[trigger] cols[j]).name@ == last@;
        assert(0 <= w < cols.len() && cols[w].name@ == last@);
        assert(first_column_index(cols, last@) < cols.len());
        assert forall|i: int| 0 <= i < names.len() implies {
            let p = #[trigger] key_positions(cols, names)[i];
            &&& 0 <= p < cols.len()
            &&& cols[p].name@ == names[i]@
            &&& forall|j: int| 0 <= j < p ==> (#[trigger] cols[j]).name@ != names[i]@
        } by {
            if i < names.len() - 1 {
                assert(key_positions(cols, names)[i] == key_positions(cols, m)[i]);
                assert(names[i] == m[i]);
            }
        }
    }
}

/// A column has a fixed type exactly when its type has a fixed size, save the unknown type,
/// which a column counts as fixed though it has no size; a type with a fixed size is exactly
/// one with a size to give: 4 bytes for `Int`, 1 for `Boolean`, 8 for `BigInt`, `Float` and
/// `DateTime`, and 16 for a `Decimal`.
pub proof fn lemma_fixed_types_have_sizes(t: PrimitiveDataType, p: u8, s: u8)
    ensures
        spec_is_fixed_size(t) == (spec_fixed_size(t) is Some),
        spec_is_fixed_type(t) == (spec_is_fixed_size(t) || t == PrimitiveDataType::Unknown),
        spec_fixed_size(PrimitiveDataType::Int) == Some(4usize),
        spec_fixed_size(PrimitiveDataType::Boolean) == Some(1usize),
        spec_fixed_size(PrimitiveDataType::BigInt) == Some(8usize),
        spec_fixed_size(PrimitiveDataType::Float) == Some(8usize),
        spec_fixed_size(PrimitiveDataType::DateTime) == Some(8usize),
        spec_fixed_size(PrimitiveDataType::Decimal(p, s)) == Some(16usize),
{
}

} // verus!
