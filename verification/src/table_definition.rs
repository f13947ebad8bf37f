use vstd::prelude::*;
use vstd::string::StringExecFns;

use crate::column_definition::ColumnDefinition;
use crate::constraint::{constraint_name, Constraint};
use crate::schema_error::{SchemaError, SchemaErrorView};
use crate::text::{is_blank, str_equal, str_is_blank};

verus! {

/// The definition of a table: its columns in order and its constraints.
#[derive(Clone, Debug, PartialEq, Eq)]
pub struct TableDefinition {
    pub table_id: u32,
    pub name: String,
    pub columns: Vec<ColumnDefinition>,
    pub constraints: Vec<Constraint>,
}

/// The index of the first column named `name`, or the number of columns.
pub open spec fn first_column_index(cols: Seq<ColumnDefinition>, name: Seq<char>) -> int
    decreases cols.len(),
{
    if cols.len() == 0 {
        0
    } else if cols[0].name@ == name {
        0
    } else {
        1 + first_column_index(cols.drop_first(), name)
    }
}

/// The index of the first constraint named `name`, or the number of constraints.
pub open spec fn first_constraint_index(cons: Seq<Constraint>, name: Seq<char>) -> int
    decreases cons.len(),
{
    if cons.len() == 0 {
        0
    } else if constraint_name(cons[0]) == name {
        0
    } else {
        1 + first_constraint_index(cons.drop_first(), name)
    }
}

/// The index of the first primary key constraint, or the number of constraints.
pub open spec fn primary_key_index(cons: Seq<Constraint>) -> int
    decreases cons.len(),
{
    if cons.len() == 0 {
        0
    } else if cons[0] is PrimaryKey {
        0
    } else {
        1 + primary_key_index(cons.drop_first())
    }
}

/// The positions of the columns named in `names`, in the order of `names`; a name without a
/// column is left out.
pub open spec fn key_positions(cols: Seq<ColumnDefinition>, names: Seq<String>) -> Seq<int>
    decreases names.len(),
{
    if names.len() == 0 {
        Seq::empty()
    } else {
        let prev = key_positions(cols, names.drop_last());
        let p = first_column_index(cols, names.last()@);
        if p < cols.len() {
            prev.push(p)
        } else {
            prev
        }
    }
}

/// The positions of the primary key columns of a table, in key order; `None` when the table
/// has no primary key.
pub open spec fn primary_key_positions(t: TableDefinition) -> Option<Seq<int>> {
    let cons = t.constraints@;
    let k = primary_key_index(cons);
    if k < cons.len() {
        match cons[k] {
            Constraint::PrimaryKey { column_names, .. } => Some(key_positions(t.columns@, column_names@)),
            _ => None,
        }
    } else {
        None
    }
}

pub proof fn lemma_first_column_index(cols: Seq<ColumnDefinition>, name: Seq<char>, k: int)
    requires
        0 <= k <= cols.len(),
        forall|i: int| 0 <= i < k ==> #[trigger] cols[i].name@ != name,
        k == cols.len() || cols[k].name@ == name,
    ensures
        first_column_index(cols, name) == k,
    decreases k,
{
    if k > 0 {
        let t = cols.drop_first();
        assert(cols[0].name@ != name);
        assert forall|i: int| 0 <= i < k - 1 implies #[trigger] t[i].name@ != name by {
            assert(t[i] == cols[i + 1]);
        }
        if k < cols.len() {
            assert(t[k - 1] == cols[k]);
        }
        lemma_first_column_index(t, name, k - 1);
    }
}

pub proof fn lemma_first_constraint_index(cons: Seq<Constraint>, name: Seq<char>, k: int)
    requires
        0 <= k <= cons.len(),
        forall|i: int| 0 <= i < k ==> constraint_name(#[trigger] cons[i]) != name,
        k == cons.len() || constraint_name(cons[k]) == name,
    ensures
        first_constraint_index(cons, name) == k,
    decreases k,
{
    if k > 0 {
        let t = cons.drop_first();
        assert(constraint_name(cons[0]) != name);
        assert forall|i: int| 0 <= i < k - 1 implies constraint_name(#[trigger] t[i]) != name by {
            assert(t[i] == cons[i + 1]);
        }
        if k < cons.len() {
            assert(t[k - 1] == cons[k]);
        }
        lemma_first_constraint_index(t, name, k - 1);
    }
}

/// Looking a constraint up by name, as `get_constraint` does, finds the first constraint with
/// that name, and finds none exactly when no constraint has it.
pub proof fn lemma_constraint_lookup(cons: Seq<Constraint>, name: Seq<char>)
    ensures
        0 <= first_constraint_index(cons, name) <= cons.len(),
        first_constraint_index(cons, name) < cons.len() ==> constraint_name(
            cons[first_constraint_index(cons, name)],
        ) == name,
        forall|j: int| 0 <= j < first_constraint_index(cons, name) ==> constraint_name(#[trigger] cons[j]) != name,
        (first_constraint_index(cons, name) == cons.len()) == (forall|j: int|
            0 <= j < cons.len() ==> constraint_name(#[trigger] cons[j]) != name),
    decreases cons.len(),
{
    if cons.len() > 0 {
        let t = cons.drop_first();
        lemma_constraint_lookup(t, name);
        assert forall|j: int| 0 <= j < t.len() implies #[trigger] t[j] == cons[j + 1] by {}
        if constraint_name(cons[0]) != name {
            assert forall|j: int| 0 <= j < first_constraint_index(cons, name) implies constraint_name(
                #[trigger] cons[j],
            ) != name by {
                if j > 0 {
                    assert(cons[j] == t[j - 1]);
                }
            }
            if first_constraint_index(cons, name) < cons.len() {
                assert(exists|j: int| 0 <= j < cons.len() && constraint_name(#[trigger] cons[j]) == name) by {
                    let k = first_constraint_index(t, name);
                    assert(cons[k + 1] == t[k]);
                }
            } else {
                assert forall|j: int| 0 <= j < cons.len() implies constraint_name(#[trigger] cons[j]) != name by {
                    if j > 0 {
                        assert(cons[j] == t[j - 1]);
                    }
                }
            }
        }
    }
}

pub proof fn lemma_primary_key_index(cons: Seq<Constraint>, k: int)
    requires
        0 <= k <= cons.len(),
        forall|i: int| 0 <= i < k ==> !(#[trigger] cons[i] is PrimaryKey),
        k == cons.len() || cons[k] is PrimaryKey,
    ensures
        primary_key_index(cons) == k,
    decreases k,
{
    if k > 0 {
        let t = cons.drop_first();
        assert(!(cons[0] is PrimaryKey));
        assert forall|i: int| 0 <= i < k - 1 implies !(#[trigger] t[i] is PrimaryKey) by {
            assert(t[i] == cons[i + 1]);
        }
        if k < cons.len() {
            assert(t[k - 1] == cons[k]);
        }
        lemma_primary_key_index(t, k - 1);
    }
}

pub proof fn lemma_key_positions_bound(cols: Seq<ColumnDefinition>, names: Seq<String>)
    ensures
        key_positions(cols, names).len() <= names.len(),
        forall|i: int| 0 <= i < key_positions(cols, names).len() ==> 0 <= #[trigger] key_positions(cols, names)[i] < cols.len(),
    decreases names.len(),
{
    if names.len() > 0 {
        lemma_key_positions_bound(cols, names.drop_last());
        lemma_first_column_index_bound(cols, names.last()@);
    }
}

pub proof fn lemma_first_column_index_bound(cols: Seq<ColumnDefinition>, name: Seq<char>)
    ensures
        0 <= first_column_index(cols, name) <= cols.len(),
        first_column_index(cols, name) < cols.len() ==> cols[first_column_index(cols, name)].name@ == name,
    decreases cols.len(),
{
    if cols.len() > 0 && cols[0].name@ != name {
        lemma_first_column_index_bound(cols.drop_first(), name);
    }
}

impl TableDefinition {
    /// Creates an empty table definition; the name cannot be blank.
    pub fn new(name: String) -> (r: Result<Self, SchemaError>)
        ensures
            is_blank(name@) ==> (r matches Err(e) && e@ == SchemaErrorView::InvalidTableName(
                "Table name cannot be empty or whitespace!"@,
            )),
            !is_blank(name@) ==> (r matches Ok(t) && t.table_id == 0 && t.name == name && t.columns@.len() == 0
                && t.constraints@.len() == 0),
    {
        if str_is_blank(name.as_str()) {
            return Err(
                SchemaError::InvalidTableName(String::from_str("Table name cannot be empty or whitespace!")),
            );
        }
        Ok(TableDefinition { table_id: 0, name, columns: Vec::new(), constraints: Vec::new() })
    }

    /// Appends a column.
    pub fn add_column(&mut self, column_def: ColumnDefinition)
        ensures
            final(self).columns@ == old(self).columns@.push(column_def),
            final(self).constraints == old(self).constraints,
            final(self).name == old(self).name,
            final(self).table_id == old(self).table_id,
    {
        self.columns.push(column_def);
    }

    /// Appends a constraint.
    pub fn add_constraint(&mut self, constraint: Constraint)
        ensures
            final(self).constraints@ == old(self).constraints@.push(constraint),
            final(self).columns == old(self).columns,
            final(self).name == old(self).name,
            final(self).table_id == old(self).table_id,
    {
        self.constraints.push(constraint);
    }

    /// The first column with the given name.
    pub fn get_column(&self, name: &str) -> (r: Option<&ColumnDefinition>)
        ensures
            ({
                let k = first_column_index(self.columns@, name@);
                if k < self.columns@.len() {
                    r == Some(&self.columns@[k])
                } else {
                    r is None
                }
            }),
    {
        let mut i: usize = 0;
        while i < self.columns.len()
            invariant
                0 <= i <= self.columns@.len(),
                forall|j: int| 0 <= j < i ==> #[trigger] self.columns@[j].name@ != name@,
            decreases self.columns@.len() - i,
        {
            if str_equal(self.columns[i].name.as_str(), name) {
                proof {
                    lemma_first_column_index(self.columns@, name@, i as int);
                }
                return Some(&self.columns[i]);
            }
            i = i + 1;
        }
        proof {
            lemma_first_column_index(self.columns@, name@, i as int);
        }
        None
    }

    /// The first constraint with the given name.
    pub fn get_constraint(&self, name: &str) -> (r: Option<&Constraint>)
        ensures
            ({
                let k = first_constraint_index(self.constraints@, name@);
                if k < self.constraints@.len() {
                    r == Some(&self.constraints@[k])
                } else {
                    r is None
                }
            }),
    {
        let mut i: usize = 0;
        while i < self.constraints.len()
            invariant
                0 <= i <= self.constraints@.len(),
                forall|j: int| 0 <= j < i ==> constraint_name(#[trigger] self.constraints@[j]) != name@,
            decreases self.constraints@.len() - i,
        {
            if str_equal(self.constraints[i].name(), name) {
                proof {
                    lemma_first_constraint_index(self.constraints@, name@, i as int);
                }
                return Some(&self.constraints[i]);
            }
            i = i + 1;
        }
        proof {
            lemma_first_constraint_index(self.constraints@, name@, i as int);
        }
        None
    }

    /// The first primary key constraint.
    pub fn get_primary_key(&self) -> (r: Option<&Constraint>)
        ensures
            ({
                let k = primary_key_index(self.constraints@);
                if k < self.constraints@.len() {
                    r == Some(&self.constraints@[k])
                } else {
                    r is None
                }
            }),
    {
        let mut i: usize = 0;
        while i < self.constraints.len()
            invariant
                0 <= i <= self.constraints@.len(),
                forall|j: int| 0 <= j < i ==> !(#[trigger] self.constraints@[j] is PrimaryKey),
            decreases self.constraints@.len() - i,
        {
            if let Constraint::PrimaryKey { .. } = &self.constraints[i] {
                proof {
                    lemma_primary_key_index(self.constraints@, i as int);
                }
                return Some(&self.constraints[i]);
            }
            i = i + 1;
        }
        proof {
            lemma_primary_key_index(self.constraints@, i as int);
        }
        None
    }

    /// The positions of the primary key columns, in key order; `None` without a primary key.
    pub fn get_primary_key_positions(&self) -> (r: Option<Vec<usize>>)
        ensures
            match primary_key_positions(*self) {
                Some(ps) => r matches Some(v) && v@.len() == ps.len() && forall|i: int|
                    0 <= i < ps.len() ==> #[trigger] v@[i] as int == ps[i],
                None => r is None,
            },
            r matches Some(v) ==> forall|i: int| 0 <= i < v@.len() ==> #[trigger] v@[i] < self.columns@.len(),
    {
        match self.get_primary_key() {
            Some(Constraint::PrimaryKey { column_names, .. }) => {
                let mut positions: Vec<usize> = Vec::new();
                let mut i: usize = 0;
                while i < column_names.len()
                    invariant
                        0 <= i <= column_names@.len(),
                        positions@.len() == key_positions(self.columns@, column_names@.take(i as int)).len(),
                        forall|k: int|
                            0 <= k < positions@.len() ==> #[trigger] positions@[k] as int == key_positions(
                                self.columns@,
                                column_names@.take(i as int),
                            )[k],
                        forall|k: int| 0 <= k < positions@.len() ==> #[trigger] positions@[k] < self.columns@.len(),
                    decreases column_names@.len() - i,
                {
                    proof {
                        assert(column_names@.take(i + 1).drop_last() =~= column_names@.take(i as int));
                        assert(column_names@.take(i + 1).last() == column_names@[i as int]);
                    }
                    let mut j: usize = 0;
                    while j < self.columns.len() && !str_equal(self.columns[j].name.as_str(), column_names[i].as_str())
                        invariant
                            0 <= i < column_names@.len(),
                            0 <= j <= self.columns@.len(),
                            forall|q: int| 0 <= q < j ==> #[trigger] self.columns@[q].name@ != column_names@[i as int]@,
                        decreases self.columns@.len() - j,
                    {
                        j = j + 1;
                    }
                    proof {
                        lemma_first_column_index(self.columns@, column_names@[i as int]@, j as int);
                    }
                    if j < self.columns.len() {
                        positions.push(j);
                    }
                    i = i + 1;
                }
                proof {
                    assert(column_names@.take(column_names@.len() as int) =~= column_names@);
                }
                Some(positions)
            },
            _ => None,
        }
    }
}

} // verus!
