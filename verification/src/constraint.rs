use vstd::prelude::*;

use crate::schema_error::{SchemaError, SchemaErrorView};
use crate::text::{is_blank, str_is_blank};

verus! {

/// What a foreign key does when the referenced row changes.
#[derive(Clone, Copy, Debug, PartialEq, Eq, Structural)]
pub enum ReferentialAction {
    NoAction,
    Restrict,
    Cascade,
    SetNull,
    SetDefault,
}

/// A table constraint.
#[derive(Clone, Debug, PartialEq, Eq)]
pub enum Constraint {
    ForeignKey {
        name: String,
        on_update: ReferentialAction,
        on_delete: ReferentialAction,
        referencing_column_names: Vec<String>,
        referenced_table_name: String,
        referenced_column_names: Vec<String>,
    },
    PrimaryKey { name: String, column_names: Vec<String> },
    UniqueKey { name: String, column_names: Vec<String> },
}

/// The name of a constraint.
pub open spec fn constraint_name(c: Constraint) -> Seq<char> {
    match c {
        Constraint::ForeignKey { name, .. } => name@,
        Constraint::PrimaryKey { name, .. } => name@,
        Constraint::UniqueKey { name, .. } => name@,
    }
}

/// A constraint's name is the name it was built with, whatever its kind: a foreign key's own
/// name, not the name of the table it refers to.
pub proof fn lemma_constraint_name_is_its_name(c: Constraint)
    ensures
        c matches Constraint::ForeignKey { name: n, .. } ==> constraint_name(c) == n@,
        c matches Constraint::PrimaryKey { name: n, .. } ==> constraint_name(c) == n@,
        c matches Constraint::UniqueKey { name: n, .. } ==> constraint_name(c) == n@,
{
}

/// Some column name is blank.
pub open spec fn has_blank_name(names: Seq<String>) -> bool {
    exists|i: int| 0 <= i < names.len() && is_blank(#[trigger] names[i]@)
}

/// The error of a key with this name and these columns: a blank name, no column or a blank
/// column name.
pub open spec fn key_error(name: Seq<char>, column_names: Seq<String>) -> Option<SchemaErrorView> {
    if is_blank(name) || column_names.len() == 0 || has_blank_name(column_names) {
        Some(SchemaErrorView::EmptyColumnName)
    } else {
        None
    }
}

impl Constraint {
    /// The name of the constraint.
    pub fn name(&self) -> (r: &str)
        ensures
            r@ == constraint_name(*self),
    {
        match self {
            Constraint::ForeignKey { name, .. } => name.as_str(),
            Constraint::PrimaryKey { name, .. } => name.as_str(),
            Constraint::UniqueKey { name, .. } => name.as_str(),
        }
    }

    /// Creates a primary key constraint.
    pub fn primary_key(name: String, column_names: Vec<String>) -> (r: Result<Self, SchemaError>)
        ensures
            match key_error(name@, column_names@) {
                Some(e) => r matches Err(err) && err@ == e,
                None => r == Ok::<Self, SchemaError>(Constraint::PrimaryKey { name, column_names }),
            },
    {
        match Self::validate_key(name.as_str(), column_names.as_slice()) {
            Ok(()) => Ok(Constraint::PrimaryKey { name, column_names }),
            Err(e) => Err(e),
        }
    }

    /// Creates a unique key constraint.
    pub fn unique_key(name: String, column_names: Vec<String>) -> (r: Result<Self, SchemaError>)
        ensures
            match key_error(name@, column_names@) {
                Some(e) => r matches Err(err) && err@ == e,
                None => r == Ok::<Self, SchemaError>(Constraint::UniqueKey { name, column_names }),
            },
    {
        if str_is_blank(name.as_str()) {
            return Err(SchemaError::EmptyColumnName);
        }
        match Self::validate_columns(column_names.as_slice()) {
            Ok(()) => Ok(Constraint::UniqueKey { name, column_names }),
            Err(e) => Err(e),
        }
    }

    /// Checks the name and the columns of a key.
    pub fn validate_key(name: &str, column_names: &[String]) -> (r: Result<(), SchemaError>)
        ensures
            match key_error(name@, column_names@) {
                Some(e) => r matches Err(err) && err@ == e,
                None => r is Ok,
            },
    {
        if str_is_blank(name) {
            return Err(SchemaError::EmptyColumnName);
        }
        Self::validate_columns(column_names)
    }

    /// Checks that there is at least one column and that no column name is blank.
    pub fn validate_columns(column_names: &[String]) -> (r: Result<(), SchemaError>)
        ensures
            column_names@.len() == 0 || has_blank_name(column_names@) ==> (r matches Err(err) && err@
                == SchemaErrorView::EmptyColumnName),
            !(column_names@.len() == 0 || has_blank_name(column_names@)) ==> r is Ok,
    {
        if column_names.len() == 0 {
            return Err(SchemaError::EmptyColumnName);
        }
        let mut i: usize = 0;
        while i < column_names.len()
            invariant
                0 <= i <= column_names@.len(),
                forall|j: int| 0 <= j < i ==> !is_blank(#[trigger] column_names@[j]@),
            decreases column_names@.len() - i,
        {
            if str_is_blank(column_names[i].as_str()) {
                return Err(SchemaError::EmptyColumnName);
            }
            i = i + 1;
        }
        Ok(())
    }
}

} // verus!
