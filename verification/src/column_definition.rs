use vstd::prelude::*;

use crate::primitive_data_type::PrimitiveDataType;
use crate::schema_error::{SchemaError, SchemaErrorView};
use crate::text::{is_blank, str_is_blank};

verus! {

/// The definition of a table column.
#[derive(Clone, Debug, PartialEq, Eq)]
pub struct ColumnDefinition {
    pub name: String,
    pub data_type: PrimitiveDataType,
    pub is_nullable: bool,
    pub default_value: Option<String>,
}

/// The error that `ColumnDefinition::new` gives for these arguments, if any.
pub open spec fn column_definition_error(name: Seq<char>, default_value: Option<Seq<char>>) -> Option<SchemaErrorView> {
    if is_blank(name) {
        Some(SchemaErrorView::InvalidColumnName)
    } else if default_value is Some && is_blank(default_value->0) {
        Some(SchemaErrorView::EmptyDefaultValue)
    } else {
        None
    }
}

/// Every type but `Blob` and `Varchar` counts as a fixed type.
pub open spec fn spec_is_fixed_type(t: PrimitiveDataType) -> bool {
    !(t is Blob || t is Varchar)
}

impl ColumnDefinition {
    /// Creates a column definition. The name cannot be blank, nor can a default value.
    pub fn new(
        name: String,
        data_type: PrimitiveDataType,
        is_nullable: bool,
        default_value: Option<String>,
    ) -> (r: Result<Self, SchemaError>)
        ensures
            match column_definition_error(name@, match default_value { Some(v) => Some(v@), None => None }) {
                Some(e) => r matches Err(err) && err@ == e,
                None => r == Ok::<Self, SchemaError>(
                    ColumnDefinition { name, data_type, is_nullable, default_value },
                ),
            },
    {
        if str_is_blank(name.as_str()) {
            return Err(SchemaError::InvalidColumnName);
        }
        match &default_value {
            Some(val) => {
                if str_is_blank(val.as_str()) {
                    return Err(SchemaError::EmptyDefaultValue);
                }
            },
            None => {},
        }
        Ok(ColumnDefinition { name, data_type, is_nullable, default_value })
    }

    /// Whether the column holds values of a fixed size; only `Blob` and `Varchar` do not.
    pub fn is_fixed_type(&self) -> (r: bool)
        ensures
            r == spec_is_fixed_type(self.data_type),
    {
        match self.data_type {
            PrimitiveDataType::Blob(_) => false,
            PrimitiveDataType::Varchar(_) => false,
            _ => true,
        }
    }
}

} // verus!
