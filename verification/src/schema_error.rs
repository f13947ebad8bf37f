use vstd::prelude::*;

verus! {

/// Errors of the schema definitions and of the data type parser.
#[derive(Clone, Debug, PartialEq, Eq)]
pub enum SchemaError {
    ArgumentMismatch { data_type_name: String, expected: String, found: usize },
    EmptyColumnName,
    EmptyDefaultValue,
    EmptyInput,
    ForeignKeyColumnMismatch,
    InvalidColumnName,
    InvalidFormat(String),
    InvalidKeyName,
    InvalidNumber(String),
    InvalidScale { precision: u8, scale: u8 },
    InvalidTableName(String),
    UnknownType(String),
}

/// A schema error with its texts taken as character sequences.
pub enum SchemaErrorView {
    ArgumentMismatch { data_type_name: Seq<char>, expected: Seq<char>, found: nat },
    EmptyColumnName,
    EmptyDefaultValue,
    EmptyInput,
    ForeignKeyColumnMismatch,
    InvalidColumnName,
    InvalidFormat(Seq<char>),
    InvalidKeyName,
    InvalidNumber(Seq<char>),
    InvalidScale { precision: u8, scale: u8 },
    InvalidTableName(Seq<char>),
    UnknownType(Seq<char>),
}

impl View for SchemaError {
    type V = SchemaErrorView;

    open spec fn view(&self) -> SchemaErrorView {
        match self {
            SchemaError::ArgumentMismatch { data_type_name, expected, found } => SchemaErrorView::ArgumentMismatch {
                data_type_name: data_type_name@,
                expected: expected@,
                found: *found as nat,
            },
            SchemaError::EmptyColumnName => SchemaErrorView::EmptyColumnName,
            SchemaError::EmptyDefaultValue => SchemaErrorView::EmptyDefaultValue,
            SchemaError::EmptyInput => SchemaErrorView::EmptyInput,
            SchemaError::ForeignKeyColumnMismatch => SchemaErrorView::ForeignKeyColumnMismatch,
            SchemaError::InvalidColumnName => SchemaErrorView::InvalidColumnName,
            SchemaError::InvalidFormat(s) => SchemaErrorView::InvalidFormat(s@),
            SchemaError::InvalidKeyName => SchemaErrorView::InvalidKeyName,
            SchemaError::InvalidNumber(s) => SchemaErrorView::InvalidNumber(s@),
            SchemaError::InvalidScale { precision, scale } => SchemaErrorView::InvalidScale {
                precision: *precision,
                scale: *scale,
            },
            SchemaError::InvalidTableName(s) => SchemaErrorView::InvalidTableName(s@),
            SchemaError::UnknownType(s) => SchemaErrorView::UnknownType(s@),
        }
    }
}

} // verus!
