use rarmdb::column_definition::ColumnDefinition;
use rarmdb::constraint::Constraint;
use rarmdb::primitive_data_type::PrimitiveDataType;
use rarmdb::schema_error::SchemaError;
use rarmdb::table_definition::TableDefinition;

#[test]
fn test_create_valid_column() {
    let col = ColumnDefinition::new(String::from("id"), PrimitiveDataType::Int, false, None);
    assert!(col.is_ok());
    let col = col.unwrap();
    assert_eq!(col.name, "id");
    assert_eq!(col.data_type, PrimitiveDataType::Int);
    assert!(!col.is_nullable);
    assert_eq!(col.default_value, None);
}

#[test]
fn test_create_valid_column_with_default() {
    let col = ColumnDefinition::new(
        String::from("created_at"),
        PrimitiveDataType::DateTime,
        false,
        Some(String::from("NOW()")),
    );
    assert!(col.is_ok());
    let col = col.unwrap();
    assert_eq!(col.name, "created_at");
    assert_eq!(col.default_value, Some(String::from("NOW()")));
}

#[test]
fn column_definition_test_create_invalid_empty_name() {
    let col = ColumnDefinition::new(String::from(""), PrimitiveDataType::Int, false, None);
    assert!(col.is_err());
    assert!(matches!(col.unwrap_err(), SchemaError::InvalidColumnName));
}

#[test]
fn column_definition_test_create_invalid_whitespace_name() {
    let col = ColumnDefinition::new(String::from("   "), PrimitiveDataType::Int, false, None);
    assert!(col.is_err());
    assert!(matches!(col.unwrap_err(), SchemaError::InvalidColumnName));
}

#[test]
fn test_create_invalid_empty_default() {
    let col = ColumnDefinition::new(String::from("id"), PrimitiveDataType::Int, false, Some(String::from("")));
    assert!(col.is_err());
    assert!(matches!(col.unwrap_err(), SchemaError::EmptyDefaultValue));
}

#[test]
fn test_create_invalid_whitespace_default() {
    let col = ColumnDefinition::new(String::from("id"), PrimitiveDataType::Int, false, Some(String::from("   ")));
    assert!(col.is_err());
    assert!(matches!(col.unwrap_err(), SchemaError::EmptyDefaultValue));
}

#[test]
fn column_is_fixed_type_follows_its_type() {
    let int_col = ColumnDefinition::new(String::from("id"), PrimitiveDataType::Int, false, None).unwrap();
    let text_col = ColumnDefinition::new(String::from("name"), PrimitiveDataType::Varchar(10), false, None).unwrap();
    let blob_col = ColumnDefinition::new(String::from("bio"), PrimitiveDataType::Blob(10), true, None).unwrap();
    assert!(int_col.is_fixed_type());
    assert!(!text_col.is_fixed_type());
    assert!(!blob_col.is_fixed_type());
}

#[test]
fn test_primary_key_valid() {
    let pk = Constraint::primary_key("pk_users".to_string(), vec!["id".to_string()]);
    assert!(pk.is_ok());

    if let Constraint::PrimaryKey { name, column_names } = pk.unwrap() {
        assert_eq!(name, "pk_users");
        assert_eq!(column_names, vec!["id"]);
    } else {
        panic!("Expected PrimaryKey variant");
    }
}

#[test]
fn test_primary_key_invalid_empty_name() {
    let pk = Constraint::primary_key("".to_string(), vec!["id".to_string()]);
    assert!(pk.is_err());
}

#[test]
fn test_primary_key_invalid_empty_columns() {
    let pk = Constraint::primary_key("pk_users".to_string(), vec![]);
    assert!(pk.is_err());
}

#[test]
fn test_unique_key_valid() {
    let uq = Constraint::unique_key("uq_email".to_string(), vec!["email".to_string()]);
    assert!(uq.is_ok());
}

#[test]
fn unique_key_is_a_unique_key_constraint() {
    let uq = Constraint::unique_key("uq_email".to_string(), vec!["email".to_string()]).unwrap();
    assert!(matches!(uq, Constraint::UniqueKey { .. }));
    assert_eq!(uq.name(), "uq_email");
}

#[test]
fn key_with_blank_column_name_is_rejected() {
    let pk = Constraint::primary_key("pk".to_string(), vec!["id".to_string(), "  ".to_string()]);
    assert_eq!(pk, Err(SchemaError::EmptyColumnName));
    let uq = Constraint::unique_key("   ".to_string(), vec!["id".to_string()]);
    assert_eq!(uq, Err(SchemaError::EmptyColumnName));
}

#[test]
fn test_decimal_validation() {
    let valid = PrimitiveDataType::decimal(10, 2);
    assert!(valid.is_ok());
    assert_eq!(valid.unwrap(), PrimitiveDataType::Decimal(10, 2));

    let equal = PrimitiveDataType::decimal(5, 5);
    assert!(equal.is_ok());

    let invalid = PrimitiveDataType::decimal(2, 10);
    assert!(invalid.is_err());

    match invalid {
        Err(SchemaError::InvalidScale { precision, scale }) => {
            assert_eq!(precision, 2);
            assert_eq!(scale, 10);
        }
        _ => panic!("Expected InvalidScale error"),
    }
}

#[test]
fn test_fixed_sizes() {
    assert_eq!(PrimitiveDataType::Int.get_fixed_size(), Some(4));
    assert_eq!(PrimitiveDataType::BigInt.get_fixed_size(), Some(8));
    assert_eq!(PrimitiveDataType::Float.get_fixed_size(), Some(8));
    assert_eq!(PrimitiveDataType::Boolean.get_fixed_size(), Some(1));
    assert_eq!(PrimitiveDataType::DateTime.get_fixed_size(), Some(8));
    assert_eq!(PrimitiveDataType::Decimal(10, 2).get_fixed_size(), Some(16));
    assert_eq!(PrimitiveDataType::Varchar(255).get_fixed_size(), None);
    assert_eq!(PrimitiveDataType::Blob(1024).get_fixed_size(), None);
}

#[test]
fn test_is_fixed_size() {
    assert!(PrimitiveDataType::Int.is_fixed_size());
    assert!(PrimitiveDataType::BigInt.is_fixed_size());
    assert!(PrimitiveDataType::Float.is_fixed_size());
    assert!(PrimitiveDataType::Boolean.is_fixed_size());
    assert!(PrimitiveDataType::DateTime.is_fixed_size());
    assert!(PrimitiveDataType::Decimal(10, 2).is_fixed_size());

    assert!(!PrimitiveDataType::Varchar(255).is_fixed_size());
    assert!(!PrimitiveDataType::Blob(1024).is_fixed_size());
    assert!(!PrimitiveDataType::Unknown.is_fixed_size());
}

#[test]
fn test_from_str() {
    assert_eq!("INT".parse::<PrimitiveDataType>(), Ok(PrimitiveDataType::Int));
    assert_eq!("integer".parse::<PrimitiveDataType>(), Ok(PrimitiveDataType::Int));
    assert_eq!("BIGINT".parse::<PrimitiveDataType>(), Ok(PrimitiveDataType::BigInt));
    assert_eq!("BOOLEAN".parse::<PrimitiveDataType>(), Ok(PrimitiveDataType::Boolean));
    assert_eq!("BOOL".parse::<PrimitiveDataType>(), Ok(PrimitiveDataType::Boolean));
    assert_eq!("DATETIME".parse::<PrimitiveDataType>(), Ok(PrimitiveDataType::DateTime));
    assert_eq!("FLOAT".parse::<PrimitiveDataType>(), Ok(PrimitiveDataType::Float));

    assert_eq!("VARCHAR(100)".parse::<PrimitiveDataType>(), Ok(PrimitiveDataType::Varchar(100)));
    assert_eq!("varchar( 255 )".parse::<PrimitiveDataType>(), Ok(PrimitiveDataType::Varchar(255)));
    assert_eq!("BLOB(1024)".parse::<PrimitiveDataType>(), Ok(PrimitiveDataType::Blob(1024)));

    assert_eq!("DECIMAL".parse::<PrimitiveDataType>(), Ok(PrimitiveDataType::Decimal(18, 0)));
    assert_eq!("DECIMAL(10, 2)".parse::<PrimitiveDataType>(), Ok(PrimitiveDataType::Decimal(10, 2)));
    assert_eq!("DECIMAL( 5 , 5 )".parse::<PrimitiveDataType>(), Ok(PrimitiveDataType::Decimal(5, 5)));

    assert!(matches!("FOOBAR".parse::<PrimitiveDataType>(), Err(SchemaError::UnknownType(_))));
    assert!(matches!("INT(10)".parse::<PrimitiveDataType>(), Err(SchemaError::ArgumentMismatch { .. })));
    assert!(matches!("VARCHAR".parse::<PrimitiveDataType>(), Err(SchemaError::ArgumentMismatch { .. })));
    assert!(matches!("VARCHAR(ABC)".parse::<PrimitiveDataType>(), Err(SchemaError::InvalidNumber(_))));
    assert!(matches!("DECIMAL(2, 10)".parse::<PrimitiveDataType>(), Err(SchemaError::InvalidScale { .. })));
}

#[test]
fn type_names_parse_alike_in_any_case_and_among_blanks() {
    for input in ["int", "Int", "BigInt", "varchar(10)", "Decimal( 5, 2 )", "blob(7)", "bool", "nonsense", "int(3)"] {
        let expected = input.parse::<PrimitiveDataType>();
        assert_eq!(expected, input.to_ascii_lowercase().parse::<PrimitiveDataType>(), "lower case of {}", input);
        assert_eq!(expected, input.to_ascii_uppercase().parse::<PrimitiveDataType>(), "upper case of {}", input);
        assert_eq!(expected, format!("  {}  ", input).parse::<PrimitiveDataType>(), "blanks around {}", input);
        assert_eq!(expected, format!("\t{}\n", input).parse::<PrimitiveDataType>(), "tab and newline around {}", input);
    }
    assert_eq!(Ok(PrimitiveDataType::Varchar(10)), "  VarChar(10) ".parse::<PrimitiveDataType>());
}

#[test]
fn parse_reports_each_error_exactly() {
    assert_eq!(PrimitiveDataType::parse("   "), Err(SchemaError::EmptyInput));
    assert_eq!(PrimitiveDataType::parse("FOOBAR"), Err(SchemaError::UnknownType(String::from("FOOBAR"))));
    assert_eq!(
        PrimitiveDataType::parse("INT(10)"),
        Err(SchemaError::ArgumentMismatch {
            data_type_name: String::from("INT"),
            expected: String::from("0"),
            found: 1,
        })
    );
    assert_eq!(PrimitiveDataType::parse("VARCHAR(ABC)"), Err(SchemaError::InvalidNumber(String::from("ABC"))));
    assert_eq!(
        PrimitiveDataType::parse("DECIMAL(2, 10)"),
        Err(SchemaError::InvalidScale { precision: 2, scale: 10 })
    );
    assert_eq!(PrimitiveDataType::parse(" blob ( 7 ) "), Ok(PrimitiveDataType::Blob(7)));
}

#[test]
fn test_create_valid_table_definition() {
    let table_def = TableDefinition::new(String::from("users"));
    assert!(table_def.is_ok());

    let table_def = table_def.unwrap();
    assert_eq!(table_def.name, "users");
    assert!(table_def.columns.is_empty());
    assert!(table_def.constraints.is_empty());
}

#[test]
fn table_definition_test_create_invalid_empty_name() {
    let table_def = TableDefinition::new(String::from(""));
    assert!(table_def.is_err());
}

#[test]
fn table_definition_test_create_invalid_whitespace_name() {
    let table_def = TableDefinition::new(String::from("   "));
    assert!(table_def.is_err());
}

#[test]
fn table_definition_blank_name_error_message() {
    assert_eq!(
        TableDefinition::new(String::from(" \t")),
        Err(SchemaError::InvalidTableName(String::from("Table name cannot be empty or whitespace!")))
    );
}

#[test]
fn test_add_column() {
    let mut table_def = TableDefinition::new(String::from("users")).unwrap();

    let col = ColumnDefinition::new(String::from("id"), PrimitiveDataType::Int, false, None).unwrap();
    table_def.add_column(col.clone());

    assert_eq!(table_def.columns.len(), 1);
    assert_eq!(table_def.columns[0], col);

    assert!(table_def.get_column("id").is_some());
    assert!(table_def.get_column("missing").is_none());
}

#[test]
fn test_add_constraint() {
    let mut table_def = TableDefinition::new(String::from("users")).unwrap();

    let pk = Constraint::primary_key(String::from("pk_users"), vec![String::from("id")]).unwrap();
    table_def.add_constraint(pk.clone());

    assert_eq!(table_def.constraints.len(), 1);
    assert_eq!(table_def.constraints[0], pk);

    assert!(table_def.get_constraint("pk_users").is_some());
    assert!(table_def.get_constraint("missing").is_none());
}

#[test]
fn primary_key_positions_follow_key_order() {
    let mut t = TableDefinition::new(String::from("t")).unwrap();
    t.add_column(ColumnDefinition::new(String::from("a"), PrimitiveDataType::Int, false, None).unwrap());
    t.add_column(ColumnDefinition::new(String::from("b"), PrimitiveDataType::Int, false, None).unwrap());
    t.add_column(ColumnDefinition::new(String::from("c"), PrimitiveDataType::Int, false, None).unwrap());
    assert_eq!(t.get_primary_key_positions(), None);
    t.add_constraint(Constraint::primary_key(String::from("pk"), vec![String::from("c"), String::from("a")]).unwrap());
    assert_eq!(t.get_primary_key_positions(), Some(vec![2, 0]));
    assert!(t.get_primary_key().is_some());
}

#[test]
fn missing_closing_parenthesis_is_a_format_error() {
    let result = "varchar(10".parse::<PrimitiveDataType>();
    assert!(matches!(result, Err(SchemaError::InvalidFormat(_))));
}
