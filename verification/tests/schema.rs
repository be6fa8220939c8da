use akiradb::schema::{
    DataType, Field, FieldType, Schema, SchemaBuilder, SchemaError, TIME_COL_NAME,
};
use std::convert::TryFrom;

#[test]
fn test_builder() {
    let schema = SchemaBuilder::new()
        .field("int_field", FieldType::Int)
        .field("str_field", FieldType::Str)
        .field("unknown_field", DataType::Other("Int64".to_string()))
        .timestamp()
        .domain("apache")
        .build();

    assert_eq!(
        true,
        schema.is_err(),
        "should fail, as Int64 is not supported. error: {:?}",
        schema.err().unwrap().message()
    );
}

#[test]
fn try_new_from_arrow() {
    let fields = vec![
        Field::new("INT_COL", DataType::Int32, false),
        Field::new("STR_COL", DataType::Utf8, false),
        Field::new("TIME_COL", DataType::Int32, false),
    ];

    let schema = Schema::try_from(fields);
    assert_eq!(
        true,
        schema.is_ok(),
        "should be able to create schema from arrow. error: {:?}",
        schema.err().unwrap().message()
    );
}

#[test]
fn try_new_from_arrow_with_unsupported_datatype() {
    let fields = vec![
        Field::new("INT_COL", DataType::Int32, false),
        Field::new("STR_COL", DataType::Utf8, false),
        Field::new("UNK_COL", DataType::Other("Int8".to_string()), false),
    ];

    let schema = Schema::try_from(fields);
    assert_eq!(
        "Unsupported data type(Int8) used for column: UNK_COL",
        schema.unwrap_err().message(),
    );
}

#[test]
fn first_unsupported_column_is_reported() {
    let schema = SchemaBuilder::new()
        .field("a", FieldType::Int)
        .column("b", DataType::Other("Float64".to_string()))
        .column("c", DataType::Other("Int8".to_string()))
        .build();
    assert_eq!(
        schema.unwrap_err(),
        SchemaError::UnsupportedDataType {
            data_type: "Float64".to_string(),
            column: "b".to_string()
        }
    );
}

#[test]
fn builder_keeps_columns_in_order() {
    let schema = SchemaBuilder::new()
        .field("int_field", FieldType::Int)
        .field("str_field", FieldType::Str)
        .timestamp()
        .domain("apache")
        .build()
        .unwrap();
    let mut it = schema.iter();
    let mut seen = Vec::new();
    while let Some(field) = it.next() {
        seen.push((field.name().to_string(), field.data_type().clone(), field.is_nullable()));
    }
    assert!(it.next().is_none());
    assert_eq!(
        seen,
        vec![
            ("int_field".to_string(), DataType::Int32, false),
            ("str_field".to_string(), DataType::Utf8, false),
            (TIME_COL_NAME.to_string(), DataType::Int32, false),
        ]
    );
    assert_eq!(schema.inner().len(), 3);
}

#[test]
fn empty_schema_is_fine() {
    let schema = SchemaBuilder::new().build().unwrap();
    assert!(schema.iter().next().is_none());
    assert!(Schema::new_with_fields(None, Vec::new()).is_ok());
}

#[test]
fn schema_new_takes_columns_unchecked() {
    let schema = Schema::new(vec![Field::new("x", DataType::Other("Int8".to_string()), true)]);
    let mut it = schema.iter();
    let field = it.next().unwrap();
    assert_eq!(field.name(), "x");
    assert!(field.is_nullable());
}

#[test]
fn field_types_by_name() {
    assert_eq!(FieldType::try_from("string"), Ok(FieldType::Str));
    assert_eq!(FieldType::try_from("int"), Ok(FieldType::Int));
    assert_eq!(FieldType::try_from("time"), Ok(FieldType::Time));
    assert_eq!(FieldType::try_from("String"), Err(SchemaError::UnknownType));
    assert_eq!(FieldType::try_from(""), Err(SchemaError::UnknownType));
    assert_eq!(FieldType::from_name("int"), Ok(FieldType::Int));
    assert_eq!(SchemaError::UnknownType.message(), "Unknown type");
}

#[test]
fn field_types_and_data_types() {
    assert_eq!(FieldType::try_from(&DataType::Utf8), Ok(FieldType::Str));
    assert_eq!(FieldType::try_from(&DataType::Int32), Ok(FieldType::Int));
    assert_eq!(
        FieldType::try_from(&DataType::Other("Int8".to_string())),
        Err(SchemaError::UnknownType)
    );
    assert_eq!(DataType::from(FieldType::Int), DataType::Int32);
    assert_eq!(DataType::from(FieldType::Str), DataType::Utf8);
    assert_eq!(DataType::from(FieldType::Time), DataType::Int32);
    assert!(Schema::is_supported_type(&DataType::Int32));
    assert!(Schema::is_supported_type(&DataType::Utf8));
    assert!(!Schema::is_supported_type(&DataType::Other("Int64".to_string())));
    assert_eq!(DataType::Other("Int64".to_string()).name(), "Int64");
    assert_eq!(DataType::Int32.name(), "Int32");
    assert_eq!(DataType::Utf8.name(), "Utf8");
}
