use data_lake::iceberg::IcebergTableParams;
use data_lake::types::{
    delta_table_fields, delta_table_primitive_type, iceberg_schema_fields, iceberg_type,
    DeltaPrimitiveType, IcebergPrimitiveType, Type, ValueField, WriteError,
};

fn field(name: &str, type_: Type) -> ValueField {
    ValueField { name: name.to_string(), type_ }
}

#[test]
fn delta_mapping() {
    assert_eq!(delta_table_primitive_type(&Type::Bool).unwrap(), DeltaPrimitiveType::Boolean);
    assert_eq!(delta_table_primitive_type(&Type::Int).unwrap(), DeltaPrimitiveType::Long);
    assert_eq!(delta_table_primitive_type(&Type::Duration).unwrap(), DeltaPrimitiveType::Long);
    assert_eq!(delta_table_primitive_type(&Type::Float).unwrap(), DeltaPrimitiveType::Double);
    assert_eq!(delta_table_primitive_type(&Type::Json).unwrap(), DeltaPrimitiveType::String);
    assert_eq!(delta_table_primitive_type(&Type::Bytes).unwrap(), DeltaPrimitiveType::Binary);
    assert_eq!(delta_table_primitive_type(&Type::DateTimeNaive).unwrap(), DeltaPrimitiveType::TimestampNtz);
    assert_eq!(delta_table_primitive_type(&Type::DateTimeUtc).unwrap(), DeltaPrimitiveType::Timestamp);
    assert_eq!(
        delta_table_primitive_type(&Type::Optional(Box::new(Type::String))).unwrap(),
        DeltaPrimitiveType::String
    );
    assert!(matches!(
        delta_table_primitive_type(&Type::List(Box::new(Type::Int))),
        Err(WriteError::UnsupportedType(Type::List(_)))
    ));
    assert!(matches!(delta_table_primitive_type(&Type::Any), Err(WriteError::UnsupportedType(Type::Any))));
}

#[test]
fn iceberg_mapping() {
    assert_eq!(iceberg_type(&Type::DateTimeNaive).unwrap(), IcebergPrimitiveType::Timestamp);
    assert_eq!(iceberg_type(&Type::DateTimeUtc).unwrap(), IcebergPrimitiveType::Timestamptz);
    assert_eq!(iceberg_type(&Type::String).unwrap(), IcebergPrimitiveType::String);
    assert!(matches!(
        iceberg_type(&Type::Tuple(vec![Type::Int, Type::Bool])),
        Err(WriteError::UnsupportedType(Type::Tuple(_)))
    ));
    assert!(matches!(iceberg_type(&Type::Pointer), Err(WriteError::UnsupportedType(Type::Pointer))));
}

#[test]
fn delta_schema_appends_bookkeeping_columns() {
    let cols = delta_table_fields(&vec![field("a", Type::Int), field("b", Type::Optional(Box::new(Type::String)))])
        .unwrap();
    let shape: Vec<(String, DeltaPrimitiveType, bool)> =
        cols.iter().map(|c| (c.name.clone(), c.type_, c.nullable)).collect();
    assert_eq!(
        shape,
        vec![
            ("a".to_string(), DeltaPrimitiveType::Long, false),
            ("b".to_string(), DeltaPrimitiveType::String, true),
            ("time".to_string(), DeltaPrimitiveType::Long, false),
            ("diff".to_string(), DeltaPrimitiveType::Long, false),
        ]
    );
    assert!(delta_table_fields(&vec![field("a", Type::PyObjectWrapper)]).is_err());
}

#[test]
fn iceberg_schema_numbers_columns() {
    let cols = iceberg_schema_fields(&vec![field("x", Type::Bytes), field("o", Type::Optional(Box::new(Type::Duration)))]).unwrap();
    let shape: Vec<(i32, String, IcebergPrimitiveType, bool)> =
        cols.iter().map(|c| (c.id, c.name.clone(), c.type_, c.required)).collect();
    assert_eq!(
        shape,
        vec![
            (1, "x".to_string(), IcebergPrimitiveType::Binary, true),
            (2, "o".to_string(), IcebergPrimitiveType::Long, false),
            (3, "time".to_string(), IcebergPrimitiveType::Long, true),
            (4, "diff".to_string(), IcebergPrimitiveType::Long, true),
        ]
    );
}

#[test]
fn table_params() {
    let params = IcebergTableParams::new("t".to_string(), &vec![field("x", Type::Float)]).unwrap();
    assert_eq!(params.get_name(), "t");
    assert_eq!(params.get_schema().len(), 3);
    assert!(matches!(
        IcebergTableParams::new("t".to_string(), &vec![field("x", Type::Array(None, Box::new(Type::Int)))]),
        Err(WriteError::UnsupportedType(_))
    ));
}

#[test]
fn can_be_none() {
    assert!(Type::Any.can_be_none());
    assert!(Type::Optional(Box::new(Type::Int)).can_be_none());
    assert!(!Type::Int.can_be_none());
}

#[test]
fn unsupported_error_names_first_bad_field_without_optional() {
    let fields = vec![
        field("a", Type::Int),
        field("b", Type::Optional(Box::new(Type::Tuple(vec![Type::Int, Type::Optional(Box::new(Type::Bool))])))),
        field("c", Type::Pointer),
    ];
    match delta_table_fields(&fields) {
        Err(WriteError::UnsupportedType(Type::Tuple(items))) => {
            assert_eq!(items.len(), 2);
            assert!(matches!(items[0], Type::Int));
            assert!(matches!(&items[1], Type::Optional(inner) if matches!(**inner, Type::Bool)));
        }
        Ok(_) => panic!("an unsupported field was accepted"),
        Err(e) => panic!("unexpected error {e:?}"),
    }
    assert!(matches!(
        iceberg_schema_fields(&fields),
        Err(WriteError::UnsupportedType(Type::Tuple(_)))
    ));
    assert!(matches!(
        delta_table_primitive_type(&Type::Optional(Box::new(Type::Array(Some(3), Box::new(Type::Int))))),
        Err(WriteError::UnsupportedType(Type::Array(Some(3), _)))
    ));
}
