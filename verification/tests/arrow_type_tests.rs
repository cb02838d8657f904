use pyroduct::arrow_type::{ArrowField, ArrowSchema, ArrowTimeUnit, ArrowType};
use pyroduct::typeable::{PrimitiveDataType, PyroField, PyroSchema, PyroType};

const PRIMS: [PrimitiveDataType; 12] = [
    PrimitiveDataType::Bool,
    PrimitiveDataType::U8,
    PrimitiveDataType::U16,
    PrimitiveDataType::U32,
    PrimitiveDataType::U64,
    PrimitiveDataType::I8,
    PrimitiveDataType::I16,
    PrimitiveDataType::I32,
    PrimitiveDataType::I64,
    PrimitiveDataType::F16,
    PrimitiveDataType::F32,
    PrimitiveDataType::F64,
];

#[test]
fn schema_test_primitive_roundtrip() {
    let mut types: Vec<PyroType> = vec![PyroType::Null];
    for p in PRIMS {
        types.push(PyroType::PrimitiveScalar(p));
    }
    types.push(PyroType::Str);
    types.push(PyroType::Timestamp);
    for dt in types {
        let arrow_dt = dt.to_arrow();
        let roundtripped = PyroType::from_arrow(&arrow_dt).unwrap();
        assert_eq!(dt, roundtripped, "roundtrip failed for {dt:?}");
    }
}

#[test]
fn test_primitive_list_roundtrip() {
    for pdt in PRIMS {
        let dt = PyroType::PrimitiveList(pdt);
        let arrow_dt = dt.to_arrow();
        let roundtripped = PyroType::from_arrow(&arrow_dt).unwrap();
        assert_eq!(dt, roundtripped, "PrimitiveList roundtrip failed for {pdt:?}");
    }
}

#[test]
fn test_primitive_fixed_list_roundtrip() {
    let dt = PyroType::PrimitiveFixedList(PrimitiveDataType::F32, 128);
    let arrow_dt = dt.to_arrow();
    if let ArrowType::FixedSizeList(inner, size) = &arrow_dt {
        assert_eq!(inner.data_type, ArrowType::Float32);
        assert_eq!(*size, 128);
    } else {
        panic!("Expected Arrow FixedSizeList, got {arrow_dt:?}");
    }
    let back = PyroType::from_arrow(&arrow_dt).unwrap();
    assert_eq!(back, dt);
}

#[test]
fn test_fixed_size_binary_to_fixed_list() {
    let arrow_dt = ArrowType::FixedSizeBinary(16);
    let pyro_dt = PyroType::from_arrow(&arrow_dt).unwrap();
    assert_eq!(pyro_dt, PyroType::PrimitiveFixedList(PrimitiveDataType::U8, 16));
}

#[test]
fn test_list_with_nullable_roundtrip() {
    let dt = PyroType::List(Box::new(PyroType::Str), true);
    let arrow_dt = dt.to_arrow();
    if let ArrowType::List(inner) = &arrow_dt {
        assert_eq!(inner.data_type, ArrowType::Utf8);
        assert!(inner.nullable);
    } else {
        panic!("Expected Arrow List, got {arrow_dt:?}");
    }
    let back = PyroType::from_arrow(&arrow_dt).unwrap();
    assert_eq!(back, dt);
}

#[test]
fn test_list_non_nullable_roundtrip() {
    let dt = PyroType::List(Box::new(PyroType::Str), false);
    let arrow_dt = dt.to_arrow();
    if let ArrowType::List(inner) = &arrow_dt {
        assert!(!inner.nullable);
    } else {
        panic!("Expected Arrow List");
    }
    let back = PyroType::from_arrow(&arrow_dt).unwrap();
    assert_eq!(back, dt);
}

#[test]
fn test_list_non_nullable_roundtrip_primitive() {
    let dt = PyroType::List(Box::new(PyroType::PrimitiveScalar(PrimitiveDataType::I8)), false);
    let arrow_dt = dt.to_arrow();
    if let ArrowType::List(inner) = &arrow_dt {
        assert!(!inner.nullable);
    } else {
        panic!("Expected Arrow List");
    }
    let back = PyroType::from_arrow(&arrow_dt).unwrap();
    // A list of scalars comes back as a list of scalars.
    assert_eq!(back, PyroType::PrimitiveList(PrimitiveDataType::I8));
}

#[test]
fn test_group_roundtrip() {
    let dt = PyroType::Group(vec![
        PyroField::new("name", PyroType::Str, false),
        PyroField::new("age", PyroType::PrimitiveScalar(PrimitiveDataType::I32), true),
    ]);
    let arrow_dt = dt.to_arrow();
    if let ArrowType::Struct(fields) = &arrow_dt {
        assert_eq!(fields.len(), 2);
        assert_eq!(fields[0].name, "name");
        assert_eq!(fields[0].data_type, ArrowType::Utf8);
        assert!(!fields[0].nullable);
        assert_eq!(fields[1].name, "age");
        assert_eq!(fields[1].data_type, ArrowType::Int32);
        assert!(fields[1].nullable);
    } else {
        panic!("Expected Arrow Struct, got {arrow_dt:?}");
    }
    let back = PyroType::from_arrow(&arrow_dt).unwrap();
    assert_eq!(back, dt);
}

#[test]
fn test_map_roundtrip() {
    let dt = PyroType::KeyValueMap {
        key: Box::new(PyroType::Str),
        value: Box::new(PyroType::PrimitiveScalar(PrimitiveDataType::I64)),
    };
    let arrow_dt = dt.to_arrow();
    assert!(matches!(arrow_dt, ArrowType::KeyValueMap(_, false)));
    let back = PyroType::from_arrow(&arrow_dt).unwrap();
    assert_eq!(back, dt);
}

fn sample_schema() -> PyroSchema {
    PyroSchema::new(vec![
        PyroField::new("id", PyroType::PrimitiveScalar(PrimitiveDataType::I64), false),
        PyroField::new("name", PyroType::Str, true),
        PyroField::new("scores", PyroType::PrimitiveList(PrimitiveDataType::F32), true),
        PyroField::new("embedding", PyroType::PrimitiveFixedList(PrimitiveDataType::F32, 128), false),
        PyroField::new("tags", PyroType::List(Box::new(PyroType::Str), true), true),
    ])
}

#[test]
fn test_schema_roundtrip() {
    let schema = sample_schema();
    let arrow_schema = schema.to_arrow();
    assert_eq!(arrow_schema.fields.len(), 5);
    assert_eq!(arrow_schema.fields[0].name, "id");
    assert_eq!(arrow_schema.fields[0].data_type, ArrowType::Int64);
    assert!(!arrow_schema.fields[0].nullable);
    if let ArrowType::FixedSizeList(inner, size) = &arrow_schema.fields[3].data_type {
        assert_eq!(inner.data_type, ArrowType::Float32);
        assert_eq!(*size, 128);
    } else {
        panic!("Expected FixedSizeList for embedding");
    }
    let back = PyroSchema::from_arrow(&arrow_schema).unwrap();
    assert_eq!(schema, back);
}

#[test]
fn test_schema_to_arrow_arc() {
    let schema = PyroSchema::new(vec![PyroField::new(
        "x",
        PyroType::PrimitiveScalar(PrimitiveDataType::F64),
        false,
    )]);
    let arc = schema.to_arrow_arc();
    assert_eq!(arc.fields.len(), 1);
}

#[test]
fn test_unsupported_arrow_type_returns_none() {
    assert!(PyroType::from_arrow(&ArrowType::Other).is_none());
    assert!(PyroType::from_arrow(&ArrowType::Duration(ArrowTimeUnit::Second)).is_none());
}

#[test]
fn test_dictionary_unwrap() {
    let dt = ArrowType::Dictionary(Box::new(ArrowType::Int32), Box::new(ArrowType::Utf8));
    let pyro_dt = PyroType::from_arrow(&dt).unwrap();
    assert_eq!(pyro_dt, PyroType::Str);
}

#[test]
fn test_arrow_shapes_of_column_types() {
    assert_eq!(
        PyroType::Timestamp.to_arrow(),
        ArrowType::Timestamp(ArrowTimeUnit::Nanosecond, None)
    );
    match PyroType::PrimitiveList(PrimitiveDataType::U16).to_arrow() {
        ArrowType::List(item) => {
            assert_eq!(item.name, "item");
            assert!(item.nullable);
            assert_eq!(item.data_type, ArrowType::UInt16);
        },
        other => panic!("unexpected {other:?}"),
    }
    let map = PyroType::KeyValueMap { key: Box::new(PyroType::Str), value: Box::new(PyroType::Null) }.to_arrow();
    match map {
        ArrowType::KeyValueMap(entries, sorted) => {
            assert!(!sorted);
            assert_eq!(entries.name, "entries");
            assert!(!entries.nullable);
            match &entries.data_type {
                ArrowType::Struct(kv) => {
                    assert_eq!(kv[0].name, "key");
                    assert!(!kv[0].nullable);
                    assert_eq!(kv[1].name, "value");
                    assert!(kv[1].nullable);
                },
                other => panic!("unexpected {other:?}"),
            }
        },
        other => panic!("unexpected {other:?}"),
    }
}

#[test]
fn test_arrow_types_read_as_column_types() {
    assert_eq!(PyroType::from_arrow(&ArrowType::LargeUtf8), Some(PyroType::Str));
    assert_eq!(
        PyroType::from_arrow(&ArrowType::Binary),
        Some(PyroType::PrimitiveList(PrimitiveDataType::U8))
    );
    assert_eq!(PyroType::from_arrow(&ArrowType::Date32), Some(PyroType::Timestamp));
    assert_eq!(
        PyroType::from_arrow(&ArrowType::Timestamp(ArrowTimeUnit::Second, Some("UTC".to_string()))),
        None
    );
    assert_eq!(
        PyroType::from_arrow(&ArrowType::Timestamp(ArrowTimeUnit::Second, None)),
        Some(PyroType::Timestamp)
    );
    let large = ArrowType::LargeList(Box::new(ArrowField {
        name: "x".to_string(),
        data_type: ArrowType::Utf8,
        nullable: false,
    }));
    assert_eq!(
        PyroType::from_arrow(&large),
        Some(PyroType::List(Box::new(PyroType::Str), false))
    );
    let bad_map = ArrowType::KeyValueMap(
        Box::new(ArrowField { name: "entries".to_string(), data_type: ArrowType::Struct(vec![]), nullable: false }),
        false,
    );
    assert_eq!(PyroType::from_arrow(&bad_map), None);
    let bad_struct = ArrowSchema {
        fields: vec![ArrowField { name: "d".to_string(), data_type: ArrowType::Other, nullable: true }],
    };
    assert!(PyroSchema::from_arrow(&bad_struct).is_none());
    assert_eq!(PrimitiveDataType::from_arrow(&ArrowType::Utf8), None);
    assert_eq!(PrimitiveDataType::from_arrow(&ArrowType::UInt64), Some(PrimitiveDataType::U64));
}
