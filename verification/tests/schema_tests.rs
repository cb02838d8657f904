use pyroduct::schema::{name_before, ValueSchemaInferenceError};
use pyroduct::typeable::{PrimitiveDataType, PyroType};
use pyroduct::value::{PrimitiveValueList, PyroRow, PyroValue};

/// The rank of a numeric scalar type in the order in which they widen.
fn rank(t: &PyroType) -> Option<usize> {
    let order = [
        PrimitiveDataType::I8,
        PrimitiveDataType::I16,
        PrimitiveDataType::I32,
        PrimitiveDataType::I64,
        PrimitiveDataType::F32,
        PrimitiveDataType::F64,
    ];
    match t {
        PyroType::PrimitiveScalar(p) => order.iter().position(|q| q == p),
        _ => None,
    }
}

/// Merges two numeric scalar types into the wider one, and nothing else.
fn merge(a: &PyroType, b: &PyroType) -> Option<PyroType> {
    match (rank(a), rank(b)) {
        (Some(x), Some(y)) => Some(if x >= y { a.clone() } else { b.clone() }),
        _ => None,
    }
}

fn row_of(items: Vec<(&str, PyroValue)>) -> PyroRow {
    let mut row = PyroRow::new();
    for (k, v) in items {
        row.insert(k.to_string(), v);
    }
    row
}

fn f64v(x: f64) -> PyroValue {
    PyroValue::F64(x.to_bits())
}

#[test]
fn test_trusted_schema() {
    let row = row_of(vec![("a", PyroValue::I32(10)), ("b", PyroValue::Str("hi".to_string()))]);
    let schema = row.schema(&merge).unwrap();
    assert_eq!(schema.num_fields(), 2);
    assert_eq!(schema.field(0).name(), "a");
    assert_eq!(*schema.field(0).data_type(), PyroType::PrimitiveScalar(PrimitiveDataType::I32));
    assert_eq!(schema.field(1).name(), "b");
    assert_eq!(*schema.field(1).data_type(), PyroType::Str);
}

#[test]
fn test_trusted_schema_of_empty_row() {
    let err = PyroRow::new().schema(&merge).unwrap_err();
    assert!(matches!(err, ValueSchemaInferenceError::EmptyRow));
}

#[test]
fn test_trusted_schema_fields_are_nullable() {
    let row = row_of(vec![("z", PyroValue::Bool(true)), ("a", PyroValue::Null)]);
    let schema = row.schema(&merge).unwrap();
    assert!(schema.documentation.is_none());
    assert_eq!(schema.field(0).name(), "z");
    assert_eq!(schema.field(1).name(), "a");
    assert!(schema.field(0).is_nullable());
    assert!(schema.field(1).is_nullable());
    assert_eq!(*schema.field(1).data_type(), PyroType::Null);
}

#[test]
fn test_infer_coercion() {
    let rows = vec![row_of(vec![("mix", PyroValue::I32(10))]), row_of(vec![("mix", f64v(20.5))])];
    let schema = PyroRow::infer_schema(&rows, &merge).unwrap();
    assert_eq!(*schema.field(0).data_type(), PyroType::PrimitiveScalar(PrimitiveDataType::F64));
}

#[test]
fn test_infer_nullable() {
    let rows = vec![row_of(vec![("a", PyroValue::I32(10))]), row_of(vec![("a", PyroValue::Null)])];
    let schema = PyroRow::infer_schema(&rows, &merge).unwrap();
    assert_eq!(*schema.field(0).data_type(), PyroType::PrimitiveScalar(PrimitiveDataType::I32));
    assert!(schema.field(0).is_nullable());
}

#[test]
fn test_infer_sparse() {
    let rows = vec![row_of(vec![("a", PyroValue::I32(10))]), row_of(vec![("b", f64v(1.0))])];
    let schema = PyroRow::infer_schema(&rows, &merge).unwrap();
    assert_eq!(schema.num_fields(), 2);
    assert!(schema.field_with_name("a").unwrap().is_nullable());
    assert!(schema.field_with_name("b").unwrap().is_nullable());
    assert!(schema.field_with_name("c").is_none());
}

#[test]
fn test_infer_int_widening() {
    let rows = vec![row_of(vec![("num", PyroValue::I8(1))]), row_of(vec![("num", PyroValue::I32(1000))])];
    let schema = PyroRow::infer_schema(&rows, &merge).unwrap();
    assert_eq!(*schema.field(0).data_type(), PyroType::PrimitiveScalar(PrimitiveDataType::I32));
}

#[test]
fn test_infer_primitive_list() {
    let rows = vec![
        row_of(vec![("l", PyroValue::PrimitiveList(PrimitiveValueList::I32(vec![1, 2])))]),
        row_of(vec![("l", PyroValue::PrimitiveList(PrimitiveValueList::I32(vec![3])))]),
    ];
    let schema = PyroRow::infer_schema(&rows, &merge).unwrap();
    assert_eq!(*schema.field(0).data_type(), PyroType::PrimitiveList(PrimitiveDataType::I32));
}

#[test]
fn test_infer_incompatible() {
    let rows = vec![
        row_of(vec![("x", PyroValue::I32(10))]),
        row_of(vec![("x", PyroValue::Str("text".to_string()))]),
    ];
    let err = PyroRow::infer_schema(&rows, &merge).unwrap_err();
    assert!(matches!(err, ValueSchemaInferenceError::IncompatibleTypes(..)));
}

#[test]
fn test_infer_orders_fields_by_name() {
    let rows = vec![
        row_of(vec![("b", PyroValue::I32(1)), ("a", PyroValue::I32(2))]),
        row_of(vec![("c", PyroValue::Bool(true)), ("a", PyroValue::I32(3)), ("b", PyroValue::I32(4))]),
    ];
    let schema = PyroRow::infer_schema(&rows, &merge).unwrap();
    assert_eq!(schema.num_fields(), 3);
    assert_eq!(schema.field(0).name(), "a");
    assert_eq!(schema.field(1).name(), "b");
    assert_eq!(schema.field(2).name(), "c");
    assert!(!schema.field(0).is_nullable());
    assert!(!schema.field(1).is_nullable());
    assert!(schema.field(2).is_nullable());
    assert_eq!(*schema.field(2).data_type(), PyroType::PrimitiveScalar(PrimitiveDataType::Bool));
}

#[test]
fn test_infer_only_missing_values() {
    let rows = vec![row_of(vec![("n", PyroValue::Null)])];
    let schema = PyroRow::infer_schema(&rows, &merge).unwrap();
    assert_eq!(*schema.field(0).data_type(), PyroType::Null);
    assert!(schema.field(0).is_nullable());
}

#[test]
fn test_infer_no_rows() {
    let schema = PyroRow::infer_schema(&[], &merge).unwrap();
    assert_eq!(schema.num_fields(), 0);
}

#[test]
fn test_name_order_is_byte_order() {
    assert!(name_before("B", "a"));
    assert!(name_before("a", "ab"));
    assert!(!name_before("ab", "ab"));
    assert!(name_before("z", "é"));
}
