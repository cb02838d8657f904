use pyroduct::typeable::{PrimitiveDataType, PyroField, PyroType};
use pyroduct::value::{PrimitiveValueList, PyroRow, PyroValue};
use pyroduct::value_type::type_eq;

/// Merges two numeric scalar types into the wider floating-point type,
/// and nothing else.
fn widen(a: &PyroType, b: &PyroType) -> Option<PyroType> {
    let f64t = PyroType::PrimitiveScalar(PrimitiveDataType::F64);
    let numeric = |t: &PyroType| matches!(t, PyroType::PrimitiveScalar(_));
    if numeric(a) && numeric(b) {
        Some(f64t)
    } else {
        None
    }
}

fn no_merge(_: &PyroType, _: &PyroType) -> Option<PyroType> {
    None
}

#[test]
fn test_data_type_from_value_scalars() {
    assert_eq!(PyroValue::Null.data_type(&no_merge), PyroType::Null);
    assert_eq!(
        PyroValue::I32(42).data_type(&no_merge),
        PyroType::PrimitiveScalar(PrimitiveDataType::I32)
    );
    assert_eq!(
        PyroValue::F64(1.0f64.to_bits()).data_type(&no_merge),
        PyroType::PrimitiveScalar(PrimitiveDataType::F64)
    );
    assert_eq!(PyroValue::Str("hello".to_string()).data_type(&no_merge), PyroType::Str);
}

#[test]
fn test_data_type_from_value_list_nullable() {
    let list = PyroValue::List(vec![PyroValue::I32(1), PyroValue::Null, PyroValue::I32(3)]);
    assert_eq!(
        list.data_type(&no_merge),
        PyroType::List(Box::new(PyroType::PrimitiveScalar(PrimitiveDataType::I32)), true)
    );
}

#[test]
fn test_data_type_from_value_list_not_nullable() {
    let list = PyroValue::List(vec![PyroValue::I32(1), PyroValue::I32(2)]);
    assert_eq!(
        list.data_type(&no_merge),
        PyroType::List(Box::new(PyroType::PrimitiveScalar(PrimitiveDataType::I32)), false)
    );
}

#[test]
fn test_data_type_from_value_map_coercion() {
    // Map with I32 and Float values should widen to F64
    let map_val = PyroValue::MapInternal(vec![
        (PyroValue::Str("a".to_string()), PyroValue::I32(10)),
        (PyroValue::Str("b".to_string()), PyroValue::F64(20.5f64.to_bits())),
    ]);
    let schema = map_val.data_type(&widen);
    if let PyroType::KeyValueMap { key, value } = schema {
        assert_eq!(*key, PyroType::Str);
        assert_eq!(*value, PyroType::PrimitiveScalar(PrimitiveDataType::F64));
    } else {
        panic!("Expected Map type");
    }
}

#[test]
fn test_data_type_of_lists_rows_and_empty_maps() {
    let pl = PyroValue::PrimitiveList(PrimitiveValueList::U16(vec![1, 2]));
    assert_eq!(pl.data_type(&no_merge), PyroType::PrimitiveList(PrimitiveDataType::U16));
    assert_eq!(
        PyroValue::List(vec![]).data_type(&no_merge),
        PyroType::List(Box::new(PyroType::Null), false)
    );
    // A merge that gives nothing keeps the first item's type.
    let mixed = PyroValue::List(vec![PyroValue::I8(1), PyroValue::Str("x".to_string())]);
    assert_eq!(
        mixed.data_type(&no_merge),
        PyroType::List(Box::new(PyroType::PrimitiveScalar(PrimitiveDataType::I8)), false)
    );
    let mut row = PyroRow::new();
    row.insert("a".to_string(), PyroValue::Bool(true));
    row.insert("b".to_string(), PyroValue::Null);
    assert_eq!(
        PyroValue::Group(row).data_type(&no_merge),
        PyroType::Group(vec![
            PyroField::new("a", PyroType::PrimitiveScalar(PrimitiveDataType::Bool), true),
            PyroField::new("b", PyroType::Null, true),
        ])
    );
    assert_eq!(
        PyroValue::MapInternal(vec![]).data_type(&no_merge),
        PyroType::KeyValueMap { key: Box::new(PyroType::Str), value: Box::new(PyroType::Null) }
    );
}

#[test]
fn test_type_eq_compares_structure() {
    let a = PyroType::Group(vec![PyroField::new("x", PyroType::Str, false)]);
    let b = PyroType::Group(vec![PyroField::new("x", PyroType::Str, false)]);
    let c = PyroType::Group(vec![PyroField::new("x", PyroType::Str, true)]);
    assert!(type_eq(&a, &b));
    assert!(!type_eq(&a, &c));
    assert!(!type_eq(&PyroType::Str, &PyroType::Null));
    assert!(type_eq(
        &PyroType::List(Box::new(PyroType::Str), true),
        &PyroType::List(Box::new(PyroType::Str), true)
    ));
    assert!(!type_eq(
        &PyroType::PrimitiveFixedList(PrimitiveDataType::U8, 2),
        &PyroType::PrimitiveFixedList(PrimitiveDataType::U8, 3)
    ));
}

struct Floats;

impl pyroduct::repair::FloatOps for Floats {
    fn f32_from_int(&self, v: i128) -> u32 {
        (v as f32).to_bits()
    }
    fn f64_from_int(&self, v: i128) -> u64 {
        (v as f64).to_bits()
    }
    fn f32_to_int(&self, b: u32) -> i128 {
        f32::from_bits(b) as i128
    }
    fn f64_to_int(&self, b: u64) -> i128 {
        f64::from_bits(b) as i128
    }
    fn f32_to_f64(&self, b: u32) -> u64 {
        (f32::from_bits(b) as f64).to_bits()
    }
    fn f64_to_f32(&self, b: u64) -> u32 {
        (f64::from_bits(b) as f32).to_bits()
    }
    fn parse_f32(&self, s: &str) -> Option<u32> {
        s.parse::<f32>().ok().map(f32::to_bits)
    }
    fn parse_f64(&self, s: &str) -> Option<u64> {
        s.parse::<f64>().ok().map(f64::to_bits)
    }
    fn f32_text(&self, b: u32) -> String {
        f32::from_bits(b).to_string()
    }
    fn f64_text(&self, b: u64) -> String {
        f64::from_bits(b).to_string()
    }
}

#[test]
fn test_repair_into_own_type_keeps_value() {
    let mut inner = PyroRow::new();
    inner.insert("n".to_string(), PyroValue::U32(4));
    inner.insert("tags".to_string(), PyroValue::List(vec![PyroValue::Str("a".to_string()), PyroValue::Null]));
    let mut row = PyroRow::new();
    row.insert("inner".to_string(), PyroValue::Group(inner));
    row.insert("xs".to_string(), PyroValue::PrimitiveList(PrimitiveValueList::I16(vec![1, -2])));
    row.insert("when".to_string(), PyroValue::Timestamp(pyroduct::time::Time(77)));
    let value = PyroValue::Group(row);
    let t = value.data_type(&no_merge);
    let repaired = value.repair(&t, &Floats).unwrap();
    assert_eq!(format!("{:?}", repaired), format!("{:?}", {
        let mut inner = PyroRow::new();
        inner.insert("n".to_string(), PyroValue::U32(4));
        inner.insert("tags".to_string(), PyroValue::List(vec![PyroValue::Str("a".to_string()), PyroValue::Null]));
        let mut row = PyroRow::new();
        row.insert("inner".to_string(), PyroValue::Group(inner));
        row.insert("xs".to_string(), PyroValue::PrimitiveList(PrimitiveValueList::I16(vec![1, -2])));
        row.insert("when".to_string(), PyroValue::Timestamp(pyroduct::time::Time(77)));
        PyroValue::Group(row)
    }));
}
