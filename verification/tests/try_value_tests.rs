use std::collections::HashMap;

use pyroduct::time::Time;
use pyroduct::value::{PrimitiveValueList, PyroRow, PyroValue};

// ---- Primitives ----

#[test]
fn test_try_from_i32() {
    let v = PyroValue::I32(42);
    assert!(matches!(i32::try_from(v), Ok(42)));
}

#[test]
fn test_try_from_vec_i32_fast_path() {
    let v = PyroValue::PrimitiveList(PrimitiveValueList::I32(vec![1, 2, 3]));
    let res: Vec<i32> = Vec::try_from(v).unwrap();
    assert_eq!(res, vec![1, 2, 3]);
}

#[test]
fn test_try_from_vec_bool_fast_path() {
    let v = PyroValue::PrimitiveList(PrimitiveValueList::Bool(vec![true, false]));
    let res: Vec<bool> = Vec::try_from(v).unwrap();
    assert_eq!(res, vec![true, false]);
}

#[test]
fn test_try_from_vec_via_list_fallback() {
    let v = PyroValue::List(vec![PyroValue::U8(10), PyroValue::U8(20)]);
    let res: Vec<u8> = Vec::try_from(v).unwrap();
    assert_eq!(res, vec![10, 20]);
}

#[test]
fn test_try_from_vec_string() {
    let v = PyroValue::List(vec![PyroValue::Str("a".to_string()), PyroValue::Str("b".to_string())]);
    let res = Vec::<String>::try_from(v);
    assert!(matches!(res, Ok(ref s) if *s == vec!["a".to_string(), "b".to_string()]));
}

fn one_item_row() -> PyroRow {
    let mut row = PyroRow::new();
    row.insert("k".to_string(), PyroValue::Bool(true));
    row
}

#[test]
fn test_try_from_vec_pyro_row() {
    let row = one_item_row();
    let v = PyroValue::List(vec![PyroValue::Group(row.clone())]);
    let rows = Vec::<PyroRow>::try_from(v).unwrap();
    assert_eq!(rows.len(), 1);
    assert_eq!(rows[0].len(), row.len());
    assert!(matches!(rows[0].get("k"), Some(PyroValue::Bool(true))));
}

#[test]
fn test_try_from_vec_option_i32() {
    let v = PyroValue::List(vec![PyroValue::I32(1), PyroValue::Null]);
    let res: Vec<Option<i32>> = Vec::try_from(v).unwrap();
    assert_eq!(res, vec![Some(1), None]);
}

#[test]
fn test_try_from_vec_option_i32_from_primitive_list_fails() {
    let v = PyroValue::PrimitiveList(PrimitiveValueList::I32(vec![1]));
    let res = Vec::<Option<i32>>::try_from(v);
    assert!(res.is_err());
}

// ---- Further conversions ----

#[test]
fn test_try_from_wrong_variant_hands_value_back() {
    assert!(matches!(i64::try_from(PyroValue::I32(5)), Err(PyroValue::I32(5))));
    assert!(matches!(bool::try_from(PyroValue::Null), Err(PyroValue::Null)));
    assert!(matches!(String::try_from(PyroValue::U8(1)), Err(PyroValue::U8(1))));
}

#[test]
fn test_try_from_sizes() {
    assert!(matches!(usize::try_from(PyroValue::U32(7)), Ok(7)));
    assert!(matches!(usize::try_from(PyroValue::U64(9)), Ok(9)));
    assert!(matches!(usize::try_from(PyroValue::U16(9)), Err(PyroValue::U16(9))));
    assert!(matches!(isize::try_from(PyroValue::I32(-7)), Ok(-7)));
    assert!(matches!(isize::try_from(PyroValue::I64(-9)), Ok(-9)));
}

#[test]
fn test_try_from_unit_text_and_time() {
    assert!(matches!(<()>::try_from(PyroValue::Null), Ok(())));
    assert!(matches!(String::try_from(PyroValue::Str("x".to_string())), Ok(ref s) if s == "x"));
    let t = Time::from_timestamp(10, 5);
    assert!(matches!(Time::try_from(PyroValue::Timestamp(t)), Ok(u) if u == t));
}

#[test]
fn test_try_from_option() {
    assert!(matches!(Option::<u16>::try_from(PyroValue::Null), Ok(None)));
    assert!(matches!(Option::<u16>::try_from(PyroValue::U16(3)), Ok(Some(3))));
    assert!(matches!(Option::<u16>::try_from(PyroValue::I16(3)), Err(PyroValue::I16(3))));
}

#[test]
fn test_try_from_vec_reports_the_failing_item() {
    let v = PyroValue::List(vec![PyroValue::I8(1), PyroValue::Bool(false), PyroValue::Null]);
    match Vec::<i8>::try_from(v) {
        Err(PyroValue::List(bad)) => {
            assert_eq!(bad.len(), 1);
            assert!(matches!(bad[0], PyroValue::Bool(false)));
        },
        _ => panic!("expected the failing item"),
    }
}

#[test]
fn test_try_from_vec_of_other_scalar_type_fails() {
    let v = PyroValue::PrimitiveList(PrimitiveValueList::I64(vec![1, 2]));
    assert!(matches!(Vec::<i32>::try_from(v), Err(PyroValue::PrimitiveList(PrimitiveValueList::I64(_)))));
    assert!(matches!(Vec::<i32>::try_from(PyroValue::I32(1)), Err(PyroValue::I32(1))));
}

#[test]
fn test_try_from_rows_needs_only_rows() {
    let v = PyroValue::List(vec![PyroValue::Group(one_item_row()), PyroValue::Null]);
    match Vec::<PyroRow>::try_from(v) {
        Err(PyroValue::List(items)) => assert_eq!(items.len(), 2),
        _ => panic!("expected the list back"),
    }
}

#[test]
fn test_try_from_map_and_pairs() {
    let pairs = vec![
        (PyroValue::Str("a".to_string()), PyroValue::I32(1)),
        (PyroValue::Str("b".to_string()), PyroValue::I32(2)),
        (PyroValue::Str("a".to_string()), PyroValue::I32(3)),
    ];
    let m = HashMap::<String, i32>::try_from(PyroValue::MapInternal(pairs)).unwrap();
    assert_eq!(m.len(), 2);
    assert_eq!(m["a"], 3);
    assert_eq!(m["b"], 2);

    let raw = Vec::<(PyroValue, PyroValue)>::try_from(PyroValue::MapInternal(vec![(PyroValue::Null, PyroValue::U8(1))])).unwrap();
    assert_eq!(raw.len(), 1);
}

#[test]
fn test_try_from_map_errors() {
    let bad_key = vec![(PyroValue::U8(1), PyroValue::I32(1))];
    match HashMap::<String, i32>::try_from(PyroValue::MapInternal(bad_key)) {
        Err(PyroValue::MapInternal(e)) => {
            assert_eq!(e.len(), 1);
            assert!(matches!(e[0], (PyroValue::U8(1), PyroValue::Null)));
        },
        _ => panic!("expected the key back"),
    }
    let bad_value = vec![(PyroValue::Str("a".to_string()), PyroValue::Bool(true))];
    match HashMap::<String, i32>::try_from(PyroValue::MapInternal(bad_value)) {
        Err(PyroValue::MapInternal(e)) => {
            assert!(matches!(e[0], (PyroValue::Null, PyroValue::Bool(true))));
        },
        _ => panic!("expected the value back"),
    }
    assert!(matches!(HashMap::<String, i32>::try_from(PyroValue::Null), Err(PyroValue::Null)));
}

#[test]
fn test_iter_numbers() {
    let l = PrimitiveValueList::I16(vec![-3, 4]);
    assert_eq!(l.iter_numbers(), Some(vec![-3i128, 4]));
    let u = PrimitiveValueList::U64(vec![u64::MAX]);
    assert_eq!(u.iter_numbers(), Some(vec![u64::MAX as i128]));
    assert_eq!(PrimitiveValueList::Bool(vec![true]).iter_numbers(), None);
    assert_eq!(PrimitiveValueList::F32(vec![0]).iter_numbers(), None);
}

#[test]
fn test_to_static_copies_nested_values() {
    let mut inner = PyroRow::new();
    inner.insert("n".to_string(), PyroValue::List(vec![PyroValue::U32(1), PyroValue::Null]));
    let v = PyroValue::MapInternal(vec![(
        PyroValue::Str("key".to_string()),
        PyroValue::Group(inner),
    )]);
    let c = v.to_static();
    match &c {
        PyroValue::MapInternal(pairs) => {
            assert_eq!(pairs.len(), 1);
            assert!(matches!(&pairs[0].0, PyroValue::Str(s) if s == "key"));
            match &pairs[0].1 {
                PyroValue::Group(row) => match row.get("n") {
                    Some(PyroValue::List(items)) => {
                        assert_eq!(items.len(), 2);
                        assert!(matches!(items[0], PyroValue::U32(1)));
                        assert!(matches!(items[1], PyroValue::Null));
                    },
                    _ => panic!("expected the list"),
                },
                _ => panic!("expected the row"),
            }
        },
        _ => panic!("expected the map"),
    }
    let l = PrimitiveValueList::U16(vec![4, 5]).clone();
    assert!(matches!(l, PrimitiveValueList::U16(ref x) if *x == vec![4, 5]));
}
