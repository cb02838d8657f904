use pyroduct::nested_repair::pack_primitive_list;
use pyroduct::repair::{int_text, parse_bool_word, parse_integer, FloatOps, ScalarRepairError};
use pyroduct::time::Time;
use pyroduct::typeable::{PrimitiveDataType, PyroField, PyroType};
use pyroduct::value::{PrimitiveValueList, PyroRow, PyroValue, RowItem};

struct Floats;

impl FloatOps for Floats {
    fn f32_from_int(&self, v: i128) -> u32 {
        (v as f32).to_bits()
    }
    fn f64_from_int(&self, v: i128) -> u64 {
        (v as f64).to_bits()
    }
    fn f32_to_int(&self, b: u32) -> i128 {
        f32::from_bits(b) as i128
    }
    fn f64_to_int(&self, b: u64) -> i128 {
        f64::from_bits(b) as i128
    }
    fn f32_to_f64(&self, b: u32) -> u64 {
        (f32::from_bits(b) as f64).to_bits()
    }
    fn f64_to_f32(&self, b: u64) -> u32 {
        (f64::from_bits(b) as f32).to_bits()
    }
    fn parse_f32(&self, s: &str) -> Option<u32> {
        s.parse::<f32>().ok().map(f32::to_bits)
    }
    fn parse_f64(&self, s: &str) -> Option<u64> {
        s.parse::<f64>().ok().map(f64::to_bits)
    }
    fn f32_text(&self, b: u32) -> String {
        f32::from_bits(b).to_string()
    }
    fn f64_text(&self, b: u64) -> String {
        f64::from_bits(b).to_string()
    }
}

fn scalar(p: PrimitiveDataType) -> PyroType {
    PyroType::PrimitiveScalar(p)
}

fn text(s: &str) -> PyroValue {
    PyroValue::Str(s.to_string())
}

fn str_of(v: &PyroValue) -> &str {
    match v {
        PyroValue::Str(s) => s.as_str(),
        other => panic!("expected text, got {:?}", other),
    }
}

// ---------------------------------------------------------------------------
// Text helpers
// ---------------------------------------------------------------------------

#[test]
fn test_int_text_renders_decimal() {
    assert_eq!(int_text(0), "0");
    assert_eq!(int_text(7), "7");
    assert_eq!(int_text(-42), "-42");
    assert_eq!(int_text(i64::MIN as i128), "-9223372036854775808");
    assert_eq!(int_text(u64::MAX as i128), "18446744073709551615");
}

#[test]
fn test_parse_integer_bounds() {
    assert_eq!(parse_integer("127", true, -128, 127), Some(127));
    assert_eq!(parse_integer("-129", true, -128, 127), None);
    assert_eq!(parse_integer("-5", false, 0, 255), None);
    assert_eq!(parse_integer("+", true, -128, 127), None);
    assert_eq!(parse_integer("1_000", true, -128, 127), None);
}

#[test]
fn test_parse_bool_word() {
    assert_eq!(parse_bool_word("TRUE"), Some(true));
    assert_eq!(parse_bool_word("1"), Some(true));
    assert_eq!(parse_bool_word("yEs"), Some(true));
    assert_eq!(parse_bool_word("0"), Some(false));
    assert_eq!(parse_bool_word("nO"), Some(false));
    assert_eq!(parse_bool_word("on"), None);
    assert_eq!(parse_bool_word("trué"), None);
}

// ---------------------------------------------------------------------------
// Scalar repairs
// ---------------------------------------------------------------------------

#[test]
fn test_repair_to_bool() {
    assert!(matches!(PyroValue::I32(5).repair_to_bool().unwrap(), PyroValue::Bool(true)));
    assert!(matches!(PyroValue::I64(0).repair_to_bool().unwrap(), PyroValue::Bool(false)));
    assert!(matches!(text("yes").repair_to_bool().unwrap(), PyroValue::Bool(true)));
    assert!(matches!(PyroValue::Null.repair_to_bool().unwrap(), PyroValue::Null));
    // Only 8-, 32- and 64-bit signed integers read as booleans.
    assert!(matches!(PyroValue::U8(1).repair_to_bool().unwrap(), PyroValue::Bool(true)));
    assert!(matches!(PyroValue::I16(0).repair_to_bool().unwrap(), PyroValue::Bool(false)));
    assert!(matches!(PyroValue::U64(7).repair_to_bool().unwrap(), PyroValue::Bool(true)));
    assert!(matches!(PyroValue::Timestamp(pyroduct::time::Time(1)).repair_to_bool(), Err(ScalarRepairError::Cast(_))));
    assert!(matches!(text("x").repair_to_bool(), Err(ScalarRepairError::ParseError(_, _))));
}

#[test]
fn test_repair_to_integers() {
    assert!(matches!(PyroValue::I64(300).repair_to_u16(&Floats).unwrap(), PyroValue::U16(300)));
    assert!(matches!(PyroValue::Bool(true).repair_to_i8(&Floats).unwrap(), PyroValue::I8(1)));
    assert!(matches!(text("-12").repair_to_i16(&Floats).unwrap(), PyroValue::I16(-12)));
    assert!(matches!(PyroValue::U64(u64::MAX).repair_to_u64(&Floats).unwrap(), PyroValue::U64(u64::MAX)));
    match PyroValue::U64(u64::MAX).repair_to_i64(&Floats) {
        Err(ScalarRepairError::OutOfBounds(t, ty)) => {
            assert_eq!(t, "18446744073709551615 -> i64");
            assert_eq!(ty, scalar(PrimitiveDataType::I64));
        },
        other => panic!("expected OutOfBounds, got {:?}", other),
    }
    match text("abc").repair_to_u32(&Floats) {
        Err(ScalarRepairError::ParseError(s, ty)) => {
            assert_eq!(s, "abc");
            assert_eq!(ty, scalar(PrimitiveDataType::U32));
        },
        other => panic!("expected ParseError, got {:?}", other),
    }
    assert!(matches!(
        PyroValue::Timestamp(Time(0)).repair_to_i32(&Floats),
        Err(ScalarRepairError::Cast(_))
    ));
    // Floating-point numbers are rounded toward zero and saturated.
    assert!(matches!(PyroValue::F64((-2.9f64).to_bits()).repair_to_i32(&Floats).unwrap(), PyroValue::I32(-2)));
    assert!(matches!(PyroValue::F32(1.0e10f32.to_bits()).repair_to_u8(&Floats).unwrap(), PyroValue::U8(255)));
    assert!(matches!(PyroValue::F64(f64::NAN.to_bits()).repair_to_i64(&Floats).unwrap(), PyroValue::I64(0)));
}

#[test]
fn test_repair_to_floats() {
    match PyroValue::I32(7).repair_to_f64(&Floats).unwrap() {
        PyroValue::F64(b) => assert_eq!(f64::from_bits(b), 7.0),
        other => panic!("expected F64, got {:?}", other),
    }
    match PyroValue::Bool(true).repair_to_f32(&Floats).unwrap() {
        PyroValue::F32(b) => assert_eq!(f32::from_bits(b), 1.0),
        other => panic!("expected F32, got {:?}", other),
    }
    match text("0.5").repair_to_f32(&Floats).unwrap() {
        PyroValue::F32(b) => assert_eq!(f32::from_bits(b), 0.5),
        other => panic!("expected F32, got {:?}", other),
    }
    assert!(matches!(text("nope").repair_to_f64(&Floats), Err(ScalarRepairError::ParseError(_, _))));
    assert!(matches!(PyroValue::F16(0).repair_to_f64(&Floats), Err(ScalarRepairError::Cast(_))));
}

#[test]
fn test_repair_to_utf8() {
    assert_eq!(str_of(&PyroValue::U16(65535).repair_to_utf8(&Floats).unwrap()), "65535");
    assert_eq!(str_of(&PyroValue::Bool(false).repair_to_utf8(&Floats).unwrap()), "false");
    assert_eq!(str_of(&PyroValue::F64(1.5f64.to_bits()).repair_to_utf8(&Floats).unwrap()), "1.5");
    assert!(matches!(
        PyroValue::Timestamp(Time(1)).repair_to_utf8(&Floats),
        Err(ScalarRepairError::Cast(PyroType::Str))
    ));
}

#[test]
fn test_repair_f16_is_unimplemented() {
    match PyroValue::I32(1).repair(&scalar(PrimitiveDataType::F16), &Floats) {
        Err(ScalarRepairError::Unimplemented(s)) => assert_eq!(s, "f16 repair"),
        other => panic!("expected Unimplemented, got {:?}", other),
    }
}

// ---------------------------------------------------------------------------
// Lists of scalars
// ---------------------------------------------------------------------------

#[test]
fn test_list_repair_casts_and_truncates() {
    let l = PrimitiveValueList::I64(vec![1, -1, 0x1_0000_0005]);
    match l.repair(PrimitiveDataType::I32, None, &Floats).unwrap() {
        PrimitiveValueList::I32(v) => assert_eq!(v, vec![1, -1, 5]),
        other => panic!("expected I32, got {:?}", other),
    }
    let l = PrimitiveValueList::U8(vec![200, 7]);
    match l.repair(PrimitiveDataType::I64, Some(2), &Floats).unwrap() {
        PrimitiveValueList::I64(v) => assert_eq!(v, vec![200, 7]),
        other => panic!("expected I64, got {:?}", other),
    }
}

#[test]
fn test_list_repair_identity_and_errors() {
    let l = PrimitiveValueList::U16(vec![1, 2]);
    // A list of its own type stays, whatever the length asked for.
    match l.repair(PrimitiveDataType::U16, Some(5), &Floats).unwrap() {
        PrimitiveValueList::U16(v) => assert_eq!(v, vec![1, 2]),
        other => panic!("expected U16, got {:?}", other),
    }
    let l = PrimitiveValueList::U16(vec![1, 2]);
    match l.repair(PrimitiveDataType::U8, None, &Floats) {
        Err(ScalarRepairError::Cast(t)) => assert_eq!(t, PyroType::PrimitiveList(PrimitiveDataType::U8)),
        other => panic!("expected Cast, got {:?}", other),
    }
    let l = PrimitiveValueList::I32(vec![1, 2]);
    match l.repair(PrimitiveDataType::I64, Some(3), &Floats) {
        Err(ScalarRepairError::OutOfBounds(s, t)) => {
            assert_eq!(s, "FixedSizeList mismatch");
            assert_eq!(t, PyroType::Null);
        },
        other => panic!("expected OutOfBounds, got {:?}", other),
    }
    let l = PrimitiveValueList::Bool(vec![true]);
    assert!(l.repair(PrimitiveDataType::I32, None, &Floats).is_err());
}

#[test]
fn test_list_repair_floats() {
    let l = PrimitiveValueList::F64(vec![1.9f64.to_bits(), (-1.9f64).to_bits()]);
    match l.repair(PrimitiveDataType::I32, None, &Floats).unwrap() {
        PrimitiveValueList::I32(v) => assert_eq!(v, vec![1, -1]),
        other => panic!("expected I32, got {:?}", other),
    }
    let l = PrimitiveValueList::I32(vec![3]);
    match l.repair(PrimitiveDataType::F32, None, &Floats).unwrap() {
        PrimitiveValueList::F32(v) => assert_eq!(f32::from_bits(v[0]), 3.0),
        other => panic!("expected F32, got {:?}", other),
    }
}

#[test]
fn test_pack_primitive_list() {
    let items = vec![PyroValue::I64(1), PyroValue::Null, text("3")];
    match pack_primitive_list(items, PrimitiveDataType::I32, &Floats).unwrap() {
        PyroValue::PrimitiveList(PrimitiveValueList::I32(v)) => assert_eq!(v, vec![1, 3]),
        other => panic!("expected a list of i32, got {:?}", other),
    }
    // Types that do not pack give a general list of repaired items.
    let items = vec![PyroValue::I64(1), PyroValue::Null];
    match pack_primitive_list(items, PrimitiveDataType::U16, &Floats).unwrap() {
        PyroValue::List(v) => {
            assert_eq!(v.len(), 2);
            assert!(matches!(v[0], PyroValue::U16(1)));
            assert!(matches!(v[1], PyroValue::Null));
        },
        other => panic!("expected a general list, got {:?}", other),
    }
    // The first error is the one reported.
    let items = vec![text("x"), PyroValue::I64(1 << 40)];
    assert!(matches!(
        pack_primitive_list(items, PrimitiveDataType::I32, &Floats),
        Err(ScalarRepairError::ParseError(_, _))
    ));
}

#[test]
fn packing_through_floats_keeps_one_item_per_present_value() {
    let items = vec![PyroValue::I32(2), PyroValue::Null, PyroValue::F32(1.5f32.to_bits())];
    match pack_primitive_list(items, PrimitiveDataType::F64, &Floats).unwrap() {
        PyroValue::PrimitiveList(PrimitiveValueList::F64(v)) => {
            assert_eq!(v.len(), 2);
            assert_eq!(f64::from_bits(v[0]), 2.0);
            assert_eq!(f64::from_bits(v[1]), 1.5);
        },
        other => panic!("expected a list of f64, got {:?}", other),
    }
}

#[test]
fn test_repair_primitive_list_broadcast_and_length() {
    match PyroValue::I8(4).repair(&PyroType::PrimitiveList(PrimitiveDataType::I64), &Floats).unwrap() {
        PyroValue::PrimitiveList(PrimitiveValueList::I64(v)) => assert_eq!(v, vec![4]),
        other => panic!("expected a list of one, got {:?}", other),
    }
    assert!(matches!(
        PyroValue::I8(4).repair(&PyroType::PrimitiveFixedList(PrimitiveDataType::I64, 2), &Floats),
        Err(ScalarRepairError::Cast(_))
    ));
    let list = PyroValue::List(vec![PyroValue::I32(1)]);
    match list.repair(&PyroType::PrimitiveFixedList(PrimitiveDataType::I32, 2), &Floats) {
        Err(ScalarRepairError::OutOfBounds(s, t)) => {
            assert_eq!(s, "FixedSizeList len 1 != 2");
            assert_eq!(t, PyroType::PrimitiveFixedList(PrimitiveDataType::I32, 2));
        },
        other => panic!("expected OutOfBounds, got {:?}", other),
    }
}

// ---------------------------------------------------------------------------
// Nested values
// ---------------------------------------------------------------------------

#[test]
fn test_repair_null_and_timestamp() {
    assert!(matches!(PyroValue::Null.repair(&PyroType::Str, &Floats).unwrap(), PyroValue::Null));
    assert!(matches!(PyroValue::I32(1).repair(&PyroType::Null, &Floats).unwrap(), PyroValue::Null));
    assert!(matches!(
        PyroValue::Timestamp(Time(9)).repair(&PyroType::Timestamp, &Floats).unwrap(),
        PyroValue::Timestamp(Time(9))
    ));
    assert!(matches!(
        PyroValue::I32(9).repair(&PyroType::Timestamp, &Floats),
        Err(ScalarRepairError::Cast(PyroType::Timestamp))
    ));
}

#[test]
fn test_repair_general_list() {
    let t = PyroType::List(Box::new(scalar(PrimitiveDataType::U8)), true);
    let list = PyroValue::List(vec![PyroValue::I32(1), text("2"), PyroValue::Null]);
    match list.repair(&t, &Floats).unwrap() {
        PyroValue::List(v) => {
            assert!(matches!(v[0], PyroValue::U8(1)));
            assert!(matches!(v[1], PyroValue::U8(2)));
            assert!(matches!(v[2], PyroValue::Null));
        },
        other => panic!("expected a list, got {:?}", other),
    }
    match PyroValue::I32(5).repair(&t, &Floats).unwrap() {
        PyroValue::List(v) => {
            assert_eq!(v.len(), 1);
            assert!(matches!(v[0], PyroValue::U8(5)));
        },
        other => panic!("expected a list of one, got {:?}", other),
    }
    let bad = PyroValue::List(vec![PyroValue::I32(1), PyroValue::I32(300), text("x")]);
    match bad.repair(&t, &Floats) {
        Err(ScalarRepairError::OutOfBounds(s, _)) => assert_eq!(s, "300 -> u8"),
        other => panic!("expected the first error, got {:?}", other),
    }
}

#[test]
fn test_repair_map_keys_then_values() {
    let t = PyroType::KeyValueMap { key: Box::new(PyroType::Str), value: Box::new(scalar(PrimitiveDataType::I64)) };
    let m = PyroValue::MapInternal(vec![(PyroValue::I32(1), text("10")), (text("b"), PyroValue::U8(2))]);
    match m.repair(&t, &Floats).unwrap() {
        PyroValue::MapInternal(pairs) => {
            assert_eq!(str_of(&pairs[0].0), "1");
            assert!(matches!(pairs[0].1, PyroValue::I64(10)));
            assert_eq!(str_of(&pairs[1].0), "b");
            assert!(matches!(pairs[1].1, PyroValue::I64(2)));
        },
        other => panic!("expected a map, got {:?}", other),
    }
    match PyroValue::I32(1).repair(&t, &Floats) {
        Err(ScalarRepairError::Cast(ty)) => assert_eq!(ty, t),
        other => panic!("expected Cast, got {:?}", other),
    }
}

#[test]
fn test_repair_group_projects_nested_rows() {
    let inner_t = PyroType::Group(vec![PyroField::new("n", scalar(PrimitiveDataType::U8), false)]);
    let t = PyroType::Group(vec![
        PyroField::new("inner", inner_t, false),
        PyroField::new("name", PyroType::Str, true),
    ]);
    let mut inner = PyroRow::new();
    inner.insert("n".to_string(), text("7"));
    inner.insert("junk".to_string(), PyroValue::Bool(true));
    let mut row = PyroRow::new();
    row.insert("inner".to_string(), PyroValue::Group(inner));
    match PyroValue::Group(row).repair(&t, &Floats).unwrap() {
        PyroValue::Group(r) => {
            assert_eq!(r.len(), 2);
            match r.get("inner") {
                Some(PyroValue::Group(g)) => {
                    assert_eq!(g.len(), 1);
                    assert!(matches!(g.get("n"), Some(PyroValue::U8(7))));
                },
                other => panic!("expected a row, got {:?}", other),
            }
            assert!(matches!(r.get("name"), Some(PyroValue::Null)));
        },
        other => panic!("expected a row, got {:?}", other),
    }
    match PyroValue::I32(1).repair(&t, &Floats) {
        Err(ScalarRepairError::Cast(ty)) => assert_eq!(ty, t),
        other => panic!("expected Cast, got {:?}", other),
    }
}

#[test]
fn test_project_repair_missing_field() {
    let fields = vec![PyroField::new("needed", PyroType::Str, false)];
    match PyroRow::new().project_repair(&fields, &Floats) {
        Err(ScalarRepairError::Missing(name)) => assert_eq!(name, "needed"),
        other => panic!("expected Missing, got {:?}", other),
    }
}

#[test]
fn test_project_repair_takes_first_of_a_name() {
    let row = PyroRow(vec![
        RowItem { key: "a".to_string(), value: PyroValue::I32(1) },
        RowItem { key: "b".to_string(), value: PyroValue::I32(2) },
        RowItem { key: "a".to_string(), value: PyroValue::I32(3) },
    ]);
    let fields = vec![
        PyroField::new("a", scalar(PrimitiveDataType::I32), false),
        PyroField::new("a", scalar(PrimitiveDataType::I32), false),
        PyroField::new("b", scalar(PrimitiveDataType::I32), false),
    ];
    let out = row.project_repair(&fields, &Floats).unwrap();
    let values: Vec<i32> = out
        .0
        .iter()
        .map(|it| match it.value {
            PyroValue::I32(x) => x,
            _ => panic!("expected i32"),
        })
        .collect();
    assert_eq!(values, vec![1, 3, 2]);
}

// ---------------------------------------------------------------------------
// Rows
// ---------------------------------------------------------------------------

#[test]
fn test_row_insert_replaces_first_of_a_name() {
    let mut row = PyroRow::with_capacity(2);
    assert!(row.is_empty());
    row.insert("a".to_string(), PyroValue::I32(1));
    row.insert_ref("b", PyroValue::I32(2));
    row.insert("a".to_string(), PyroValue::I32(3));
    assert_eq!(row.len(), 2);
    assert!(matches!(row.get("a"), Some(PyroValue::I32(3))));
    assert!(matches!(row.get("b"), Some(PyroValue::I32(2))));
    assert!(row.get("c").is_none());
}

#[test]
fn test_row_extend_appends() {
    let mut row = PyroRow::empty();
    row.insert("a".to_string(), PyroValue::I32(1));
    let mut other = PyroRow::new();
    other.insert("b".to_string(), PyroValue::I32(2));
    row.extend(other);
    assert_eq!(row.len(), 2);
    assert_eq!(row.0[1].key, "b");
}

#[test]
fn test_row_get_deep() {
    let mut inner = PyroRow::new();
    inner.insert("leaf".to_string(), PyroValue::U8(9));
    let mut row = PyroRow::new();
    row.insert("group".to_string(), PyroValue::Group(inner));
    row.insert("flat".to_string(), PyroValue::U8(1));
    assert!(matches!(row.get_deep(&["group", "leaf"]), Some(PyroValue::U8(9))));
    assert!(matches!(row.get_deep(&["flat"]), Some(PyroValue::U8(1))));
    assert!(row.get_deep(&["flat", "leaf"]).is_none());
    assert!(row.get_deep(&["group", "missing"]).is_none());
    assert!(row.get_deep(&[]).is_none());
}

#[test]
fn test_value_and_list_queries() {
    assert!(PyroValue::Null.is_null());
    assert!(!PyroValue::I8(0).is_null());
    assert!(matches!(PyroValue::default(), PyroValue::Null));
    let l = PrimitiveValueList::F32(vec![1, 2]);
    assert_eq!(l.len(), 2);
    assert!(!l.is_empty());
    assert!(l.is_float());
    assert!(!l.is_number());
    assert_eq!(l.data_type(), PrimitiveDataType::F32);
    assert!(PrimitiveValueList::U64(vec![]).is_number());
    assert!(PrimitiveValueList::Bool(vec![]).is_empty());
}
