use pyroduct::coerce::{prim_slice_try_coerce, str_try_coerce_to, IntoPyroValue};
use pyroduct::repair::{FloatOps, ScalarRepairError};
use pyroduct::typeable::{PrimitiveDataType, PyroField, PyroType};
use pyroduct::value::{PrimitiveValueList, PyroRow, PyroValue};

struct Floats;

impl FloatOps for Floats {
    fn f32_from_int(&self, v: i128) -> u32 {
        (v as f32).to_bits()
    }
    fn f64_from_int(&self, v: i128) -> u64 {
        (v as f64).to_bits()
    }
    fn f32_to_int(&self, b: u32) -> i128 {
        f32::from_bits(b) as i128
    }
    fn f64_to_int(&self, b: u64) -> i128 {
        f64::from_bits(b) as i128
    }
    fn f32_to_f64(&self, b: u32) -> u64 {
        (f32::from_bits(b) as f64).to_bits()
    }
    fn f64_to_f32(&self, b: u64) -> u32 {
        (f64::from_bits(b) as f32).to_bits()
    }
    fn parse_f32(&self, s: &str) -> Option<u32> {
        s.parse::<f32>().ok().map(f32::to_bits)
    }
    fn parse_f64(&self, s: &str) -> Option<u64> {
        s.parse::<f64>().ok().map(f64::to_bits)
    }
    fn f32_text(&self, b: u32) -> String {
        f32::from_bits(b).to_string()
    }
    fn f64_text(&self, b: u64) -> String {
        f64::from_bits(b).to_string()
    }
}

fn scalar(p: PrimitiveDataType) -> PyroType {
    PyroType::PrimitiveScalar(p)
}

fn str_of(v: &PyroValue) -> &str {
    match v {
        PyroValue::Str(s) => s.as_str(),
        other => panic!("expected text, got {:?}", other),
    }
}

// ---------------------------------------------------------------------------
// coerce(): the natural column value
// ---------------------------------------------------------------------------

#[test]
fn test_coerce_i32() {
    assert!(matches!(42i32.coerce(), PyroValue::I32(42)));
}

#[test]
fn test_coerce_bool() {
    assert!(matches!(true.coerce(), PyroValue::Bool(true)));
}

#[test]
fn test_coerce_static_str_borrows() {
    let val = "hello".coerce();
    assert_eq!(str_of(&val), "hello");
}

#[test]
fn test_coerce_string_borrows() {
    let s = String::from("world");
    let val = s.coerce();
    assert_eq!(str_of(&val), "world");
}

#[test]
fn test_coerce_option_some() {
    let x: Option<i32> = Some(42);
    assert!(matches!(x.coerce(), PyroValue::I32(42)));
}

#[test]
fn test_coerce_option_none() {
    let x: Option<i32> = None;
    assert!(matches!(x.coerce(), PyroValue::Null));
}

#[test]
fn test_coerce_slice_borrows() {
    let data: &[i32] = &[1, 2, 3];
    match data.coerce() {
        PyroValue::PrimitiveList(PrimitiveValueList::I32(s)) => assert_eq!(s, vec![1, 2, 3]),
        other => panic!("expected a list of i32, got {:?}", other),
    }
}

#[test]
fn test_coerce_fixed_array() {
    let data: [u8; 4] = [0xDE, 0xAD, 0xBE, 0xEF];
    match data.coerce() {
        PyroValue::PrimitiveList(PrimitiveValueList::U8(s)) => assert_eq!(s, vec![0xDE, 0xAD, 0xBE, 0xEF]),
        other => panic!("expected a list of u8, got {:?}", other),
    }
}

#[test]
fn test_data_types_of_rust_types() {
    assert_eq!(<i64 as IntoPyroValue>::data_type(), scalar(PrimitiveDataType::I64));
    assert_eq!(<String as IntoPyroValue>::data_type(), PyroType::Str);
    assert_eq!(<Option<u8> as IntoPyroValue>::data_type(), scalar(PrimitiveDataType::U8));
    assert_eq!(<Vec<i16> as IntoPyroValue>::data_type(), PyroType::PrimitiveList(PrimitiveDataType::I16));
    assert_eq!(<[bool; 3] as IntoPyroValue>::data_type(), PyroType::PrimitiveList(PrimitiveDataType::Bool));
}

// ---------------------------------------------------------------------------
// try_coerce_to(): cross-type coercion
// ---------------------------------------------------------------------------

#[test]
fn test_i32_to_f64() {
    let x: i32 = 42;
    match x.try_coerce_to(&scalar(PrimitiveDataType::F64), &Floats).unwrap() {
        PyroValue::F64(b) => assert_eq!(f64::from_bits(b), 42.0),
        other => panic!("expected F64, got {:?}", other),
    }
}

#[test]
fn test_i32_to_i64() {
    let x: i32 = 42;
    assert!(matches!(x.try_coerce_to(&scalar(PrimitiveDataType::I64), &Floats).unwrap(), PyroValue::I64(42)));
}

#[test]
fn test_f64_to_i32_lossy() {
    // A double held as its bits is repaired into an i32 the way `as` casts.
    let x = PyroValue::F64(3.14f64.to_bits());
    assert!(matches!(x.repair(&scalar(PrimitiveDataType::I32), &Floats).unwrap(), PyroValue::I32(3)));
}

#[test]
fn test_u8_to_i64() {
    let x: u8 = 255;
    assert!(matches!(x.try_coerce_to(&scalar(PrimitiveDataType::I64), &Floats).unwrap(), PyroValue::I64(255)));
}

#[test]
fn test_i64_overflow_to_i8() {
    let x: i64 = 9999;
    assert!(x.try_coerce_to(&scalar(PrimitiveDataType::I8), &Floats).is_err());
}

#[test]
fn test_overflow_error_names_value_and_type() {
    let x: i64 = 9999;
    match x.try_coerce_to(&scalar(PrimitiveDataType::I8), &Floats) {
        Err(ScalarRepairError::OutOfBounds(text, t)) => {
            assert_eq!(text, "9999 -> i8");
            assert_eq!(t, scalar(PrimitiveDataType::I8));
        },
        other => panic!("expected OutOfBounds, got {:?}", other),
    }
    match (-300i32).try_coerce_to(&scalar(PrimitiveDataType::U8), &Floats) {
        Err(ScalarRepairError::OutOfBounds(text, _)) => assert_eq!(text, "-300 -> u8"),
        other => panic!("expected OutOfBounds, got {:?}", other),
    }
}

#[test]
fn test_i32_to_str() {
    let x: i32 = 42;
    let v = x.try_coerce_to(&PyroType::Str, &Floats).unwrap();
    assert_eq!(str_of(&v), "42");
    let v = (-7i64).try_coerce_to(&PyroType::Str, &Floats).unwrap();
    assert_eq!(str_of(&v), "-7");
    let v = u64::MAX.try_coerce_to(&PyroType::Str, &Floats).unwrap();
    assert_eq!(str_of(&v), "18446744073709551615");
}

#[test]
fn test_str_to_i32() {
    assert!(matches!(
        "42".try_coerce_to(&scalar(PrimitiveDataType::I32), &Floats).unwrap(),
        PyroValue::I32(42)
    ));
}

#[test]
fn test_str_to_bool() {
    assert!(matches!(
        "true".try_coerce_to(&scalar(PrimitiveDataType::Bool), &Floats).unwrap(),
        PyroValue::Bool(true)
    ));
    assert!(matches!(
        "0".try_coerce_to(&scalar(PrimitiveDataType::Bool), &Floats).unwrap(),
        PyroValue::Bool(false)
    ));
}

#[test]
fn test_str_parse_failure() {
    assert!("not_a_number".try_coerce_to(&scalar(PrimitiveDataType::I32), &Floats).is_err());
}

#[test]
fn test_str_parse_follows_rust_integer_syntax() {
    let i8t = scalar(PrimitiveDataType::I8);
    let u8t = scalar(PrimitiveDataType::U8);
    assert!(matches!(str_try_coerce_to("-128", &i8t, &Floats).unwrap(), PyroValue::I8(-128)));
    assert!(str_try_coerce_to("128", &i8t, &Floats).is_err());
    assert!(matches!(str_try_coerce_to("+7", &u8t, &Floats).unwrap(), PyroValue::U8(7)));
    assert!(str_try_coerce_to("-0", &u8t, &Floats).is_err());
    assert!(str_try_coerce_to("-", &i8t, &Floats).is_err());
    assert!(str_try_coerce_to("", &i8t, &Floats).is_err());
    assert!(str_try_coerce_to(" 1", &i8t, &Floats).is_err());
    assert!(matches!(str_try_coerce_to("00042", &u8t, &Floats).unwrap(), PyroValue::U8(42)));
    assert!(str_try_coerce_to("٣", &u8t, &Floats).is_err());
    assert!(matches!(
        str_try_coerce_to("18446744073709551615", &scalar(PrimitiveDataType::U64), &Floats).unwrap(),
        PyroValue::U64(u64::MAX)
    ));
    assert!(str_try_coerce_to("18446744073709551616", &scalar(PrimitiveDataType::U64), &Floats).is_err());
    assert!(str_try_coerce_to("99999999999999999999999999999999999999999", &scalar(PrimitiveDataType::I64), &Floats).is_err());
}

#[test]
fn test_str_bool_words_ignore_case() {
    let b = scalar(PrimitiveDataType::Bool);
    assert!(matches!(str_try_coerce_to("YES", &b, &Floats).unwrap(), PyroValue::Bool(true)));
    assert!(matches!(str_try_coerce_to("No", &b, &Floats).unwrap(), PyroValue::Bool(false)));
    assert!(matches!(str_try_coerce_to("FaLsE", &b, &Floats).unwrap(), PyroValue::Bool(false)));
    match str_try_coerce_to("maybe", &b, &Floats) {
        Err(ScalarRepairError::ParseError(s, t)) => {
            assert_eq!(s, "maybe");
            assert_eq!(t, b);
        },
        other => panic!("expected ParseError, got {:?}", other),
    }
}

#[test]
fn test_str_to_float() {
    match "2.5".try_coerce_to(&scalar(PrimitiveDataType::F32), &Floats).unwrap() {
        PyroValue::F32(b) => assert_eq!(f32::from_bits(b), 2.5),
        other => panic!("expected F32, got {:?}", other),
    }
    assert!("x".try_coerce_to(&scalar(PrimitiveDataType::F64), &Floats).is_err());
    assert!(matches!(
        "1".try_coerce_to(&scalar(PrimitiveDataType::F16), &Floats),
        Err(ScalarRepairError::Unimplemented(_))
    ));
}

#[test]
fn test_str_identity_borrows() {
    let s = String::from("hello");
    let v = s.try_coerce_to(&PyroType::Str, &Floats).unwrap();
    assert_eq!(str_of(&v), "hello");
}

#[test]
fn test_bool_coercions() {
    assert!(matches!(true.try_coerce_to(&scalar(PrimitiveDataType::U16), &Floats).unwrap(), PyroValue::U16(1)));
    match false.try_coerce_to(&scalar(PrimitiveDataType::F64), &Floats).unwrap() {
        PyroValue::F64(b) => assert_eq!(f64::from_bits(b), 0.0),
        other => panic!("expected F64, got {:?}", other),
    }
    match true.try_coerce_to(&scalar(PrimitiveDataType::F32), &Floats).unwrap() {
        PyroValue::F32(b) => assert_eq!(f32::from_bits(b), 1.0),
        other => panic!("expected F32, got {:?}", other),
    }
    let v = true.try_coerce_to(&PyroType::Str, &Floats).unwrap();
    assert_eq!(str_of(&v), "true");
    assert!(matches!(
        true.try_coerce_to(&PyroType::Timestamp, &Floats),
        Err(ScalarRepairError::Cast(PyroType::Timestamp))
    ));
}

#[test]
fn test_option_some_coerce_to() {
    let x: Option<i32> = Some(42);
    match x.try_coerce_to(&scalar(PrimitiveDataType::F64), &Floats).unwrap() {
        PyroValue::F64(b) => assert_eq!(f64::from_bits(b), 42.0),
        other => panic!("expected F64, got {:?}", other),
    }
}

#[test]
fn test_option_none_coerce_to() {
    let x: Option<i32> = None;
    assert!(matches!(x.try_coerce_to(&scalar(PrimitiveDataType::F64), &Floats).unwrap(), PyroValue::Null));
}

#[test]
fn test_vec_i32_to_primitive_list_f64() {
    let data = vec![1i32, 2, 3];
    match data.try_coerce_to(&PyroType::PrimitiveList(PrimitiveDataType::F64), &Floats).unwrap() {
        PyroValue::PrimitiveList(PrimitiveValueList::F64(bits)) => {
            let values: Vec<f64> = bits.iter().map(|b| f64::from_bits(*b)).collect();
            assert_eq!(values, vec![1.0, 2.0, 3.0]);
        },
        other => panic!("expected PrimitiveList::F64, got {:?}", other),
    }
}

#[test]
fn test_vec_i32_identity_borrows() {
    let data = vec![1i32, 2, 3];
    match data.try_coerce_to(&PyroType::PrimitiveList(PrimitiveDataType::I32), &Floats).unwrap() {
        PyroValue::PrimitiveList(PrimitiveValueList::I32(v)) => assert_eq!(v, vec![1, 2, 3]),
        other => panic!("expected identity, got {:?}", other),
    }
}

fn f32_list(values: &[f32]) -> PrimitiveValueList {
    PrimitiveValueList::F32(values.iter().map(|x| x.to_bits()).collect())
}

#[test]
fn test_fixed_array_to_fixed_list() {
    // A `[f32; 3]` coerces through its list of scalars.
    let target = PyroType::PrimitiveFixedList(PrimitiveDataType::F32, 3);
    match prim_slice_try_coerce(f32_list(&[1.0, 2.0, 3.0]), PrimitiveDataType::F32, &target, &Floats).unwrap() {
        PyroValue::PrimitiveList(PrimitiveValueList::F32(bits)) => assert_eq!(bits.len(), 3),
        other => panic!("expected identity, got {:?}", other),
    }
}

#[test]
fn test_fixed_array_wrong_size() {
    let target = PyroType::PrimitiveFixedList(PrimitiveDataType::F32, 5);
    assert!(prim_slice_try_coerce(f32_list(&[1.0, 2.0, 3.0]), PrimitiveDataType::F32, &target, &Floats).is_err());
    let data: [u8; 3] = [1, 2, 3];
    match data.try_coerce_to(&PyroType::PrimitiveFixedList(PrimitiveDataType::U8, 5), &Floats) {
        Err(ScalarRepairError::OutOfBounds(text, _)) => assert_eq!(text, "FixedSizeList len 3 != 5"),
        other => panic!("expected OutOfBounds, got {:?}", other),
    }
}

#[test]
fn test_any_to_null() {
    assert!(matches!(42i32.try_coerce_to(&PyroType::Null, &Floats).unwrap(), PyroValue::Null));
    assert!(matches!("hello".try_coerce_to(&PyroType::Null, &Floats).unwrap(), PyroValue::Null));
}

// ---------------------------------------------------------------------------
// Coercing a row onto a schema
// ---------------------------------------------------------------------------

fn sensor_row() -> PyroRow {
    let mut row = PyroRow::new();
    row.insert("id".to_string(), PyroValue::Str("s1".to_string()));
    row.insert("value".to_string(), PyroValue::F32(3.14f32.to_bits()));
    row.insert("label".to_string(), PyroValue::Str("temp".to_string()));
    row
}

#[test]
fn test_struct_coerce_to_schema_type_repair() {
    let fields = vec![
        PyroField::new("id", PyroType::Str, false),
        PyroField::new("value", scalar(PrimitiveDataType::F64), false),
    ];
    let row = sensor_row().project_repair(&fields, &Floats).unwrap();
    assert_eq!(row.len(), 2);
    assert_eq!(str_of(row.get("id").unwrap()), "s1");
    match row.get("value") {
        Some(PyroValue::F64(b)) => assert!((f64::from_bits(*b) - 3.14f32 as f64).abs() < 1e-6),
        other => panic!("expected F64, got {:?}", other),
    }
    assert!(row.get("label").is_none());
}

#[test]
fn test_struct_coerce_missing_nullable() {
    let fields = vec![
        PyroField::new("id", PyroType::Str, false),
        PyroField::new("extra", scalar(PrimitiveDataType::I32), true),
    ];
    let row = sensor_row().project_repair(&fields, &Floats).unwrap();
    assert_eq!(row.len(), 2);
    assert!(matches!(row.get("extra"), Some(PyroValue::Null)));
}
