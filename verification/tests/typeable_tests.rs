use std::collections::{BTreeMap, HashMap};

use pyroduct::typeable::{PrimitiveDataType, PyroType, Typeable};

#[test]
fn test_coercible_strings() {
    assert!(String::coercible());
    assert!(<&str>::coercible());
}

#[test]
fn test_coercible_primitives() {
    assert!(i32::coercible());
    // f64 has no `Typeable` here: the library holds no floating-point type.
    assert!(bool::coercible());
    assert!(u8::coercible());
}

#[test]
fn integer_and_bool_types_are_coercible() {
    assert!(i32::coercible());
    assert!(bool::coercible());
    assert!(u8::coercible());
    assert!(i64::coercible());
    assert!(usize::coercible());
}

#[test]
fn test_strings() {
    assert_eq!(String::pyro_type(), PyroType::Str);
    assert_eq!(<&str>::pyro_type(), PyroType::Str);
}

#[test]
fn integer_and_bool_types_are_scalars() {
    assert_eq!(
        i32::pyro_type(),
        PyroType::PrimitiveScalar(PrimitiveDataType::I32)
    );
    assert_eq!(
        bool::pyro_type(),
        PyroType::PrimitiveScalar(PrimitiveDataType::Bool)
    );
    assert_eq!(
        usize::pyro_type(),
        PyroType::PrimitiveScalar(PrimitiveDataType::U64)
    );
    assert_eq!(u16::primitive_data_type(), Some(PrimitiveDataType::U16));
    assert_eq!(String::primitive_data_type(), None);
}

#[test]
fn test_options() {
    assert_eq!(
        Option::<i32>::pyro_type(),
        PyroType::PrimitiveScalar(PrimitiveDataType::I32)
    );
    assert!(Option::<i32>::is_nullable());
    assert!(!i32::is_nullable());
}

#[test]
fn test_primitive_list_optimization() {
    assert_eq!(
        Vec::<i32>::pyro_type(),
        PyroType::PrimitiveList(PrimitiveDataType::I32)
    );
}

#[test]
fn test_complex_list() {
    assert_eq!(
        Vec::<String>::pyro_type(),
        PyroType::List(Box::new(PyroType::Str), false)
    );
}

#[test]
fn test_nullable_primitive_list() {
    assert_eq!(
        Vec::<Option<i32>>::pyro_type(),
        PyroType::List(
            Box::new(PyroType::PrimitiveScalar(PrimitiveDataType::I32)),
            true
        )
    );
}

#[test]
fn test_fixed_size_array() {
    assert_eq!(
        <[u8; 16]>::pyro_type(),
        PyroType::PrimitiveFixedList(PrimitiveDataType::U8, 16)
    );
}

#[test]
fn test_map() {
    assert_eq!(
        HashMap::<String, i32>::pyro_type(),
        PyroType::KeyValueMap {
            key: Box::new(PyroType::Str),
            value: Box::new(PyroType::PrimitiveScalar(PrimitiveDataType::I32))
        }
    );
    assert_eq!(
        BTreeMap::<u8, String>::pyro_type(),
        PyroType::KeyValueMap {
            key: Box::new(PyroType::PrimitiveScalar(PrimitiveDataType::U8)),
            value: Box::new(PyroType::Str)
        }
    );
}

#[test]
fn containers_delegate_coercibility() {
    assert!(Option::<i32>::coercible());
    assert!(Vec::<i32>::coercible());
    assert!(Vec::<String>::coercible());
    assert!(<[u8; 16]>::coercible());
    assert!(HashMap::<String, i32>::coercible());
    assert!(!Vec::<Vec<i32>>::is_nullable());
}
