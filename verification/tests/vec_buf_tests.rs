use pyroduct::header::{DataStatus, ParseError, PyroHeader, PyroHeaderMut, PyroParser};
use pyroduct::vec_buf::{get_ref, PyroRef, PyroVec};

#[test]
fn test_pyrovec_buffer_layout() {
    let mut vec = PyroVec::with_capacity(10);
    vec.extend_from_slice(b"TEST");

    let raw = vec.as_raw_slice();

    let mut expected = [0u8; 20];
    expected[0..4].copy_from_slice(&4u32.to_le_bytes()); // Length
    expected[8] = 1; // Wire format
    expected[16..20].copy_from_slice(b"TEST"); // Payload

    assert_eq!(raw, &expected, "PyroVec raw buffer layout mismatch");
}

#[test]
fn test_pyro_ref_ptr() {
    let mut vec = PyroVec::with_capacity(10);
    vec.extend_from_slice(b"TEST");
    let reference = PyroRef::try_from_slice(vec.as_raw_slice()).unwrap();

    // The borrowed packet is reconstructed from the same bytes.
    let reconstructed = PyroRef::try_from_slice(reference.as_raw_slice()).unwrap();

    assert_eq!(reconstructed.as_slice(), b"TEST");
    assert_eq!(reconstructed.len(), 4);
}

#[test]
fn fresh_buffer_is_the_unit_header() {
    let vec = PyroVec::ok();
    assert_eq!(vec.as_raw_slice(), &[0u8, 0, 0, 0, 0, 0, 0, 0, 1, 0, 0, 0, 0, 0, 0, 0]);
    assert_eq!(vec.len(), 0);
    assert!(vec.is_empty());
    assert_eq!(vec.capacity(), 0);
    assert_eq!(vec.status(), Ok(DataStatus::Empty));
    assert_eq!(vec.wire_format(), 1);
}

#[test]
fn growing_doubles_and_rounds_to_sixteen() {
    let mut vec = PyroVec::with_capacity(0);
    vec.extend_from_slice(b"hello");
    // 16 bytes doubled to 32 cover the 21 required; 16 of them are payload room.
    assert_eq!(vec.capacity(), 16);
    assert_eq!(vec.as_slice(), b"hello");
    vec.extend_from_slice(&[7u8; 20]);
    // 32 doubled to 64 cover the 41 required.
    assert_eq!(vec.capacity(), 48);
    assert_eq!(vec.len(), 25);
}

#[test]
fn push_appends_one_byte() {
    let mut vec = PyroVec::with_capacity(1);
    vec.push(0xAB);
    vec.push(0xCD);
    assert_eq!(vec.as_slice(), &[0xAB, 0xCD]);
    assert_eq!(vec.header_len(), 2);
}

#[test]
fn clear_keeps_capacity_and_header() {
    let mut vec = PyroVec::with_capacity(8);
    vec.extend_from_slice(b"abcdefgh");
    vec.set_class_id(3);
    vec.clear();
    assert_eq!(vec.len(), 0);
    assert_eq!(vec.capacity(), 8);
    assert_eq!(vec.class_id(), 3);
}

#[test]
fn setters_change_one_field_each() {
    let mut vec = PyroVec::with_capacity(2);
    vec.extend_from_slice(b"hi");
    vec.set_wire_format(0xAA);
    vec.set_client_id(0x11223344);
    vec.set_class_id(0xBB);
    vec.set_fn_id(0xCC);
    vec.set_mux_id(0x55667788);
    vec.set_status(DataStatus::LocalIo);
    assert_eq!(vec.wire_format(), 0xAA);
    assert_eq!(vec.client_id(), 0x11223344);
    assert_eq!(vec.class_id(), 0xBB);
    assert_eq!(vec.fn_id(), 0xCC);
    assert_eq!(vec.mux_id(), 0x55667788);
    assert_eq!(vec.status(), Ok(DataStatus::LocalIo));
    assert_eq!(vec.status_u8(), 104);
    assert_eq!(vec.as_slice(), b"hi");
    assert_eq!(vec.header_len(), 2);
    assert!(vec.is_pyro_err());
    assert!(!vec.is_ok());
    assert!(!vec.is_user_err());
}

#[test]
fn clone_copies_everything_but_the_client_id() {
    let mut vec = PyroVec::with_capacity(4);
    vec.extend_from_slice(b"abcd");
    vec.set_client_id(77);
    vec.set_class_id(1);
    vec.set_fn_id(2);
    vec.set_mux_id(3);
    vec.set_status(DataStatus::Error);
    let copy = vec.clone();
    assert_eq!(copy.as_slice(), b"abcd");
    assert_eq!(copy.client_id(), 0);
    assert_eq!(copy.class_id(), 1);
    assert_eq!(copy.fn_id(), 2);
    assert_eq!(copy.mux_id(), 3);
    assert_eq!(copy.status(), Ok(DataStatus::Error));
    assert!(copy == vec);
}

#[test]
fn equality_compares_payloads_only() {
    let mut a = PyroVec::with_capacity(3);
    a.extend_from_slice(b"abc");
    let mut b = PyroVec::with_capacity(10);
    b.extend_from_slice(b"abc");
    b.set_class_id(9);
    assert!(a == b);
    b.push(b'd');
    assert!(a != b);
    assert_eq!(&*a, b"abc");
}

#[test]
fn clone_from_pyro_copies_header_and_payload() {
    let mut vec = PyroVec::with_capacity(3);
    vec.extend_from_slice(b"xyz");
    vec.set_client_id(5);
    let r = PyroRef::try_from_slice(vec.as_raw_slice()).unwrap();
    let copy = PyroVec::clone_from_pyro(&r);
    assert_eq!(copy.as_raw_slice(), vec.as_raw_slice());
}

#[test]
fn shared_view_keeps_the_packet() {
    let mut vec = PyroVec::with_capacity(5);
    vec.extend_from_slice(b"share");
    vec.set_fn_id(4);
    let raw = vec.as_raw_slice().to_vec();
    let view = vec.view();
    let other = view.share();
    assert_eq!(view.as_raw_slice(), &raw[..]);
    assert_eq!(other.as_slice(), b"share");
    assert_eq!(other.len(), 5);
    assert_eq!(other.fn_id(), 4);
    let back = other.clone_to_vec();
    assert_eq!(back.as_raw_slice(), &raw[..]);
}

#[test]
fn get_ref_checks_bounds_and_length() {
    let mut vec = PyroVec::with_capacity(2);
    vec.extend_from_slice(b"ab");
    let raw = vec.as_raw_slice().to_vec();
    let r = get_ref(&raw, 0).expect("packet");
    assert_eq!(r.as_slice(), b"ab");
    assert!(get_ref(&raw, 10).is_err());
    let mut bad = raw.clone();
    bad[0] = 9;
    assert!(get_ref(&bad, 0).is_err());
}

#[test]
fn header_setters_through_the_trait() {
    fn stamp<T: PyroHeaderMut>(t: &mut T) {
        t.set_status(DataStatus::Json);
        t.set_wire_format(2);
    }
    let mut vec = PyroVec::with_capacity(0);
    stamp(&mut vec);
    assert_eq!(vec.status(), Ok(DataStatus::Json));
    assert_eq!(vec.wire_format(), 2);
}

#[test]
fn check_holds_the_declared_length_to_the_room_after_the_header() {
    let mut header = vec![0u8; 16];
    header[0] = 16; // declares sixteen payload bytes, and there are none
    assert_eq!(
        PyroParser::check_with_alignment(&header, true),
        Err(ParseError::LengthExceedsCapacity)
    );
    let mut packet = vec![0u8; 32];
    packet[0] = 16;
    assert_eq!(PyroParser::check_with_alignment(&packet, true), Ok(()));
    assert_eq!(
        PyroParser::check_with_alignment(&packet, false),
        Err(ParseError::MisalignedPointer)
    );
}
