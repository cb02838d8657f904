use pyroduct::error::PyroError;
use pyroduct::header::{DataStatus, ParseError, PyroHeader, PyroHeaderMut};
use pyroduct::vec_buf::PyroVec;
use pyroduct::view::{get_view, get_view_mut, PyroView};

#[test]
fn test_view_valid_buffer() {
    let mut bv = PyroVec::with_capacity(32);
    bv.extend_from_slice(b"hello world");

    let memory = bv.as_raw_slice();

    let view = get_view(memory, 0).expect("Should create view");

    assert_eq!(view.len(), 11);
    assert_eq!(&*view, b"hello world");
    assert_eq!(view.status(), Ok(DataStatus::Empty));
}

#[test]
fn test_view_bounds_check() {
    let memory = vec![0u8; 10]; // Too small for header
    let err = get_view(&memory, 0).unwrap_err();
    match err {
        PyroError::Header(ParseError::SliceTooSmall) => {}
        _ => panic!("Expected OutOfBounds"),
    }
}

#[test]
fn test_view_magic_check() {
    let mut memory = vec![0u8; 32];
    // Offset 0 is aligned
    // Write garbage magic
    memory[0] = 0xFF;

    let err = get_view(&memory, 0).unwrap_err();
    match err {
        PyroError::Header(ParseError::InvalidMagic) => {}
        _ => panic!("Expected InvalidHeader"),
    }
}

#[test]
fn view_at_unaligned_offset_is_misaligned() {
    let memory = vec![0u8; 64];
    let err = get_view(&memory, 8).unwrap_err();
    assert_eq!(err, PyroError::Header(ParseError::MisalignedPointer));
}

#[test]
fn view_with_length_beyond_slice_is_refused() {
    let mut bv = PyroVec::with_capacity(4);
    bv.extend_from_slice(b"abcd");
    let mut raw = bv.as_raw_slice().to_vec();
    raw[0] = 200; // announce more payload than there is
    let err = get_view(&raw, 0).unwrap_err();
    assert_eq!(err, PyroError::Header(ParseError::LengthExceedsCapacity));
}

#[test]
fn view_try_from_slice_and_from_vec_agree() {
    let mut bv = PyroVec::with_capacity(3);
    bv.extend_from_slice(b"xyz");
    bv.set_class_id(7);
    let from_vec = PyroView::from_vec(&bv);
    assert_eq!(from_vec.as_raw_slice(), bv.as_raw_slice());
    assert_eq!(from_vec.as_slice(), b"xyz");
    assert_eq!(from_vec.class_id(), 7);
    assert_eq!(from_vec.capacity(), 3);
}

#[test]
fn mut_view_writes_reach_the_buffer() {
    let mut bv = PyroVec::with_capacity(4);
    bv.extend_from_slice(b"data");
    {
        let mut mv = bv.mut_view();
        mv.set_class_id(0x42);
        mv.set_mux_id(0xDEADBEEF);
        mv.set_status(DataStatus::Error);
        assert_eq!(mv.as_slice(), b"data");
    }
    assert_eq!(bv.class_id(), 0x42);
    assert_eq!(bv.mux_id(), 0xDEADBEEF);
    assert_eq!(bv.status(), Ok(DataStatus::Error));
    assert_eq!(bv.as_slice(), b"data");
}

#[test]
fn get_view_mut_edits_memory_in_place() {
    let mut bv = PyroVec::with_capacity(2);
    bv.extend_from_slice(b"ok");
    let mut memory = bv.as_raw_slice().to_vec();
    {
        let mut mv = get_view_mut(&mut memory, 0).expect("view");
        mv.set_fn_id(9);
        mv.set_client_id(0x01020304);
    }
    assert_eq!(memory[11], 9);
    assert_eq!(&memory[4..8], &[4, 3, 2, 1]);
}

#[test]
fn copy_from_view_copies_header_and_payload() {
    let mut src = PyroVec::with_capacity(3);
    src.extend_from_slice(b"abc");
    src.set_status(DataStatus::Valid);
    let src_view = PyroView::from_vec(&src);

    let mut dst = PyroVec::with_capacity(3);
    dst.extend_from_slice(b"zzz");
    {
        let mut mv = dst.mut_view();
        mv.copy_from_view(&src_view).expect("copy");
    }
    assert_eq!(dst.as_slice(), b"abc");
    assert_eq!(dst.status(), Ok(DataStatus::Valid));
}

#[test]
fn header_running_past_the_memory_is_refused() {
    let memory = vec![1u8; 24];
    let err = get_view(&memory, 16).unwrap_err();
    assert_eq!(err, PyroError::Header(ParseError::SliceTooSmall));
    let mut memory = vec![1u8; 24];
    assert!(matches!(
        get_view_mut(&mut memory, 16),
        Err(PyroError::Header(ParseError::SliceTooSmall))
    ));
}
