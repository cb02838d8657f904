use std::time::Duration;

use pyroduct::header::{DataStatus, PyroHeader};
use pyroduct::stream::{
    frame_payload_len, read_frame, write_frame, PyroStreamSettings, Request, StreamError,
    DEFAULT_MAX_MSG_SIZE,
};
use pyroduct::vec_buf::PyroVec;

fn roundtrip(request: &Request) -> PyroVec {
    let stream = write_frame(request, None).unwrap();
    read_frame(&stream, None).unwrap()
}

#[allow(clippy::too_many_arguments)]
fn make_request_with(
    data: &[u8],
    vec_class_id: u8,
    vec_fn_id: u8,
    vec_mux_id: u32,
    vec_client_id: u32,
    override_class_id: Option<u8>,
    override_fn_id: Option<u8>,
    override_mux_id: Option<u32>,
    override_client_id: Option<u32>,
) -> Request {
    let mut vec = PyroVec::with_capacity(data.len());
    vec.extend_from_slice(data);
    vec.set_class_id(vec_class_id);
    vec.set_fn_id(vec_fn_id);
    vec.set_mux_id(vec_mux_id);
    vec.set_client_id(vec_client_id);
    let mut request: Request = vec.into();
    if let Some(v) = override_class_id {
        request.class_id = Some(v);
    }
    if let Some(v) = override_fn_id {
        request.fn_id = Some(v);
    }
    if let Some(v) = override_mux_id {
        request.mux_id = Some(v);
    }
    if let Some(v) = override_client_id {
        request.client_id = Some(v);
    }
    request
}

#[test]
fn test_roundtrip_basic_payload() {
    let mut vec = PyroVec::with_capacity(16);
    vec.extend_from_slice(b"endian-test-data");
    let request = vec.into();

    let recovered = roundtrip(&request);
    assert_eq!(recovered.as_slice(), b"endian-test-data");
}

#[test]
fn test_roundtrip_empty_payload() {
    let mut vec = PyroVec::with_capacity(0);
    vec.set_status(DataStatus::Empty);
    vec.set_class_id(5);
    let request = vec.into();

    let recovered = roundtrip(&request);
    assert_eq!(recovered.len(), 0);
    assert_eq!(recovered.status(), Ok(DataStatus::Empty));
    assert_eq!(recovered.class_id(), 5);
}

#[test]
fn test_roundtrip_all_header_fields() {
    let mut vec = PyroVec::with_capacity(16);
    vec.extend_from_slice(b"full-header");
    vec.set_wire_format(0xAA);
    vec.set_class_id(0xBB);
    vec.set_fn_id(0xCC);
    vec.set_status(DataStatus::LocalIo);
    let request = vec.into();

    let recovered = roundtrip(&request);

    assert_eq!(recovered.wire_format(), 0xAA);
    assert_eq!(recovered.class_id(), 0xBB);
    assert_eq!(recovered.fn_id(), 0xCC);
    assert_eq!(recovered.status(), Ok(DataStatus::LocalIo));
    assert_eq!(recovered.mux_id(), 0);
}

#[test]
fn test_override_class_id() {
    let request = make_request_with(b"test", 0x11, 0, 0, 0, Some(0xFF), None, None, None);
    let recovered = roundtrip(&request);
    assert_eq!(recovered.class_id(), 0xFF, "Override value should win");

    let request = make_request_with(b"test", 0x11, 0, 0, 0, None, None, None, None);
    let recovered = roundtrip(&request);
    assert_eq!(recovered.class_id(), 0x11, "View value should be used when Some is absent");
}

#[test]
fn test_override_fn_id() {
    let request = make_request_with(b"test", 0, 0x22, 0, 0, None, Some(0xEE), None, None);
    let recovered = roundtrip(&request);
    assert_eq!(recovered.fn_id(), 0xEE);

    let request = make_request_with(b"test", 0, 0x22, 0, 0, None, None, None, None);
    let recovered = roundtrip(&request);
    assert_eq!(recovered.fn_id(), 0x22);
}

#[test]
fn test_override_mux_id() {
    let request = make_request_with(b"test", 0, 0, 0xAAAAAAAA, 0, None, None, Some(0xDEADBEEF), None);
    let recovered = roundtrip(&request);
    assert_eq!(recovered.mux_id(), 0xDEADBEEF);

    let request = make_request_with(b"test", 0, 0, 0xAAAAAAAA, 0, None, None, None, None);
    let recovered = roundtrip(&request);
    assert_eq!(recovered.mux_id(), 0xAAAAAAAA);
}

#[test]
fn test_override_client_id() {
    let request = make_request_with(b"test", 0, 0, 0, 0x12345678, None, None, None, Some(0xFEDCBA98));
    let recovered = roundtrip(&request);
    assert_eq!(recovered.client_id(), 0xFEDCBA98);

    let request = make_request_with(b"test", 0, 0, 0, 0x12345678, None, None, None, None);
    let recovered = roundtrip(&request);
    assert_eq!(recovered.client_id(), 0x12345678);
}

#[test]
fn override_all_fields_keeps_status_and_wire() {
    let mut request = make_request_with(
        b"alloverride", 0x11, 0x22, 0xAAAAAAAA, 0xBBBBBBBB,
        Some(0xDD), Some(0xEE), Some(0x11223344), Some(0xCCCCCCCC),
    );
    if let pyroduct::stream::RequestInner::Vec(v) = &mut request.inner {
        v.set_status(DataStatus::RemoteUtf8);
        v.set_wire_format(0x55);
    }

    let recovered = roundtrip(&request);

    assert_eq!(recovered.client_id(), 0xCCCCCCCC);
    assert_eq!(recovered.class_id(), 0xDD);
    assert_eq!(recovered.fn_id(), 0xEE);
    assert_eq!(recovered.mux_id(), 0x11223344);
    assert_eq!(recovered.status(), Ok(DataStatus::RemoteUtf8));
    assert_eq!(recovered.wire_format(), 0x55);
    assert_eq!(recovered.as_slice(), b"alloverride");
}

#[test]
fn test_roundtrip_from_view() {
    let mut vec = PyroVec::with_capacity(6);
    vec.extend_from_slice(b"viewed");
    vec.set_class_id(0x42);
    let request: Request = vec.view().into();

    let recovered = roundtrip(&request);
    assert_eq!(recovered.as_slice(), b"viewed");
    assert_eq!(recovered.class_id(), 0x42);
}

#[test]
fn test_roundtrip_from_vec() {
    let mut vec = PyroVec::with_capacity(6);
    vec.extend_from_slice(b"vecced");
    vec.set_class_id(0x99);
    let request: Request = vec.into();

    let recovered = roundtrip(&request);
    assert_eq!(recovered.as_slice(), b"vecced");
    assert_eq!(recovered.class_id(), 0x99);
}

#[test]
fn test_read_detects_header_eof() {
    let partial_header = vec![0u8; 10];
    let result = read_frame(&partial_header, None);
    assert!(matches!(result, Err(StreamError::UnexpectedEof)));
}

#[test]
fn test_read_rejects_bad_magic() {
    let mut bad_packet = Vec::new();
    bad_packet.extend_from_slice(&0xDEADBEEFu32.to_ne_bytes()); // BAD Magic
    bad_packet.extend_from_slice(&10u32.to_le_bytes()); // Len
    bad_packet.extend_from_slice(&[0u8; 8]);
    bad_packet.extend_from_slice(&[0u8; 10]);
    let result = read_frame(&bad_packet, None);
    assert!(matches!(result, Err(StreamError::BadMagic)));
}

#[test]
fn test_read_detects_body_eof() {
    let body_len: u32 = 10;
    let mut packet = Vec::new();
    packet.extend_from_slice(&0x7079726Fu32.to_ne_bytes()); // "pyro"
    packet.extend_from_slice(&body_len.to_le_bytes());
    packet.extend_from_slice(&[0u8; 8]);
    packet.extend_from_slice(b"12345"); // Only 5 bytes, promised 10
    let result = read_frame(&packet, None);
    assert!(matches!(result, Err(StreamError::UnexpectedEof)));
}

#[test]
fn test_read_too_large() {
    let config = PyroStreamSettings {
        max_msg_size: 5,
        timeout: Duration::from_secs(1),
    };
    let mut packet = Vec::new();
    packet.extend_from_slice(&0x7079726Fu32.to_ne_bytes());
    packet.extend_from_slice(&20u32.to_le_bytes()); // 20 > max 5
    packet.extend_from_slice(&[0u8; 8]);
    packet.extend_from_slice(&[0u8; 20]);
    let result = read_frame(&packet, Some(&config));
    assert!(matches!(result, Err(StreamError::InvalidData)));
    assert_eq!(frame_payload_len(&packet, Some(&config)), Err(StreamError::InvalidData));
    assert_eq!(frame_payload_len(&packet, None), Ok(20));
}

#[test]
fn frames_open_with_the_magic() {
    let mut vec = PyroVec::with_capacity(2);
    vec.extend_from_slice(b"hi");
    let request: Request = vec.into();
    let bytes = write_frame(&request, None).unwrap();
    assert_eq!(&bytes[0..4], &[0x6F, 0x72, 0x79, 0x70]);
    assert_eq!(bytes.len(), 20 + 2);
    assert_eq!(&bytes[4..8], &2u32.to_le_bytes());
    assert_eq!(&bytes[20..], b"hi");
}

#[test]
fn writing_refuses_payloads_over_the_limit() {
    let config = PyroStreamSettings { max_msg_size: 3, timeout: Duration::from_secs(1) };
    let mut vec = PyroVec::with_capacity(4);
    vec.extend_from_slice(b"four");
    let request: Request = vec.into();
    assert!(matches!(write_frame(&request, Some(&config)), Err(StreamError::InvalidData)));
}

#[test]
fn default_settings() {
    let s = PyroStreamSettings::default();
    assert_eq!(s.max_msg_size, DEFAULT_MAX_MSG_SIZE);
    assert_eq!(s.max_msg_size, 16 * 1024 * 1024);
    assert_eq!(s.timeout, Duration::from_secs(30));
}

#[test]
fn request_ids_fall_back_to_the_packet() {
    let request = make_request_with(b"x", 1, 2, 3, 4, None, Some(9), None, None);
    assert_eq!(request.class_id(), 1);
    assert_eq!(request.fn_id(), 9);
    assert_eq!(request.mux_id(), 3);
    assert_eq!(request.client_id(), 4);
}
