//! The 16-byte packet header and its status codes.
//!
//! ```text
//! 0x00  u32 (LE)  payload length
//! 0x04  u32 (LE)  client id
//! 0x08  u8        wire format
//! 0x09  u8        status
//! 0x0A  u8        class id
//! 0x0B  u8        function id
//! 0x0C  u32 (LE)  mux id
//! ```
use vstd::prelude::*;

use crate::error::{ErrorKind, ErrorPayload, PyroError};

verus! {

pub const PROTOCOL_VERSION: u8 = 1;

pub const ALIGN: usize = 16;

pub const HEADER_SIZE: usize = 16;

pub const OFFSET_LEN: usize = 0;

pub const OFFSET_CLIENT: usize = 4;

pub const OFFSET_WIRE: usize = 8;

pub const OFFSET_STATUS: usize = 9;

pub const OFFSET_CLASS_ID: usize = 10;

pub const OFFSET_FN_ID: usize = 11;

pub const OFFSET_MUX_ID: usize = 12;

// ---------------------------------------------------------------------------
// Little-endian u32 fields
// ---------------------------------------------------------------------------

/// The little-endian `u32` stored at `off..off + 4` of `s`.
pub open spec fn u32_le(s: Seq<u8>, off: int) -> u32 {
    (s[off] as int + s[off + 1] as int * 256 + s[off + 2] as int * 65536 + s[off + 3] as int
        * 16777216) as u32
}

/// The four little-endian bytes of `v`.
pub open spec fn u32_le_bytes(v: u32) -> Seq<u8> {
    seq![(v % 256) as u8, ((v / 256) % 256) as u8, ((v / 65536) % 256) as u8, (v / 16777216) as u8]
}

/// `s` with the four bytes at `off` replaced by the encoding of `v`.
pub open spec fn put_u32(s: Seq<u8>, off: int, v: u32) -> Seq<u8> {
    s.take(off) + u32_le_bytes(v) + s.skip(off + 4)
}

/// Decoding the encoding of a `u32` gives it back.
pub proof fn lemma_u32_le_roundtrip(v: u32)
    ensures
        u32_le(u32_le_bytes(v), 0) == v,
        u32_le_bytes(v).len() == 4,
{
    let b = u32_le_bytes(v);
    let a0 = v % 256;
    let a1 = (v / 256) % 256;
    let a2 = (v / 65536) % 256;
    let a3 = v / 16777216;
    assert(b[0] == a0 && b[1] == a1 && b[2] == a2 && b[3] == a3);
    assert(a0 + a1 * 256 + a2 * 65536 + a3 * 16777216 == v) by (nonlinear_arith)
        requires
            a0 == v % 256,
            a1 == (v / 256) % 256,
            a2 == (v / 65536) % 256,
            a3 == v / 16777216,
    ;
}

/// Writing a `u32` at `off` and reading it back gives the written value, and
/// leaves every byte outside `off..off + 4` as it was.
pub proof fn lemma_put_u32(s: Seq<u8>, off: int, v: u32)
    requires
        0 <= off,
        off + 4 <= s.len(),
    ensures
        put_u32(s, off, v).len() == s.len(),
        u32_le(put_u32(s, off, v), off) == v,
        forall|i: int| 0 <= i < s.len() && !(off <= i < off + 4) ==> #[trigger] put_u32(s, off, v)[i] == s[i],
{
    lemma_u32_le_roundtrip(v);
    let t = put_u32(s, off, v);
    let b = u32_le_bytes(v);
    assert(t[off] == b[0]);
    assert(t[off + 1] == b[1]);
    assert(t[off + 2] == b[2]);
    assert(t[off + 3] == b[3]);
}

/// Reads the little-endian `u32` at `offset`.
pub fn read_u32(slice: &[u8], offset: usize) -> (r: u32)
    requires
        offset + 4 <= slice@.len(),
    ensures
        r == u32_le(slice@, offset as int),
{
    let b0 = slice[offset] as u32;
    let b1 = slice[offset + 1] as u32;
    let b2 = slice[offset + 2] as u32;
    let b3 = slice[offset + 3] as u32;
    b0 + b1 * 256 + b2 * 65536 + b3 * 16777216
}

/// Writes `v` as four little-endian bytes at `offset` of `buf`.
pub fn write_u32(buf: &mut Vec<u8>, offset: usize, v: u32)
    requires
        offset + 4 <= old(buf)@.len(),
    ensures
        final(buf)@ == put_u32(old(buf)@, offset as int, v),
{
    proof {
        lemma_u32_le_roundtrip(v);
    }
    let n = buf.len();
    assert(offset + 4 <= n);
    buf.set(offset, (v % 256) as u8);
    buf.set(offset + 1, ((v / 256) % 256) as u8);
    buf.set(offset + 2, ((v / 65536) % 256) as u8);
    buf.set(offset + 3, (v / 16777216) as u8);
    assert(buf@ =~= put_u32(old(buf)@, offset as int, v));
}

/// Writes `v` as four little-endian bytes at `offset` of a slice.
pub fn write_u32_into_slice(buf: &mut [u8], offset: usize, v: u32)
    requires
        offset + 4 <= old(buf)@.len(),
    ensures
        final(buf)@ == put_u32(old(buf)@, offset as int, v),
{
    proof {
        lemma_u32_le_roundtrip(v);
    }
    let n = buf.len();
    assert(offset + 4 <= n);
    buf[offset] = (v % 256) as u8;
    buf[offset + 1] = ((v / 256) % 256) as u8;
    buf[offset + 2] = ((v / 65536) % 256) as u8;
    buf[offset + 3] = (v / 16777216) as u8;
    assert(buf@ =~= put_u32(old(buf)@, offset as int, v));
}

// ---------------------------------------------------------------------------
// Header fields, read from a packet's bytes
// ---------------------------------------------------------------------------

pub open spec fn hdr_len(p: Seq<u8>) -> u32 {
    u32_le(p, OFFSET_LEN as int)
}

pub open spec fn hdr_client_id(p: Seq<u8>) -> u32 {
    u32_le(p, OFFSET_CLIENT as int)
}

pub open spec fn hdr_wire(p: Seq<u8>) -> u8 {
    p[OFFSET_WIRE as int]
}

pub open spec fn hdr_status(p: Seq<u8>) -> u8 {
    p[OFFSET_STATUS as int]
}

pub open spec fn hdr_class_id(p: Seq<u8>) -> u8 {
    p[OFFSET_CLASS_ID as int]
}

pub open spec fn hdr_fn_id(p: Seq<u8>) -> u8 {
    p[OFFSET_FN_ID as int]
}

pub open spec fn hdr_mux_id(p: Seq<u8>) -> u32 {
    u32_le(p, OFFSET_MUX_ID as int)
}

/// Every field of a header: length, client id, wire format, status, class
/// id, function id and mux id.
pub open spec fn hdr_fields(h: Seq<u8>) -> (u32, u32, u8, u8, u8, u8, u32) {
    (hdr_len(h), hdr_client_id(h), hdr_wire(h), hdr_status(h), hdr_class_id(h), hdr_fn_id(h), hdr_mux_id(h))
}

/// Each header field has bytes of its own: writing a field and reading the
/// header back gives the written value there and every other field as it
/// was.
pub proof fn lemma_header_fields_independent(h: Seq<u8>, v32: u32, v8: u8)
    requires
        h.len() == HEADER_SIZE,
    ensures
        hdr_fields(put_u32(h, OFFSET_LEN as int, v32)) == (v32, hdr_client_id(h), hdr_wire(h), hdr_status(h), hdr_class_id(h), hdr_fn_id(h), hdr_mux_id(h)),
        hdr_fields(put_u32(h, OFFSET_CLIENT as int, v32)) == (hdr_len(h), v32, hdr_wire(h), hdr_status(h), hdr_class_id(h), hdr_fn_id(h), hdr_mux_id(h)),
        hdr_fields(put_u32(h, OFFSET_MUX_ID as int, v32)) == (hdr_len(h), hdr_client_id(h), hdr_wire(h), hdr_status(h), hdr_class_id(h), hdr_fn_id(h), v32),
        hdr_fields(h.update(OFFSET_WIRE as int, v8)) == (hdr_len(h), hdr_client_id(h), v8, hdr_status(h), hdr_class_id(h), hdr_fn_id(h), hdr_mux_id(h)),
        hdr_fields(h.update(OFFSET_STATUS as int, v8)) == (hdr_len(h), hdr_client_id(h), hdr_wire(h), v8, hdr_class_id(h), hdr_fn_id(h), hdr_mux_id(h)),
        hdr_fields(h.update(OFFSET_CLASS_ID as int, v8)) == (hdr_len(h), hdr_client_id(h), hdr_wire(h), hdr_status(h), v8, hdr_fn_id(h), hdr_mux_id(h)),
        hdr_fields(h.update(OFFSET_FN_ID as int, v8)) == (hdr_len(h), hdr_client_id(h), hdr_wire(h), hdr_status(h), hdr_class_id(h), v8, hdr_mux_id(h)),
{
    lemma_put_u32(h, OFFSET_LEN as int, v32);
    lemma_put_u32(h, OFFSET_CLIENT as int, v32);
    lemma_put_u32(h, OFFSET_MUX_ID as int, v32);
    let a = put_u32(h, OFFSET_LEN as int, v32);
    let b = put_u32(h, OFFSET_CLIENT as int, v32);
    let c = put_u32(h, OFFSET_MUX_ID as int, v32);
    assert(a[4] == h[4] && a[5] == h[5] && a[6] == h[6] && a[7] == h[7]);
    assert(a[8] == h[8] && a[9] == h[9] && a[10] == h[10] && a[11] == h[11]);
    assert(a[12] == h[12] && a[13] == h[13] && a[14] == h[14] && a[15] == h[15]);
    assert(b[0] == h[0] && b[1] == h[1] && b[2] == h[2] && b[3] == h[3]);
    assert(b[8] == h[8] && b[9] == h[9] && b[10] == h[10] && b[11] == h[11]);
    assert(b[12] == h[12] && b[13] == h[13] && b[14] == h[14] && b[15] == h[15]);
    assert(c[0] == h[0] && c[1] == h[1] && c[2] == h[2] && c[3] == h[3]);
    assert(c[4] == h[4] && c[5] == h[5] && c[6] == h[6] && c[7] == h[7]);
    assert(c[8] == h[8] && c[9] == h[9] && c[10] == h[10] && c[11] == h[11]);
}

/// The header that a fresh buffer starts with: empty payload, wire format 1,
/// status `Empty`, every id zero.
pub open spec fn unit_header() -> Seq<u8> {
    seq![0u8, 0, 0, 0, 0, 0, 0, 0, 1, 0, 0, 0, 0, 0, 0, 0]
}

/// The header bytes of a fresh buffer.
pub fn unit_bytes() -> (r: Vec<u8>)
    ensures
        r@ == unit_header(),
{
    let mut v: Vec<u8> = Vec::new();
    let mut i: usize = 0;
    while i < HEADER_SIZE
        invariant
            i <= HEADER_SIZE,
            v@.len() == i,
            forall|j: int| 0 <= j < i ==> v@[j] == unit_header()[j],
        decreases HEADER_SIZE - i,
    {
        if i == OFFSET_WIRE {
            v.push(PROTOCOL_VERSION);
        } else {
            v.push(0);
        }
        i = i + 1;
    }
    assert(v@ =~= unit_header());
    v
}

// ---------------------------------------------------------------------------
// Status codes
// ---------------------------------------------------------------------------

/// Status codes located at offset 0x09 of the header.
#[derive(Debug, Clone, Copy, PartialEq, Eq)]
pub enum DataStatus {
    /// No data was provided: an empty success.
    Empty,
    /// Success.
    Valid,
    /// A user error.
    Error,
    /// The code panicked; the payload is what was recovered.
    CodeError,
    /// The payload is JSON.
    Json,
    /// The payload is an interface specification.
    InterfaceSchema,
    /// A foreign-function bridge could not parse a header.
    PyroFfiFail,
    LocalSerialization,
    LocalDeserialization,
    LocalValidation,
    LocalTransport,
    LocalIo,
    LocalUtf8,
    LocalInvalidHeader,
    LocalLayoutError,
    LocalUnexpectedEof,
    RemoteSerialization,
    RemoteDeserialization,
    RemoteValidation,
    RemoteTransport,
    RemoteIo,
    RemoteUtf8,
    RemoteInvalidHeader,
    RemoteLayoutError,
    RemoteUnexpectedEof,
}

impl DataStatus {
    /// The byte that encodes this status.
    pub open spec fn spec_code(self) -> u8 {
        match self {
            DataStatus::Empty => 0,
            DataStatus::Valid => 1,
            DataStatus::Error => 2,
            DataStatus::CodeError => 3,
            DataStatus::Json => 4,
            DataStatus::InterfaceSchema => 5,
            DataStatus::PyroFfiFail => 99,
            DataStatus::LocalSerialization => 100,
            DataStatus::LocalDeserialization => 101,
            DataStatus::LocalValidation => 102,
            DataStatus::LocalTransport => 103,
            DataStatus::LocalIo => 104,
            DataStatus::LocalUtf8 => 105,
            DataStatus::LocalInvalidHeader => 106,
            DataStatus::LocalLayoutError => 107,
            DataStatus::LocalUnexpectedEof => 108,
            DataStatus::RemoteSerialization => 150,
            DataStatus::RemoteDeserialization => 151,
            DataStatus::RemoteValidation => 152,
            DataStatus::RemoteTransport => 153,
            DataStatus::RemoteIo => 154,
            DataStatus::RemoteUtf8 => 155,
            DataStatus::RemoteInvalidHeader => 156,
            DataStatus::RemoteLayoutError => 157,
            DataStatus::RemoteUnexpectedEof => 158,
        }
    }

    /// The status a byte encodes, or the byte itself when it encodes none.
    pub open spec fn spec_parse(i: u8) -> Result<DataStatus, u8> {
        if i == 0 {
            Ok(DataStatus::Empty)
        } else if i == 1 {
            Ok(DataStatus::Valid)
        } else if i == 2 {
            Ok(DataStatus::Error)
        } else if i == 3 {
            Ok(DataStatus::CodeError)
        } else if i == 4 {
            Ok(DataStatus::Json)
        } else if i == 5 {
            Ok(DataStatus::InterfaceSchema)
        } else if i == 99 {
            Ok(DataStatus::PyroFfiFail)
        } else if i == 100 {
            Ok(DataStatus::LocalSerialization)
        } else if i == 101 {
            Ok(DataStatus::LocalDeserialization)
        } else if i == 102 {
            Ok(DataStatus::LocalValidation)
        } else if i == 103 {
            Ok(DataStatus::LocalTransport)
        } else if i == 104 {
            Ok(DataStatus::LocalIo)
        } else if i == 105 {
            Ok(DataStatus::LocalUtf8)
        } else if i == 106 {
            Ok(DataStatus::LocalInvalidHeader)
        } else if i == 107 {
            Ok(DataStatus::LocalLayoutError)
        } else if i == 108 {
            Ok(DataStatus::LocalUnexpectedEof)
        } else if i == 150 {
            Ok(DataStatus::RemoteSerialization)
        } else if i == 151 {
            Ok(DataStatus::RemoteDeserialization)
        } else if i == 152 {
            Ok(DataStatus::RemoteValidation)
        } else if i == 153 {
            Ok(DataStatus::RemoteTransport)
        } else if i == 154 {
            Ok(DataStatus::RemoteIo)
        } else if i == 155 {
            Ok(DataStatus::RemoteUtf8)
        } else if i == 156 {
            Ok(DataStatus::RemoteInvalidHeader)
        } else if i == 157 {
            Ok(DataStatus::RemoteLayoutError)
        } else if i == 158 {
            Ok(DataStatus::RemoteUnexpectedEof)
        } else {
            Err(i)
        }
    }

    /// Decodes a status byte; an unknown byte comes back as `Err` itself.
    pub fn parse(i: u8) -> (r: Result<DataStatus, u8>)
        ensures
            r == DataStatus::spec_parse(i),
    {
        match i {
            0 => Ok(DataStatus::Empty),
            1 => Ok(DataStatus::Valid),
            2 => Ok(DataStatus::Error),
            3 => Ok(DataStatus::CodeError),
            4 => Ok(DataStatus::Json),
            5 => Ok(DataStatus::InterfaceSchema),
            99 => Ok(DataStatus::PyroFfiFail),
            100 => Ok(DataStatus::LocalSerialization),
            101 => Ok(DataStatus::LocalDeserialization),
            102 => Ok(DataStatus::LocalValidation),
            103 => Ok(DataStatus::LocalTransport),
            104 => Ok(DataStatus::LocalIo),
            105 => Ok(DataStatus::LocalUtf8),
            106 => Ok(DataStatus::LocalInvalidHeader),
            107 => Ok(DataStatus::LocalLayoutError),
            108 => Ok(DataStatus::LocalUnexpectedEof),
            150 => Ok(DataStatus::RemoteSerialization),
            151 => Ok(DataStatus::RemoteDeserialization),
            152 => Ok(DataStatus::RemoteValidation),
            153 => Ok(DataStatus::RemoteTransport),
            154 => Ok(DataStatus::RemoteIo),
            155 => Ok(DataStatus::RemoteUtf8),
            156 => Ok(DataStatus::RemoteInvalidHeader),
            157 => Ok(DataStatus::RemoteLayoutError),
            158 => Ok(DataStatus::RemoteUnexpectedEof),
            other => Err(other),
        }
    }

    /// The byte that encodes this status.
    pub fn code(self) -> (r: u8)
        ensures
            r == self.spec_code(),
    {
        match self {
            DataStatus::Empty => 0,
            DataStatus::Valid => 1,
            DataStatus::Error => 2,
            DataStatus::CodeError => 3,
            DataStatus::Json => 4,
            DataStatus::InterfaceSchema => 5,
            DataStatus::PyroFfiFail => 99,
            DataStatus::LocalSerialization => 100,
            DataStatus::LocalDeserialization => 101,
            DataStatus::LocalValidation => 102,
            DataStatus::LocalTransport => 103,
            DataStatus::LocalIo => 104,
            DataStatus::LocalUtf8 => 105,
            DataStatus::LocalInvalidHeader => 106,
            DataStatus::LocalLayoutError => 107,
            DataStatus::LocalUnexpectedEof => 108,
            DataStatus::RemoteSerialization => 150,
            DataStatus::RemoteDeserialization => 151,
            DataStatus::RemoteValidation => 152,
            DataStatus::RemoteTransport => 153,
            DataStatus::RemoteIo => 154,
            DataStatus::RemoteUtf8 => 155,
            DataStatus::RemoteInvalidHeader => 156,
            DataStatus::RemoteLayoutError => 157,
            DataStatus::RemoteUnexpectedEof => 158,
        }
    }
}

impl From<DataStatus> for u8 {
    fn from(s: DataStatus) -> (r: u8) {
        s.code()
    }
}

impl vstd::std_specs::convert::FromSpecImpl<DataStatus> for u8 {
    open spec fn obeys_from_spec() -> bool {
        true
    }

    open spec fn from_spec(s: DataStatus) -> u8 {
        s.spec_code()
    }
}

/// Decoding the byte of a status gives the status back.
pub proof fn lemma_status_code_roundtrip(s: DataStatus)
    ensures
        DataStatus::spec_parse(s.spec_code()) == Ok::<DataStatus, u8>(s),
{
}

/// A byte that decodes to a status is that status's byte.
pub proof fn lemma_status_parse_code(i: u8)
    ensures
        DataStatus::spec_parse(i) matches Ok(s) ==> s.spec_code() == i,
        DataStatus::spec_parse(i) matches Err(j) ==> j == i,
{
}

// ---------------------------------------------------------------------------
// Structural checks
// ---------------------------------------------------------------------------

/// Errors that occur when parsing or validating a header.
#[derive(Debug, Clone, Copy, PartialEq, Eq)]
pub enum ParseError {
    NullPointer,
    SliceTooSmall,
    MisalignedPointer,
    InvalidMagic,
    LengthExceedsCapacity,
    UnsupportedWireFormat,
    UnknownStatus(u8),
}

/// The address of the memory that `slice` starts at (`as_ptr`, as an
/// integer). It depends on where the allocator placed the memory, so nothing
/// is promised of it.
#[verifier::external_body]
fn slice_address(slice: &[u8]) -> usize {
    slice.as_ptr() as usize
}

/// Whether the memory that `slice` starts at is sixteen-byte aligned.
pub(crate) fn slice_start_aligned(slice: &[u8]) -> bool {
    slice_address(slice) % ALIGN == 0
}

/// A parser for the 16-byte header.
#[derive(Debug, Clone, Copy)]
pub struct PyroParser;

/// What `PyroParser::check` answers for a slice, given whether its start is
/// aligned.
pub open spec fn spec_check(s: Seq<u8>, aligned: bool) -> Result<(), ParseError> {
    if s.len() < HEADER_SIZE {
        Err(ParseError::SliceTooSmall)
    } else if !aligned {
        Err(ParseError::MisalignedPointer)
    } else if hdr_len(s) + HEADER_SIZE > s.len() {
        Err(ParseError::LengthExceedsCapacity)
    } else {
        Ok(())
    }
}

/// What `PyroParser::check_strict` answers for a slice, given whether its
/// start is aligned.
pub open spec fn spec_check_strict(s: Seq<u8>, aligned: bool) -> Result<(), ParseError> {
    match spec_check(s, aligned) {
        Err(e) => Err(e),
        Ok(()) => if hdr_wire(s) != PROTOCOL_VERSION {
            Err(ParseError::UnsupportedWireFormat)
        } else {
            Ok(())
        },
    }
}

impl PyroParser {
    /// The checks of `check` on a slice whose alignment is already known.
    pub fn check_with_alignment(slice: &[u8], aligned: bool) -> (r: Result<(), ParseError>)
        ensures
            r == spec_check(slice@, aligned),
    {
        if slice.len() < HEADER_SIZE {
            return Err(ParseError::SliceTooSmall);
        }
        if !aligned {
            return Err(ParseError::MisalignedPointer);
        }
        let len = read_u32(slice, OFFSET_LEN);
        if len as usize > slice.len() - HEADER_SIZE {
            return Err(ParseError::LengthExceedsCapacity);
        }
        Ok(())
    }

    /// Checks that `slice` holds a header, starts aligned, and that the
    /// payload length it declares fits in what follows the header.
    pub fn check(slice: &[u8]) -> (r: Result<(), ParseError>)
        ensures
            r == spec_check(slice@, true) || r == spec_check(slice@, false),
    {
        if slice.len() < HEADER_SIZE {
            return Err(ParseError::SliceTooSmall);
        }
        let aligned = slice_start_aligned(slice);
        Self::check_with_alignment(slice, aligned)
    }

    /// `check`, and in addition the wire format must be the protocol version.
    pub fn check_strict(slice: &[u8]) -> (r: Result<(), ParseError>)
        ensures
            r == spec_check_strict(slice@, true) || r == spec_check_strict(slice@, false),
    {
        let checked = Self::check(slice);
        match checked {
            Err(e) => Err(e),
            Ok(()) => {
                let wire = slice[OFFSET_WIRE];
                if wire != PROTOCOL_VERSION {
                    return Err(ParseError::UnsupportedWireFormat);
                }
                Ok(())
            },
        }
    }

    /// Reads the little-endian `u32` at `offset` of `slice`.
    pub fn read_u32(slice: &[u8], offset: usize) -> (r: u32)
        requires
            offset + 4 <= slice@.len(),
        ensures
            r == u32_le(slice@, offset as int),
    {
        read_u32(slice, offset)
    }
}

// ---------------------------------------------------------------------------
// Reading a status as an error
// ---------------------------------------------------------------------------

/// Whether `r` is the error that a packet whose status byte is `status` and
/// whose payload is `payload` stands for (`Ok` when the status is not an
/// error status). Errors that carry a report carry the payload bytes.
pub open spec fn spec_status_error(status: u8, payload: Seq<u8>, r: Result<(), PyroError>) -> bool {
    match DataStatus::spec_parse(status) {
        Err(_) => r is Ok,
        Ok(s) => match s {
            DataStatus::Empty | DataStatus::Valid | DataStatus::Error | DataStatus::InterfaceSchema
            | DataStatus::Json => r is Ok,
            DataStatus::CodeError => r matches Err(PyroError::CodePanic(c)) && c.bytes@ == payload,
            DataStatus::RemoteSerialization | DataStatus::RemoteValidation => r matches Err(
                PyroError::Remote(ErrorKind::Serialization(c)),
            ) && c.bytes@ == payload,
            DataStatus::RemoteDeserialization => r matches Err(
                PyroError::Remote(ErrorKind::Deserialization(c)),
            ) && c.bytes@ == payload,
            DataStatus::RemoteTransport => r matches Err(
                PyroError::Remote(ErrorKind::Transport(c)),
            ) && c.bytes@ == payload,
            DataStatus::RemoteIo => r matches Err(PyroError::Remote(ErrorKind::Io(c)))
                && c.bytes@ == payload,
            DataStatus::RemoteUtf8 => r matches Err(PyroError::Remote(ErrorKind::Utf8(c)))
                && c.bytes@ == payload,
            DataStatus::RemoteUnexpectedEof | DataStatus::RemoteInvalidHeader => r == Err::<
                (),
                PyroError,
            >(PyroError::Remote(ErrorKind::InvalidHeader)),
            DataStatus::RemoteLayoutError => r == Err::<(), PyroError>(
                PyroError::Remote(ErrorKind::LayoutError),
            ),
            DataStatus::PyroFfiFail => r matches Err(PyroError::HeaderFfi(c)) && c.bytes@ == payload,
            DataStatus::LocalSerialization | DataStatus::LocalValidation => r matches Err(
                PyroError::Local(ErrorKind::Serialization(c)),
            ) && c.bytes@ == payload,
            DataStatus::LocalDeserialization => r matches Err(
                PyroError::Local(ErrorKind::Deserialization(c)),
            ) && c.bytes@ == payload,
            DataStatus::LocalTransport | DataStatus::LocalIo | DataStatus::LocalUtf8 => r matches Err(
                PyroError::Local(ErrorKind::Transport(c)),
            ) && c.bytes@ == payload,
            DataStatus::LocalInvalidHeader => r == Err::<(), PyroError>(
                PyroError::Local(ErrorKind::InvalidHeader),
            ),
            DataStatus::LocalLayoutError => r == Err::<(), PyroError>(
                PyroError::Local(ErrorKind::LayoutError),
            ),
            DataStatus::LocalUnexpectedEof => r == Err::<(), PyroError>(
                PyroError::Local(ErrorKind::UnexpectedEof),
            ),
        },
    }
}

/// Converts a packet's status into the error it stands for; statuses that
/// are not errors (and unknown codes) give `Ok`.
pub fn status_error(status: u8, payload: &[u8]) -> (r: Result<(), PyroError>)
    ensures
        spec_status_error(status, payload@, r),
{
    let c = ErrorPayload { bytes: vstd::slice::slice_to_vec(payload) };
    match DataStatus::parse(status) {
        Err(_) => Ok(()),
        Ok(s) => match s {
            DataStatus::Empty | DataStatus::Valid | DataStatus::Error | DataStatus::InterfaceSchema
            | DataStatus::Json => Ok(()),
            DataStatus::CodeError => Err(PyroError::CodePanic(c)),
            DataStatus::RemoteSerialization => Err(PyroError::Remote(ErrorKind::Serialization(c))),
            DataStatus::RemoteValidation => Err(PyroError::Remote(ErrorKind::Serialization(c))),
            DataStatus::RemoteDeserialization => Err(
                PyroError::Remote(ErrorKind::Deserialization(c)),
            ),
            DataStatus::RemoteTransport => Err(PyroError::Remote(ErrorKind::Transport(c))),
            DataStatus::RemoteIo => Err(PyroError::Remote(ErrorKind::Io(c))),
            DataStatus::RemoteUtf8 => Err(PyroError::Remote(ErrorKind::Utf8(c))),
            DataStatus::RemoteUnexpectedEof => Err(PyroError::Remote(ErrorKind::InvalidHeader)),
            DataStatus::RemoteInvalidHeader => Err(PyroError::Remote(ErrorKind::InvalidHeader)),
            DataStatus::RemoteLayoutError => Err(PyroError::Remote(ErrorKind::LayoutError)),
            DataStatus::PyroFfiFail => Err(PyroError::HeaderFfi(c)),
            DataStatus::LocalSerialization => Err(PyroError::Local(ErrorKind::Serialization(c))),
            DataStatus::LocalValidation => Err(PyroError::Local(ErrorKind::Serialization(c))),
            DataStatus::LocalDeserialization => Err(
                PyroError::Local(ErrorKind::Deserialization(c)),
            ),
            DataStatus::LocalTransport => Err(PyroError::Local(ErrorKind::Transport(c))),
            DataStatus::LocalIo => Err(PyroError::Local(ErrorKind::Transport(c))),
            DataStatus::LocalUtf8 => Err(PyroError::Local(ErrorKind::Transport(c))),
            DataStatus::LocalInvalidHeader => Err(PyroError::Local(ErrorKind::InvalidHeader)),
            DataStatus::LocalLayoutError => Err(PyroError::Local(ErrorKind::LayoutError)),
            DataStatus::LocalUnexpectedEof => Err(PyroError::Local(ErrorKind::UnexpectedEof)),
        },
    }
}

// ---------------------------------------------------------------------------
// Header access, shared by every packet type
// ---------------------------------------------------------------------------

/// The packet types of this library; the header traits are implemented for
/// these alone.
pub trait Sealed {}

/// Read access to the header of a packet.
pub trait PyroHeader: Sealed {
    /// Whether the value holds a complete header.
    spec fn has_header(&self) -> bool;

    /// The sixteen header bytes.
    spec fn header_view(&self) -> Seq<u8>;

    /// The payload bytes that the value exposes.
    spec fn payload_view(&self) -> Seq<u8>;

    /// A complete header is sixteen bytes long.
    proof fn lemma_header_size(&self)
        requires
            self.has_header(),
        ensures
            self.header_view().len() == HEADER_SIZE,
    ;

    fn header(&self) -> (h: &[u8])
        requires
            self.has_header(),
        ensures
            h@ == self.header_view(),
            h@.len() == HEADER_SIZE,
    ;

    fn header_len(&self) -> (r: u32)
        requires
            self.has_header(),
        ensures
            r == hdr_len(self.header_view()),
    {
        let h = self.header();
        read_u32(h, OFFSET_LEN)
    }

    fn wire_format(&self) -> (r: u8)
        requires
            self.has_header(),
        ensures
            r == hdr_wire(self.header_view()),
    {
        let h = self.header();
        h[OFFSET_WIRE]
    }

    fn client_id(&self) -> (r: u32)
        requires
            self.has_header(),
        ensures
            r == hdr_client_id(self.header_view()),
    {
        let h = self.header();
        read_u32(h, OFFSET_CLIENT)
    }

    fn fn_id(&self) -> (r: u8)
        requires
            self.has_header(),
        ensures
            r == hdr_fn_id(self.header_view()),
    {
        let h = self.header();
        h[OFFSET_FN_ID]
    }

    fn class_id(&self) -> (r: u8)
        requires
            self.has_header(),
        ensures
            r == hdr_class_id(self.header_view()),
    {
        let h = self.header();
        h[OFFSET_CLASS_ID]
    }

    fn mux_id(&self) -> (r: u32)
        requires
            self.has_header(),
        ensures
            r == hdr_mux_id(self.header_view()),
    {
        let h = self.header();
        read_u32(h, OFFSET_MUX_ID)
    }

    fn status_u8(&self) -> (r: u8)
        requires
            self.has_header(),
        ensures
            r == hdr_status(self.header_view()),
    {
        let h = self.header();
        h[OFFSET_STATUS]
    }

    fn status(&self) -> (r: Result<DataStatus, u8>)
        requires
            self.has_header(),
        ensures
            r == DataStatus::spec_parse(hdr_status(self.header_view())),
    {
        DataStatus::parse(self.status_u8())
    }

    /// Whether the status byte is 0.
    fn is_ok(&self) -> (r: bool)
        requires
            self.has_header(),
        ensures
            r == (hdr_status(self.header_view()) == 0),
    {
        self.status_u8() == 0
    }

    /// Whether the status byte is 1.
    fn is_user_err(&self) -> (r: bool)
        requires
            self.has_header(),
        ensures
            r == (hdr_status(self.header_view()) == 1),
    {
        self.status_u8() == 1
    }

    /// Whether the status byte is neither 0 nor 1.
    fn is_pyro_err(&self) -> (r: bool)
        requires
            self.has_header(),
        ensures
            r == (hdr_status(self.header_view()) != 0 && hdr_status(self.header_view()) != 1),
    {
        let s = self.status_u8();
        s != 0 && s != 1
    }

    fn payload(&self) -> (r: &[u8])
        requires
            self.has_header(),
        ensures
            r@ == self.payload_view(),
    ;

    /// The error that the packet's status stands for, if any; statuses that
    /// are not errors, and unknown codes, give `Ok`.
    fn parse_as_error(&self) -> (r: Result<(), PyroError>)
        requires
            self.has_header(),
        ensures
            spec_status_error(hdr_status(self.header_view()), self.payload_view(), r),
    {
        let s = self.status_u8();
        let p = self.payload();
        status_error(s, p)
    }
}

/// Write access to the header of a packet. Each setter changes its own
/// field and leaves the rest of the header, and the payload, as they were.
pub trait PyroHeaderMut: PyroHeader {
    fn set_wire_format(&mut self, wire_fmt: u8)
        requires
            old(self).has_header(),
        ensures
            final(self).has_header(),
            final(self).header_view() == old(self).header_view().update(OFFSET_WIRE as int, wire_fmt),
            final(self).payload_view() == old(self).payload_view(),
    ;

    fn set_client_id(&mut self, client_id: u32)
        requires
            old(self).has_header(),
        ensures
            final(self).has_header(),
            final(self).header_view() == put_u32(old(self).header_view(), OFFSET_CLIENT as int, client_id),
            final(self).payload_view() == old(self).payload_view(),
    ;

    fn set_fn_id(&mut self, fn_id: u8)
        requires
            old(self).has_header(),
        ensures
            final(self).has_header(),
            final(self).header_view() == old(self).header_view().update(OFFSET_FN_ID as int, fn_id),
            final(self).payload_view() == old(self).payload_view(),
    ;

    fn set_class_id(&mut self, class_id: u8)
        requires
            old(self).has_header(),
        ensures
            final(self).has_header(),
            final(self).header_view() == old(self).header_view().update(OFFSET_CLASS_ID as int, class_id),
            final(self).payload_view() == old(self).payload_view(),
    ;

    fn set_mux_id(&mut self, mux_id: u32)
        requires
            old(self).has_header(),
        ensures
            final(self).has_header(),
            final(self).header_view() == put_u32(old(self).header_view(), OFFSET_MUX_ID as int, mux_id),
            final(self).payload_view() == old(self).payload_view(),
    ;

    fn set_status_u8(&mut self, status: u8)
        requires
            old(self).has_header(),
        ensures
            final(self).has_header(),
            final(self).header_view() == old(self).header_view().update(OFFSET_STATUS as int, status),
            final(self).payload_view() == old(self).payload_view(),
    ;

    fn set_status(&mut self, status: DataStatus)
        requires
            old(self).has_header(),
        ensures
            final(self).has_header(),
            final(self).header_view() == old(self).header_view().update(OFFSET_STATUS as int, status.spec_code()),
            final(self).payload_view() == old(self).payload_view(),
    {
        self.set_status_u8(status.code());
    }
}

/// A packet that owns its bytes, and so may write them.
pub trait OwnedPyroData: MutPyroData {}

/// A packet whose bytes may be written, though they may belong to someone
/// else.
pub trait MutPyroData: PyroHeaderMut {}

/// What reading a packet as a given type can end in: a status other than
/// the expected one, with the packet handed back, or an error.
pub enum ReadError<T> {
    InvalidCode(T),
    Pyro(PyroError),
}

impl<T> From<PyroError> for ReadError<T> {
    fn from(value: PyroError) -> (r: Self) {
        ReadError::Pyro(value)
    }
}

impl<T> vstd::std_specs::convert::FromSpecImpl<PyroError> for ReadError<T> {
    open spec fn obeys_from_spec() -> bool {
        true
    }

    open spec fn from_spec(value: PyroError) -> ReadError<T> {
        ReadError::Pyro(value)
    }
}

/// A fixed sixteen-byte header.
pub struct StaticHeader(pub(crate) [u8; 16]);

impl StaticHeader {
    pub closed spec fn bytes(&self) -> Seq<u8> {
        self.0@
    }

    /// The header of an empty success, as a fresh buffer starts with it.
    pub fn unit() -> (r: StaticHeader)
        ensures
            r.bytes() == unit_header(),
    {
        let r = StaticHeader([0u8, 0, 0, 0, 0, 0, 0, 0, PROTOCOL_VERSION, 0, 0, 0, 0, 0, 0, 0]);
        assert(r.bytes() =~= unit_header());
        r
    }

    /// The header bytes.
    pub fn as_bytes(&self) -> (r: &[u8])
        ensures
            r@ == self.bytes(),
    {
        self.0.as_slice()
    }
}

} // verus!
