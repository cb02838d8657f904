//! Framing packets on a byte stream.
//!
//! A frame is the four magic bytes `o r y p`, then the sixteen header
//! bytes, then the payload; its header has the same layout as a packet's,
//! so what follows the magic of a received frame is a packet as it stands.
//! A [`Request`] may override the ids of the packet it carries: the frame
//! carries the overriding values.
use std::time::Duration;

use vstd::prelude::*;

use crate::header::{
    hdr_class_id, hdr_client_id, hdr_fn_id, hdr_len, hdr_mux_id, hdr_status, hdr_wire,
    lemma_u32_le_roundtrip, read_u32, u32_le, u32_le_bytes, PyroHeader, HEADER_SIZE,
    OFFSET_CLASS_ID, OFFSET_CLIENT, OFFSET_FN_ID, OFFSET_LEN, OFFSET_MUX_ID, OFFSET_STATUS,
    OFFSET_WIRE,
};
use crate::log_wal::push_u32;
use crate::vec_buf::{holds_packet, lemma_packet_of, packet_of, payload_of, PyroVec, PyroView};

verus! {

/// The largest payload accepted by default: 16 MiB.
pub const DEFAULT_MAX_MSG_SIZE: usize = 16777216;

/// The default time allowed for a stream operation, in seconds.
pub const DEFAULT_TIMEOUT_SECS: u64 = 30;

/// `std::time::Duration::from_secs`. Nothing is stated of the duration;
/// the library only carries it.
#[verifier::external_body]
fn duration_from_secs(secs: u64) -> Duration {
    Duration::from_secs(secs)
}

/// Limits that apply to a stream.
#[derive(Debug, Clone, Copy)]
pub struct PyroStreamSettings {
    pub max_msg_size: usize,
    pub timeout: Duration,
}

impl Default for PyroStreamSettings {
    fn default() -> (r: Self)
        ensures
            r.max_msg_size == DEFAULT_MAX_MSG_SIZE,
    {
        PyroStreamSettings {
            max_msg_size: DEFAULT_MAX_MSG_SIZE,
            timeout: duration_from_secs(DEFAULT_TIMEOUT_SECS),
        }
    }
}

/// The payload limit that `config` sets; the default one when there is none.
pub open spec fn max_size_of(config: Option<&PyroStreamSettings>) -> int {
    match config {
        Some(c) => c.max_msg_size as int,
        None => DEFAULT_MAX_MSG_SIZE as int,
    }
}

fn max_size(config: Option<&PyroStreamSettings>) -> (r: usize)
    ensures
        r == max_size_of(config),
{
    match config {
        Some(c) => c.max_msg_size,
        None => DEFAULT_MAX_MSG_SIZE,
    }
}

/// The number of bytes before a frame's packet: its magic.
pub const MAGIC_SIZE: usize = 4;

/// The number of bytes of a frame before its payload.
pub const FRAME_HEADER_SIZE: usize = 20;

/// The magic that opens every frame: the little-endian bytes of
/// `0x7079726F`.
pub open spec fn frame_magic() -> Seq<u8> {
    seq![0x6Fu8, 0x72u8, 0x79u8, 0x70u8]
}

/// Why a frame was refused.
#[derive(Debug, Clone, Copy, PartialEq, Eq, Structural)]
pub enum StreamError {
    /// The frame does not open with the magic.
    BadMagic,
    /// The payload is larger than the limit allows.
    InvalidData,
    /// The bytes end before the frame does.
    UnexpectedEof,
}

/// The packet a request carries.
pub enum RequestInner {
    View(PyroView),
    Vec(PyroVec),
}

impl RequestInner {
    pub open spec fn wf(&self) -> bool {
        match self {
            RequestInner::View(v) => v.wf(),
            RequestInner::Vec(v) => v.wf(),
        }
    }

    /// Header and payload of the carried packet.
    pub open spec fn packet(&self) -> Seq<u8> {
        match self {
            RequestInner::View(v) => v@,
            RequestInner::Vec(v) => v.packet(),
        }
    }

    proof fn lemma_packet(&self)
        requires
            self.wf(),
        ensures
            holds_packet(self.packet()),
            self.packet().len() == HEADER_SIZE + hdr_len(self.packet()),
    {
        match self {
            RequestInner::View(v) => {
                lemma_packet_of(v.storage().skip(v.offset() as int));
            },
            RequestInner::Vec(v) => {
                lemma_packet_of(v.storage());
            },
        }
    }

    /// Header and payload of the carried packet.
    fn raw(&self) -> (r: &[u8])
        requires
            self.wf(),
        ensures
            r@ == self.packet(),
            holds_packet(r@),
            r@.len() == HEADER_SIZE + hdr_len(r@),
    {
        proof {
            self.lemma_packet();
        }
        match self {
            RequestInner::View(v) => v.as_raw_slice(),
            RequestInner::Vec(v) => v.as_raw_slice(),
        }
    }
}

impl From<PyroView> for RequestInner {
    fn from(value: PyroView) -> (r: Self) {
        RequestInner::View(value)
    }
}

impl vstd::std_specs::convert::FromSpecImpl<PyroView> for RequestInner {
    open spec fn obeys_from_spec() -> bool {
        true
    }

    open spec fn from_spec(value: PyroView) -> RequestInner {
        RequestInner::View(value)
    }
}

impl From<PyroVec> for RequestInner {
    fn from(value: PyroVec) -> (r: Self) {
        RequestInner::Vec(value)
    }
}

impl vstd::std_specs::convert::FromSpecImpl<PyroVec> for RequestInner {
    open spec fn obeys_from_spec() -> bool {
        true
    }

    open spec fn from_spec(value: PyroVec) -> RequestInner {
        RequestInner::Vec(value)
    }
}

/// A packet on its way out, with ids that override those in its header.
pub struct Request {
    pub client_id: Option<u32>,
    pub class_id: Option<u8>,
    pub fn_id: Option<u8>,
    pub mux_id: Option<u32>,
    pub inner: RequestInner,
}

impl From<PyroView> for Request {
    fn from(value: PyroView) -> (r: Self) {
        Request {
            client_id: None,
            class_id: None,
            fn_id: None,
            mux_id: None,
            inner: RequestInner::View(value),
        }
    }
}

impl vstd::std_specs::convert::FromSpecImpl<PyroView> for Request {
    open spec fn obeys_from_spec() -> bool {
        true
    }

    open spec fn from_spec(value: PyroView) -> Request {
        Request {
            client_id: None,
            class_id: None,
            fn_id: None,
            mux_id: None,
            inner: RequestInner::View(value),
        }
    }
}

impl From<PyroVec> for Request {
    fn from(value: PyroVec) -> (r: Self) {
        Request {
            client_id: None,
            class_id: None,
            fn_id: None,
            mux_id: None,
            inner: RequestInner::Vec(value),
        }
    }
}

impl vstd::std_specs::convert::FromSpecImpl<PyroVec> for Request {
    open spec fn obeys_from_spec() -> bool {
        true
    }

    open spec fn from_spec(value: PyroVec) -> Request {
        Request {
            client_id: None,
            class_id: None,
            fn_id: None,
            mux_id: None,
            inner: RequestInner::Vec(value),
        }
    }
}

impl Request {
    pub open spec fn wf(&self) -> bool {
        self.inner.wf()
    }

    /// The client id sent: the override, else the packet's.
    pub open spec fn spec_client_id(&self) -> u32 {
        match self.client_id {
            Some(c) => c,
            None => hdr_client_id(self.inner.packet()),
        }
    }

    /// The class id sent: the override, else the packet's.
    pub open spec fn spec_class_id(&self) -> u8 {
        match self.class_id {
            Some(c) => c,
            None => hdr_class_id(self.inner.packet()),
        }
    }

    /// The function id sent: the override, else the packet's.
    pub open spec fn spec_fn_id(&self) -> u8 {
        match self.fn_id {
            Some(c) => c,
            None => hdr_fn_id(self.inner.packet()),
        }
    }

    /// The mux id sent: the override, else the packet's.
    pub open spec fn spec_mux_id(&self) -> u32 {
        match self.mux_id {
            Some(c) => c,
            None => hdr_mux_id(self.inner.packet()),
        }
    }

    pub fn client_id(&self) -> (r: u32)
        requires
            self.wf(),
        ensures
            r == self.spec_client_id(),
    {
        match self.client_id {
            Some(c) => c,
            None => read_u32(self.inner.raw(), OFFSET_CLIENT),
        }
    }

    pub fn class_id(&self) -> (r: u8)
        requires
            self.wf(),
        ensures
            r == self.spec_class_id(),
    {
        match self.class_id {
            Some(c) => c,
            None => self.inner.raw()[OFFSET_CLASS_ID],
        }
    }

    pub fn fn_id(&self) -> (r: u8)
        requires
            self.wf(),
        ensures
            r == self.spec_fn_id(),
    {
        match self.fn_id {
            Some(c) => c,
            None => self.inner.raw()[OFFSET_FN_ID],
        }
    }

    pub fn mux_id(&self) -> (r: u32)
        requires
            self.wf(),
        ensures
            r == self.spec_mux_id(),
    {
        match self.mux_id {
            Some(c) => c,
            None => read_u32(self.inner.raw(), OFFSET_MUX_ID),
        }
    }
}

// ---------------------------------------------------------------------------
// Writing a frame
// ---------------------------------------------------------------------------

/// The packet that the frame of `r` carries: its packet's length, wire
/// format, status and payload, with the request's ids.
pub open spec fn frame_packet(r: Request) -> Seq<u8> {
    let p = r.inner.packet();
    u32_le_bytes(hdr_len(p)) + u32_le_bytes(r.spec_client_id()) + seq![
        hdr_wire(p),
        hdr_status(p),
        r.spec_class_id(),
        r.spec_fn_id(),
    ] + u32_le_bytes(r.spec_mux_id()) + payload_of(p)
}

/// The bytes of the frame that carries `r`: the magic, then its packet.
pub open spec fn frame_bytes(r: Request) -> Seq<u8> {
    frame_magic() + frame_packet(r)
}

/// What writing `r` under a payload limit of `max` gives.
pub open spec fn spec_write_frame(r: Request, max: int) -> Result<Seq<u8>, StreamError> {
    if hdr_len(r.inner.packet()) > max {
        Err(StreamError::InvalidData)
    } else {
        Ok(frame_bytes(r))
    }
}

/// The frame that carries `request`: refused when its payload is larger
/// than the limit.
pub fn write_frame(request: &Request, config: Option<&PyroStreamSettings>) -> (r: Result<
    Vec<u8>,
    StreamError,
>)
    requires
        request.wf(),
    ensures
        match r {
            Ok(v) => spec_write_frame(*request, max_size_of(config)) == Ok::<
                Seq<u8>,
                StreamError,
            >(v@),
            Err(e) => spec_write_frame(*request, max_size_of(config)) == Err::<
                Seq<u8>,
                StreamError,
            >(e),
        },
{
    let raw = request.inner.raw();
    let len = read_u32(raw, OFFSET_LEN);
    if len as usize > max_size(config) {
        return Err(StreamError::InvalidData);
    }
    let mut out: Vec<u8> = Vec::new();
    out.push(0x6F);
    out.push(0x72);
    out.push(0x79);
    out.push(0x70);
    push_u32(&mut out, len);
    push_u32(&mut out, request.client_id());
    out.push(raw[OFFSET_WIRE]);
    out.push(raw[OFFSET_STATUS]);
    out.push(request.class_id());
    out.push(request.fn_id());
    push_u32(&mut out, request.mux_id());
    let ghost head = out@;
    let mut i: usize = HEADER_SIZE;
    let n = raw.len();
    while i < n
        invariant
            HEADER_SIZE <= i <= n,
            n == raw@.len(),
            out@ == head + raw@.subrange(HEADER_SIZE as int, i as int),
        decreases n - i,
    {
        out.push(raw[i]);
        i = i + 1;
        assert(out@ =~= head + raw@.subrange(HEADER_SIZE as int, i as int));
    }
    assert(out@ =~= frame_bytes(*request));
    Ok(out)
}

// ---------------------------------------------------------------------------
// Reading a frame
// ---------------------------------------------------------------------------

/// What checking the twenty bytes that open a frame gives under a payload
/// limit of `max`: the payload length, or why the frame is refused.
pub open spec fn spec_frame_header(b: Seq<u8>, max: int) -> Result<int, StreamError> {
    if b.take(MAGIC_SIZE as int) != frame_magic() {
        Err(StreamError::BadMagic)
    } else if hdr_len(b.skip(MAGIC_SIZE as int)) > max {
        Err(StreamError::InvalidData)
    } else {
        Ok(hdr_len(b.skip(MAGIC_SIZE as int)) as int)
    }
}

/// What reading a frame from the front of `b` under a payload limit of
/// `max` gives: the packet, or why there is none.
pub open spec fn spec_read_frame(b: Seq<u8>, max: int) -> Result<Seq<u8>, StreamError> {
    if b.len() < FRAME_HEADER_SIZE {
        Err(StreamError::UnexpectedEof)
    } else {
        match spec_frame_header(b, max) {
            Err(e) => Err(e),
            Ok(len) => if b.len() < FRAME_HEADER_SIZE + len {
                Err(StreamError::UnexpectedEof)
            } else {
                Ok(packet_of(b.skip(MAGIC_SIZE as int)))
            },
        }
    }
}

/// The payload length that a frame's twenty opening bytes announce, once
/// the magic and the limit are checked.
pub fn frame_payload_len(header: &[u8], config: Option<&PyroStreamSettings>) -> (r: Result<
    usize,
    StreamError,
>)
    requires
        header@.len() >= FRAME_HEADER_SIZE,
    ensures
        match r {
            Ok(n) => spec_frame_header(header@, max_size_of(config)) == Ok::<int, StreamError>(n as int),
            Err(e) => spec_frame_header(header@, max_size_of(config)) == Err::<int, StreamError>(e),
        },
{
    let magic = header[0] == 0x6F && header[1] == 0x72 && header[2] == 0x79 && header[3] == 0x70;
    proof {
        assert(magic == (header@.take(MAGIC_SIZE as int) =~= frame_magic()));
    }
    if !magic {
        return Err(StreamError::BadMagic);
    }
    let len = read_u32(header, MAGIC_SIZE + OFFSET_LEN) as usize;
    proof {
        let t = header@.skip(MAGIC_SIZE as int);
        assert(t[0] == header@[4] && t[1] == header@[5] && t[2] == header@[6] && t[3] == header@[7]);
        assert(hdr_len(t) == u32_le(header@, 4));
    }
    if len > max_size(config) {
        Err(StreamError::InvalidData)
    } else {
        Ok(len)
    }
}

/// The packet framed at the front of `bytes`.
pub fn read_frame(bytes: &[u8], config: Option<&PyroStreamSettings>) -> (r: Result<
    PyroVec,
    StreamError,
>)
    requires
        max_size_of(config) + HEADER_SIZE <= u32::MAX,
    ensures
        match r {
            Ok(v) => v.wf() && spec_read_frame(bytes@, max_size_of(config)) == Ok::<
                Seq<u8>,
                StreamError,
            >(v.packet()),
            Err(e) => spec_read_frame(bytes@, max_size_of(config)) == Err::<Seq<u8>, StreamError>(
                e,
            ),
        },
{
    if bytes.len() < FRAME_HEADER_SIZE {
        return Err(StreamError::UnexpectedEof);
    }
    let len = match frame_payload_len(bytes, config) {
        Ok(n) => n,
        Err(e) => {
            return Err(e);
        },
    };
    if bytes.len() - FRAME_HEADER_SIZE < len {
        return Err(StreamError::UnexpectedEof);
    }
    let ghost t = bytes@.skip(MAGIC_SIZE as int);
    let end = HEADER_SIZE + len;
    let mut buf: Vec<u8> = Vec::new();
    let mut i: usize = 0;
    while i < end
        invariant
            i <= end,
            end + MAGIC_SIZE <= bytes@.len(),
            bytes@.len() == bytes.len(),
            t == bytes@.skip(MAGIC_SIZE as int),
            buf@ == t.take(i as int),
        decreases end - i,
    {
        buf.push(bytes[MAGIC_SIZE + i]);
        i = i + 1;
        assert(buf@ =~= t.take(i as int));
    }
    proof {
        assert(buf@[0] == t[0] && buf@[1] == t[1] && buf@[2] == t[2] && buf@[3] == t[3]);
        assert(hdr_len(buf@) == hdr_len(t));
        assert(packet_of(buf@) =~= packet_of(t));
    }
    Ok(PyroVec::from_packet_bytes(buf))
}

/// Reading back the frame written for a request gives its packet with the
/// request's ids: the overrides where it has them, the packet's own
/// elsewhere; length, wire format, status and payload are the packet's.
pub proof fn lemma_frame_roundtrip(r: Request, max: int)
    requires
        r.wf(),
        hdr_len(r.inner.packet()) <= max,
    ensures
        spec_write_frame(r, max) == Ok::<Seq<u8>, StreamError>(frame_bytes(r)),
        spec_read_frame(frame_bytes(r), max) == Ok::<Seq<u8>, StreamError>(frame_packet(r)),
        hdr_len(frame_packet(r)) == hdr_len(r.inner.packet()),
        hdr_client_id(frame_packet(r)) == r.spec_client_id(),
        hdr_wire(frame_packet(r)) == hdr_wire(r.inner.packet()),
        hdr_status(frame_packet(r)) == hdr_status(r.inner.packet()),
        hdr_class_id(frame_packet(r)) == r.spec_class_id(),
        hdr_fn_id(frame_packet(r)) == r.spec_fn_id(),
        hdr_mux_id(frame_packet(r)) == r.spec_mux_id(),
        payload_of(frame_packet(r)) == payload_of(r.inner.packet()),
{
    r.inner.lemma_packet();
    let p = r.inner.packet();
    let f = frame_packet(r);
    let whole = frame_bytes(r);
    assert(whole.take(MAGIC_SIZE as int) =~= frame_magic());
    assert(whole.skip(MAGIC_SIZE as int) =~= f);
    let a = u32_le_bytes(hdr_len(p));
    let b = u32_le_bytes(r.spec_client_id());
    let m = u32_le_bytes(r.spec_mux_id());
    lemma_u32_le_roundtrip(hdr_len(p));
    lemma_u32_le_roundtrip(r.spec_client_id());
    lemma_u32_le_roundtrip(r.spec_mux_id());
    assert(f.len() == HEADER_SIZE + hdr_len(p));
    assert(f[0] == a[0] && f[1] == a[1] && f[2] == a[2] && f[3] == a[3]);
    assert(f[4] == b[0] && f[5] == b[1] && f[6] == b[2] && f[7] == b[3]);
    assert(f[12] == m[0] && f[13] == m[1] && f[14] == m[2] && f[15] == m[3]);
    assert(u32_le(f, 0) == u32_le(a, 0));
    assert(u32_le(f, 4) == u32_le(b, 0));
    assert(u32_le(f, 12) == u32_le(m, 0));
    assert(packet_of(f) =~= f);
    assert(payload_of(f) =~= payload_of(p));
}

} // verus!
