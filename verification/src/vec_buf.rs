//! Owned packet buffers (`PyroVec`), shared read-only packets (`PyroView`)
//! and borrowed packets (`PyroRef`).
//!
//! A `PyroVec` keeps a sixteen-byte header in front of its payload, inside
//! one allocation whose size is the header plus the capacity. The length
//! field of the header is the payload length.
use std::sync::Arc;

use vstd::prelude::*;

use crate::error::PyroError;
use crate::header::{
    hdr_len, lemma_put_u32, put_u32, read_u32, slice_start_aligned, spec_check, unit_bytes,
    unit_header, write_u32, DataStatus, MutPyroData, OwnedPyroData, ParseError, PyroHeader,
    PyroHeaderMut, PyroParser, Sealed, ALIGN, HEADER_SIZE,
    OFFSET_CLASS_ID, OFFSET_CLIENT, OFFSET_FN_ID, OFFSET_LEN, OFFSET_MUX_ID, OFFSET_STATUS,
    OFFSET_WIRE,
};

verus! {

/// Another handle to the bytes behind `a` (`Arc::clone`), which shares them.
#[verifier::external_body]
pub(crate) fn share_buffer(a: &Arc<Vec<u8>>) -> (r: Arc<Vec<u8>>)
    ensures
        r@ == a@,
{
    Arc::clone(a)
}

/// Whether `s` holds a complete packet: a header followed by at least as
/// many bytes as the header's length field announces.
pub open spec fn holds_packet(s: Seq<u8>) -> bool {
    s.len() >= HEADER_SIZE && HEADER_SIZE + hdr_len(s) <= s.len()
}

/// The packet (header and payload) at the front of `s`.
pub open spec fn packet_of(s: Seq<u8>) -> Seq<u8> {
    s.take(HEADER_SIZE + hdr_len(s))
}

/// The payload of a packet.
pub open spec fn payload_of(p: Seq<u8>) -> Seq<u8> {
    p.skip(HEADER_SIZE as int)
}

/// The packet at the front of bytes that hold one is a packet of its own,
/// with the same header length and nothing after its payload.
pub proof fn lemma_packet_of(s: Seq<u8>)
    requires
        holds_packet(s),
    ensures
        packet_of(s).len() == HEADER_SIZE + hdr_len(s),
        hdr_len(packet_of(s)) == hdr_len(s),
        holds_packet(packet_of(s)),
        packet_of(packet_of(s)) == packet_of(s),
        packet_of(s).take(16) == s.take(16),
{
    let p = packet_of(s);
    assert(p[0] == s[0] && p[1] == s[1] && p[2] == s[2] && p[3] == s[3]);
    assert(packet_of(p) =~= p);
    assert(p.take(16) =~= s.take(16));
}

/// The capacity, header included, that `grow(additional)` gives a buffer
/// whose allocation is `cap` bytes and whose payload is `len` bytes.
pub open spec fn grown_capacity(cap: int, len: int, additional: int) -> int {
    let required = len + additional + HEADER_SIZE;
    let doubled = if cap * 2 > u32::MAX {
        u32::MAX as int
    } else {
        cap * 2
    };
    let c = if doubled >= required {
        doubled
    } else {
        required
    };
    if c % 16 == 0 {
        c
    } else {
        c + (16 - c % 16)
    }
}

/// A sixteen-byte header followed by a growable payload.
#[derive(Debug)]
pub struct PyroVec {
    buf: Vec<u8>,
}

impl PyroVec {
    /// The packet: header and payload.
    pub open spec fn packet(&self) -> Seq<u8> {
        packet_of(self.storage())
    }

    /// The whole allocation: header, payload and unused capacity.
    pub closed spec fn storage(&self) -> Seq<u8> {
        self.buf@
    }

    pub open spec fn wf(&self) -> bool {
        &&& holds_packet(self.storage())
        &&& self.storage().len() <= u32::MAX
    }

    /// The payload length.
    pub open spec fn spec_len(&self) -> nat {
        hdr_len(self.storage()) as nat
    }

    /// The capacity, header excluded.
    pub open spec fn spec_capacity(&self) -> nat {
        (self.storage().len() - HEADER_SIZE) as nat
    }

    /// A buffer with an empty payload, the unit header and room for
    /// `capacity` payload bytes.
    pub fn with_capacity(capacity: usize) -> (r: Self)
        requires
            capacity + HEADER_SIZE <= u32::MAX,
        ensures
            r.wf(),
            r.packet() == unit_header(),
            r.spec_capacity() == capacity,
    {
        let mut buf = unit_bytes();
        let mut i: usize = 0;
        while i < capacity
            invariant
                i <= capacity,
                buf@.len() == HEADER_SIZE + i,
                buf@.take(16) == unit_header(),
            decreases capacity - i,
        {
            buf.push(0);
            i = i + 1;
            assert(buf@.take(16) =~= unit_header());
        }
        let r = PyroVec { buf };
        assert(hdr_len(r.storage()) == 0);
        assert(r.packet() =~= unit_header());
        r
    }

    /// A buffer whose allocation is `buf`: the packet at its front, with
    /// the rest as capacity.
    pub fn from_packet_bytes(buf: Vec<u8>) -> (r: Self)
        requires
            holds_packet(buf@),
            buf@.len() <= u32::MAX,
        ensures
            r.wf(),
            r.packet() == packet_of(buf@),
            r.storage() == buf@,
    {
        PyroVec { buf }
    }

    /// An empty success: the unit header and no room for payload.
    pub fn ok() -> (r: Self)
        ensures
            r.wf(),
            r.packet() == unit_header(),
            r.spec_capacity() == 0,
    {
        Self::with_capacity(0)
    }

    /// The capacity, header excluded.
    pub fn capacity(&self) -> (r: usize)
        requires
            self.wf(),
        ensures
            r == self.spec_capacity(),
    {
        self.buf.len() - HEADER_SIZE
    }

    /// The payload length.
    pub fn len(&self) -> (r: usize)
        requires
            self.wf(),
        ensures
            r == self.spec_len(),
    {
        read_u32(self.buf.as_slice(), OFFSET_LEN) as usize
    }

    /// Whether the payload is empty.
    pub fn is_empty(&self) -> (r: bool)
        requires
            self.wf(),
        ensures
            r == (self.spec_len() == 0),
    {
        self.len() == 0
    }

    /// The payload.
    pub fn as_slice(&self) -> (r: &[u8])
        requires
            self.wf(),
        ensures
            r@ == payload_of(self.packet()),
    {
        let len = self.len();
        let r = vstd::slice::slice_subrange(self.buf.as_slice(), HEADER_SIZE, HEADER_SIZE + len);
        assert(r@ =~= payload_of(self.packet()));
        r
    }

    /// The header followed by the payload.
    pub fn as_raw_slice(&self) -> (r: &[u8])
        requires
            self.wf(),
        ensures
            r@ == self.packet(),
    {
        let len = self.len();
        let r = vstd::slice::slice_subrange(self.buf.as_slice(), 0, HEADER_SIZE + len);
        assert(r@ =~= self.packet());
        r
    }

    /// Grows the allocation so that `additional` more payload bytes fit.
    ///
    /// The new allocation is the larger of twice the old one (saturating) and
    /// what is required, rounded up to a multiple of sixteen.
    pub fn grow(&mut self, additional: usize)
        requires
            old(self).wf(),
            old(self).spec_len() + additional + HEADER_SIZE <= u32::MAX,
            grown_capacity(
                old(self).storage().len() as int,
                old(self).spec_len() as int,
                additional as int,
            ) <= u32::MAX,
        ensures
            final(self).wf(),
            final(self).packet() == old(self).packet(),
            final(self).storage().len() == grown_capacity(
                old(self).storage().len() as int,
                old(self).spec_len() as int,
                additional as int,
            ),
            final(self).storage().take(old(self).storage().len() as int) == old(self).storage(),
    {
        let current_cap = self.buf.len() as u32;
        let current_len = self.len() as u32;
        let required_cap: u32 = current_len + additional as u32 + HEADER_SIZE as u32;
        let doubled: u32 = if current_cap > u32::MAX / 2 {
            u32::MAX
        } else {
            current_cap * 2
        };
        let mut new_cap: u32 = if doubled >= required_cap {
            doubled
        } else {
            required_cap
        };
        let remainder = new_cap % (ALIGN as u32);
        if remainder != 0 {
            new_cap = new_cap + (ALIGN as u32 - remainder);
        }
        let ghost old_storage = self.buf@;
        let mut i: usize = self.buf.len();
        while i < new_cap as usize
            invariant
                old_storage.len() <= i <= new_cap,
                self.buf@.len() == i,
                self.buf@.take(old_storage.len() as int) == old_storage,
            decreases new_cap as usize - i,
        {
            self.buf.push(0);
            i = i + 1;
            assert(self.buf@.take(old_storage.len() as int) =~= old_storage);
        }
        proof {
            assert(self.buf@.take(16) =~= old_storage.take(16));
            assert(hdr_len(self.buf@) == hdr_len(old_storage));
            assert(self.packet() =~= old(self).packet());
        }
    }

    /// Appends one byte to the payload, growing the allocation when full.
    pub fn push(&mut self, byte: u8)
        requires
            old(self).wf(),
            old(self).spec_len() + 1 + HEADER_SIZE <= u32::MAX,
            old(self).spec_len() == old(self).spec_capacity() ==> grown_capacity(
                old(self).storage().len() as int,
                old(self).spec_len() as int,
                1,
            ) <= u32::MAX,
        ensures
            final(self).wf(),
            final(self).packet() == put_u32(old(self).packet(), OFFSET_LEN as int, (old(self).spec_len() + 1) as u32).push(byte),
    {
        let inner_len = self.len();
        if inner_len == self.capacity() {
            self.grow(1);
        }
        let ghost mid = self.buf@;
        self.buf.set(HEADER_SIZE + inner_len, byte);
        write_u32(&mut self.buf, OFFSET_LEN, (inner_len + 1) as u32);
        proof {
            lemma_put_u32(self.buf@, 0, (inner_len + 1) as u32);
            lemma_put_u32(old(self).packet(), 0, (inner_len + 1) as u32);
            lemma_put_u32(mid.update(HEADER_SIZE + inner_len, byte), 0, (inner_len + 1) as u32);
            assert(self.packet() =~= put_u32(old(self).packet(), OFFSET_LEN as int, (inner_len + 1) as u32).push(byte));
        }
    }

    /// Appends `other` to the payload, growing the allocation when needed.
    pub fn extend_from_slice(&mut self, other: &[u8])
        requires
            old(self).wf(),
            old(self).spec_len() + other@.len() + HEADER_SIZE <= u32::MAX,
            old(self).spec_len() + other@.len() > old(self).spec_capacity() ==> grown_capacity(
                old(self).storage().len() as int,
                old(self).spec_len() as int,
                other@.len() as int,
            ) <= u32::MAX,
        ensures
            final(self).wf(),
            final(self).packet() == put_u32(old(self).packet(), OFFSET_LEN as int, (old(self).spec_len() + other@.len()) as u32) + other@,
    {
        let required = other.len();
        let current_len = self.len();
        let current_cap = self.buf.len();
        if current_len + required + HEADER_SIZE > current_cap {
            self.grow(required);
        }
        let ghost mid = self.buf@;
        let mut i: usize = 0;
        while i < required
            invariant
                i <= required,
                required == other@.len(),
                current_len + required + HEADER_SIZE <= self.buf@.len(),
                self.buf@.len() == mid.len(),
                mid.len() <= u32::MAX,
                forall|j: int| 0 <= j < HEADER_SIZE + current_len ==> #[trigger] self.buf@[j] == mid[j],
                forall|j: int| 0 <= j < i ==> #[trigger] self.buf@[HEADER_SIZE + current_len + j] == other@[j],
            decreases required - i,
        {
            self.buf.set(HEADER_SIZE + current_len + i, other[i]);
            i = i + 1;
        }
        let ghost before_len = self.buf@;
        write_u32(&mut self.buf, OFFSET_LEN, (current_len + required) as u32);
        proof {
            lemma_put_u32(before_len, 0, (current_len + required) as u32);
            lemma_put_u32(old(self).packet(), 0, (current_len + required) as u32);
            let expect = put_u32(old(self).packet(), OFFSET_LEN as int, (current_len + required) as u32) + other@;
            assert forall|j: int| 0 <= j < self.packet().len() implies #[trigger] self.packet()[j] == expect[j] by {
                if j < 4 {
                } else if j < HEADER_SIZE + current_len {
                    assert(self.packet()[j] == before_len[j]);
                    assert(before_len[j] == mid[j]);
                } else {
                    assert(self.packet()[j] == before_len[j]);
                    assert(before_len[HEADER_SIZE + current_len + (j - HEADER_SIZE - current_len)] == other@[j - HEADER_SIZE - current_len]);
                }
            }
            assert(self.packet() =~= expect);
        }
    }

    /// Empties the payload; the allocation is kept.
    pub fn clear(&mut self)
        requires
            old(self).wf(),
        ensures
            final(self).wf(),
            final(self).packet() == put_u32(old(self).packet().take(16), OFFSET_LEN as int, 0),
            final(self).spec_capacity() == old(self).spec_capacity(),
    {
        write_u32(&mut self.buf, OFFSET_LEN, 0);
        proof {
            lemma_put_u32(old(self).storage(), 0, 0);
            lemma_put_u32(old(self).packet().take(16), 0, 0);
            assert(self.packet() =~= put_u32(old(self).packet().take(16), OFFSET_LEN as int, 0));
        }
    }

    /// Sets the payload length field. Bytes between the old and the new
    /// length are whatever the allocation holds there.
    pub fn set_len(&mut self, len: u32)
        requires
            old(self).wf(),
            len <= old(self).spec_capacity(),
        ensures
            final(self).wf(),
            final(self).storage() == put_u32(old(self).storage(), OFFSET_LEN as int, len),
    {
        write_u32(&mut self.buf, OFFSET_LEN, len);
        proof {
            lemma_put_u32(old(self).storage(), 0, len);
        }
    }

    fn set_byte(&mut self, index: usize, v: u8)
        requires
            old(self).wf(),
            4 <= index < HEADER_SIZE,
        ensures
            final(self).wf(),
            final(self).storage() == old(self).storage().update(index as int, v),
            final(self).packet() == old(self).packet().update(index as int, v),
    {
        self.buf.set(index, v);
        assert(hdr_len(self.storage()) == hdr_len(old(self).storage()));
        assert(self.packet() =~= old(self).packet().update(index as int, v));
    }

    fn set_u32(&mut self, offset: usize, v: u32)
        requires
            old(self).wf(),
            offset == OFFSET_CLIENT || offset == OFFSET_MUX_ID,
        ensures
            final(self).wf(),
            final(self).packet() == put_u32(old(self).packet(), offset as int, v),
    {
        write_u32(&mut self.buf, offset, v);
        proof {
            lemma_put_u32(old(self).storage(), offset as int, v);
            assert(hdr_len(self.storage()) == hdr_len(old(self).storage()));
            assert(self.packet() =~= put_u32(old(self).packet(), offset as int, v));
        }
    }

    pub fn set_wire_format(&mut self, wire_fmt: u8)
        requires
            old(self).wf(),
        ensures
            final(self).wf(),
            final(self).packet() == old(self).packet().update(OFFSET_WIRE as int, wire_fmt),
    {
        self.set_byte(OFFSET_WIRE, wire_fmt);
    }

    pub fn set_client_id(&mut self, client_id: u32)
        requires
            old(self).wf(),
        ensures
            final(self).wf(),
            final(self).packet() == put_u32(old(self).packet(), OFFSET_CLIENT as int, client_id),
    {
        self.set_u32(OFFSET_CLIENT, client_id);
    }

    pub fn set_fn_id(&mut self, fn_id: u8)
        requires
            old(self).wf(),
        ensures
            final(self).wf(),
            final(self).packet() == old(self).packet().update(OFFSET_FN_ID as int, fn_id),
    {
        self.set_byte(OFFSET_FN_ID, fn_id);
    }

    pub fn set_class_id(&mut self, class_id: u8)
        requires
            old(self).wf(),
        ensures
            final(self).wf(),
            final(self).packet() == old(self).packet().update(OFFSET_CLASS_ID as int, class_id),
    {
        self.set_byte(OFFSET_CLASS_ID, class_id);
    }

    pub fn set_mux_id(&mut self, mux_id: u32)
        requires
            old(self).wf(),
        ensures
            final(self).wf(),
            final(self).packet() == put_u32(old(self).packet(), OFFSET_MUX_ID as int, mux_id),
    {
        self.set_u32(OFFSET_MUX_ID, mux_id);
    }

    pub fn set_status_u8(&mut self, status: u8)
        requires
            old(self).wf(),
        ensures
            final(self).wf(),
            final(self).packet() == old(self).packet().update(OFFSET_STATUS as int, status),
    {
        self.set_byte(OFFSET_STATUS, status);
    }

    pub fn set_status(&mut self, status: DataStatus)
        requires
            old(self).wf(),
        ensures
            final(self).wf(),
            final(self).packet() == old(self).packet().update(OFFSET_STATUS as int, status.spec_code()),
    {
        self.set_status_u8(status.code());
    }

    /// A new buffer holding the payload of `source` and a copy of its
    /// header.
    pub fn clone_from_pyro<T: PyroHeader>(source: &T) -> (r: Self)
        requires
            source.has_header(),
            source.payload_view().len() + HEADER_SIZE <= u32::MAX,
            hdr_len(source.header_view()) <= source.payload_view().len(),
        ensures
            r.wf(),
            r.packet() == source.header_view() + source.payload_view().take(
                hdr_len(source.header_view()) as int,
            ),
    {
        let payload = source.payload();
        let mut new_vec = Self::with_capacity(payload.len());
        new_vec.extend_from_slice(payload);
        let header = source.header();
        let ghost filled = new_vec.buf@;
        proof {
            let x = put_u32(unit_header(), 0, payload@.len() as u32) + payload@;
            lemma_put_u32(unit_header(), 0, payload@.len() as u32);
            assert(filled.take(HEADER_SIZE + hdr_len(filled)) == x);
            assert(filled[0] == x[0] && filled[1] == x[1] && filled[2] == x[2] && filled[3] == x[3]);
            assert(hdr_len(filled) == hdr_len(x));
        }
        let mut i: usize = 0;
        while i < HEADER_SIZE
            invariant
                i <= HEADER_SIZE,
                header@.len() == HEADER_SIZE,
                new_vec.buf@.len() == filled.len(),
                filled.len() >= HEADER_SIZE + payload@.len(),
                hdr_len(filled) == payload@.len(),
                forall|j: int| 0 <= j < i ==> #[trigger] new_vec.buf@[j] == header@[j],
                forall|j: int| HEADER_SIZE <= j < filled.len() ==> #[trigger] new_vec.buf@[j] == filled[j],
            decreases HEADER_SIZE - i,
        {
            new_vec.buf.set(i, header[i]);
            i = i + 1;
        }
        proof {
            assert(hdr_len(new_vec.buf@) == hdr_len(source.header_view()));
            let x = put_u32(unit_header(), 0, payload@.len() as u32) + payload@;
            lemma_put_u32(unit_header(), 0, payload@.len() as u32);
            assert forall|j: int| HEADER_SIZE <= j < HEADER_SIZE + payload@.len() implies #[trigger] filled[j] == payload@[j - HEADER_SIZE] by {
                assert(filled.take(HEADER_SIZE + hdr_len(filled))[j] == x[j]);
            }
            assert(new_vec.packet() =~= source.header_view() + source.payload_view().take(
                hdr_len(source.header_view()) as int,
            ));
        }
        new_vec
    }

    /// The whole allocation, writable in place.
    pub(crate) fn storage_mut(&mut self) -> (r: &mut [u8])
        ensures
            r@ == old(self).storage(),
            final(self).storage() == final(r)@,
    {
        self.buf.as_mut_slice()
    }

    /// Hands the buffer over to a shared, read-only view.
    pub fn view(self) -> (r: PyroView)
        requires
            self.wf(),
        ensures
            r.wf(),
            r@ == self.packet(),
    {
        let raw = vstd::slice::slice_to_vec(self.as_raw_slice());
        let r = PyroView { buffer: Arc::new(raw), start: 0 };
        assert(r.buffer@.subrange(0, HEADER_SIZE + hdr_len(r.buffer@)) =~= self.packet());
        r
    }
}

impl Sealed for PyroVec {}

impl PyroHeaderMut for PyroVec {
    fn set_wire_format(&mut self, wire_fmt: u8) {
        PyroVec::set_wire_format(self, wire_fmt);
        assert(self.packet().take(16) =~= old(self).packet().take(16).update(OFFSET_WIRE as int, wire_fmt));
        assert(payload_of(self.packet()) =~= payload_of(old(self).packet()));
    }

    fn set_client_id(&mut self, client_id: u32) {
        PyroVec::set_client_id(self, client_id);
        assert(self.packet().take(16) =~= put_u32(old(self).packet().take(16), OFFSET_CLIENT as int, client_id));
        assert(payload_of(self.packet()) =~= payload_of(old(self).packet()));
    }

    fn set_fn_id(&mut self, fn_id: u8) {
        PyroVec::set_fn_id(self, fn_id);
        assert(self.packet().take(16) =~= old(self).packet().take(16).update(OFFSET_FN_ID as int, fn_id));
        assert(payload_of(self.packet()) =~= payload_of(old(self).packet()));
    }

    fn set_class_id(&mut self, class_id: u8) {
        PyroVec::set_class_id(self, class_id);
        assert(self.packet().take(16) =~= old(self).packet().take(16).update(OFFSET_CLASS_ID as int, class_id));
        assert(payload_of(self.packet()) =~= payload_of(old(self).packet()));
    }

    fn set_mux_id(&mut self, mux_id: u32) {
        PyroVec::set_mux_id(self, mux_id);
        assert(self.packet().take(16) =~= put_u32(old(self).packet().take(16), OFFSET_MUX_ID as int, mux_id));
        assert(payload_of(self.packet()) =~= payload_of(old(self).packet()));
    }

    fn set_status_u8(&mut self, status: u8) {
        PyroVec::set_status_u8(self, status);
        assert(self.packet().take(16) =~= old(self).packet().take(16).update(OFFSET_STATUS as int, status));
        assert(payload_of(self.packet()) =~= payload_of(old(self).packet()));
    }
}

impl MutPyroData for PyroVec {}

impl OwnedPyroData for PyroVec {}

impl PyroHeader for PyroVec {
    open spec fn has_header(&self) -> bool {
        self.wf()
    }

    open spec fn header_view(&self) -> Seq<u8> {
        self.packet().take(16)
    }

    open spec fn payload_view(&self) -> Seq<u8> {
        payload_of(self.packet())
    }

    proof fn lemma_header_size(&self) {
    }

    fn header(&self) -> (h: &[u8]) {
        let h = vstd::slice::slice_subrange(self.buf.as_slice(), 0, HEADER_SIZE);
        assert(h@ =~= self.packet().take(16));
        h
    }

    fn payload(&self) -> (r: &[u8]) {
        self.as_slice()
    }
}

impl PyroVec {
    /// The payload when the allocation holds a packet; nothing otherwise.
    pub open spec fn payload_or_empty(&self) -> Seq<u8> {
        if holds_packet(self.storage()) {
            payload_of(self.packet())
        } else {
            Seq::empty()
        }
    }

    /// Whether the buffer is well formed, checked on its bytes.
    fn check_wf(&self) -> (r: bool)
        ensures
            r == self.wf(),
    {
        let n = self.buf.len();
        if n < HEADER_SIZE || n as u64 > 0xffff_ffff {
            return false;
        }
        let len = read_u32(self.buf.as_slice(), OFFSET_LEN) as usize;
        len <= n - HEADER_SIZE
    }

    fn payload_bytes(&self) -> (r: &[u8])
        ensures
            r@ == self.payload_or_empty(),
    {
        let n = self.buf.len();
        if n >= HEADER_SIZE {
            let len = read_u32(self.buf.as_slice(), OFFSET_LEN) as usize;
            if len <= n - HEADER_SIZE {
                let r = vstd::slice::slice_subrange(self.buf.as_slice(), HEADER_SIZE, HEADER_SIZE + len);
                assert(r@ =~= payload_of(self.packet()));
                return r;
            }
        }
        let r = vstd::slice::slice_subrange(self.buf.as_slice(), 0, 0);
        assert(r@ =~= Seq::<u8>::empty());
        r
    }
}

/// The packet a clone holds: the same packet with the client id zero.
pub open spec fn cloned_packet(p: Seq<u8>) -> Seq<u8> {
    put_u32(p, OFFSET_CLIENT as int, 0)
}

/// A clone compares equal to the buffer it was cloned from: it has the same
/// payload.
pub proof fn lemma_clone_eq(v: PyroVec, c: PyroVec)
    requires
        v.wf(),
        c.wf(),
        c.packet() == cloned_packet(v.packet()),
    ensures
        c.payload_or_empty() == v.payload_or_empty(),
{
    let p = v.packet();
    lemma_packet_of(v.storage());
    lemma_put_u32(p, OFFSET_CLIENT as int, 0);
    assert(payload_of(cloned_packet(p)) =~= payload_of(p));
}

impl Clone for PyroVec {
    /// A copy of the payload, the status, the wire format and the class,
    /// function and mux ids; the client id is not copied and is zero.
    fn clone(&self) -> (r: Self)
        ensures
            self.wf() ==> r.wf() && r.packet() == cloned_packet(self.packet()),
    {
        if !self.check_wf() {
            return PyroVec::ok();
        }
        proof {
            lemma_packet_of(self.storage());
        }
        let mut copy = PyroVec::clone_from_pyro(self);
        assert(self.packet().take(16) + payload_of(self.packet()).take(hdr_len(self.packet().take(16)) as int) =~= self.packet()) by {
            let p = self.packet();
            let h = p.take(16);
            assert(h[0] == p[0] && h[1] == p[1] && h[2] == p[2] && h[3] == p[3]);
        }
        copy.set_client_id(0);
        copy
    }
}

impl PartialEq for PyroVec {
    /// Buffers are equal when their payloads are; headers are not
    /// compared.
    fn eq(&self, other: &Self) -> (r: bool) {
        bytes_equal(self.payload_bytes(), other.payload_bytes())
    }
}

impl vstd::std_specs::cmp::PartialEqSpecImpl for PyroVec {
    open spec fn obeys_eq_spec() -> bool {
        true
    }

    open spec fn eq_spec(&self, other: &Self) -> bool {
        self.payload_or_empty() == other.payload_or_empty()
    }
}

impl Eq for PyroVec {}

impl std::ops::Deref for PyroVec {
    type Target = [u8];

    /// The payload.
    fn deref(&self) -> (r: &[u8])
        ensures
            r@ == self.payload_or_empty(),
    {
        self.payload_bytes()
    }
}

/// Compares two byte slices.
pub fn bytes_equal(a: &[u8], b: &[u8]) -> (r: bool)
    ensures
        r == (a@ == b@),
{
    if a.len() != b.len() {
        return false;
    }
    let mut i: usize = 0;
    while i < a.len()
        invariant
            i <= a@.len(),
            a@.len() == b@.len(),
            forall|j: int| 0 <= j < i ==> a@[j] == b@[j],
        decreases a@.len() - i,
    {
        if a[i] != b[i] {
            return false;
        }
        i = i + 1;
    }
    assert(a@ =~= b@);
    true
}

/// A shared, read-only packet. Clones share the same bytes.
#[derive(Debug)]
pub struct PyroView {
    buffer: Arc<Vec<u8>>,
    start: usize,
}

impl View for PyroView {
    type V = Seq<u8>;

    open spec fn view(&self) -> Seq<u8> {
        packet_of(self.storage().skip(self.offset() as int))
    }
}

impl PyroView {
    /// The shared bytes the packet lies in.
    pub closed spec fn storage(&self) -> Seq<u8> {
        self.buffer@
    }

    /// Where in the shared bytes the packet starts.
    pub closed spec fn offset(&self) -> nat {
        self.start as nat
    }

    pub open spec fn wf(&self) -> bool {
        &&& self.offset() <= self.storage().len()
        &&& holds_packet(self.storage().skip(self.offset() as int))
    }

    /// A view of the packet starting at `start` in the shared `buffer`.
    pub fn new(buffer: Arc<Vec<u8>>, start: usize) -> (r: Self)
        requires
            start <= buffer@.len(),
            holds_packet(buffer@.skip(start as int)),
        ensures
            r.wf(),
            r.storage() == buffer@,
            r.offset() == start,
    {
        PyroView { buffer, start }
    }

    /// The payload length.
    pub fn len(&self) -> (r: usize)
        requires
            self.wf(),
        ensures
            r == hdr_len(self@),
    {
        let v: &Vec<u8> = &*self.buffer;
        read_u32(v.as_slice(), self.start) as usize
    }

    /// The header followed by the payload.
    pub fn as_raw_slice(&self) -> (r: &[u8])
        requires
            self.wf(),
        ensures
            r@ == self@,
    {
        let v: &Vec<u8> = &*self.buffer;
        let _n = v.len();
        let len = read_u32(v.as_slice(), self.start) as usize;
        let r = vstd::slice::slice_subrange(v.as_slice(), self.start, self.start + HEADER_SIZE + len);
        assert(r@ =~= self@);
        r
    }

    /// The payload.
    pub fn as_slice(&self) -> (r: &[u8])
        requires
            self.wf(),
        ensures
            r@ == payload_of(self@),
    {
        let v: &Vec<u8> = &*self.buffer;
        let _n = v.len();
        let len = read_u32(v.as_slice(), self.start) as usize;
        let r = vstd::slice::slice_subrange(v.as_slice(), self.start + HEADER_SIZE, self.start + HEADER_SIZE + len);
        assert(r@ =~= payload_of(self@));
        r
    }

    /// The capacity of a view is its payload length.
    pub fn capacity(&self) -> (r: usize)
        requires
            self.wf(),
        ensures
            r == hdr_len(self@),
    {
        self.len()
    }

    /// Another view of the same bytes.
    pub fn share(&self) -> (r: Self)
        requires
            self.wf(),
        ensures
            r.wf(),
            r@ == self@,
            r.storage() == self.storage(),
    {
        PyroView { buffer: share_buffer(&self.buffer), start: self.start }
    }

    /// An owned copy of the packet.
    pub fn clone_to_vec(&self) -> (r: PyroVec)
        requires
            self.wf(),
            self@.len() <= u32::MAX,
        ensures
            r.wf(),
            r.packet() == self@,
    {
        let r = PyroVec::clone_from_pyro(self);
        assert(r.packet() =~= self@);
        r
    }
}

impl Sealed for PyroView {}

impl PyroHeader for PyroView {
    open spec fn has_header(&self) -> bool {
        self.wf()
    }

    open spec fn header_view(&self) -> Seq<u8> {
        self@.take(16)
    }

    open spec fn payload_view(&self) -> Seq<u8> {
        payload_of(self@)
    }

    proof fn lemma_header_size(&self) {
    }

    fn header(&self) -> (h: &[u8]) {
        let v: &Vec<u8> = &*self.buffer;
        let _n = v.len();
        let h = vstd::slice::slice_subrange(v.as_slice(), self.start, self.start + HEADER_SIZE);
        assert(h@ =~= self@.take(16));
        h
    }

    fn payload(&self) -> (r: &[u8]) {
        self.as_slice()
    }
}

/// A borrowed packet: a slice holding exactly a header and the payload it
/// announces.
#[derive(Debug, Clone, Copy)]
pub struct PyroRef<'a> {
    data: &'a [u8],
}

impl<'a> View for PyroRef<'a> {
    type V = Seq<u8>;

    open spec fn view(&self) -> Seq<u8> {
        self.data_view()
    }
}

/// Whether `r` is the outcome that `s` describes: the same error, or a
/// well-formed packet with the described bytes.
pub open spec fn ref_result_is<'a>(r: Result<PyroRef<'a>, PyroError>, s: Result<Seq<u8>, PyroError>) -> bool {
    match (r, s) {
        (Ok(v), Ok(p)) => v.wf() && v@ == p,
        (Err(e), Err(f)) => e == f,
        _ => false,
    }
}

/// What `PyroRef::try_from_slice` answers for `data`, given whether its start
/// is aligned.
pub open spec fn spec_try_ref(data: Seq<u8>, aligned: bool) -> Result<Seq<u8>, PyroError> {
    if data.len() < HEADER_SIZE {
        Err(PyroError::Header(ParseError::SliceTooSmall))
    } else if !aligned {
        Err(PyroError::InvalidFfiHeader(ParseError::MisalignedPointer))
    } else if data.len() < HEADER_SIZE + hdr_len(data) {
        Err(PyroError::Header(ParseError::LengthExceedsCapacity))
    } else {
        Ok(packet_of(data))
    }
}

impl<'a> PyroRef<'a> {
    pub closed spec fn data_view(&self) -> Seq<u8> {
        self.data@
    }

    pub open spec fn wf(&self) -> bool {
        self@.len() >= HEADER_SIZE && self@.len() == HEADER_SIZE + hdr_len(self@)
    }

    /// `try_from_slice` for a slice whose alignment is already known.
    pub fn try_from_slice_aligned(data: &'a [u8], aligned: bool) -> (r: Result<Self, PyroError>)
        ensures
            ref_result_is(r, spec_try_ref(data@, aligned)),
    {
        if data.len() < HEADER_SIZE {
            return Err(PyroError::Header(ParseError::SliceTooSmall));
        }
        if !aligned {
            return Err(PyroError::InvalidFfiHeader(ParseError::MisalignedPointer));
        }
        let payload_len = read_u32(data, OFFSET_LEN) as usize;
        if data.len() - HEADER_SIZE < payload_len {
            return Err(PyroError::Header(ParseError::LengthExceedsCapacity));
        }
        let total_required = HEADER_SIZE + payload_len;
        let r = PyroRef { data: vstd::slice::slice_subrange(data, 0, total_required) };
        assert(r@ =~= packet_of(data@));
        Ok(r)
    }

    /// A packet from a slice holding a header and at least the payload the
    /// header announces; the packet is narrowed to exactly that.
    pub fn try_from_slice(data: &'a [u8]) -> (r: Result<Self, PyroError>)
        ensures
            ref_result_is(r, spec_try_ref(data@, true)) || ref_result_is(r, spec_try_ref(data@, false)),
    {
        if data.len() < HEADER_SIZE {
            return Err(PyroError::Header(ParseError::SliceTooSmall));
        }
        let aligned = slice_start_aligned(data);
        Self::try_from_slice_aligned(data, aligned)
    }

    /// The header followed by the payload.
    pub fn as_raw_slice(&self) -> (r: &'a [u8])
        ensures
            r@ == self@,
    {
        self.data
    }

    /// The payload.
    pub fn as_slice(&self) -> (r: &'a [u8])
        requires
            self.wf(),
        ensures
            r@ == payload_of(self@),
    {
        let _n = self.data.len();
        let len = read_u32(self.data, OFFSET_LEN) as usize;
        let r = vstd::slice::slice_subrange(self.data, HEADER_SIZE, HEADER_SIZE + len);
        assert(r@ =~= payload_of(self@));
        r
    }

    /// The room after the header.
    pub fn capacity(&self) -> (r: usize)
        ensures
            r == if self@.len() >= HEADER_SIZE { self@.len() - HEADER_SIZE } else { 0 },
    {
        if self.data.len() >= HEADER_SIZE {
            self.data.len() - HEADER_SIZE
        } else {
            0
        }
    }
}

impl<'a> PyroRef<'a> {
    /// The payload when the slice is exactly a packet; nothing otherwise.
    pub open spec fn payload_or_empty(&self) -> Seq<u8> {
        if self.wf() {
            payload_of(self@)
        } else {
            Seq::empty()
        }
    }

    /// The payload length.
    pub fn len(&self) -> (r: usize)
        requires
            self.wf(),
        ensures
            r == hdr_len(self@),
    {
        read_u32(self.data, OFFSET_LEN) as usize
    }
}

impl<'a> std::ops::Deref for PyroRef<'a> {
    type Target = [u8];

    /// The payload.
    fn deref(&self) -> (r: &[u8])
        ensures
            r@ == self.payload_or_empty(),
    {
        let n = self.data.len();
        if n >= HEADER_SIZE {
            let len = read_u32(self.data, OFFSET_LEN) as usize;
            if len == n - HEADER_SIZE {
                let r = vstd::slice::slice_subrange(self.data, HEADER_SIZE, n);
                assert(r@ =~= payload_of(self@));
                return r;
            }
        }
        let r = vstd::slice::slice_subrange(self.data, 0, 0);
        assert(r@ =~= Seq::<u8>::empty());
        r
    }
}

impl<'a> Sealed for PyroRef<'a> {}

impl<'a> PyroHeader for PyroRef<'a> {
    open spec fn has_header(&self) -> bool {
        self.wf()
    }

    open spec fn header_view(&self) -> Seq<u8> {
        self@.take(16)
    }

    open spec fn payload_view(&self) -> Seq<u8> {
        payload_of(self@)
    }

    proof fn lemma_header_size(&self) {
    }

    fn header(&self) -> (h: &[u8]) {
        let h = vstd::slice::slice_subrange(self.data, 0, HEADER_SIZE);
        assert(h@ =~= self@.take(16));
        h
    }

    fn payload(&self) -> (r: &[u8]) {
        self.as_slice()
    }
}

/// What `get_ref` answers for `memory` and `offset`, given whether the
/// memory at `offset` is aligned.
pub open spec fn spec_get_ref(memory: Seq<u8>, offset: int, aligned: bool) -> Result<Seq<u8>, PyroError> {
    if memory.len() < offset + HEADER_SIZE {
        Err(PyroError::Header(ParseError::SliceTooSmall))
    } else if offset % 16 != 0 {
        Err(PyroError::Header(ParseError::MisalignedPointer))
    } else {
        let rest = memory.skip(offset);
        match spec_check(rest, aligned) {
            Err(e) => Err(PyroError::InvalidFfiHeader(e)),
            Ok(()) => if rest.len() < HEADER_SIZE + hdr_len(rest) {
                Err(PyroError::Header(ParseError::LengthExceedsCapacity))
            } else {
                Ok(packet_of(rest))
            },
        }
    }
}

/// `get_ref` for memory whose alignment at `offset` is already known.
pub fn get_ref_aligned(memory: &[u8], offset: usize, aligned: bool) -> (r: Result<PyroRef<'_>, PyroError>)
    requires
        offset + HEADER_SIZE <= usize::MAX,
    ensures
        ref_result_is(r, spec_get_ref(memory@, offset as int, aligned)),
{
    if memory.len() < offset + HEADER_SIZE {
        return Err(PyroError::Header(ParseError::SliceTooSmall));
    }
    if offset % 16 != 0 {
        return Err(PyroError::Header(ParseError::MisalignedPointer));
    }
    let rest = vstd::slice::slice_subrange(memory, offset, memory.len());
    assert(rest@ =~= memory@.skip(offset as int));
    match PyroParser::check_with_alignment(rest, aligned) {
        Err(e) => {
            return Err(PyroError::InvalidFfiHeader(e));
        },
        Ok(()) => {},
    }
    let payload_len = read_u32(rest, OFFSET_LEN) as usize;
    if memory.len() - offset - HEADER_SIZE < payload_len {
        return Err(PyroError::Header(ParseError::LengthExceedsCapacity));
    }
    let total_required = HEADER_SIZE + payload_len;
    let r = PyroRef { data: vstd::slice::slice_subrange(memory, offset, offset + total_required) };
    assert(r@ =~= packet_of(rest@));
    Ok(r)
}

/// The packet starting at `offset` of `memory`, after bounds and header
/// checks.
pub fn get_ref(memory: &[u8], offset: usize) -> (r: Result<PyroRef<'_>, PyroError>)
    requires
        offset + HEADER_SIZE <= usize::MAX,
    ensures
        ref_result_is(r, spec_get_ref(memory@, offset as int, true)) || ref_result_is(
            r,
            spec_get_ref(memory@, offset as int, false),
        ),
{
    if memory.len() < offset + HEADER_SIZE || offset % 16 != 0 {
        return get_ref_aligned(memory, offset, true);
    }
    let rest = vstd::slice::slice_subrange(memory, offset, memory.len());
    let aligned = slice_start_aligned(rest);
    get_ref_aligned(memory, offset, aligned)
}

} // verus!
