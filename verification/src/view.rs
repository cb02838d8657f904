//! Zero-copy packets inside a larger byte region, such as the memory of a
//! guest module or a mapped file.
use vstd::prelude::*;

use crate::error::PyroError;
use crate::header::{
    hdr_len, hdr_wire, lemma_put_u32, put_u32, read_u32, slice_start_aligned, spec_check,
    write_u32_into_slice, MutPyroData, ParseError, PyroHeader, PyroHeaderMut, PyroParser, Sealed,
    HEADER_SIZE, OFFSET_CLASS_ID, OFFSET_CLIENT, OFFSET_FN_ID, OFFSET_LEN, OFFSET_MUX_ID,
    OFFSET_STATUS, OFFSET_WIRE,
};
use crate::vec_buf::PyroVec;

verus! {

/// Whether `s` is what a view holds: a header whose length field does not
/// exceed the slice.
pub open spec fn view_shaped(s: Seq<u8>) -> bool {
    s.len() >= HEADER_SIZE && hdr_len(s) <= s.len()
}

/// A read-only packet in a borrowed slice: the header, then the payload.
#[derive(Debug, Clone, Copy)]
pub struct PyroView<'a> {
    raw_slice: &'a [u8],
}

impl<'a> View for PyroView<'a> {
    type V = Seq<u8>;

    open spec fn view(&self) -> Seq<u8> {
        self.raw_view()
    }
}

impl<'a> PyroView<'a> {
    pub closed spec fn raw_view(&self) -> Seq<u8> {
        self.raw_slice@
    }

    pub open spec fn wf(&self) -> bool {
        view_shaped(self@)
    }

    /// A view of `slice`, if it passes `PyroParser::check`.
    pub fn try_from_slice(slice: &'a [u8]) -> (r: Result<Self, ParseError>)
        ensures
            r is Ok ==> r->Ok_0.wf() && r->Ok_0@ == slice@,
            r is Err ==> r == Err::<Self, ParseError>(spec_check(slice@, true)->Err_0)
                || r == Err::<Self, ParseError>(spec_check(slice@, false)->Err_0),
            r is Ok ==> spec_check(slice@, true) is Ok,
    {
        match PyroParser::check(slice) {
            Err(e) => Err(e),
            Ok(()) => Ok(PyroView { raw_slice: slice }),
        }
    }

    /// A view of the packet held by `value`.
    pub fn from_vec(value: &'a PyroVec) -> (r: Self)
        requires
            value.wf(),
        ensures
            r.wf(),
            r@ == value.packet(),
    {
        PyroView { raw_slice: value.as_raw_slice() }
    }

    /// Everything after the header.
    pub fn as_slice(&self) -> (r: &'a [u8])
        requires
            self.wf(),
        ensures
            r@ == self@.skip(HEADER_SIZE as int),
    {
        let n = self.raw_slice.len();
        let r = vstd::slice::slice_subrange(self.raw_slice, HEADER_SIZE, n);
        assert(r@ =~= self@.skip(HEADER_SIZE as int));
        r
    }

    /// The header followed by everything after it.
    pub fn as_raw_slice(&self) -> (r: &'a [u8])
        ensures
            r@ == self@,
    {
        self.raw_slice
    }

    /// The room after the header.
    pub fn capacity(&self) -> (r: usize)
        requires
            self.wf(),
        ensures
            r == self@.len() - HEADER_SIZE,
    {
        self.raw_slice.len() - HEADER_SIZE
    }

    /// The payload length the header announces.
    pub fn len(&self) -> (r: usize)
        requires
            self.wf(),
        ensures
            r == hdr_len(self@),
    {
        read_u32(self.raw_slice, OFFSET_LEN) as usize
    }

    /// Everything after the header; nothing when the slice is shorter than
    /// a header.
    pub open spec fn payload_or_empty(&self) -> Seq<u8> {
        if self@.len() >= HEADER_SIZE {
            self@.skip(HEADER_SIZE as int)
        } else {
            Seq::empty()
        }
    }
}

impl<'a> std::ops::Deref for PyroView<'a> {
    type Target = [u8];

    /// Everything after the header.
    fn deref(&self) -> (r: &[u8])
        ensures
            r@ == self.payload_or_empty(),
    {
        let n = self.raw_slice.len();
        if n >= HEADER_SIZE {
            let r = vstd::slice::slice_subrange(self.raw_slice, HEADER_SIZE, n);
            assert(r@ =~= self@.skip(HEADER_SIZE as int));
            r
        } else {
            let r = vstd::slice::slice_subrange(self.raw_slice, 0, 0);
            assert(r@ =~= Seq::<u8>::empty());
            r
        }
    }
}

impl<'a> Sealed for PyroView<'a> {}

impl<'a> PyroHeader for PyroView<'a> {
    open spec fn has_header(&self) -> bool {
        self.wf()
    }

    open spec fn header_view(&self) -> Seq<u8> {
        self@.take(16)
    }

    open spec fn payload_view(&self) -> Seq<u8> {
        self@.skip(HEADER_SIZE as int)
    }

    proof fn lemma_header_size(&self) {
    }

    fn header(&self) -> (h: &[u8]) {
        let h = vstd::slice::slice_subrange(self.raw_slice, 0, HEADER_SIZE);
        assert(h@ =~= self@.take(16));
        h
    }

    fn payload(&self) -> (r: &[u8]) {
        self.as_slice()
    }
}

/// What `get_view` (and `get_view_mut`) answer for `memory` and `offset`,
/// given whether the packet's start is aligned: the bounds of the packet
/// within `memory`, or the error.
///
/// A header that does not fit in the memory after `offset` is refused as
/// not fitting. A header whose wire-format byte is zero is not a header of
/// this protocol (every header this library writes names a wire format),
/// and is refused as having no magic before its length is looked at.
pub open spec fn spec_get_view(memory: Seq<u8>, offset: int, aligned: bool) -> Result<(int, int), PyroError> {
    if memory.len() < HEADER_SIZE {
        Err(PyroError::Header(ParseError::SliceTooSmall))
    } else if offset % 16 != 0 {
        Err(PyroError::Header(ParseError::MisalignedPointer))
    } else if offset + HEADER_SIZE > memory.len() {
        Err(PyroError::Header(ParseError::SliceTooSmall))
    } else if memory[offset + OFFSET_WIRE] == 0 {
        Err(PyroError::Header(ParseError::InvalidMagic))
    } else {
        let len = u32_at(memory, offset);
        let end = offset + HEADER_SIZE + len;
        if end > usize::MAX || end > memory.len() {
            Err(PyroError::Header(ParseError::LengthExceedsCapacity))
        } else {
            match spec_check(memory.subrange(offset, end), aligned) {
                Err(e) => Err(PyroError::Header(e)),
                Ok(()) => Ok((offset, end)),
            }
        }
    }
}

/// The length field of a header at `offset`.
pub open spec fn u32_at(memory: Seq<u8>, offset: int) -> int {
    hdr_len(memory.skip(offset)) as int
}

/// Where a packet found by `get_view` lies, after the bounds and header
/// checks, for a packet start whose alignment is already known.
pub fn locate_view(memory: &[u8], offset: usize, aligned: bool) -> (r: Result<(usize, usize), PyroError>)
    ensures
        match (r, spec_get_view(memory@, offset as int, aligned)) {
            (Ok((a, b)), Ok((c, d))) => a == c && b == d,
            (Err(e), Err(f)) => e == f,
            _ => false,
        },
{
    if memory.len() < HEADER_SIZE {
        return Err(PyroError::Header(ParseError::SliceTooSmall));
    }
    if offset % 16 != 0 {
        return Err(PyroError::Header(ParseError::MisalignedPointer));
    }
    if offset > memory.len() - HEADER_SIZE {
        return Err(PyroError::Header(ParseError::SliceTooSmall));
    }
    if memory[offset + OFFSET_WIRE] == 0 {
        return Err(PyroError::Header(ParseError::InvalidMagic));
    }
    let len = read_u32(memory, offset + OFFSET_LEN) as usize;
    proof {
        let m = memory@;
        assert(m.skip(offset as int)[0] == m[offset as int]);
        assert(m.skip(offset as int)[1] == m[offset + 1]);
        assert(m.skip(offset as int)[2] == m[offset + 2]);
        assert(m.skip(offset as int)[3] == m[offset + 3]);
    }
    let total_len = match len.checked_add(HEADER_SIZE) {
        Some(t) => t,
        None => {
            return Err(PyroError::Header(ParseError::LengthExceedsCapacity));
        },
    };
    let required_end = match offset.checked_add(total_len) {
        Some(e) => e,
        None => {
            return Err(PyroError::Header(ParseError::LengthExceedsCapacity));
        },
    };
    if required_end > memory.len() {
        return Err(PyroError::Header(ParseError::LengthExceedsCapacity));
    }
    let raw_slice = vstd::slice::slice_subrange(memory, offset, required_end);
    match PyroParser::check_with_alignment(raw_slice, aligned) {
        Err(e) => Err(PyroError::Header(e)),
        Ok(()) => Ok((offset, required_end)),
    }
}

/// Whether `r` is the view that `s` describes for `memory`.
pub open spec fn view_result_is<'a>(r: Result<PyroView<'a>, PyroError>, memory: Seq<u8>, s: Result<(int, int), PyroError>) -> bool {
    match (r, s) {
        (Ok(v), Ok((a, b))) => v.wf() && v@ == memory.subrange(a, b),
        (Err(e), Err(f)) => e == f,
        _ => false,
    }
}

/// A view of the packet that starts at `offset` of `memory`, after bounds
/// and header checks.
pub fn get_view<'a>(memory: &'a [u8], offset: usize) -> (r: Result<PyroView<'a>, PyroError>)
    ensures
        view_result_is(r, memory@, spec_get_view(memory@, offset as int, true)) || view_result_is(
            r,
            memory@,
            spec_get_view(memory@, offset as int, false),
        ),
{
    let aligned = if offset <= memory.len() {
        let rest = vstd::slice::slice_subrange(memory, offset, memory.len());
        slice_start_aligned(rest)
    } else {
        true
    };
    match locate_view(memory, offset, aligned) {
        Err(e) => Err(e),
        Ok((start, end)) => {
            let raw_slice = vstd::slice::slice_subrange(memory, start, end);
            proof {
                let s = memory@.subrange(start as int, end as int);
                assert(s.skip(0) =~= s);
                assert(hdr_len(s) == u32_at(memory@, offset as int)) by {
                    assert(s[0] == memory@.skip(offset as int)[0]);
                    assert(s[1] == memory@.skip(offset as int)[1]);
                    assert(s[2] == memory@.skip(offset as int)[2]);
                    assert(s[3] == memory@.skip(offset as int)[3]);
                }
            }
            Ok(PyroView { raw_slice })
        },
    }
}

/// A writable packet inside a borrowed region: the packet occupies
/// `start..end` of the region.
#[derive(Debug)]
pub struct PyroMutView<'a> {
    pub memory: &'a mut [u8],
    pub start: usize,
    pub end: usize,
}

impl<'a> View for PyroMutView<'a> {
    type V = Seq<u8>;

    open spec fn view(&self) -> Seq<u8> {
        self.region().subrange(self.start_pos() as int, self.end_pos() as int)
    }
}

impl<'a> PyroMutView<'a> {
    /// The whole borrowed region.
    pub closed spec fn region(&self) -> Seq<u8> {
        self.memory@
    }

    pub closed spec fn start_pos(&self) -> nat {
        self.start as nat
    }

    pub closed spec fn end_pos(&self) -> nat {
        self.end as nat
    }

    pub open spec fn wf(&self) -> bool {
        &&& self.start_pos() + HEADER_SIZE <= self.end_pos() <= self.region().len()
        &&& view_shaped(self@)
    }

    /// The room after the header.
    pub fn capacity(&self) -> (r: usize)
        requires
            self.wf(),
        ensures
            r == self@.len() - HEADER_SIZE,
    {
        self.end - self.start - HEADER_SIZE
    }

    /// Everything after the header.
    pub fn as_slice(&self) -> (r: &[u8])
        requires
            self.wf(),
        ensures
            r@ == self@.skip(HEADER_SIZE as int),
    {
        let m: &[u8] = &*self.memory;
        let r = vstd::slice::slice_subrange(m, self.start + HEADER_SIZE, self.end);
        assert(r@ =~= self@.skip(HEADER_SIZE as int));
        r
    }

    fn set_byte(&mut self, index: usize, v: u8)
        requires
            old(self).wf(),
            OFFSET_CLIENT <= index < HEADER_SIZE,
        ensures
            final(self).wf(),
            final(self)@ == old(self)@.update(index as int, v),
            final(self).region() == old(self).region().update(old(self).start_pos() + index, v),
            final(self).start_pos() == old(self).start_pos(),
            final(self).end_pos() == old(self).end_pos(),
    {
        let pos = self.start + index;
        self.memory[pos] = v;
        assert(self@ =~= old(self)@.update(index as int, v));
        assert(hdr_len(self@) == hdr_len(old(self)@));
    }

    pub fn set_wire_format(&mut self, wire_fmt: u8)
        requires
            old(self).wf(),
        ensures
            final(self).wf(),
            final(self)@ == old(self)@.update(OFFSET_WIRE as int, wire_fmt),
            final(self).region() == old(self).region().update(old(self).start_pos() + OFFSET_WIRE as int, wire_fmt),
            final(self).start_pos() == old(self).start_pos(),
            final(self).end_pos() == old(self).end_pos(),
    {
        self.set_byte(OFFSET_WIRE, wire_fmt);
    }

    pub fn set_status_u8(&mut self, status: u8)
        requires
            old(self).wf(),
        ensures
            final(self).wf(),
            final(self)@ == old(self)@.update(9, status),
            final(self).region() == old(self).region().update(old(self).start_pos() + 9int, status),
            final(self).start_pos() == old(self).start_pos(),
            final(self).end_pos() == old(self).end_pos(),
    {
        self.set_byte(9, status);
    }

    pub fn set_class_id(&mut self, class_id: u8)
        requires
            old(self).wf(),
        ensures
            final(self).wf(),
            final(self)@ == old(self)@.update(10, class_id),
            final(self).region() == old(self).region().update(old(self).start_pos() + 10int, class_id),
            final(self).start_pos() == old(self).start_pos(),
            final(self).end_pos() == old(self).end_pos(),
    {
        self.set_byte(10, class_id);
    }

    pub fn set_fn_id(&mut self, fn_id: u8)
        requires
            old(self).wf(),
        ensures
            final(self).wf(),
            final(self)@ == old(self)@.update(11, fn_id),
            final(self).region() == old(self).region().update(old(self).start_pos() + 11int, fn_id),
            final(self).start_pos() == old(self).start_pos(),
            final(self).end_pos() == old(self).end_pos(),
    {
        self.set_byte(11, fn_id);
    }

    fn set_u32(&mut self, offset: usize, v: u32)
        requires
            old(self).wf(),
            offset == OFFSET_CLIENT || offset == OFFSET_MUX_ID,
        ensures
            final(self).wf(),
            final(self)@ == put_u32(old(self)@, offset as int, v),
            final(self).region() == put_u32(old(self).region(), old(self).start_pos() + offset, v),
            final(self).start_pos() == old(self).start_pos(),
            final(self).end_pos() == old(self).end_pos(),
    {
        let ghost before = self.memory@;
        write_u32_into_slice(self.memory, self.start + offset, v);
        proof {
            lemma_put_u32(before, self.start + offset, v);
            lemma_put_u32(old(self)@, offset as int, v);
            assert(self@ =~= put_u32(old(self)@, offset as int, v));
            assert(hdr_len(self@) == hdr_len(old(self)@));
        }
    }

    pub fn set_client_id(&mut self, client_id: u32)
        requires
            old(self).wf(),
        ensures
            final(self).wf(),
            final(self)@ == put_u32(old(self)@, OFFSET_CLIENT as int, client_id),
            final(self).region() == put_u32(old(self).region(), old(self).start_pos() + OFFSET_CLIENT, client_id),
            final(self).start_pos() == old(self).start_pos(),
            final(self).end_pos() == old(self).end_pos(),
    {
        self.set_u32(OFFSET_CLIENT, client_id);
    }

    pub fn set_mux_id(&mut self, mux_id: u32)
        requires
            old(self).wf(),
        ensures
            final(self).wf(),
            final(self)@ == put_u32(old(self)@, OFFSET_MUX_ID as int, mux_id),
            final(self).region() == put_u32(old(self).region(), old(self).start_pos() + OFFSET_MUX_ID, mux_id),
            final(self).start_pos() == old(self).start_pos(),
            final(self).end_pos() == old(self).end_pos(),
    {
        self.set_u32(OFFSET_MUX_ID, mux_id);
    }

    /// Copies the header and the payload of `view` into this packet. The
    /// payload of `view` must be exactly as long as the room after this
    /// packet's header.
    pub fn copy_from_view(&mut self, view: &PyroView<'_>) -> (r: Result<(), PyroError>)
        requires
            old(self).wf(),
            view.wf(),
            view@.len() == old(self)@.len(),
        ensures
            r is Ok,
            final(self)@ == view@,
            final(self).wf(),
            final(self).start_pos() == old(self).start_pos(),
            final(self).end_pos() == old(self).end_pos(),
            final(self).region().len() == old(self).region().len(),
            forall|j: int| 0 <= j < old(self).region().len() && !(old(self).start_pos() <= j < old(self).end_pos())
                ==> #[trigger] final(self).region()[j] == old(self).region()[j],
    {
        let src = view.as_raw_slice();
        let n = src.len();
        let mut i: usize = 0;
        while i < n
            invariant
                i <= n,
                n == src@.len(),
                src@ == view@,
                self.start + n == self.end,
                self.end <= self.memory@.len(),
                self.start_pos() == old(self).start_pos(),
                self.end_pos() == old(self).end_pos(),
                self.memory@.len() == old(self).region().len(),
                forall|j: int| 0 <= j < i ==> #[trigger] self.memory@[self.start + j] == src@[j],
                forall|j: int| 0 <= j < old(self).region().len() && !(old(self).start_pos() <= j < old(self).end_pos())
                    ==> #[trigger] self.memory@[j] == old(self).region()[j],
            decreases n - i,
        {
            self.memory[self.start + i] = src[i];
            i = i + 1;
        }
        assert forall|j: int| 0 <= j < n implies #[trigger] self@[j] == view@[j] by {
            assert(self@[j] == self.memory@[self.start + j]);
        }
        assert(self@ =~= view@);
        Ok(())
    }
}

impl<'a> Sealed for PyroMutView<'a> {}

impl<'a> PyroHeaderMut for PyroMutView<'a> {
    fn set_wire_format(&mut self, wire_fmt: u8) {
        PyroMutView::set_wire_format(self, wire_fmt);
        assert(self@.take(16) =~= old(self)@.take(16).update(OFFSET_WIRE as int, wire_fmt));
        assert(self@.skip(HEADER_SIZE as int) =~= old(self)@.skip(HEADER_SIZE as int));
    }

    fn set_client_id(&mut self, client_id: u32) {
        PyroMutView::set_client_id(self, client_id);
        assert(self@.take(16) =~= put_u32(old(self)@.take(16), OFFSET_CLIENT as int, client_id));
        assert(self@.skip(HEADER_SIZE as int) =~= old(self)@.skip(HEADER_SIZE as int));
    }

    fn set_fn_id(&mut self, fn_id: u8) {
        PyroMutView::set_fn_id(self, fn_id);
        assert(self@.take(16) =~= old(self)@.take(16).update(OFFSET_FN_ID as int, fn_id));
        assert(self@.skip(HEADER_SIZE as int) =~= old(self)@.skip(HEADER_SIZE as int));
    }

    fn set_class_id(&mut self, class_id: u8) {
        PyroMutView::set_class_id(self, class_id);
        assert(self@.take(16) =~= old(self)@.take(16).update(OFFSET_CLASS_ID as int, class_id));
        assert(self@.skip(HEADER_SIZE as int) =~= old(self)@.skip(HEADER_SIZE as int));
    }

    fn set_mux_id(&mut self, mux_id: u32) {
        PyroMutView::set_mux_id(self, mux_id);
        assert(self@.take(16) =~= put_u32(old(self)@.take(16), OFFSET_MUX_ID as int, mux_id));
        assert(self@.skip(HEADER_SIZE as int) =~= old(self)@.skip(HEADER_SIZE as int));
    }

    fn set_status_u8(&mut self, status: u8) {
        PyroMutView::set_status_u8(self, status);
        assert(self@.take(16) =~= old(self)@.take(16).update(OFFSET_STATUS as int, status));
        assert(self@.skip(HEADER_SIZE as int) =~= old(self)@.skip(HEADER_SIZE as int));
    }
}

impl<'a> MutPyroData for PyroMutView<'a> {}

impl<'a> PyroHeader for PyroMutView<'a> {
    open spec fn has_header(&self) -> bool {
        self.wf()
    }

    open spec fn header_view(&self) -> Seq<u8> {
        self@.take(16)
    }

    open spec fn payload_view(&self) -> Seq<u8> {
        self@.skip(HEADER_SIZE as int)
    }

    proof fn lemma_header_size(&self) {
    }

    fn header(&self) -> (h: &[u8]) {
        let m: &[u8] = &*self.memory;
        let h = vstd::slice::slice_subrange(m, self.start, self.start + HEADER_SIZE);
        assert(h@ =~= self@.take(16));
        h
    }

    fn payload(&self) -> (r: &[u8]) {
        self.as_slice()
    }
}

impl PyroVec {
    /// A writable view of the buffer's packet, in place: what is written
    /// through the view is what the buffer holds afterwards.
    pub fn mut_view(&mut self) -> (r: PyroMutView<'_>)
        requires
            old(self).wf(),
        ensures
            r.wf(),
            r@ == old(self).packet(),
            r.region() == old(self).storage(),
            r.start_pos() == 0,
            final(self).storage() == final(r.memory)@,
    {
        let len = self.len();
        let memory = self.storage_mut();
        let r = PyroMutView { memory, start: 0, end: HEADER_SIZE + len };
        assert(r@ =~= old(self).packet());
        r
    }
}

/// What a writable view over a vector's packet shows is the vector's
/// packet: once writes through the view (which leave the length alone) are
/// done, the vector holding the view's memory holds the packet the view
/// shows.
pub proof fn lemma_mut_view_is_vec_packet<'a>(vec: PyroVec, mv: PyroMutView<'a>)
    requires
        mv.wf(),
        mv.start_pos() == 0,
        mv.end_pos() == HEADER_SIZE + hdr_len(mv@),
        vec.storage() == mv.region(),
    ensures
        vec.packet() == mv@,
{
    let m = mv.region();
    assert(mv@ == m.subrange(0, mv.end_pos() as int));
    assert(mv@[0] == m[0] && mv@[1] == m[1] && mv@[2] == m[2] && mv@[3] == m[3]);
    assert(hdr_len(m) == hdr_len(mv@));
    assert(vec.packet() =~= mv@);
}

/// Whether `r` is the writable view, over `memory`, that the outcome `s`
/// of the checks describes, or the error that it gives.
pub open spec fn mut_view_result_is<'a>(r: Result<PyroMutView<'a>, PyroError>, memory: Seq<u8>, s: Result<(int, int), PyroError>) -> bool {
    match (r, s) {
        (Ok(v), Ok((a, b))) => v.wf() && v.region() == memory && v.start_pos() == a && v.end_pos() == b,
        (Err(e), Err(f)) => e == f,
        _ => false,
    }
}

/// Under one alignment of the memory, a writable view is found exactly
/// where a shared view is: both are found or neither, a refusal is the
/// same error, and both cover the same bytes of the memory.
pub proof fn lemma_mut_view_matches_view<'a, 'b>(
    memory: Seq<u8>,
    offset: int,
    aligned: bool,
    shared: Result<PyroView<'a>, PyroError>,
    writable: Result<PyroMutView<'b>, PyroError>,
)
    requires
        view_result_is(shared, memory, spec_get_view(memory, offset, aligned)),
        mut_view_result_is(writable, memory, spec_get_view(memory, offset, aligned)),
    ensures
        shared is Ok <==> writable is Ok,
        shared matches Err(e1) ==> writable matches Err(e2) && e1 == e2,
        shared matches Ok(v1) ==> writable matches Ok(v2) && v1@ == v2@,
{
}

/// A writable view of the packet that starts at `offset` of `memory`, after
/// the same checks as `get_view`.
pub fn get_view_mut<'a>(memory: &'a mut [u8], offset: usize) -> (r: Result<PyroMutView<'a>, PyroError>)
    ensures
        match r {
            Ok(v) => v.wf() && v.region() == old(memory)@ && (spec_get_view(
                old(memory)@,
                offset as int,
                true,
            ) == Ok::<(int, int), PyroError>((v.start_pos() as int, v.end_pos() as int))
                || spec_get_view(old(memory)@, offset as int, false) == Ok::<
                (int, int),
                PyroError,
            >((v.start_pos() as int, v.end_pos() as int))),
            Err(e) => spec_get_view(old(memory)@, offset as int, true) == Err::<
                (int, int),
                PyroError,
            >(e) || spec_get_view(old(memory)@, offset as int, false) == Err::<
                (int, int),
                PyroError,
            >(e),
        },
        mut_view_result_is(r, old(memory)@, spec_get_view(old(memory)@, offset as int, true))
            || mut_view_result_is(r, old(memory)@, spec_get_view(old(memory)@, offset as int, false)),
{
    let aligned = {
        let m: &[u8] = &*memory;
        if offset <= m.len() {
            let rest = vstd::slice::slice_subrange(m, offset, m.len());
            slice_start_aligned(rest)
        } else {
            true
        }
    };
    let located = {
        let m: &[u8] = &*memory;
        locate_view(m, offset, aligned)
    };
    match located {
        Err(e) => Err(e),
        Ok((start, end)) => {
            let v = PyroMutView { memory, start, end };
            proof {
                let s = v@;
                assert(hdr_len(s) == u32_at(old(memory)@, offset as int)) by {
                    assert(s[0] == old(memory)@.skip(offset as int)[0]);
                    assert(s[1] == old(memory)@.skip(offset as int)[1]);
                    assert(s[2] == old(memory)@.skip(offset as int)[2]);
                    assert(s[3] == old(memory)@.skip(offset as int)[3]);
                }
            }
            Ok(v)
        },
    }
}

} // verus!
