//! The write-ahead log of packets: its frame format, and reading frames back.
//!
//! ```text
//! ┌────────────────────── Frame ──────────────────────┐
//! │ row_index  : u32   ← 4 bytes                      │
//! │ padding    : [u8]  ← 12 bytes (16-byte alignment) │
//! │ packet     : [u8]  ← header + payload             │
//! │ padding    : [u8]  ← up to the next multiple of 16│
//! └───────────────────────────────────────────────────┘
//! ```
use std::sync::Arc;

use vstd::prelude::*;

use crate::error::PyroError;
use crate::header::{
    hdr_len, lemma_u32_le_roundtrip, read_u32, slice_start_aligned, u32_le, u32_le_bytes,
    HEADER_SIZE,
};
use crate::vec_buf::{get_ref, holds_packet, spec_get_ref, packet_of, spec_try_ref, share_buffer, PyroRef, PyroView};

verus! {

/// `n` rounded up to a multiple of sixteen.
pub open spec fn spec_align16(n: int) -> int {
    (n + 15) / 16 * 16
}

/// Rounds `n` up to the next multiple of sixteen.
pub fn align16(n: usize) -> (r: usize)
    requires
        n + 15 <= usize::MAX,
    ensures
        r == spec_align16(n as int),
        r % 16 == 0,
        n <= r < n + 16,
{
    (n + 15) / 16 * 16
}

/// `n` zero bytes.
pub open spec fn zeros(n: int) -> Seq<u8> {
    Seq::new(n as nat, |i: int| 0u8)
}

/// The bytes of one frame: the row index, padding to sixteen bytes, the
/// packet, and padding to the next multiple of sixteen.
pub open spec fn frame_bytes(row_index: u32, packet: Seq<u8>) -> Seq<u8> {
    u32_le_bytes(row_index) + zeros(12) + packet + zeros(spec_align16(packet.len() as int) - packet.len())
}

/// The frames of `records`, one after the other.
pub open spec fn frames_bytes(records: Seq<(u32, Seq<u8>)>) -> Seq<u8>
    decreases records.len(),
{
    if records.len() == 0 {
        Seq::empty()
    } else {
        frame_bytes(records[0].0, records[0].1) + frames_bytes(records.drop_first())
    }
}

/// Whether `p` is a complete packet and nothing more.
pub open spec fn is_packet(p: Seq<u8>) -> bool {
    p.len() >= HEADER_SIZE && p.len() == HEADER_SIZE + hdr_len(p)
}

/// The frame at the front of `s`: its row index, its packet and the number of
/// bytes the reader moves past it; `None` where no frame can be read.
pub open spec fn spec_next_frame(s: Seq<u8>, aligned: bool) -> Option<(u32, Seq<u8>, int)> {
    if s.len() < 16 {
        None
    } else {
        match spec_try_ref(s.skip(16), aligned) {
            Err(_) => None,
            Ok(p) => Some((u32_le(s, 0), p, 16 + spec_align16(p.len() as int))),
        }
    }
}

/// Whether reading frames from `s` never moves past its end.
pub open spec fn frames_in_bounds(s: Seq<u8>, aligned: bool) -> bool
    decreases s.len(),
{
    match spec_next_frame(s, aligned) {
        None => true,
        Some((_, _, adv)) => adv <= s.len() && frames_in_bounds(s.skip(adv), aligned),
    }
}

/// The frames that reading `s` yields, up to the first one that cannot be
/// read.
pub open spec fn spec_frames(s: Seq<u8>, aligned: bool) -> Seq<(u32, Seq<u8>)>
    decreases s.len(),
{
    match spec_next_frame(s, aligned) {
        None => Seq::empty(),
        Some((row, p, adv)) => if adv <= s.len() {
            seq![(row, p)] + spec_frames(s.skip(adv), aligned)
        } else {
            seq![(row, p)]
        },
    }
}

/// A region whose start is not aligned yields no frame.
pub proof fn lemma_unaligned_reads_nothing(s: Seq<u8>)
    ensures
        spec_next_frame(s, false) is None,
        frames_in_bounds(s, false),
        spec_frames(s, false) == Seq::<(u32, Seq<u8>)>::empty(),
{
}

/// The frame that the writer puts in front of other bytes is the frame that
/// the reader finds there.
pub proof fn lemma_next_frame_of_written(row_index: u32, packet: Seq<u8>, rest: Seq<u8>)
    requires
        is_packet(packet),
    ensures
        spec_next_frame(frame_bytes(row_index, packet) + rest, true) == Some(
            (row_index, packet, frame_bytes(row_index, packet).len() as int),
        ),
        (frame_bytes(row_index, packet) + rest).skip(frame_bytes(row_index, packet).len() as int)
            == rest,
{
    let f = frame_bytes(row_index, packet);
    let s = f + rest;
    lemma_u32_le_roundtrip(row_index);
    let pad = zeros(spec_align16(packet.len() as int) - packet.len());
    assert(f.len() == 16 + spec_align16(packet.len() as int));
    assert(u32_le(s, 0) == row_index) by {
        assert(s[0] == u32_le_bytes(row_index)[0]);
        assert(s[1] == u32_le_bytes(row_index)[1]);
        assert(s[2] == u32_le_bytes(row_index)[2]);
        assert(s[3] == u32_le_bytes(row_index)[3]);
    }
    let t = s.skip(16);
    assert(t =~= packet + pad + rest);
    assert(hdr_len(t) == hdr_len(packet)) by {
        assert(t[0] == packet[0]);
        assert(t[1] == packet[1]);
        assert(t[2] == packet[2]);
        assert(t[3] == packet[3]);
    }
    assert(packet_of(t) =~= packet);
    assert(s.skip(f.len() as int) =~= rest);
}

/// Reading the frames that the writer wrote gives back the records, and never
/// moves past the end (the log's round trip).
pub proof fn lemma_frames_roundtrip(records: Seq<(u32, Seq<u8>)>)
    requires
        forall|i: int| 0 <= i < records.len() ==> is_packet(#[trigger] records[i].1),
    ensures
        spec_frames(frames_bytes(records), true) == records,
        frames_in_bounds(frames_bytes(records), true),
    decreases records.len(),
{
    if records.len() == 0 {
        assert(spec_next_frame(frames_bytes(records), true) is None);
        assert(spec_frames(frames_bytes(records), true) =~= records);
    } else {
        let rest = records.drop_first();
        assert forall|i: int| 0 <= i < rest.len() implies is_packet(#[trigger] rest[i].1) by {
            assert(rest[i] == records[i + 1]);
        }
        lemma_frames_roundtrip(rest);
        assert(is_packet(records[0].1));
        lemma_next_frame_of_written(records[0].0, records[0].1, frames_bytes(rest));
        let s = frames_bytes(records);
        assert(s == frame_bytes(records[0].0, records[0].1) + frames_bytes(rest));
        assert(spec_frames(s, true) =~= seq![(records[0].0, records[0].1)] + rest);
        assert(records =~= seq![records[0]] + rest);
    }
}

/// Whether a region of `n` bytes can exist in memory.
pub open spec fn fits_in_memory(n: int) -> bool {
    n <= isize::MAX
}

/// Appends one frame for `record` to `out`. The row index is stored as a
/// `u32`, so larger indexes keep only their low 32 bits.
pub fn encode_frame(out: &mut Vec<u8>, record_index: usize, record: &PyroRef<'_>)
    requires
        record.wf(),
        fits_in_memory(record@.len() as int),
    ensures
        final(out)@ == old(out)@ + frame_bytes(record_index as u32, record@),
{
    let row_index = #[verifier::truncate] (record_index as u32);
    out.push((row_index % 256) as u8);
    out.push(((row_index / 256) % 256) as u8);
    out.push(((row_index / 65536) % 256) as u8);
    out.push((row_index / 16777216) as u8);
    let mut i: usize = 0;
    while i < 12
        invariant
            i <= 12,
            out@ == old(out)@ + u32_le_bytes(row_index) + zeros(i as int),
        decreases 12 - i,
    {
        out.push(0);
        i = i + 1;
        assert(out@ =~= old(out)@ + u32_le_bytes(row_index) + zeros(i as int));
    }
    let raw_slice = record.as_raw_slice();
    let raw_len = raw_slice.len();
    let mut j: usize = 0;
    let ghost before = out@;
    while j < raw_len
        invariant
            j <= raw_len,
            raw_len == raw_slice@.len(),
            out@ == before + raw_slice@.take(j as int),
        decreases raw_len - j,
    {
        out.push(raw_slice[j]);
        j = j + 1;
        assert(out@ =~= before + raw_slice@.take(j as int));
    }
    assert(raw_slice@.take(raw_len as int) =~= raw_slice@);
    let padded_len = align16(raw_len);
    let padding_len = padded_len - raw_len;
    let ghost before_pad = out@;
    let mut k: usize = 0;
    while k < padding_len
        invariant
            k <= padding_len,
            out@ == before_pad + zeros(k as int),
        decreases padding_len - k,
    {
        out.push(0);
        k = k + 1;
        assert(out@ =~= before_pad + zeros(k as int));
    }
    assert(out@ =~= old(out)@ + frame_bytes(record_index as u32, record@));
}

/// The frames of a batch of records, in order.
pub open spec fn batch_bytes<'a>(records: Seq<(usize, PyroRef<'a>)>) -> Seq<u8>
    decreases records.len(),
{
    if records.len() == 0 {
        Seq::empty()
    } else {
        batch_bytes(records.drop_last()) + frame_bytes(
            records.last().0 as u32,
            records.last().1@,
        )
    }
}

/// The records of a batch as the frames carry them: the row index cut to
/// 32 bits, and the packet.
pub open spec fn batch_records<'a>(records: Seq<(usize, PyroRef<'a>)>) -> Seq<(u32, Seq<u8>)> {
    records.map_values(|r: (usize, PyroRef<'a>)| (r.0 as u32, r.1@))
}

proof fn lemma_frames_bytes_push(records: Seq<(u32, Seq<u8>)>, last: (u32, Seq<u8>))
    ensures
        frames_bytes(records.push(last)) == frames_bytes(records) + frame_bytes(last.0, last.1),
    decreases records.len(),
{
    if records.len() == 0 {
        let one = records.push(last);
        assert(one.drop_first() =~= Seq::<(u32, Seq<u8>)>::empty());
        assert(one[0] == last);
        assert(frames_bytes(one.drop_first()) == Seq::<u8>::empty());
        assert(frames_bytes(one) =~= frame_bytes(last.0, last.1));
    } else {
        lemma_frames_bytes_push(records.drop_first(), last);
        assert(records.push(last).drop_first() =~= records.drop_first().push(last));
        assert(frames_bytes(records.push(last)) =~= frame_bytes(records[0].0, records[0].1)
            + frames_bytes(records.drop_first().push(last)));
    }
}

proof fn lemma_batch_is_frames<'a>(records: Seq<(usize, PyroRef<'a>)>)
    ensures
        batch_bytes(records) == frames_bytes(batch_records(records)),
    decreases records.len(),
{
    if records.len() == 0 {
        assert(batch_records(records) =~= Seq::<(u32, Seq<u8>)>::empty());
    } else {
        let init = records.drop_last();
        lemma_batch_is_frames(init);
        assert(batch_records(records) =~= batch_records(init).push(
            (records.last().0 as u32, records.last().1@),
        ));
        lemma_frames_bytes_push(batch_records(init), (records.last().0 as u32, records.last().1@));
    }
}

/// Reading back the bytes of a batch gives its records, in order, each
/// with its row index cut to 32 bits (the batch's round trip).
pub proof fn lemma_batch_roundtrip<'a>(records: Seq<(usize, PyroRef<'a>)>)
    requires
        forall|i: int| 0 <= i < records.len() ==> (#[trigger] records[i]).1.wf(),
    ensures
        spec_frames(batch_bytes(records), true) == batch_records(records),
        frames_in_bounds(batch_bytes(records), true),
{
    lemma_batch_is_frames(records);
    let m = batch_records(records);
    assert forall|i: int| 0 <= i < m.len() implies is_packet(#[trigger] m[i].1) by {
        assert(records[i].1.wf());
    }
    lemma_frames_roundtrip(m);
}

/// The bytes that appending a batch writes: one frame per record, in order.
pub fn encode_batch(records: &[(usize, PyroRef<'_>)]) -> (r: Vec<u8>)
    requires
        forall|i: int| 0 <= i < records@.len() ==> (#[trigger] records@[i]).1.wf() && fits_in_memory(
            records@[i].1@.len() as int,
        ),
    ensures
        r@ == batch_bytes(records@),
{
    let mut out: Vec<u8> = Vec::new();
    let mut i: usize = 0;
    while i < records.len()
        invariant
            i <= records@.len(),
            forall|k: int| 0 <= k < records@.len() ==> (#[trigger] records@[k]).1.wf() && fits_in_memory(
                records@[k].1@.len() as int,
            ),
            out@ == batch_bytes(records@.take(i as int)),
        decreases records@.len() - i,
    {
        let (record_index, record) = &records[i];
        encode_frame(&mut out, *record_index, record);
        proof {
            let t = records@.take(i + 1);
            assert(t.drop_last() =~= records@.take(i as int));
            assert(t.last() == records@[i as int]);
        }
        i = i + 1;
    }
    assert(records@.take(records@.len() as int) =~= records@);
    out
}

/// One frame read from a log.
pub struct WalFrame<'a> {
    pub row_index: usize,
    pub packet: PyroRef<'a>,
    /// Where in the log's bytes the packet's header starts.
    pub packet_offset: usize,
}

/// Reads frames one after the other from a log's bytes.
pub struct WalFrameIter<'a> {
    data: &'a [u8],
    offset: usize,
    aligned: bool,
}

impl<'a> WalFrameIter<'a> {
    pub closed spec fn data_view(&self) -> Seq<u8> {
        self.data@
    }

    pub closed spec fn position(&self) -> int {
        self.offset as int
    }

    /// Whether the log's start is sixteen-byte aligned, which decides whether
    /// its packets can be read at all.
    pub closed spec fn start_aligned(&self) -> bool {
        self.aligned
    }

    pub open spec fn wf(&self) -> bool {
        &&& 0 <= self.position() <= self.data_view().len()
        &&& fits_in_memory(self.data_view().len() as int)
    }

    /// The bytes not yet read.
    pub open spec fn remaining(&self) -> Seq<u8> {
        self.data_view().skip(self.position())
    }

    /// A reader at the start of `data`, whose start is known to be aligned or
    /// not.
    pub fn with_alignment(data: &'a [u8], aligned: bool) -> (r: Self)
        requires
            fits_in_memory(data@.len() as int),
        ensures
            r.wf(),
            r.data_view() == data@,
            r.position() == 0,
            r.start_aligned() == aligned,
    {
        WalFrameIter { data, offset: 0, aligned }
    }

    /// A reader at the start of `data`.
    pub fn new(data: &'a [u8]) -> (r: Self)
        requires
            fits_in_memory(data@.len() as int),
        ensures
            r.wf(),
            r.data_view() == data@,
            r.position() == 0,
    {
        let aligned = slice_start_aligned(data);
        WalFrameIter { data, offset: 0, aligned }
    }

    /// The next frame, or `None` where the remaining bytes hold none. A
    /// reader that has moved past the end of the data cannot be asked again.
    pub fn next(&mut self) -> (r: Option<WalFrame<'a>>)
        requires
            old(self).wf(),
        ensures
            final(self).data_view() == old(self).data_view(),
            final(self).start_aligned() == old(self).start_aligned(),
            match spec_next_frame(old(self).remaining(), old(self).start_aligned()) {
                None => r is None && final(self).position() == if old(self).remaining().len() < 16 {
                    old(self).position()
                } else {
                    old(self).position() + 16
                },
                Some((row, p, adv)) => r matches Some(f) && f.row_index == row as usize && f.packet@
                    == p && f.packet.wf() && f.packet_offset == old(self).position() + 16
                    && final(self).position() == old(self).position() + adv,
            },
    {
        let ghost s = self.data@.skip(self.offset as int);
        if self.data.len() - self.offset < 16 {
            return None;
        }
        let row_index = read_u32(self.data, self.offset) as usize;
        proof {
            assert(s[0] == self.data@[self.offset as int]);
            assert(s[1] == self.data@[self.offset + 1]);
            assert(s[2] == self.data@[self.offset + 2]);
            assert(s[3] == self.data@[self.offset + 3]);
        }
        self.offset = self.offset + 16;
        let packet_start = self.offset;
        let rest = vstd::slice::slice_subrange(self.data, packet_start, self.data.len());
        assert(rest@ =~= s.skip(16));
        let packet = match PyroRef::try_from_slice_aligned(rest, self.aligned) {
            Ok(p) => p,
            Err(_) => {
                return None;
            },
        };
        let total_pkt = packet.as_raw_slice().len();
        self.offset = self.offset + align16(total_pkt);
        Some(WalFrame { row_index, packet, packet_offset: packet_start })
    }
}

/// Whether `frame`'s packet is the packet at its offset in `data`.
pub open spec fn frame_at<'a>(data: Seq<u8>, frame: WalFrame<'a>) -> bool {
    &&& frame.packet_offset <= data.len()
    &&& holds_packet(data.skip(frame.packet_offset as int))
    &&& frame.packet@ == packet_of(data.skip(frame.packet_offset as int))
}

/// The packet of the first frame whose row index is `index`.
pub open spec fn first_packet_of_row(frames: Seq<(u32, Seq<u8>)>, index: usize) -> Option<Seq<u8>>
    decreases frames.len(),
{
    if frames.len() == 0 {
        None
    } else if frames[0].0 as usize == index {
        Some(frames[0].1)
    } else {
        first_packet_of_row(frames.drop_first(), index)
    }
}

/// Every frame of `data`, up to the first one that cannot be read, for data
/// whose start is known to be aligned or not.
pub fn collect_frames_aligned<'a>(data: &'a [u8], aligned: bool) -> (r: Vec<WalFrame<'a>>)
    requires
        frames_in_bounds(data@, aligned),
        fits_in_memory(data@.len() as int),
    ensures
        r@.len() == spec_frames(data@, aligned).len(),
        forall|i: int| 0 <= i < r@.len() ==> {
            &&& (#[trigger] r@[i]).row_index == spec_frames(data@, aligned)[i].0 as usize
            &&& r@[i].packet@ == spec_frames(data@, aligned)[i].1
            &&& r@[i].packet.wf()
            &&& frame_at(data@, r@[i])
        },
{
    let mut iter = WalFrameIter::with_alignment(data, aligned);
    let mut out: Vec<WalFrame<'a>> = Vec::new();
    let ghost mut done: Seq<(u32, Seq<u8>)> = Seq::empty();
    assert(iter.remaining() =~= data@);
    assert(spec_frames(data@, aligned) =~= done + spec_frames(iter.remaining(), aligned));
    loop
        invariant_except_break
            iter.wf(),
            iter.data_view() == data@,
            iter.start_aligned() == aligned,
            frames_in_bounds(iter.remaining(), aligned),
            spec_frames(data@, aligned) == done + spec_frames(iter.remaining(), aligned),
        invariant
            out@.len() == done.len(),
            forall|i: int| 0 <= i < out@.len() ==> {
                &&& (#[trigger] out@[i]).row_index == done[i].0 as usize
                &&& out@[i].packet@ == done[i].1
                &&& out@[i].packet.wf()
                &&& frame_at(data@, out@[i])
            },
        ensures
            spec_frames(data@, aligned) == done,
        decreases data@.len() - iter.position(),
    {
        let ghost s = iter.remaining();
        match iter.next() {
            None => {
                assert(spec_frames(s, aligned) =~= Seq::<(u32, Seq<u8>)>::empty());
                assert(done + spec_frames(s, aligned) =~= done);
                break;
            },
            Some(frame) => {
                let ghost (row, p, adv) = spec_next_frame(s, aligned)->Some_0;
                proof {
                    assert(s.skip(16) =~= data@.skip(frame.packet_offset as int));
                    assert(frame_at(data@, frame));
                    assert(adv <= s.len());
                    assert(iter.remaining() =~= s.skip(adv));
                    assert(spec_frames(s, aligned) =~= seq![(row, p)] + spec_frames(s.skip(adv), aligned));
                    assert(done + spec_frames(s, aligned) =~= done.push((row, p)) + spec_frames(s.skip(adv), aligned));
                    done = done.push((row, p));
                }
                out.push(frame);
            },
        }
    }
    out
}

/// Every frame of `data`, up to the first one that cannot be read.
pub fn collect_frames<'a>(data: &'a [u8]) -> (r: Vec<WalFrame<'a>>)
    requires
        frames_in_bounds(data@, true),
        fits_in_memory(data@.len() as int),
    ensures
        r@.len() == spec_frames(data@, true).len() || r@.len() == 0,
        r@.len() == spec_frames(data@, true).len() ==> forall|i: int| 0 <= i < r@.len() ==> {
            &&& (#[trigger] r@[i]).row_index == spec_frames(data@, true)[i].0 as usize
            &&& r@[i].packet@ == spec_frames(data@, true)[i].1
        },
{
    let aligned = slice_start_aligned(data);
    proof {
        lemma_unaligned_reads_nothing(data@);
    }
    collect_frames_aligned(data, aligned)
}

/// Whether reading frames from `data` never moves past its end, assuming an
/// aligned start (an unaligned start yields no frame at all).
pub fn check_frames_in_bounds(data: &[u8]) -> (r: bool)
    requires
        fits_in_memory(data@.len() as int),
    ensures
        r == frames_in_bounds(data@, true),
{
    let mut iter = WalFrameIter::with_alignment(data, true);
    assert(iter.remaining() =~= data@);
    loop
        invariant
            iter.wf(),
            iter.data_view() == data@,
            iter.start_aligned() == true,
            frames_in_bounds(data@, true) == frames_in_bounds(iter.remaining(), true),
        decreases data@.len() - iter.position(),
    {
        let ghost s = iter.remaining();
        let len = data.len();
        match iter.next() {
            None => {
                return true;
            },
            Some(_) => {
                if iter.offset > len {
                    return false;
                }
                assert(iter.remaining() =~= s.skip(spec_next_frame(s, true)->Some_0.2));
            },
        }
    }
}

/// Reads a log held in memory. Packets it hands out share its bytes.
pub struct WalReader {
    buffer: Arc<Vec<u8>>,
    aligned: bool,
}

impl WalReader {
    pub closed spec fn bytes(&self) -> Seq<u8> {
        self.buffer@
    }

    /// Whether the log's first byte sits on a sixteen-byte boundary. It is
    /// measured when the reader is made; the bytes never move afterwards, as
    /// moving a `Vec` leaves its heap memory where it is.
    pub closed spec fn start_aligned(&self) -> bool {
        self.aligned
    }

    /// A reader of the log in `data`.
    pub fn from_vec(data: Vec<u8>) -> (r: Self)
        ensures
            r.bytes() == data@,
    {
        let aligned = slice_start_aligned(data.as_slice());
        WalReader { buffer: Arc::new(data), aligned }
    }

    /// The log's bytes.
    pub fn as_bytes(&self) -> (r: &[u8])
        ensures
            r@ == self.bytes(),
    {
        let v: &Vec<u8> = &*self.buffer;
        v.as_slice()
    }

    /// Every frame of the log, up to the first one that cannot be read.
    /// An unaligned log yields no frame.
    pub fn frames(&self) -> (r: Vec<WalFrame<'_>>)
        requires
            frames_in_bounds(self.bytes(), true),
            fits_in_memory(self.bytes().len() as int),
        ensures
            r@.len() == spec_frames(self.bytes(), self.start_aligned()).len(),
            forall|i: int| 0 <= i < r@.len() ==> {
                &&& (#[trigger] r@[i]).row_index == spec_frames(self.bytes(), self.start_aligned())[i].0 as usize
                &&& r@[i].packet@ == spec_frames(self.bytes(), self.start_aligned())[i].1
                &&& r@[i].packet.wf()
            },
    {
        let data = self.as_bytes();
        proof {
            lemma_unaligned_reads_nothing(data@);
        }
        collect_frames_aligned(data, self.aligned)
    }

    /// A shared view of the packet whose header starts at `offset`, after the
    /// checks of `get_ref`.
    pub fn view_at(&self, offset: usize) -> (r: Result<PyroView, PyroError>)
        requires
            offset + HEADER_SIZE <= usize::MAX,
        ensures
            match r {
                Ok(v) => v.wf() && v@ == packet_of(self.bytes().skip(offset as int)) && (spec_get_ref(
                    self.bytes(),
                    offset as int,
                    true,
                ) is Ok || spec_get_ref(self.bytes(), offset as int, false) is Ok),
                Err(e) => spec_get_ref(self.bytes(), offset as int, true) == Err::<Seq<u8>, PyroError>(
                    e,
                ) || spec_get_ref(self.bytes(), offset as int, false) == Err::<Seq<u8>, PyroError>(e),
            },
    {
        let reference = get_ref(self.as_bytes(), offset);
        match reference {
            Err(e) => Err(e),
            Ok(_) => {
                let v: &Vec<u8> = &*self.buffer;
                proof {
                    assert(offset <= self.bytes().len());
                }
                Ok(PyroView::new(crate::vec_buf::share_buffer(&self.buffer), offset))
            },
        }
    }

    /// Every frame of the log, as its row index and a shared view of its
    /// packet. An unaligned log yields no frame.
    pub fn recover_all(&self) -> (r: Vec<(usize, PyroView)>)
        requires
            frames_in_bounds(self.bytes(), true),
            fits_in_memory(self.bytes().len() as int),
        ensures
            r@.len() == spec_frames(self.bytes(), self.start_aligned()).len(),
            forall|i: int| 0 <= i < r@.len() ==> {
                &&& (#[trigger] r@[i]).0 == spec_frames(self.bytes(), self.start_aligned())[i].0 as usize
                &&& r@[i].1.wf()
                &&& r@[i].1@ == spec_frames(self.bytes(), self.start_aligned())[i].1
            },
    {
        let data = self.as_bytes();
        let aligned = self.aligned;
        proof {
            lemma_unaligned_reads_nothing(data@);
        }
        let frames = collect_frames_aligned(data, aligned);
        let mut results: Vec<(usize, PyroView)> = Vec::new();
        let mut i: usize = 0;
        while i < frames.len()
            invariant
                i <= frames@.len(),
                data@ == self.bytes(),
                results@.len() == i,
                frames@.len() == spec_frames(data@, aligned).len(),
                forall|k: int| 0 <= k < frames@.len() ==> {
                    &&& (#[trigger] frames@[k]).row_index == spec_frames(data@, aligned)[k].0 as usize
                    &&& frames@[k].packet@ == spec_frames(data@, aligned)[k].1
                    &&& frame_at(data@, frames@[k])
                },
                forall|k: int| 0 <= k < i ==> {
                    &&& (#[trigger] results@[k]).0 == frames@[k].row_index
                    &&& results@[k].1.wf()
                    &&& results@[k].1@ == frames@[k].packet@
                },
            decreases frames@.len() - i,
        {
            let frame = &frames[i];
            let view = PyroView::new(share_buffer(&self.buffer), frame.packet_offset);
            results.push((frame.row_index, view));
            i = i + 1;
        }
        results
    }

    /// A shared view of the packet of the first frame whose row index is
    /// `index`; `None` when no frame has it (always, for an unaligned log).
    pub fn get(&self, index: usize) -> (r: Option<PyroView>)
        requires
            frames_in_bounds(self.bytes(), true),
            fits_in_memory(self.bytes().len() as int),
        ensures
            match first_packet_of_row(spec_frames(self.bytes(), self.start_aligned()), index) {
                Some(p) => r matches Some(v) && v.wf() && v@ == p,
                None => r is None,
            },
    {
        let data = self.as_bytes();
        let aligned = self.aligned;
        proof {
            lemma_unaligned_reads_nothing(data@);
        }
        let frames = collect_frames_aligned(data, aligned);
        let ghost all = spec_frames(data@, aligned);
        assert(all.skip(0) =~= all);
        let mut i: usize = 0;
        while i < frames.len()
            invariant
                i <= frames@.len(),
                data@ == self.bytes(),
                frames@.len() == all.len(),
                all == spec_frames(data@, aligned),
                aligned == self.start_aligned(),
                forall|k: int| 0 <= k < frames@.len() ==> {
                    &&& (#[trigger] frames@[k]).row_index == all[k].0 as usize
                    &&& frames@[k].packet@ == all[k].1
                    &&& frame_at(data@, frames@[k])
                },
                first_packet_of_row(all, index) == first_packet_of_row(all.skip(i as int), index),
            decreases frames@.len() - i,
        {
            let frame = &frames[i];
            proof {
                assert(all.skip(i as int).drop_first() =~= all.skip(i + 1));
                assert(all.skip(i as int)[0] == all[i as int]);
            }
            if frame.row_index == index {
                let view = PyroView::new(share_buffer(&self.buffer), frame.packet_offset);
                return Some(view);
            }
            i = i + 1;
        }
        proof {
            assert(all.skip(i as int).len() == 0);
        }
        None
    }
}

} // verus!
