//! The segmented log of execution records: CRC-32C framing, the index files
//! that locate records, and the bookkeeping of segments.
//!
//! A segment file holds records framed as `[ len (u32) | crc (u32) | payload ]`;
//! its index file holds, for each record, the `u64` offset where its frame
//! starts. Segment `k` holds the records whose global index lies in
//! `k * capacity .. (k + 1) * capacity`.
use vstd::prelude::*;
use vstd::string::StringSliceAdditionalSpecFns;

use std::collections::HashMap;

use crate::error::CapturedError;
use crate::header::{lemma_u32_le_roundtrip, read_u32, u32_le, u32_le_bytes};

verus! {

// ---------------------------------------------------------------------------
// CRC-32C
// ---------------------------------------------------------------------------

/// One bit step of the reflected CRC-32C (Castagnoli) register.
pub open spec fn crc_bit(crc: u32) -> u32 {
    if crc & 1 != 0 {
        (crc >> 1) ^ 0x82F6_3B78
    } else {
        crc >> 1
    }
}

/// `n` bit steps.
pub open spec fn crc_bits(crc: u32, n: nat) -> u32
    decreases n,
{
    if n == 0 {
        crc
    } else {
        crc_bits(crc_bit(crc), (n - 1) as nat)
    }
}

/// The register after taking in one byte.
pub open spec fn crc_byte(crc: u32, byte: u8) -> u32 {
    crc_bits(crc ^ (byte as u32), 8)
}

/// The register after taking in `data`, starting from `init`.
pub open spec fn crc_register(init: u32, data: Seq<u8>) -> u32
    decreases data.len(),
{
    if data.len() == 0 {
        init
    } else {
        crc_byte(crc_register(init, data.drop_last()), data.last())
    }
}

/// The CRC-32C checksum of `data`.
pub open spec fn spec_crc32c(data: Seq<u8>) -> u32 {
    !crc_register(0xFFFF_FFFF, data)
}

/// Computes the CRC-32C checksum of `data`.
pub fn crc32c(data: &[u8]) -> (r: u32)
    ensures
        r == spec_crc32c(data@),
{
    let mut crc: u32 = 0xFFFF_FFFF;
    let mut i: usize = 0;
    while i < data.len()
        invariant
            i <= data@.len(),
            crc == crc_register(0xFFFF_FFFF, data@.take(i as int)),
        decreases data@.len() - i,
    {
        let byte = data[i];
        crc = crc ^ (byte as u32);
        let ghost start = crc;
        let mut k: usize = 0;
        while k < 8
            invariant
                k <= 8,
                crc_bits(start, 8) == crc_bits(crc, (8 - k) as nat),
            decreases 8 - k,
        {
            if crc & 1 != 0 {
                crc = (crc >> 1) ^ 0x82F6_3B78;
            } else {
                crc = crc >> 1;
            }
            k = k + 1;
        }
        proof {
            let t = data@.take(i + 1);
            assert(t.drop_last() =~= data@.take(i as int));
            assert(t.last() == byte);
        }
        i = i + 1;
    }
    assert(data@.take(data@.len() as int) =~= data@);
    !crc
}

// ---------------------------------------------------------------------------
// Record frames
// ---------------------------------------------------------------------------

/// The frame of one record: its length, its checksum and the payload. The
/// length is stored as a `u32`, so only its low 32 bits are kept.
pub open spec fn record_frame(payload: Seq<u8>) -> Seq<u8> {
    u32_le_bytes(payload.len() as u32) + u32_le_bytes(spec_crc32c(payload)) + payload
}

/// Appends the frame of `payload` to `out`.
pub fn encode_record(out: &mut Vec<u8>, payload: &[u8])
    ensures
        final(out)@ == old(out)@ + record_frame(payload@),
{
    let len = #[verifier::truncate] (payload.len() as u32);
    let crc = crc32c(payload);
    push_u32(out, len);
    push_u32(out, crc);
    let ghost before = out@;
    let mut i: usize = 0;
    while i < payload.len()
        invariant
            i <= payload@.len(),
            out@ == before + payload@.take(i as int),
        decreases payload@.len() - i,
    {
        out.push(payload[i]);
        i = i + 1;
        assert(out@ =~= before + payload@.take(i as int));
    }
    assert(payload@.take(payload@.len() as int) =~= payload@);
    assert(out@ =~= old(out)@ + record_frame(payload@));
}

/// Appends the four little-endian bytes of `v`.
pub fn push_u32(out: &mut Vec<u8>, v: u32)
    ensures
        final(out)@ == old(out)@ + u32_le_bytes(v),
{
    out.push((v % 256) as u8);
    out.push(((v / 256) % 256) as u8);
    out.push(((v / 65536) % 256) as u8);
    out.push((v / 16777216) as u8);
    assert(out@ =~= old(out)@ + u32_le_bytes(v));
}

/// Appends the eight little-endian bytes of `v`.
pub fn push_u64(out: &mut Vec<u8>, v: u64)
    ensures
        final(out)@ == old(out)@ + u64_le_bytes(v),
{
    let mut x = v;
    let mut i: usize = 0;
    let ghost before = out@;
    assert(pow256(0) == 1);
    assert(out@ =~= before + u64_le_bytes(v).take(0));
    while i < 8
        invariant
            i <= 8,
            x as int == v as int / pow256(i as nat) as int,
            out@ == before + u64_le_bytes(v).take(i as int),
        decreases 8 - i,
    {
        proof {
            lemma_pow256_step(i as nat);
            lemma_div_div(v as int, pow256(i as nat) as int, 256);
        }
        out.push((x % 256) as u8);
        x = x / 256;
        i = i + 1;
        assert(out@ =~= before + u64_le_bytes(v).take(i as int));
    }
    assert(u64_le_bytes(v).take(8) =~= u64_le_bytes(v));
}

/// `256` to the power `n`.
pub open spec fn pow256(n: nat) -> nat
    decreases n,
{
    if n == 0 {
        1
    } else {
        256 * pow256((n - 1) as nat)
    }
}

proof fn lemma_pow256_step(n: nat)
    ensures
        pow256(n + 1) == 256 * pow256(n),
        pow256(n) > 0,
    decreases n,
{
    if n > 0 {
        lemma_pow256_step((n - 1) as nat);
    }
}

proof fn lemma_div_div(x: int, a: int, b: int)
    requires
        x >= 0,
        a > 0,
        b > 0,
    ensures
        x / a / b == x / (a * b),
{
    vstd::arithmetic::div_mod::lemma_div_denominator(x, a, b);
}

/// The eight little-endian bytes of `v`.
pub open spec fn u64_le_bytes(v: u64) -> Seq<u8> {
    Seq::new(8, |i: int| ((v as int / pow256(i as nat) as int) % 256) as u8)
}

/// The little-endian `u64` stored at `off..off + 8` of `s`.
pub open spec fn u64_le(s: Seq<u8>, off: int) -> int {
    u64_le_n(s, off, 8)
}

/// The little-endian number stored in the `n` bytes at `off`.
pub open spec fn u64_le_n(s: Seq<u8>, off: int, n: nat) -> int
    decreases n,
{
    if n == 0 {
        0
    } else {
        s[off] as int + 256 * u64_le_n(s, off + 1, (n - 1) as nat)
    }
}

/// Reads the little-endian `u64` at `offset`.
pub fn read_u64(s: &[u8], offset: usize) -> (r: u64)
    requires
        offset + 8 <= s@.len(),
    ensures
        r == u64_le(s@, offset as int),
{
    let _n = s.len();
    let mut acc: u64 = 0;
    let mut k: usize = 8;
    assert(pow256(0) == 1);
    while k > 0
        invariant
            k <= 8,
            offset + 8 <= s@.len(),
            s@.len() == _n,
            acc == u64_le_n(s@, offset + k, (8 - k) as nat),
            acc < pow256((8 - k) as nat),
        decreases k,
    {
        proof {
            lemma_pow256_step((8 - k) as nat);
            lemma_pow256_8();
            lemma_pow256_mono((8 - k + 1) as nat, 8);
        }
        let b = s[offset + k - 1] as u64;
        acc = b + 256 * acc;
        k = k - 1;
    }
    acc
}

proof fn lemma_pow256_8()
    ensures
        pow256(8) == 18446744073709551616,
{
    reveal_with_fuel(pow256, 9);
}

proof fn lemma_pow256_mono(a: nat, b: nat)
    requires
        a <= b,
    ensures
        pow256(a) <= pow256(b),
    decreases b - a,
{
    if a < b {
        lemma_pow256_step((b - 1) as nat);
        lemma_pow256_mono(a, (b - 1) as nat);
    }
}

/// Why a record could not be read back.
#[derive(Debug, Clone, Copy, PartialEq, Eq)]
pub enum RecordError {
    /// The bytes end inside the record's checksum or payload.
    UnexpectedEof,
    /// The payload does not match its checksum: the data is corrupt.
    CrcMismatch,
}

/// What reading a record at the front of `s` gives: `None` where not even
/// its length can be read (the end of the segment), the payload and the
/// frame's size, or the error.
pub open spec fn spec_read_record(s: Seq<u8>) -> Option<Result<(Seq<u8>, int), RecordError>> {
    if s.len() < 4 {
        None
    } else if s.len() < 8 {
        Some(Err(RecordError::UnexpectedEof))
    } else {
        let len = u32_le(s, 0) as int;
        if s.len() < 8 + len {
            Some(Err(RecordError::UnexpectedEof))
        } else {
            let payload = s.subrange(8, 8 + len);
            if spec_crc32c(payload) != u32_le(s, 4) {
                Some(Err(RecordError::CrcMismatch))
            } else {
                Some(Ok((payload, 8 + len)))
            }
        }
    }
}

/// Reads the record at the front of `s`: `None` at the end of the segment,
/// otherwise the payload and the size of its frame, or why it cannot be
/// used.
pub fn read_record(s: &[u8]) -> (r: Option<Result<(&[u8], usize), RecordError>>)
    ensures
        match (r, spec_read_record(s@)) {
            (None, None) => true,
            (Some(Err(e)), Some(Err(f))) => e == f,
            (Some(Ok((p, n))), Some(Ok((q, m)))) => p@ == q && n == m,
            _ => false,
        },
{
    if s.len() < 4 {
        return None;
    }
    if s.len() < 8 {
        return Some(Err(RecordError::UnexpectedEof));
    }
    let len = read_u32(s, 0) as usize;
    let expected_crc = read_u32(s, 4);
    if s.len() - 8 < len {
        return Some(Err(RecordError::UnexpectedEof));
    }
    let payload = vstd::slice::slice_subrange(s, 8, 8 + len);
    if crc32c(payload) != expected_crc {
        return Some(Err(RecordError::CrcMismatch));
    }
    Some(Ok((payload, 8 + len)))
}

/// A record written by `encode_record` reads back as the same payload (the
/// log's round trip).
pub proof fn lemma_record_roundtrip(payload: Seq<u8>, rest: Seq<u8>)
    requires
        payload.len() <= u32::MAX,
    ensures
        spec_read_record(record_frame(payload) + rest) == Some(
            Ok::<(Seq<u8>, int), RecordError>((payload, 8 + payload.len() as int)),
        ),
{
    let s = record_frame(payload) + rest;
    lemma_u32_le_roundtrip(payload.len() as u32);
    lemma_u32_le_roundtrip(spec_crc32c(payload));
    let a = u32_le_bytes(payload.len() as u32);
    let b = u32_le_bytes(spec_crc32c(payload));
    assert(u32_le(s, 0) == u32_le(a, 0)) by {
        assert(s[0] == a[0] && s[1] == a[1] && s[2] == a[2] && s[3] == a[3]);
    }
    assert(u32_le(s, 4) == u32_le(b, 0)) by {
        assert(s[4] == b[0] && s[5] == b[1] && s[6] == b[2] && s[7] == b[3]);
    }
    assert(s.subrange(8, 8 + payload.len() as int) =~= payload);
}

/// How many records of a segment can be read whole: records are counted
/// while a length and the bytes it announces (after the checksum) are there.
pub open spec fn spec_count_records(s: Seq<u8>) -> nat
    decreases s.len(),
{
    if s.len() < 4 {
        0
    } else {
        let len = u32_le(s, 0) as int;
        if s.len() < 8 + len {
            0
        } else {
            1 + spec_count_records(s.skip(8 + len))
        }
    }
}

/// Counts the whole records at the start of a segment.
pub fn count_records(s: &[u8]) -> (r: usize)
    ensures
        r == spec_count_records(s@),
{
    let mut offset: usize = 0;
    let mut count: usize = 0;
    assert(s@.skip(0) =~= s@);
    while offset <= s.len()
        invariant
            offset <= s@.len(),
            count + spec_count_records(s@.skip(offset as int)) == spec_count_records(s@),
            count <= offset,
        decreases s@.len() - offset,
    {
        let rest = vstd::slice::slice_subrange(s, offset, s.len());
        assert(rest@ =~= s@.skip(offset as int));
        if rest.len() < 4 {
            return count;
        }
        let len = read_u32(rest, 0) as usize;
        if rest.len() < 8 || rest.len() - 8 < len {
            return count;
        }
        assert(rest@.skip(8 + len) =~= s@.skip(offset + 8 + len));
        offset = offset + 8 + len;
        count = count + 1;
    }
    count
}

/// Where the frames of a segment start, as its index file lists them: a
/// frame start is listed wherever a length can be read, and the next start is
/// past that frame.
pub open spec fn spec_index_offsets(s: Seq<u8>, at: int) -> Seq<int>
    decreases s.len() - at,
{
    if at < 0 || at + 4 > s.len() {
        Seq::empty()
    } else {
        let next = at + 8 + u32_le(s, at) as int;
        if next > s.len() {
            seq![at]
        } else {
            seq![at] + spec_index_offsets(s, next)
        }
    }
}

/// The bytes of the index file of a segment: the offset of each frame as a
/// little-endian `u64`.
pub fn build_index(s: &[u8]) -> (r: Vec<u8>)
    ensures
        r@.len() == 8 * spec_index_offsets(s@, 0).len(),
        forall|i: int| 0 <= i < spec_index_offsets(s@, 0).len() ==> u64_le(r@, 8 * i)
            == #[trigger] spec_index_offsets(s@, 0)[i],
{
    let mut out: Vec<u8> = Vec::new();
    let mut offset: usize = 0;
    let ghost mut listed: Seq<int> = Seq::empty();
    while s.len() - offset >= 4
        invariant
            offset <= s@.len(),
            listed + spec_index_offsets(s@, offset as int) == spec_index_offsets(s@, 0),
            out@.len() == 8 * listed.len(),
            forall|i: int| 0 <= i < listed.len() ==> u64_le(out@, 8 * i) == #[trigger] listed[i],
        decreases s@.len() - offset,
    {
        let ghost before = out@;
        push_u64(&mut out, offset as u64);
        let len = read_u32(s, offset) as usize;
        let past_end = s.len() - offset < 8 || s.len() - offset - 8 < len;
        let next = if past_end {
            s.len()
        } else {
            offset + 8 + len
        };
        proof {
            assert forall|i: int| 0 <= i < listed.len() implies u64_le(out@, 8 * i) == #[trigger] listed[i] by {
                lemma_u64_le_prefix(before, u64_le_bytes(offset as u64), 8 * i);
            }
            lemma_u64_le_prefix_at_end(before, offset as u64);
            let old_listed = listed;
            listed = listed.push(offset as int);
            assert(u64_le(out@, 8 * old_listed.len() as int) == listed[old_listed.len() as int]);
            if past_end {
                assert(spec_index_offsets(s@, offset as int) =~= seq![offset as int]);
                assert(listed =~= old_listed + spec_index_offsets(s@, offset as int));
            } else {
                assert(listed + spec_index_offsets(s@, next as int) =~= old_listed
                    + spec_index_offsets(s@, offset as int));
            }
        }
        if past_end {
            return out;
        }
        offset = next;
    }
    proof {
        assert(spec_index_offsets(s@, offset as int) =~= Seq::<int>::empty());
        assert(listed =~= listed + spec_index_offsets(s@, offset as int));
    }
    out
}

proof fn lemma_u64_le_n_of_bytes(v: u64, k: nat)
    requires
        k <= 8,
    ensures
        u64_le_n(u64_le_bytes(v), 8 - k, k) == (v as int / pow256((8 - k) as nat) as int) % pow256(k) as int,
    decreases k,
{
    lemma_pow256_step((8 - k) as nat);
    if k > 0 {
        lemma_u64_le_n_of_bytes(v, (k - 1) as nat);
        let p = pow256((8 - k) as nat) as int;
        let q = v as int / p;
        lemma_pow256_step((k - 1) as nat);
        lemma_div_div(v as int, p, 256);
        assert(256 * p == pow256((8 - k + 1) as nat));
        let pk1 = pow256((k - 1) as nat) as int;
        assert(pow256(k) == 256 * pk1);
        assert(q % 256 + 256 * ((q / 256) % pk1) == q % (256 * pk1)) by {
            vstd::arithmetic::div_mod::lemma_mod_breakdown(q, 256, pk1);
        }
    }
}

proof fn lemma_u64_le_of_bytes(v: u64)
    ensures
        u64_le(u64_le_bytes(v), 0) == v,
{
    lemma_u64_le_n_of_bytes(v, 8);
    assert(pow256(0) == 1);
    assert(v as int / 1 == v as int);
    lemma_pow256_8();
    vstd::arithmetic::div_mod::lemma_small_mod(v as nat, 18446744073709551616);
}

proof fn lemma_u64_le_n_prefix(a: Seq<u8>, b: Seq<u8>, off: int, n: nat)
    requires
        0 <= off,
        off + n <= a.len(),
    ensures
        u64_le_n(a + b, off, n) == u64_le_n(a, off, n),
    decreases n,
{
    if n > 0 {
        lemma_u64_le_n_prefix(a, b, off + 1, (n - 1) as nat);
    }
}

proof fn lemma_u64_le_prefix(a: Seq<u8>, b: Seq<u8>, off: int)
    requires
        0 <= off,
        off + 8 <= a.len(),
    ensures
        u64_le(a + b, off) == u64_le(a, off),
{
    lemma_u64_le_n_prefix(a, b, off, 8);
}

proof fn lemma_u64_le_n_suffix(a: Seq<u8>, b: Seq<u8>, off: int, n: nat)
    requires
        0 <= off,
        off + n <= b.len(),
    ensures
        u64_le_n(a + b, a.len() + off, n) == u64_le_n(b, off, n),
    decreases n,
{
    if n > 0 {
        lemma_u64_le_n_suffix(a, b, off + 1, (n - 1) as nat);
    }
}

proof fn lemma_u64_le_prefix_at_end(a: Seq<u8>, v: u64)
    ensures
        u64_le(a + u64_le_bytes(v), a.len() as int) == v,
{
    lemma_u64_le_n_suffix(a, u64_le_bytes(v), 0, 8);
    lemma_u64_le_of_bytes(v);
}

// ---------------------------------------------------------------------------
// Reading records back
// ---------------------------------------------------------------------------

/// The payloads of a segment, read from its start until a length can no
/// longer be read, or the first error.
pub open spec fn spec_segment_records(s: Seq<u8>) -> Result<Seq<Seq<u8>>, RecordError>
    decreases s.len(),
{
    match spec_read_record(s) {
        None => Ok(Seq::empty()),
        Some(Err(e)) => Err(e),
        Some(Ok((p, n))) => match spec_segment_records(s.skip(n)) {
            Err(e) => Err(e),
            Ok(rest) => Ok(seq![p] + rest),
        },
    }
}

/// Reads every record of a segment, in order.
pub fn segment_records(s: &[u8]) -> (r: Result<Vec<&[u8]>, RecordError>)
    ensures
        match (r, spec_segment_records(s@)) {
            (Ok(v), Ok(w)) => v@.len() == w.len() && forall|i: int| 0 <= i < w.len() ==> (#[trigger] v@[i])@ == w[i],
            (Err(e), Err(f)) => e == f,
            _ => false,
        },
{
    let mut out: Vec<&[u8]> = Vec::new();
    let mut offset: usize = 0;
    let ghost mut done: Seq<Seq<u8>> = Seq::empty();
    assert(s@.skip(0) =~= s@);
    loop
        invariant
            offset <= s@.len(),
            out@.len() == done.len(),
            forall|i: int| 0 <= i < done.len() ==> (#[trigger] out@[i])@ == done[i],
            spec_segment_records(s@) == match spec_segment_records(s@.skip(offset as int)) {
                Err(e) => Err(e),
                Ok(rest) => Ok(done + rest),
            },
        decreases s@.len() - offset,
    {
        let rest = vstd::slice::slice_subrange(s, offset, s.len());
        assert(rest@ =~= s@.skip(offset as int));
        match read_record(rest) {
            None => {
                assert(done + Seq::<Seq<u8>>::empty() =~= done);
                return Ok(out);
            },
            Some(Err(e)) => {
                return Err(e);
            },
            Some(Ok((payload, n))) => {
                proof {
                    assert(rest@.skip(n as int) =~= s@.skip(offset + n));
                    match spec_segment_records(rest@.skip(n as int)) {
                        Err(_) => {},
                        Ok(tail) => {
                            assert(done + (seq![payload@] + tail) =~= done.push(payload@) + tail);
                        },
                    }
                    done = done.push(payload@);
                }
                out.push(payload);
                offset = offset + n;
            },
        }
    }
}

/// The bytes of a segment holding the records `ps`, in order.
pub open spec fn segment_bytes(ps: Seq<Seq<u8>>) -> Seq<u8>
    decreases ps.len(),
{
    if ps.len() == 0 {
        Seq::empty()
    } else {
        record_frame(ps[0]) + segment_bytes(ps.drop_first())
    }
}

/// Where the frames of the records `ps` start in their segment.
pub open spec fn frame_offsets(ps: Seq<Seq<u8>>) -> Seq<int>
    decreases ps.len(),
{
    if ps.len() == 0 {
        Seq::empty()
    } else {
        seq![0int] + frame_offsets(ps.drop_first()).map_values(
            |o: int| o + 8 + ps[0].len(),
        )
    }
}

proof fn lemma_frame_offsets_len(ps: Seq<Seq<u8>>)
    ensures
        frame_offsets(ps).len() == ps.len(),
        forall|i: int| 0 <= i < ps.len() ==> #[trigger] frame_offsets(ps)[i] >= 0,
    decreases ps.len(),
{
    if ps.len() > 0 {
        let tail = ps.drop_first();
        lemma_frame_offsets_len(tail);
        assert forall|i: int| 0 <= i < ps.len() implies #[trigger] frame_offsets(ps)[i] >= 0 by {
            if i > 0 {
                assert(frame_offsets(ps)[i] == frame_offsets(tail)[i - 1] + 8 + ps[0].len());
            }
        }
    }
}

/// Whether every record of `ps` has a length that its frame can hold.
pub open spec fn records_fit(ps: Seq<Seq<u8>>) -> bool {
    forall|i: int| 0 <= i < ps.len() ==> (#[trigger] ps[i]).len() <= u32::MAX
}

proof fn lemma_records_fit_tail(ps: Seq<Seq<u8>>)
    requires
        records_fit(ps),
        ps.len() > 0,
    ensures
        records_fit(ps.drop_first()),
        ps[0].len() <= u32::MAX,
{
    assert forall|i: int| 0 <= i < ps.drop_first().len() implies (#[trigger] ps.drop_first()[i]).len()
        <= u32::MAX by {
        assert(ps.drop_first()[i] == ps[i + 1]);
    }
}

proof fn lemma_frame_len(p: Seq<u8>)
    requires
        p.len() <= u32::MAX,
    ensures
        record_frame(p).len() == 8 + p.len(),
        u32_le(record_frame(p), 0) == p.len(),
{
    lemma_u32_le_roundtrip(p.len() as u32);
    let f = record_frame(p);
    let a = u32_le_bytes(p.len() as u32);
    assert(f[0] == a[0] && f[1] == a[1] && f[2] == a[2] && f[3] == a[3]);
}

/// Listing frame starts in bytes that follow `pre` lists the same starts,
/// moved by the length of `pre`.
proof fn lemma_index_offsets_shift(pre: Seq<u8>, s: Seq<u8>, at: int)
    requires
        0 <= at,
    ensures
        spec_index_offsets(pre + s, pre.len() + at) == spec_index_offsets(s, at).map_values(
            |o: int| o + pre.len(),
        ),
    decreases s.len() - at,
{
    let t = pre + s;
    let k = pre.len() + at;
    if at + 4 > s.len() {
        assert(spec_index_offsets(s, at).map_values(|o: int| o + pre.len()) =~= Seq::<int>::empty());
    } else {
        assert(t[k] == s[at] && t[k + 1] == s[at + 1] && t[k + 2] == s[at + 2] && t[k + 3] == s[at + 3]);
        assert(u32_le(t, k) == u32_le(s, at));
        let next = at + 8 + u32_le(s, at) as int;
        if next > s.len() {
            assert(spec_index_offsets(s, at).map_values(|o: int| o + pre.len()) =~= seq![k]);
        } else {
            lemma_index_offsets_shift(pre, s, next);
            assert(spec_index_offsets(s, at).map_values(|o: int| o + pre.len()) =~= seq![k]
                + spec_index_offsets(s, next).map_values(|o: int| o + pre.len()));
        }
    }
}

proof fn lemma_segment_front(ps: Seq<Seq<u8>>)
    requires
        records_fit(ps),
        ps.len() > 0,
    ensures
        segment_bytes(ps) == record_frame(ps[0]) + segment_bytes(ps.drop_first()),
        segment_bytes(ps).skip(8 + ps[0].len() as int) == segment_bytes(ps.drop_first()),
        u32_le(segment_bytes(ps), 0) == ps[0].len(),
        segment_bytes(ps).len() == 8 + ps[0].len() + segment_bytes(ps.drop_first()).len(),
        spec_read_record(segment_bytes(ps)) == Some(
            Ok::<(Seq<u8>, int), RecordError>((ps[0], 8 + ps[0].len() as int)),
        ),
{
    let p = ps[0];
    let rest = segment_bytes(ps.drop_first());
    let seg = segment_bytes(ps);
    lemma_records_fit_tail(ps);
    lemma_frame_len(p);
    lemma_record_roundtrip(p, rest);
    assert(seg.skip(8 + p.len() as int) =~= rest);
    let f = record_frame(p);
    assert(seg[0] == f[0] && seg[1] == f[1] && seg[2] == f[2] && seg[3] == f[3]);
}

/// Reading a segment written record by record gives the records back, in
/// order, and counting it gives their number.
proof fn lemma_segment_reads(ps: Seq<Seq<u8>>)
    requires
        records_fit(ps),
    ensures
        spec_segment_records(segment_bytes(ps)) == Ok::<Seq<Seq<u8>>, RecordError>(ps),
        spec_count_records(segment_bytes(ps)) == ps.len(),
    decreases ps.len(),
{
    if ps.len() == 0 {
        assert(ps =~= Seq::<Seq<u8>>::empty());
    } else {
        lemma_records_fit_tail(ps);
        lemma_segment_reads(ps.drop_first());
        lemma_segment_front(ps);
        assert(ps =~= seq![ps[0]] + ps.drop_first());
    }
}

/// The index of a segment written record by record lists its frame starts.
proof fn lemma_segment_index(ps: Seq<Seq<u8>>)
    requires
        records_fit(ps),
    ensures
        spec_index_offsets(segment_bytes(ps), 0) == frame_offsets(ps),
    decreases ps.len(),
{
    if ps.len() > 0 {
        let p = ps[0];
        let n: int = 8 + p.len() as int;
        let seg = segment_bytes(ps);
        lemma_records_fit_tail(ps);
        lemma_segment_index(ps.drop_first());
        lemma_segment_front(ps);
        lemma_frame_len(p);
        lemma_index_offsets_shift(record_frame(p), segment_bytes(ps.drop_first()), 0);
        assert(spec_index_offsets(seg, 0) =~= seq![0int] + spec_index_offsets(seg, n));
        assert(spec_index_offsets(seg, 0) =~= frame_offsets(ps));
    }
}

/// Each frame start of a segment written record by record lies within it
/// and reads back as its record.
proof fn lemma_segment_starts(ps: Seq<Seq<u8>>, k: int)
    requires
        records_fit(ps),
        0 <= k < ps.len(),
    ensures
        frame_offsets(ps)[k] + 8 + ps[k].len() <= segment_bytes(ps).len(),
        spec_read_record(segment_bytes(ps).skip(frame_offsets(ps)[k])) == Some(
            Ok::<(Seq<u8>, int), RecordError>((ps[k], 8 + ps[k].len() as int)),
        ),
    decreases k,
{
    let seg = segment_bytes(ps);
    lemma_segment_front(ps);
    if k == 0 {
        assert(seg.skip(0) =~= seg);
    } else {
        let tail = ps.drop_first();
        let n: int = 8 + ps[0].len() as int;
        lemma_records_fit_tail(ps);
        lemma_segment_starts(tail, k - 1);
        lemma_frame_offsets_len(tail);
        lemma_frame_len(ps[0]);
        let o = frame_offsets(tail)[k - 1];
        assert(frame_offsets(ps)[k] == o + n);
        assert(ps[k] == tail[k - 1]);
        assert(seg.skip(o + n) =~= segment_bytes(tail).skip(o));
    }
}

/// Reading a segment written record by record gives the records back, in
/// order; counting it gives their number; and its index lists where each
/// frame starts, each start reading back as its record.
pub proof fn lemma_segment_roundtrip(ps: Seq<Seq<u8>>)
    requires
        records_fit(ps),
    ensures
        spec_segment_records(segment_bytes(ps)) == Ok::<Seq<Seq<u8>>, RecordError>(ps),
        spec_count_records(segment_bytes(ps)) == ps.len(),
        spec_index_offsets(segment_bytes(ps), 0) == frame_offsets(ps),
        forall|k: int| 0 <= k < ps.len() ==> {
            &&& #[trigger] frame_offsets(ps)[k] + 8 + ps[k].len() <= segment_bytes(ps).len()
            &&& spec_read_record(segment_bytes(ps).skip(frame_offsets(ps)[k])) == Some(
                Ok::<(Seq<u8>, int), RecordError>((ps[k], 8 + ps[k].len() as int)),
            )
        },
{
    lemma_segment_reads(ps);
    lemma_segment_index(ps);
    assert forall|k: int| 0 <= k < ps.len() implies {
        &&& #[trigger] frame_offsets(ps)[k] + 8 + ps[k].len() <= segment_bytes(ps).len()
        &&& spec_read_record(segment_bytes(ps).skip(frame_offsets(ps)[k])) == Some(
            Ok::<(Seq<u8>, int), RecordError>((ps[k], 8 + ps[k].len() as int)),
        )
    } by {
        lemma_segment_starts(ps, k);
    }
}

/// The payloads of the segments `segs`, read in order and each from its
/// start; the first error stops the walk.
pub open spec fn walk_segments(segs: Seq<Seq<u8>>) -> Result<Seq<Seq<u8>>, RecordError>
    decreases segs.len(),
{
    if segs.len() == 0 {
        Ok(Seq::empty())
    } else {
        match walk_segments(segs.drop_last()) {
            Err(e) => Err(e),
            Ok(prev) => match spec_segment_records(segs.last()) {
                Err(e) => Err(e),
                Ok(ps) => Ok(prev + ps),
            },
        }
    }
}

/// The records of several segments, one after another.
pub open spec fn all_records(pss: Seq<Seq<Seq<u8>>>) -> Seq<Seq<u8>>
    decreases pss.len(),
{
    if pss.len() == 0 {
        Seq::empty()
    } else {
        all_records(pss.drop_last()) + pss.last()
    }
}

/// A log whose segments, in order, were each written record by record
/// reads back, walking the segments in order, as all their records in the
/// order they were written.
pub proof fn lemma_walk_roundtrip(pss: Seq<Seq<Seq<u8>>>)
    requires
        forall|i: int| 0 <= i < pss.len() ==> records_fit(#[trigger] pss[i]),
    ensures
        walk_segments(pss.map_values(|ps: Seq<Seq<u8>>| segment_bytes(ps))) == Ok::<Seq<Seq<u8>>, RecordError>(
            all_records(pss),
        ),
    decreases pss.len(),
{
    let segs = pss.map_values(|ps: Seq<Seq<u8>>| segment_bytes(ps));
    if pss.len() > 0 {
        let d = pss.drop_last();
        assert forall|i: int| 0 <= i < d.len() implies records_fit(#[trigger] d[i]) by {
            assert(d[i] == pss[i]);
        }
        lemma_walk_roundtrip(d);
        assert(segs.drop_last() =~= d.map_values(|ps: Seq<Seq<u8>>| segment_bytes(ps)));
        assert(records_fit(pss[pss.len() - 1]));
        lemma_segment_roundtrip(pss.last());
        assert(segs.last() == segment_bytes(pss.last()));
    }
}

/// Looking a record up through an index that lists the frame starts of a
/// segment written record by record gives that record.
pub proof fn lemma_lookup_through_index(ps: Seq<Seq<u8>>, index: Seq<u8>, k: int)
    requires
        records_fit(ps),
        0 <= k < ps.len(),
        index.len() >= 8 * (k + 1),
        u64_le(index, 8 * k) == frame_offsets(ps)[k],
    ensures
        spec_lookup(segment_bytes(ps), index, 8 * k) == Ok::<Option<Seq<u8>>, RecordError>(
            Some(ps[k]),
        ),
{
    lemma_segment_starts(ps, k);
}

/// Where record `index` lives when each segment holds `capacity` records:
/// the segment and the byte offset of its entry in that segment's index file.
pub open spec fn spec_locate(index: int, capacity: int) -> Option<(int, int)> {
    if capacity == 0 {
        None
    } else {
        Some((index / capacity, (index % capacity) * 8))
    }
}

/// Finds the segment and index-file offset of record `index`.
pub fn locate_record(index: usize, capacity: usize) -> (r: Option<(usize, u64)>)
    requires
        capacity == 0 || (index as int % capacity as int) * 8 <= usize::MAX,
    ensures
        match (r, spec_locate(index as int, capacity as int)) {
            (None, None) => true,
            (Some((f, o)), Some((g, p))) => f == g && o == p,
            _ => false,
        },
{
    if capacity == 0 {
        return None;
    }
    let file_index = index / capacity;
    let entry_index = index % capacity;
    Some((file_index, (entry_index * 8) as u64))
}

/// What looking up the entry at `idx_offset` of a segment's index file
/// gives: `Ok(None)` where the index or the segment ends first, the record's
/// payload, or the error of reading it.
pub open spec fn spec_lookup(log: Seq<u8>, index: Seq<u8>, idx_offset: int) -> Result<Option<Seq<u8>>, RecordError> {
    if idx_offset + 8 > index.len() {
        Ok(None)
    } else {
        let start = u64_le(index, idx_offset);
        if start > log.len() {
            Ok(None)
        } else {
            match spec_read_record(log.skip(start)) {
                None => Ok(None),
                Some(Err(e)) => Err(e),
                Some(Ok((p, _))) => Ok(Some(p)),
            }
        }
    }
}

/// Looks a record up through its segment's index file.
pub fn lookup_record<'a>(log: &'a [u8], index: &[u8], idx_offset: u64) -> (r: Result<Option<&'a [u8]>, RecordError>)
    ensures
        match (r, spec_lookup(log@, index@, idx_offset as int)) {
            (Ok(None), Ok(None)) => true,
            (Ok(Some(p)), Ok(Some(q))) => p@ == q,
            (Err(e), Err(f)) => e == f,
            _ => false,
        },
{
    if idx_offset > index.len() as u64 || index.len() as u64 - idx_offset < 8 {
        return Ok(None);
    }
    let start = read_u64(index, idx_offset as usize);
    if start > log.len() as u64 {
        return Ok(None);
    }
    let rest = vstd::slice::slice_subrange(log, start as usize, log.len());
    assert(rest@ =~= log@.skip(start as int));
    match read_record(rest) {
        None => Ok(None),
        Some(Err(e)) => Err(e),
        Some(Ok((p, _))) => Ok(Some(p)),
    }
}

/// Whether a segment's index file must be rebuilt: it is missing, its size
/// is not a whole number of entries, or it is empty while the segment is not.
pub fn should_rebuild_index(index_len: Option<u64>, log_len: u64) -> (r: bool)
    ensures
        r == match index_len {
            None => true,
            Some(l) => l % 8 != 0 || (log_len > 0 && l == 0),
        },
{
    match index_len {
        None => true,
        Some(idx_len) => idx_len % 8 != 0 || (log_len > 0 && idx_len == 0),
    }
}

// ---------------------------------------------------------------------------
// Entries and segment file names
// ---------------------------------------------------------------------------

/// One execution record: the row it was made for, its log lines, and how it
/// failed, if it did.
#[derive(Debug)]
pub struct LogEntry {
    pub row_index: usize,
    pub module_logs: Vec<String>,
    pub capability_logs: HashMap<(String, String), Vec<String>>,
    pub failure: Option<Result<CapturedError, String>>,
}

pub open spec fn is_digit(b: u8) -> bool {
    48 <= b <= 57
}

/// The number that the decimal digits `s` spell.
pub open spec fn decimal_value(s: Seq<u8>) -> nat
    decreases s.len(),
{
    if s.len() == 0 {
        0
    } else {
        decimal_value(s.drop_last()) * 10 + (s.last() - 48) as nat
    }
}

/// The digits of a decimal text, after an optional leading `+`.
pub open spec fn digits_of(s: Seq<u8>) -> Seq<u8> {
    if s.len() > 0 && s[0] == 43 {
        s.skip(1)
    } else {
        s
    }
}

/// The `usize` that the text `s` spells, as Rust's `str::parse` reads it:
/// an optional `+`, then one or more decimal digits, of a value that fits.
pub open spec fn spec_parse_usize(s: Seq<u8>) -> Option<usize> {
    let d = digits_of(s);
    if d.len() > 0 && (forall|i: int| 0 <= i < d.len() ==> is_digit(#[trigger] d[i]))
        && decimal_value(d) <= usize::MAX {
        Some(decimal_value(d) as usize)
    } else {
        None
    }
}

/// The extension of segment files, with its dot: `.pyrolog`.
pub open spec fn log_suffix() -> Seq<u8> {
    seq![46u8, 112, 121, 114, 111, 108, 111, 103]
}

/// The segment number of a file named `name`: the name is the number
/// followed by `.pyrolog`.
pub open spec fn spec_log_file_index(name: Seq<u8>) -> Option<usize> {
    if name.len() >= 8 && name.skip(name.len() - 8) == log_suffix() {
        spec_parse_usize(name.take(name.len() - 8))
    } else {
        None
    }
}

/// Adding digits never makes the number smaller.
proof fn lemma_decimal_prefix(s: Seq<u8>, i: int)
    requires
        0 <= i <= s.len(),
        forall|k: int| 0 <= k < s.len() ==> is_digit(#[trigger] s[k]),
    ensures
        decimal_value(s.take(i)) <= decimal_value(s),
    decreases s.len() - i,
{
    if i < s.len() {
        lemma_decimal_prefix(s, i + 1);
        assert(s.take(i + 1).drop_last() =~= s.take(i));
    }
    assert(s.take(s.len() as int) =~= s);
}

/// Reads decimal digits into a `usize`; `None` when a byte is not a digit
/// or the value does not fit.
fn parse_digits(d: &[u8]) -> (r: Option<usize>)
    ensures
        r == (if (forall|i: int| 0 <= i < d@.len() ==> is_digit(#[trigger] d@[i])) && decimal_value(
            d@,
        ) <= usize::MAX {
            Some(decimal_value(d@) as usize)
        } else {
            None::<usize>
        }),
{
    let mut value: usize = 0;
    let mut i: usize = 0;
    while i < d.len()
        invariant
            i <= d@.len(),
            forall|k: int| 0 <= k < i ==> is_digit(#[trigger] d@[k]),
            value == decimal_value(d@.take(i as int)),
        decreases d@.len() - i,
    {
        let b = d[i];
        if !(48 <= b && b <= 57) {
            return None;
        }
        assert(d@.take(i + 1).drop_last() =~= d@.take(i as int));
        let next = match value.checked_mul(10) {
            Some(t) => t.checked_add((b - 48) as usize),
            None => None,
        };
        match next {
            Some(n) => {
                value = n;
            },
            None => {
                proof {
                    if forall|k: int| 0 <= k < d@.len() ==> is_digit(#[trigger] d@[k]) {
                        lemma_decimal_prefix(d@, i + 1);
                    }
                }
                return None;
            },
        }
        i = i + 1;
    }
    assert(d@.take(d@.len() as int) =~= d@);
    Some(value)
}

/// Reads a `usize` as Rust's `str::parse` does: an optional `+`, then one
/// or more decimal digits.
pub fn parse_usize(s: &[u8]) -> (r: Option<usize>)
    ensures
        r == spec_parse_usize(s@),
{
    let d = if s.len() > 0 && s[0] == 43 {
        vstd::slice::slice_subrange(s, 1, s.len())
    } else {
        s
    };
    assert(d@ =~= digits_of(s@));
    if d.len() == 0 {
        return None;
    }
    parse_digits(d)
}

/// The segment number of a file named `name`, or `None` when the name is
/// not a number followed by `.pyrolog`.
pub fn log_file_index(name: &str) -> (r: Option<usize>)
    ensures
        r == spec_log_file_index(name.spec_bytes()),
{
    let b = name.as_bytes();
    let n = b.len();
    if n < 8 {
        return None;
    }
    let suffix = vstd::slice::slice_subrange(b, n - 8, n);
    let is_log = suffix[0] == 46 && suffix[1] == 112 && suffix[2] == 121 && suffix[3] == 114
        && suffix[4] == 111 && suffix[5] == 108 && suffix[6] == 111 && suffix[7] == 103;
    assert(is_log <==> suffix@ =~= log_suffix());
    assert(suffix@ =~= b@.skip(n - 8));
    if !is_log {
        return None;
    }
    let stem = vstd::slice::slice_subrange(b, 0, n - 8);
    assert(stem@ =~= b@.take(n - 8));
    parse_usize(stem)
}

/// The first segment after `current` among `files`: the smallest number
/// above it, if any.
pub fn next_segment_after(files: &[usize], current: usize) -> (r: Option<usize>)
    ensures
        match r {
            Some(m) => m > current && files@.contains(m) && forall|i: int|
                0 <= i < files@.len() && files@[i] > current ==> m <= files@[i],
            None => forall|i: int| 0 <= i < files@.len() ==> files@[i] <= current,
        },
{
    let mut best: Option<usize> = None;
    let mut i: usize = 0;
    while i < files.len()
        invariant
            i <= files@.len(),
            match best {
                Some(m) => m > current && files@.take(i as int).contains(m) && forall|k: int|
                    0 <= k < i && files@[k] > current ==> m <= files@[k],
                None => forall|k: int| 0 <= k < i ==> files@[k] <= current,
            },
        decreases files@.len() - i,
    {
        let idx = files[i];
        proof {
            assert(files@.take(i + 1) =~= files@.take(i as int).push(idx));
        }
        if idx > current {
            match best {
                Some(m) => {
                    if idx < m {
                        best = Some(idx);
                        assert(files@.take(i + 1)[i as int] == idx);
                    }
                },
                None => {
                    best = Some(idx);
                    assert(files@.take(i + 1)[i as int] == idx);
                },
            }
        }
        i = i + 1;
    }
    assert(files@.take(files@.len() as int) =~= files@);
    best
}

// ---------------------------------------------------------------------------
// Segment bookkeeping
// ---------------------------------------------------------------------------

/// The bookkeeping of a segmented log: which segment is written, how many
/// records it and the whole log hold, and where the next frame goes.
pub struct LogWal {
    dir: String,
    capacity: usize,
    current_file_index: usize,
    oldest_file_index: usize,
    current_entries: usize,
    total_entries: usize,
    current_offset: u64,
}

/// The plain values of a log's bookkeeping.
pub struct LogWalState {
    pub capacity: nat,
    pub current_file_index: nat,
    pub oldest_file_index: nat,
    pub current_entries: nat,
    pub total_entries: nat,
    pub current_offset: nat,
}

/// The smallest of `files`, or 0 when there is none.
pub open spec fn min_or_zero(files: Seq<usize>) -> usize {
    if files.len() == 0 {
        0
    } else {
        choose|m: usize| files.contains(m) && forall|i: int| 0 <= i < files.len() ==> m <= files[i]
    }
}

/// The largest of `files`, or 0 when there is none.
pub open spec fn max_or_zero(files: Seq<usize>) -> usize {
    if files.len() == 0 {
        0
    } else {
        choose|m: usize| files.contains(m) && forall|i: int| 0 <= i < files.len() ==> files[i] <= m
    }
}

/// The smallest and the largest of `files`, or 0 for both when there is none.
pub fn min_max(files: &[usize]) -> (r: (usize, usize))
    ensures
        r.0 == min_or_zero(files@),
        r.1 == max_or_zero(files@),
{
    if files.len() == 0 {
        return (0, 0);
    }
    let mut lo = files[0];
    let mut hi = files[0];
    let mut i: usize = 1;
    assert(files@.subrange(0, 1)[0] == lo);
    while i < files.len()
        invariant
            1 <= i <= files@.len(),
            files@.subrange(0, i as int).contains(lo),
            files@.subrange(0, i as int).contains(hi),
            forall|j: int| 0 <= j < i ==> lo <= files@[j] && files@[j] <= hi,
        decreases files@.len() - i,
    {
        if files[i] < lo {
            lo = files[i];
        }
        if files[i] > hi {
            hi = files[i];
        }
        proof {
            let t = files@.subrange(0, i + 1);
            let u = files@.subrange(0, i as int);
            if lo == files@[i as int] {
                assert(t[i as int] == lo);
            } else {
                let k = choose|k: int| 0 <= k < u.len() && u[k] == lo;
                assert(t[k] == lo);
            }
            if hi == files@[i as int] {
                assert(t[i as int] == hi);
            } else {
                let k = choose|k: int| 0 <= k < u.len() && u[k] == hi;
                assert(t[k] == hi);
            }
        }
        i = i + 1;
    }
    proof {
        assert(files@.subrange(0, files@.len() as int) =~= files@);
        lemma_min_unique(files@, lo);
        lemma_max_unique(files@, hi);
    }
    (lo, hi)
}

proof fn lemma_min_unique(files: Seq<usize>, lo: usize)
    requires
        files.len() > 0,
        files.contains(lo),
        forall|i: int| 0 <= i < files.len() ==> lo <= files[i],
    ensures
        min_or_zero(files) == lo,
{
    let m = min_or_zero(files);
    assert(files.contains(m) && forall|i: int| 0 <= i < files.len() ==> m <= files[i]);
    let k = choose|k: int| 0 <= k < files.len() && files[k] == m;
    let j = choose|j: int| 0 <= j < files.len() && files[j] == lo;
    assert(m <= files[j]);
    assert(lo <= files[k]);
}

proof fn lemma_max_unique(files: Seq<usize>, hi: usize)
    requires
        files.len() > 0,
        files.contains(hi),
        forall|i: int| 0 <= i < files.len() ==> files[i] <= hi,
    ensures
        max_or_zero(files) == hi,
{
    let m = max_or_zero(files);
    assert(files.contains(m) && forall|i: int| 0 <= i < files.len() ==> files[i] <= m);
    let k = choose|k: int| 0 <= k < files.len() && files[k] == m;
    let j = choose|j: int| 0 <= j < files.len() && files[j] == hi;
    assert(files[j] <= m);
    assert(files[k] <= hi);
}

/// The bookkeeping of a log opened on a directory whose segments are
/// `files`, where the newest segment holds `last_entries` whole records in
/// `last_len` bytes. A full newest segment means writing starts a new one.
pub open spec fn spec_opened(files: Seq<usize>, capacity: nat, last_entries: nat, last_len: nat) -> LogWalState {
    let oldest = min_or_zero(files) as nat;
    let current = max_or_zero(files) as nat;
    let (final_idx, final_entries) = if last_entries >= capacity {
        (current + 1, 0nat)
    } else {
        (current, last_entries)
    };
    LogWalState {
        capacity,
        current_file_index: final_idx,
        oldest_file_index: oldest,
        current_entries: final_entries,
        total_entries: if final_idx > 0 {
            final_idx * capacity + final_entries
        } else {
            final_entries
        },
        current_offset: if final_entries > 0 {
            last_len
        } else {
            0
        },
    }
}

/// The bookkeeping after moving to the next segment.
pub open spec fn rotated_state(s: LogWalState) -> LogWalState {
    LogWalState { current_file_index: s.current_file_index + 1, current_entries: 0, current_offset: 0, ..s }
}

/// The bookkeeping after a frame carrying `payload_len` bytes was appended.
pub open spec fn appended_state(s: LogWalState, payload_len: nat) -> LogWalState {
    LogWalState {
        current_offset: s.current_offset + 8 + payload_len,
        current_entries: s.current_entries + 1,
        total_entries: s.total_entries + 1,
        ..s
    }
}

/// The bookkeeping after keeping no record: the current segment is emptied
/// and becomes the oldest, and the numbering goes on from its first slot.
pub open spec fn purged_state(s: LogWalState) -> LogWalState {
    LogWalState {
        current_entries: 0,
        total_entries: if s.total_entries >= s.current_entries {
            (s.total_entries - s.current_entries) as nat
        } else {
            0
        },
        current_offset: 0,
        oldest_file_index: s.current_file_index,
        ..s
    }
}

/// The global index of the oldest record present: the first slot of the
/// oldest segment, when some record lies at or after it.
pub open spec fn spec_oldest_log(s: LogWalState) -> Option<nat> {
    if s.total_entries <= s.oldest_file_index * s.capacity {
        None
    } else {
        Some(s.oldest_file_index * s.capacity)
    }
}

/// The global index of the youngest record present, when there is one.
pub open spec fn spec_youngest_log(s: LogWalState) -> Option<nat> {
    if s.total_entries <= s.oldest_file_index * s.capacity {
        None
    } else {
        Some((s.total_entries - 1) as nat)
    }
}

impl LogWalState {
    /// Records are numbered consecutively across segments: every segment
    /// before the current one is full, and the current one holds
    /// `current_entries` records.
    pub open spec fn consistent(self) -> bool {
        &&& self.current_entries <= self.capacity
        &&& self.total_entries == self.current_file_index * self.capacity + self.current_entries
    }
}

/// The numbering of records is kept by every change of the bookkeeping: a
/// log opened on any directory starts consistent; appending to a segment
/// that is not full, and moving on from one that is, keep it so. And in a
/// consistent log the youngest record is found at the last slot written in
/// the current segment, the oldest at the first slot of the oldest segment.
pub proof fn lemma_bookkeeping_consistent(
    files: Seq<usize>,
    capacity: nat,
    last_entries: nat,
    last_len: nat,
    s: LogWalState,
    payload_len: nat,
)
    ensures
        spec_opened(files, capacity, last_entries, last_len).consistent(),
        s.consistent() && s.current_entries < s.capacity ==> appended_state(s, payload_len).consistent(),
        s.consistent() && s.current_entries >= s.capacity ==> rotated_state(s).consistent(),
        s.consistent() && s.capacity > 0 && s.current_entries > 0 ==> spec_locate(
            s.total_entries - 1,
            s.capacity as int,
        ) == Some((s.current_file_index as int, (s.current_entries - 1) * 8)),
        s.capacity > 0 ==> spec_locate((s.oldest_file_index * s.capacity) as int, s.capacity as int) == Some(
            (s.oldest_file_index as int, 0int),
        ),
{
    let o = spec_opened(files, capacity, last_entries, last_len);
    assert(o.current_entries <= o.capacity);
    if o.current_file_index == 0 {
        assert(o.current_file_index * o.capacity == 0);
    }
    assert(o.total_entries == o.current_file_index * o.capacity + o.current_entries);
    if s.consistent() && s.current_entries >= s.capacity {
        let c = s.capacity as int;
        let i = s.current_file_index as int;
        assert(i * c + c == (i + 1) * c) by (nonlinear_arith);
    }
    if s.consistent() && s.capacity > 0 && s.current_entries > 0 {
        let c = s.capacity as int;
        let i = s.current_file_index as int;
        let e = s.current_entries - 1;
        assert(s.total_entries - 1 == i * c + e);
        vstd::arithmetic::div_mod::lemma_fundamental_div_mod_converse(i * c + e, c, i, e);
    }
    if s.capacity > 0 {
        let c = s.capacity as int;
        let i = s.oldest_file_index as int;
        vstd::arithmetic::div_mod::lemma_fundamental_div_mod_converse(i * c, c, i, 0);
    }
}

/// Keeping no record keeps the numbering: the emptied log goes on where
/// the current segment starts.
pub proof fn lemma_purge_consistent(s: LogWalState)
    requires
        s.consistent(),
    ensures
        purged_state(s).consistent(),
        purged_state(s).total_entries == s.current_file_index * s.capacity,
        spec_oldest_log(purged_state(s)) is None,
        spec_youngest_log(purged_state(s)) is None,
{
}

/// The range of records present is never reversed: whenever both ends are
/// known, the oldest comes no later than the youngest.
pub proof fn lemma_log_range_ordered(s: LogWalState)
    ensures
        spec_oldest_log(s) is Some <==> spec_youngest_log(s) is Some,
        spec_oldest_log(s) matches Some(o) ==> spec_youngest_log(s) matches Some(y) && o <= y,
{
}

/// One record appended to a log that holds none, whose oldest segment is
/// at or before the current one, is both the oldest and the youngest
/// record, at the first slot of the current segment.
pub proof fn lemma_first_append_is_whole_range(s: LogWalState, payload_len: nat)
    requires
        s.consistent(),
        s.capacity > 0,
        s.oldest_file_index <= s.current_file_index,
        spec_oldest_log(s) is None,
    ensures
        s.current_entries < s.capacity,
        spec_oldest_log(appended_state(s, payload_len)) == Some(s.current_file_index * s.capacity),
        spec_youngest_log(appended_state(s, payload_len)) == Some(s.current_file_index * s.capacity),
{
    let c = s.capacity as int;
    let o = s.oldest_file_index as int;
    let i = s.current_file_index as int;
    assert(o * c <= i * c) by (nonlinear_arith)
        requires
            0 <= o <= i,
            c > 0,
    ;
    assert(o == i) by (nonlinear_arith)
        requires
            0 <= o <= i,
            c > 0,
            i * c <= o * c,
    ;
}

/// Reopening the directory of a log, whose newest segment is the current
/// one and holds its records, gives back the same numbering and capacity:
/// the log's total is kept, and so is the current segment unless it was
/// full (then writing moves on to the next one).
pub proof fn lemma_reopen_keeps_bookkeeping(files: Seq<usize>, s: LogWalState)
    requires
        s.consistent(),
        files.len() > 0,
        max_or_zero(files) == s.current_file_index,
    ensures
        ({
            let o = spec_opened(files, s.capacity, s.current_entries, s.current_offset);
            &&& o.total_entries == s.total_entries
            &&& o.capacity == s.capacity
            &&& o.oldest_file_index == min_or_zero(files)
            &&& s.current_entries < s.capacity ==> o.current_file_index == s.current_file_index
                && o.current_entries == s.current_entries
            &&& s.current_entries >= s.capacity ==> o.current_file_index == s.current_file_index + 1
                && o.current_entries == 0
        }),
{
    let c = s.capacity as int;
    let i = s.current_file_index as int;
    assert(i * c + c == (i + 1) * c) by (nonlinear_arith);
    if i == 0 {
        assert(i * c == 0);
    }
}

/// Appending as the log does, moving on first from a full segment, never
/// puts more records in a segment than the capacity allows, and keeps the
/// numbering.
pub proof fn lemma_append_within_capacity(s: LogWalState, payload_len: nat)
    requires
        s.consistent(),
        s.capacity > 0,
    ensures
        ({
            let ready = if s.current_entries >= s.capacity {
                rotated_state(s)
            } else {
                s
            };
            &&& ready.current_entries < ready.capacity
            &&& appended_state(ready, payload_len).current_entries <= s.capacity
            &&& appended_state(ready, payload_len).consistent()
            &&& appended_state(ready, payload_len).capacity == s.capacity
        }),
{
    lemma_bookkeeping_consistent(Seq::empty(), 0, 0, 0, s, payload_len);
    if s.current_entries >= s.capacity {
        lemma_bookkeeping_consistent(Seq::empty(), 0, 0, 0, rotated_state(s), payload_len);
    }
}

/// Every change of the bookkeeping keeps the capacity.
pub proof fn lemma_capacity_kept(s: LogWalState, payload_len: nat)
    ensures
        appended_state(s, payload_len).capacity == s.capacity,
        rotated_state(s).capacity == s.capacity,
        purged_state(s).capacity == s.capacity,
{
}

impl LogWal {
    /// The log's bookkeeping as plain values.
    pub closed spec fn state(&self) -> LogWalState {
        LogWalState {
            capacity: self.capacity as nat,
            current_file_index: self.current_file_index as nat,
            oldest_file_index: self.oldest_file_index as nat,
            current_entries: self.current_entries as nat,
            total_entries: self.total_entries as nat,
            current_offset: self.current_offset as nat,
        }
    }

    pub closed spec fn dir_view(&self) -> Seq<char> {
        self.dir@
    }

    /// The bookkeeping of a log opened on `dir`, whose segments are `files`,
    /// where the newest segment holds `last_entries` whole records in
    /// `last_len` bytes. Also tells whether writing starts a new segment.
    pub fn opened(dir: String, capacity: usize, files: &[usize], last_entries: usize, last_len: u64) -> (r: (Self, bool))
        requires
            last_entries >= capacity ==> max_or_zero(files@) < usize::MAX,
            ({
                let s = spec_opened(files@, capacity as nat, last_entries as nat, last_len as nat);
                s.total_entries <= usize::MAX
            }),
        ensures
            r.0.state() == spec_opened(files@, capacity as nat, last_entries as nat, last_len as nat),
            r.0.dir_view() == dir@,
            r.1 == (last_entries >= capacity),
    {
        let (oldest, current) = min_max(files);
        let new_segment = last_entries >= capacity;
        let (final_idx, final_entries) = if new_segment {
            (current + 1, 0)
        } else {
            (current, last_entries)
        };
        let total_entries = if final_idx > 0 {
            proof {
                vstd::arithmetic::mul::lemma_mul_nonnegative(final_idx as int, capacity as int);
            }
            final_idx * capacity + final_entries
        } else {
            final_entries
        };
        let current_offset = if final_entries > 0 {
            last_len
        } else {
            0
        };
        let wal = LogWal {
            dir,
            capacity,
            current_file_index: final_idx,
            oldest_file_index: oldest,
            current_entries: final_entries,
            total_entries,
            current_offset,
        };
        (wal, new_segment)
    }

    /// The log's directory.
    pub fn dir(&self) -> (r: &str)
        ensures
            r@ == self.dir_view(),
    {
        self.dir.as_str()
    }

    /// How many records a segment holds.
    pub fn capacity(&self) -> (r: usize)
        ensures
            r == self.state().capacity,
    {
        self.capacity
    }

    /// How many records the log has taken.
    pub fn total_entries(&self) -> (r: usize)
        ensures
            r == self.state().total_entries,
    {
        self.total_entries
    }

    /// The segment being written.
    pub fn current_file_index(&self) -> (r: usize)
        ensures
            r == self.state().current_file_index,
    {
        self.current_file_index
    }

    /// The oldest segment still present.
    pub fn oldest_file_index(&self) -> (r: usize)
        ensures
            r == self.state().oldest_file_index,
    {
        self.oldest_file_index
    }

    /// How many records the current segment holds.
    pub fn current_entries(&self) -> (r: usize)
        ensures
            r == self.state().current_entries,
    {
        self.current_entries
    }

    /// Where the next frame of the current segment starts.
    pub fn current_offset(&self) -> (r: u64)
        ensures
            r == self.state().current_offset,
    {
        self.current_offset
    }

    /// Whether the next append must first move to a new segment.
    pub fn needs_rotation(&self) -> (r: bool)
        ensures
            r == (self.state().current_entries >= self.state().capacity),
    {
        self.current_entries >= self.capacity
    }

    /// Moves writing to the next segment.
    pub fn rotate(&mut self)
        requires
            old(self).state().current_file_index < usize::MAX,
        ensures
            final(self).state() == rotated_state(old(self).state()),
            final(self).dir_view() == old(self).dir_view(),
    {
        self.current_file_index = self.current_file_index + 1;
        self.current_entries = 0;
        self.current_offset = 0;
    }

    /// Records that a frame carrying `payload_len` bytes was appended to the
    /// current segment.
    pub fn record_appended(&mut self, payload_len: usize)
        requires
            old(self).state().current_offset + 8 + payload_len <= u64::MAX,
            old(self).state().current_entries < usize::MAX,
            old(self).state().total_entries < usize::MAX,
        ensures
            final(self).state() == appended_state(old(self).state(), payload_len as nat),
            final(self).dir_view() == old(self).dir_view(),
    {
        self.current_offset = self.current_offset + 8 + payload_len as u64;
        self.current_entries = self.current_entries + 1;
        self.total_entries = self.total_entries + 1;
    }

    /// The global index of the oldest record still present, if any.
    pub fn oldest_log(&self) -> (r: Option<usize>)
        ensures
            r matches Some(x) ==> spec_oldest_log(self.state()) == Some(x as nat),
            r is None ==> spec_oldest_log(self.state()) is None,
    {
        match self.oldest_file_index.checked_mul(self.capacity) {
            None => None,
            Some(first) => if self.total_entries <= first {
                None
            } else {
                Some(first)
            },
        }
    }

    /// The global index of the youngest record still present, if any.
    pub fn youngest_log(&self) -> (r: Option<usize>)
        ensures
            r matches Some(x) ==> spec_youngest_log(self.state()) == Some(x as nat),
            r is None ==> spec_youngest_log(self.state()) is None,
    {
        match self.oldest_file_index.checked_mul(self.capacity) {
            None => None,
            Some(first) => if self.total_entries <= first {
                None
            } else {
                Some(self.total_entries - 1)
            },
        }
    }

    /// Whether every record of segment `idx` lies before the last
    /// `keep_count` records, and the segment is not the one being written.
    pub open spec fn spec_segment_deletable(&self, idx: nat, keep_count: nat) -> bool {
        let cutoff = if self.state().total_entries >= keep_count {
            self.state().total_entries - keep_count
        } else {
            0
        };
        idx < self.state().current_file_index && (idx + 1) * self.state().capacity <= cutoff
    }

    /// The segments among `files` that deleting all but the last
    /// `keep_count` records removes; `None` when nothing is to be deleted
    /// because no record lies before the cutoff.
    pub fn segments_to_delete(&self, keep_count: usize, files: &[usize]) -> (r: Option<Vec<usize>>)
        requires
            forall|i: int| 0 <= i < files@.len() ==> files@[i] < usize::MAX && (files@[i] + 1) * self.state().capacity <= usize::MAX,
        ensures
            ({
                let cutoff = if self.state().total_entries >= keep_count {
                    self.state().total_entries - keep_count
                } else {
                    0
                };
                &&& (r is None) == (cutoff == 0 && keep_count != 0)
                &&& r matches Some(v) ==> v@ == files@.filter(
                    |idx: usize| self.spec_segment_deletable(idx as nat, keep_count as nat),
                )
            }),
    {
        let cutoff = self.total_entries.saturating_sub(keep_count);
        if cutoff == 0 && keep_count != 0 {
            return None;
        }
        let ghost pred = |idx: usize| self.spec_segment_deletable(idx as nat, keep_count as nat);
        let mut out: Vec<usize> = Vec::new();
        let mut i: usize = 0;
        while i < files.len()
            invariant
                i <= files@.len(),
                cutoff == if self.state().total_entries >= keep_count {
                    self.state().total_entries - keep_count
                } else {
                    0
                },
                forall|k: int| 0 <= k < files@.len() ==> files@[k] < usize::MAX && (files@[k] + 1) * self.state().capacity <= usize::MAX,
                out@ == files@.take(i as int).filter(pred),
                pred == (|idx: usize| self.spec_segment_deletable(idx as nat, keep_count as nat)),
            decreases files@.len() - i,
        {
            let idx = files[i];
            assert(files@[i as int] == idx);
            proof {
                assert(files@.take(i + 1).drop_last() =~= files@.take(i as int));
                assert(files@.take(i + 1).last() == idx);
                reveal_with_fuel(Seq::<_>::filter, 1);
                assert(files@.take(i + 1).filter(pred) == if pred(idx) {
                    files@.take(i as int).filter(pred).push(idx)
                } else {
                    files@.take(i as int).filter(pred)
                });
            }
            let keep = idx < self.current_file_index && (idx + 1) * self.capacity <= cutoff;
            proof {
                assert(pred(idx) == self.spec_segment_deletable(idx as nat, keep_count as nat));
                assert(self.state().capacity == self.capacity);
                assert(self.state().current_file_index == self.current_file_index);
                assert((idx + 1) * self.capacity == (idx as nat + 1) * self.state().capacity);
            }
            assert(keep == pred(idx));
            if keep {
                out.push(idx);
            }
            i = i + 1;
        }
        assert(files@.take(files@.len() as int) =~= files@);
        Some(out)
    }

    /// Updates the bookkeeping after segments were deleted: keeping nothing
    /// empties the current segment too (and counts it as deleted), and the
    /// numbering of records goes on from that segment's first slot; otherwise,
    /// when segments were deleted, the oldest segment is the smallest of
    /// `remaining_files`. Returns how many segments count as deleted.
    pub fn segments_deleted(&mut self, keep_count: usize, deleted: usize, remaining_files: &[usize]) -> (r: usize)
        requires
            keep_count == 0 ==> deleted < usize::MAX,
        ensures
            final(self).dir_view() == old(self).dir_view(),
            keep_count == 0 ==> r == deleted + 1 && final(self).state() == purged_state(old(self).state()),
            keep_count != 0 && deleted > 0 ==> r == deleted && final(self).state() == (LogWalState {
                oldest_file_index: min_or_zero(remaining_files@) as nat,
                ..old(self).state()
            }),
            keep_count != 0 && deleted == 0 ==> r == 0 && final(self).state() == old(self).state(),
    {
        if keep_count == 0 {
            self.total_entries = if self.total_entries >= self.current_entries {
                self.total_entries - self.current_entries
            } else {
                0
            };
            self.current_entries = 0;
            self.current_offset = 0;
            self.oldest_file_index = self.current_file_index;
            deleted + 1
        } else if deleted > 0 {
            let (lo, _) = min_max(remaining_files);
            self.oldest_file_index = lo;
            deleted
        } else {
            deleted
        }
    }
}

} // verus!
