use pyroduct::header::{DataStatus, PyroHeader};
use pyroduct::vec_buf::{PyroRef, PyroVec};
use pyroduct::wal::{align16, check_frames_in_bounds, encode_batch, encode_frame, WalFrameIter, WalReader};

fn make_pyro_record(data: &[u8]) -> PyroVec {
    let mut v = PyroVec::with_capacity(data.len());
    v.extend_from_slice(data);
    v
}

#[test]
fn align16_rounds_up() {
    assert_eq!(align16(0), 0);
    assert_eq!(align16(1), 16);
    assert_eq!(align16(16), 16);
    assert_eq!(align16(17), 32);
}

#[test]
fn frame_layout_is_prefix_packet_padding() {
    let rec = make_pyro_record(b"abc");
    let r = PyroRef::try_from_slice(rec.as_raw_slice()).unwrap();
    let mut out = Vec::new();
    encode_frame(&mut out, 0x0102_0304, &r);
    assert_eq!(out.len(), 16 + 32);
    assert_eq!(&out[0..4], &[4, 3, 2, 1]);
    assert!(out[4..16].iter().all(|b| *b == 0));
    assert_eq!(&out[16..35], rec.as_raw_slice());
    assert!(out[35..48].iter().all(|b| *b == 0));
}

#[test]
fn wal_roundtrip_reads_back_every_record() {
    let a = make_pyro_record(b"first");
    let mut b = make_pyro_record(b"second record");
    b.set_status(DataStatus::Error);
    let ra = PyroRef::try_from_slice(a.as_raw_slice()).unwrap();
    let rb = PyroRef::try_from_slice(b.as_raw_slice()).unwrap();
    let mut log = Vec::new();
    encode_frame(&mut log, 7, &ra);
    encode_frame(&mut log, 9, &rb);

    assert!(check_frames_in_bounds(&log));
    let reader = WalReader::from_vec(log);
    let frames = reader.frames();
    assert_eq!(frames.len(), 2);
    assert_eq!(frames[0].row_index, 7);
    assert_eq!(frames[0].packet.as_slice(), b"first");
    assert_eq!(frames[1].row_index, 9);
    assert_eq!(frames[1].packet.as_slice(), b"second record");
    assert_eq!(frames[1].packet.status(), Ok(DataStatus::Error));
    assert_eq!(frames[0].packet_offset, 16);

    let view = reader.view_at(frames[1].packet_offset).expect("view");
    assert_eq!(view.as_slice(), b"second record");

    let all = reader.recover_all();
    assert_eq!(all.len(), 2);
    assert_eq!(all[1].0, 9);
    assert_eq!(all[1].1.as_slice(), b"second record");

    let got = reader.get(9).expect("row 9");
    assert_eq!(got.as_slice(), b"second record");
    assert!(reader.get(8).is_none());
}

#[test]
fn batch_bytes_are_the_frames_in_order() {
    let a = make_pyro_record(b"one");
    let b = make_pyro_record(b"two two");
    let ra = PyroRef::try_from_slice(a.as_raw_slice()).unwrap();
    let rb = PyroRef::try_from_slice(b.as_raw_slice()).unwrap();
    let batch = encode_batch(&[(1, ra), (2, rb)]);
    let mut single = Vec::new();
    encode_frame(&mut single, 1, &ra);
    encode_frame(&mut single, 2, &rb);
    assert_eq!(batch, single);

    let reader = WalReader::from_vec(batch);
    let rows: Vec<usize> = reader.frames().iter().map(|f| f.row_index).collect();
    assert_eq!(rows, vec![1, 2]);
}

#[test]
fn truncated_log_stops_at_the_last_whole_frame() {
    let a = make_pyro_record(b"complete");
    let b = make_pyro_record(b"cut short");
    let ra = PyroRef::try_from_slice(a.as_raw_slice()).unwrap();
    let rb = PyroRef::try_from_slice(b.as_raw_slice()).unwrap();
    let mut log = Vec::new();
    encode_frame(&mut log, 0, &ra);
    encode_frame(&mut log, 1, &rb);
    let cut = log.len() - 20;
    log.truncate(cut);
    let reader = WalReader::from_vec(log);
    let frames = reader.frames();
    assert_eq!(frames.len(), 1);
    assert_eq!(frames[0].packet.as_slice(), b"complete");
}

#[test]
fn empty_log_has_no_frames() {
    let reader = WalReader::from_vec(Vec::new());
    assert!(reader.frames().is_empty());
    assert!(reader.recover_all().is_empty());
    let mut iter = WalFrameIter::new(&[]);
    assert!(iter.next().is_none());
}
