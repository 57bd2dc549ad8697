use inps::checksum::checksum_range;
use inps::errors::ErrorKind;
use inps::segment::{
    headsize, load_slot_crc, load_slot_end, load_slot_seq, SharedSegmentReader,
    SharedSegmentWriter, SEQ_MAX,
};

#[test]
fn headsize_counts_id_and_records() {
    assert_eq!(headsize(0), 8);
    assert_eq!(headsize(1), 32);
    assert_eq!(headsize(4), 104);
}

#[test]
fn fresh_segment_slots_are_free() {
    let w = SharedSegmentWriter::new(4, 16).unwrap();
    assert_eq!(w.next_sequence(), 1);
    assert_eq!(w.slot_count(), 4);
    assert_eq!(w.payload_capacity(), 16);
    assert_eq!(w.region().len(), 8 + 4 * 24 + 4 * 16);
    for j in 0..4 {
        assert_eq!(load_slot_seq(w.region(), 4, j), 0);
    }
}

#[test]
fn oversized_segment_is_a_construction_error() {
    let e = SharedSegmentWriter::new(usize::MAX, usize::MAX).unwrap_err();
    assert_eq!(e.kind, ErrorKind::Construction);
}

#[test]
fn round_trip_returns_identical_bytes() {
    let mut w = SharedSegmentWriter::new(4, 256).unwrap();
    let payload: Vec<u8> = (0..200u8).collect();
    w.write(&payload).unwrap();
    let mut r = SharedSegmentReader::new(4, 256);
    let got = w.region();
    let out = r.read_slot(got, 0).unwrap().unwrap();
    assert_eq!(out, payload);
}

#[test]
fn read_slot_skips_already_consumed() {
    let mut w = SharedSegmentWriter::new(2, 8).unwrap();
    w.write(&[1, 2, 3]).unwrap();
    let mut r = SharedSegmentReader::new(2, 8);
    assert!(r.read_slot(w.region(), 0).unwrap().is_some());
    assert!(r.read_slot(w.region(), 0).unwrap().is_none());
    w.write(&[4, 5]).unwrap();
    let out = r.read_slot(w.region(), 1).unwrap().unwrap();
    assert_eq!(out, vec![4, 5]);
}

#[test]
fn five_writes_on_four_slots_leave_sequences_two_to_five() {
    let mut w = SharedSegmentWriter::new(4, 256).unwrap();
    let payload = [7u8; 256];
    for _ in 0..5 {
        w.write(&payload).unwrap();
    }
    let mut seqs: Vec<u64> = (0..4).map(|j| load_slot_seq(w.region(), 4, j)).collect();
    seqs.sort();
    assert_eq!(seqs, vec![2, 3, 4, 5]);
    // The fifth write evicted the lowest committed sequence, slot zero.
    assert_eq!(load_slot_seq(w.region(), 4, 0), 5);
}

#[test]
fn eviction_keeps_walking_the_lowest_sequence() {
    let mut w = SharedSegmentWriter::new(4, 8).unwrap();
    for _ in 0..6 {
        w.write(&[1, 2]).unwrap();
    }
    // The sixth write evicted sequence two, which sat in slot one.
    let seqs: Vec<u64> = (0..4).map(|j| load_slot_seq(w.region(), 4, j)).collect();
    assert_eq!(seqs, vec![5, 6, 3, 4]);
}

#[test]
fn eviction_prefers_free_slots() {
    let mut w = SharedSegmentWriter::new(3, 4).unwrap();
    w.write(&[1]).unwrap();
    w.write(&[2]).unwrap();
    // A free slot remains, so no committed slot is overwritten.
    w.write(&[3]).unwrap();
    assert_eq!(load_slot_seq(w.region(), 3, 0), 1);
    assert_eq!(load_slot_seq(w.region(), 3, 1), 2);
    assert_eq!(load_slot_seq(w.region(), 3, 2), 3);
}

#[test]
fn scanning_reader_delivers_each_commit_once_in_slot_order() {
    let mut w = SharedSegmentWriter::new(4, 8).unwrap();
    w.write(&[10]).unwrap();
    w.write(&[20, 21]).unwrap();
    let mut r = SharedSegmentReader::new(4, 8);
    let (j, p) = r.read_next(w.region()).unwrap();
    assert_eq!((j, p), (0, vec![10]));
    let (j, p) = r.read_next(w.region()).unwrap();
    assert_eq!((j, p), (1, vec![20, 21]));
    assert!(r.read_next(w.region()).is_none());
    w.write(&[30]).unwrap();
    let (j, p) = r.read_next(w.region()).unwrap();
    assert_eq!((j, p), (2, vec![30]));
}

#[test]
fn oversized_payload_is_an_io_error() {
    let mut w = SharedSegmentWriter::new(2, 4).unwrap();
    let e = w.write(&[0u8; 5]).unwrap_err();
    assert_eq!(e.kind, ErrorKind::Io);
}

#[test]
fn zero_slot_ring_rejects_writes() {
    let mut w = SharedSegmentWriter::new(0, 16).unwrap();
    let e = w.write(&[1]).unwrap_err();
    assert_eq!(e.kind, ErrorKind::Io);
}

#[test]
fn exhausted_sequence_space_is_a_protocol_error() {
    let mut w = SharedSegmentWriter::new(1, 4).unwrap();
    w.next_seq = SEQ_MAX;
    let e = w.write(&[1]).unwrap_err();
    assert_eq!(e.kind, ErrorKind::Protocol);
}

#[test]
fn committed_slot_metadata_describes_payload() {
    let mut w = SharedSegmentWriter::new(2, 8).unwrap();
    w.write(&[9, 8, 7]).unwrap();
    let b = w.region();
    assert_eq!(load_slot_seq(b, 2, 0), 1);
    assert_eq!(load_slot_end(b, 2, 0), 3);
    let start = 8 + 2 * 24;
    assert_eq!(&b[start..start + 3], &[9, 8, 7]);
    assert_eq!(load_slot_crc(b, 2, 0), checksum_range(b, start, 3));
}

#[test]
fn in_flight_slot_is_never_delivered() {
    // One slot of four payload bytes, sequence word all ones: a negative
    // signed sequence, meaning a write is in progress.
    let mut b = vec![0u8; 8 + 24 + 4];
    inps::bytes::store_u64(&mut b, 8, u64::MAX);
    let mut r = SharedSegmentReader::new(1, 4);
    assert!(r.read_slot(&b, 0).unwrap().is_none());
}

#[test]
fn free_slot_is_never_delivered() {
    let b = vec![0u8; 8 + 24 + 4];
    let mut r = SharedSegmentReader::new(1, 4);
    assert!(r.read_slot(&b, 0).unwrap().is_none());
}

#[test]
fn bad_end_offset_is_a_corruption_error() {
    let mut b = vec![0u8; 8 + 24 + 4];
    inps::bytes::store_u64(&mut b, 8, 1); // committed sequence one
    inps::bytes::store_u64(&mut b, 8 + 16, 99); // end offset past the window
    let mut r = SharedSegmentReader::new(1, 4);
    let e = r.read_slot(&b, 0).unwrap_err();
    assert_eq!(e.kind, ErrorKind::Corruption);
}

#[test]
fn checksum_mismatch_is_a_corruption_error_and_match_is_delivered() {
    let mut b = vec![0u8; 8 + 24 + 4];
    inps::bytes::store_u64(&mut b, 8, 1); // committed sequence one
    inps::bytes::store_u64(&mut b, 8 + 16, 2); // two payload bytes
    b[32] = 5;
    b[33] = 6;
    // The stored checksum word is still zero: a mismatch.
    let mut r = SharedSegmentReader::new(1, 4);
    let e = r.read_slot(&b, 0).unwrap_err();
    assert_eq!(e.kind, ErrorKind::Corruption);
    // Store the matching checksum and the same read is delivered.
    let crc = checksum_range(&b, 32, 2);
    inps::bytes::store_u64(&mut b, 8 + 8, crc);
    let out = r.read_slot(&b, 0).unwrap().unwrap();
    assert_eq!(out, vec![5, 6]);
}
