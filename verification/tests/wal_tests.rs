use edgewit::wal_batch::{frame_end_offsets, wal_batch_replies};
use edgewit::wal::{
    decode_all, decode_frame, encode_batch, encode_frame, wal_batch_is_full, wal_batch_reply,
    wal_file_name, IngestEvent, WalFrameError, MAX_WAL_BATCH,
};

fn event(index: &str, payload: &[u8]) -> IngestEvent {
    IngestEvent { index: index.to_string(), payload: payload.to_vec() }
}

#[test]
fn test_wal_framing_and_durability() {
    let events = vec![event("idx1", b"data1"), event("idx2", b"data2")];
    let bytes = encode_batch(&events);
    assert_eq!(wal_file_name(), "00000001.wal");

    let (first, next) = match decode_frame(&bytes, 0) {
        Ok(f) => f,
        Err(e) => panic!("First frame missing: {e:?}"),
    };
    assert_eq!(first.index, "idx1");
    assert_eq!(first.payload, b"data1".to_vec());
    let (second, end) = match decode_frame(&bytes, next) {
        Ok(f) => f,
        Err(e) => panic!("Second frame missing: {e:?}"),
    };
    assert_eq!(second.index, "idx2");
    assert_eq!(second.payload, b"data2".to_vec());
    assert_eq!(end, bytes.len(), "Unexpected trailing data");
}

#[test]
fn frame_layout_is_exact() {
    let frame = encode_frame(&event("ab", b"xyz"));
    // [len u16 LE][index][len u32 LE][payload][crc32 u32 LE]
    assert_eq!(frame.len(), 2 + 2 + 4 + 3 + 4);
    assert_eq!(&frame[0..2], &[2, 0]);
    assert_eq!(&frame[2..4], b"ab");
    assert_eq!(&frame[4..8], &[3, 0, 0, 0]);
    assert_eq!(&frame[8..11], b"xyz");
    let crc = crc32fast::hash(b"abxyz");
    assert_eq!(&frame[11..15], &crc.to_le_bytes());
    // The CRC-32 of "123456789" is the standard check value.
    assert_eq!(crc32fast::hash(b"123456789"), 0xCBF43926);
}

#[test]
fn round_trip_of_a_batch() {
    let events = vec![event("a", b""), event("bb", b"{\"k\":1}"), event("ccc", &[0, 255, 7])];
    let bytes = encode_batch(&events);
    let back = decode_all(&bytes).unwrap();
    assert_eq!(back.len(), 3);
    for (x, y) in back.iter().zip(events.iter()) {
        assert_eq!(x.index, y.index);
        assert_eq!(x.payload, y.payload);
    }
}

#[test]
fn corrupted_frame_is_detected() {
    let mut bytes = encode_frame(&event("idx", b"payload"));
    let n = bytes.len();
    bytes[n - 5] ^= 0x01;
    assert_eq!(decode_all(&bytes).err(), Some(WalFrameError::ChecksumMismatch));
    assert_eq!(decode_all(&bytes[..n - 1]).err(), Some(WalFrameError::Truncated));
    assert!(decode_all(&[]).unwrap().is_empty());
}

#[test]
fn batching_rules() {
    assert!(!wal_batch_is_full(MAX_WAL_BATCH - 1));
    assert!(wal_batch_is_full(MAX_WAL_BATCH));
    assert_eq!(MAX_WAL_BATCH, 5000);
    assert!(wal_batch_reply(true).is_ok());
    assert_eq!(wal_batch_reply(false), Err("Failed to safely write to WAL".to_string()));
}

#[test]
fn batch_replies_and_offsets() {
    let ok = wal_batch_replies(3, true);
    assert_eq!(ok, vec![Ok(()), Ok(()), Ok(())]);
    let failed = wal_batch_replies(2, false);
    assert_eq!(failed, vec![Err("Failed to safely write to WAL".to_string()); 2]);
    let events = vec![event("ab", b"xyz"), event("c", b"")];
    // frames of 2+2+4+3+4 = 15 and 2+1+4+0+4 = 11 bytes
    assert_eq!(frame_end_offsets(100, &events), Some(vec![115, 126]));
    assert_eq!(frame_end_offsets(u64::MAX - 20, &events), None);
    assert_eq!(frame_end_offsets(7, &[]), Some(vec![]));
}
