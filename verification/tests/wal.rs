use akiradb::wal::{compute_checksum, IoOutcome, Wal, WalAction, WalError, WriteRecord};

#[test]
fn record_keeps_payload_and_length() {
    let record = WriteRecord::new(Vec::from("Hello world!")).unwrap();
    assert_eq!(record.length(), 12);
    assert_eq!(record.data(), b"Hello world!");
}

#[test]
fn frame_is_length_then_payload() {
    let record = WriteRecord::new(Vec::from("Hello")).unwrap();
    assert_eq!(record.encode(), vec![5, 0, 0, 0, 0x48, 0x65, 0x6c, 0x6c, 0x6f]);
    let empty = WriteRecord::new(Vec::new()).unwrap();
    assert_eq!(empty.encode(), vec![0, 0, 0, 0]);
    let long = WriteRecord::new(vec![7u8; 0x01020304 % 70000]).unwrap();
    let n = (0x01020304u32 % 70000).to_le_bytes();
    assert_eq!(&long.encode()[..4], &n);
    assert_eq!(long.encode().len(), 4 + long.length() as usize);
}

#[test]
fn length_field_is_little_endian() {
    let record = WriteRecord::new(vec![1u8; 0x12345]).unwrap();
    assert_eq!(&record.encode()[..4], &[0x45, 0x23, 0x01, 0x00]);
}

#[test]
fn checksum_covers_the_payload() {
    assert_eq!(compute_checksum(b""), 1);
    assert_eq!(compute_checksum(b"a"), 0x0062_0062);
    assert_eq!(compute_checksum(b"Wikipedia"), 0x11E6_0398);
    assert_eq!(WriteRecord::new(Vec::from("Wikipedia")).unwrap().checksum(), 0x11E6_0398);
    // sums are reduced modulo 65521
    assert_eq!(compute_checksum(&vec![0xffu8; 5000]), 0x54b2_7596);
}

#[test]
fn decode_reads_back_what_encode_wrote() {
    let record = WriteRecord::new(Vec::from("Hello world!")).unwrap();
    let mut bytes = record.encode();
    bytes.extend_from_slice(&WriteRecord::new(Vec::from("next")).unwrap().encode());
    let (first, used) = WriteRecord::decode(&bytes).unwrap();
    assert_eq!(first.data(), b"Hello world!");
    assert_eq!(first.checksum(), record.checksum());
    assert_eq!(used, 16);
    let (second, used) = WriteRecord::decode(&bytes[16..]).unwrap();
    assert_eq!(second.data(), b"next");
    assert_eq!(used, 8);
    assert!(WriteRecord::decode(&bytes[24..]).is_none());
}

#[test]
fn torn_frame_is_not_read_as_a_record() {
    let bytes = WriteRecord::new(Vec::from("Hello")).unwrap().encode();
    for cut in 0..bytes.len() {
        assert!(WriteRecord::decode(&bytes[..cut]).is_none(), "cut at {}", cut);
    }
    assert!(WriteRecord::decode(&bytes).is_some());
}

#[test]
fn first_append_opens_a_segment_then_writes() {
    let mut wal = Wal::new();
    let record = WriteRecord::new(Vec::from("Hello world!")).unwrap();
    assert_eq!(wal.append(&record), WalAction::OpenSegment);
    assert_eq!(wal.completed(IoOutcome::Opened(100)), WalAction::Write(record.encode()));
    assert_eq!(wal.completed(IoOutcome::Done), WalAction::Appended(100));
    // the segment stays active: the next append writes at once
    assert_eq!(wal.append(&record), WalAction::Write(record.encode()));
    assert_eq!(wal.completed(IoOutcome::Done), WalAction::Appended(116));
    assert_eq!(wal.fsync(), WalAction::Sync);
    assert_eq!(wal.completed(IoOutcome::Done), WalAction::Synced);
    // a flush does not close the segment
    assert_eq!(wal.append(&record), WalAction::Write(record.encode()));
    assert_eq!(wal.completed(IoOutcome::Done), WalAction::Appended(132));
}

#[test]
fn fsync_without_segment_is_a_no_op() {
    let mut wal = Wal::new();
    assert_eq!(wal.fsync(), WalAction::Synced);
    assert_eq!(wal.fsync(), WalAction::Synced);
}

#[test]
fn io_failures_surface_as_wal_errors() {
    let record = WriteRecord::new(Vec::from("x")).unwrap();
    let mut wal = Wal::new();
    assert_eq!(wal.append(&record), WalAction::OpenSegment);
    assert_eq!(wal.completed(IoOutcome::Failed), WalAction::Failed(WalError::Io));
    // no segment is active after a failed open
    assert_eq!(wal.append(&record), WalAction::OpenSegment);
    assert_eq!(wal.completed(IoOutcome::Opened(0)), WalAction::Write(record.encode()));
    assert_eq!(wal.completed(IoOutcome::Failed), WalAction::Failed(WalError::Io));
    // nor after a failed write
    assert_eq!(wal.fsync(), WalAction::Synced);
    assert_eq!(wal.append(&record), WalAction::OpenSegment);
    assert_eq!(wal.completed(IoOutcome::Opened(5)), WalAction::Write(record.encode()));
    assert_eq!(wal.completed(IoOutcome::Done), WalAction::Appended(5));
    assert_eq!(wal.fsync(), WalAction::Sync);
    assert_eq!(wal.completed(IoOutcome::Failed), WalAction::Failed(WalError::Io));
    // a failed flush keeps the segment
    assert_eq!(wal.append(&record), WalAction::Write(record.encode()));
}

#[test]
fn record_past_the_largest_offset_is_refused() {
    let record = WriteRecord::new(Vec::from("Hello")).unwrap();
    let mut wal = Wal::new();
    assert_eq!(wal.append(&record), WalAction::OpenSegment);
    assert_eq!(
        wal.completed(IoOutcome::Opened(u64::MAX - 8)),
        WalAction::Failed(WalError::SegmentFull)
    );
    let mut wal = Wal::new();
    assert_eq!(wal.append(&record), WalAction::OpenSegment);
    assert_eq!(wal.completed(IoOutcome::Opened(u64::MAX - 9)), WalAction::Write(record.encode()));
    assert_eq!(wal.completed(IoOutcome::Done), WalAction::Appended(u64::MAX - 9));
    assert_eq!(wal.append(&record), WalAction::Failed(WalError::SegmentFull));
}

#[test]
fn steps_out_of_turn_are_refused() {
    let record = WriteRecord::new(Vec::from("x")).unwrap();
    let mut wal = Wal::new();
    assert_eq!(wal.completed(IoOutcome::Done), WalAction::Failed(WalError::OutOfTurn));
    assert_eq!(wal.append(&record), WalAction::OpenSegment);
    assert_eq!(wal.append(&record), WalAction::Failed(WalError::OutOfTurn));
    assert_eq!(wal.fsync(), WalAction::Failed(WalError::OutOfTurn));
    assert_eq!(wal.completed(IoOutcome::Done), WalAction::Failed(WalError::OutOfTurn));
    assert_eq!(wal.completed(IoOutcome::Opened(0)), WalAction::Write(record.encode()));
    assert_eq!(wal.completed(IoOutcome::Opened(0)), WalAction::Failed(WalError::OutOfTurn));
    assert_eq!(wal.completed(IoOutcome::Done), WalAction::Appended(0));
}
