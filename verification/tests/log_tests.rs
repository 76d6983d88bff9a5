use alloydb::log::{scan_frames, LogHeader, StorageLog, CURRENT_VERSION, HEADER_LEN, HEADER_SIZE};
use alloydb::AlloyError;

#[test]
fn fresh_log_has_header_offsets_at_the_fixed_size() {
    let log = StorageLog::create();
    assert_eq!(log.header.metadata_offset, 28);
    assert_eq!(log.header.metadata_offset, HEADER_SIZE as u64);
    assert_eq!(log.header.total_records, 0);
    assert_eq!(log.header.version, CURRENT_VERSION);
}

#[test]
fn scan_stops_cleanly_at_a_truncated_tail() {
    let mut log = StorageLog::create();
    log.append(&[10, 20, 30, 40, 50]);
    // Simulate a crash mid-write: three stray bytes after the framed record.
    let mut bytes = log.data.clone();
    bytes.push(9);
    bytes.push(9);
    bytes.push(9);
    let records = scan_frames(&bytes);
    assert_eq!(records.len(), 1);
    assert_eq!(records[0], vec![10, 20, 30, 40, 50]);
}

#[test]
fn scan_returns_records_in_append_order() {
    let mut log = StorageLog::create();
    log.append(&[1]);
    log.append(&[]);
    log.append(&[2, 3]);
    assert_eq!(log.header.total_records, 3);
    let records = log.scan();
    assert_eq!(records.len(), 3);
    assert_eq!(records[0], vec![1]);
    assert_eq!(records[1], Vec::<u8>::new());
    assert_eq!(records[2], vec![2, 3]);
}

#[test]
fn header_round_trips_through_its_encoding() {
    let h = LogHeader {
        version: CURRENT_VERSION,
        metadata_offset: 28,
        index_offset: 100,
        vector_data_offset: 228,
        total_records: 5,
    };
    let bytes = h.encode();
    assert_eq!(bytes.len(), HEADER_LEN);
    assert_eq!(&bytes[..4], b"ADBF");
    let back = LogHeader::decode(&bytes).unwrap();
    assert_eq!(back, h);
}

#[test]
fn wrong_magic_is_corrupt_and_newer_version_is_unsupported() {
    let h = LogHeader::new();
    let mut bytes = h.encode();
    bytes[0] = b'X';
    assert_eq!(LogHeader::decode(&bytes), Err(AlloyError::CorruptFormat));

    let newer = LogHeader { version: CURRENT_VERSION + 1, ..LogHeader::new() };
    let encoded = newer.encode();
    assert_eq!(LogHeader::decode(&encoded), Err(AlloyError::UnsupportedVersion));

    assert_eq!(LogHeader::decode(&[1, 2, 3]), Err(AlloyError::CorruptFormat));
}

#[test]
fn log_image_reopens_to_the_same_state() {
    let mut log = StorageLog::create();
    log.append(&[7, 7, 7]);
    let image = log.to_bytes();
    let back = StorageLog::open(&image).unwrap();
    assert_eq!(back.header, log.header);
    assert_eq!(back.data, log.data);
    let records = back.scan();
    assert_eq!(records.len(), 1);
    assert_eq!(records[0], vec![7, 7, 7]);
}
