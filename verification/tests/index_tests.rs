use bitvector_search::bake::IndexBuilder;
use bitvector_search::errors::EngineError;
use bitvector_search::index::decode_entry;
use bitvector_search::index::encode_entry;
use bitvector_search::index::encode_index;
use bitvector_search::index::parse_index;
use bitvector_search::index::IndexEntry;
use bitvector_search::index::ENTRY_WIDTH;

#[test]
fn encode_entry_is_little_endian_and_fixed_width() {
    let e = IndexEntry { hash: 0x0102_0304_0506_0708, offset: 0x1122, len: 0xAABB };
    let bytes = encode_entry(&e);
    assert_eq!(bytes.len(), ENTRY_WIDTH);
    assert_eq!(&bytes[0..8], &[0x08, 0x07, 0x06, 0x05, 0x04, 0x03, 0x02, 0x01]);
    assert_eq!(&bytes[8..16], &[0x22, 0x11, 0, 0, 0, 0, 0, 0]);
    assert_eq!(&bytes[16..20], &[0xBB, 0xAA, 0, 0]);
}

#[test]
fn entry_roundtrip() {
    let e = IndexEntry { hash: u64::MAX, offset: 12345, len: u32::MAX };
    let bytes = encode_entry(&e);
    let back = decode_entry(&bytes);
    assert_eq!(back, e);
}

#[test]
fn index_roundtrip_and_size() {
    let entries = vec![
        IndexEntry { hash: 1, offset: 0, len: 3 },
        IndexEntry { hash: 2, offset: 3, len: 5 },
    ];
    let bytes = encode_index(&entries);
    assert_eq!(bytes.len(), 2 * ENTRY_WIDTH);
    let back = parse_index(&bytes).unwrap();
    assert_eq!(back, entries);
}

#[test]
fn truncated_index_is_corrupt() {
    let bytes = vec![0u8; 19];
    match parse_index(&bytes) {
        Err(EngineError::CorruptIndex) => {}
        other => panic!("expected CorruptIndex, got {:?}", other),
    }
    let empty: Vec<u8> = Vec::new();
    assert!(parse_index(&empty).unwrap().is_empty());
}

#[test]
fn error_labels_name_the_stage() {
    assert_eq!(EngineError::CorruptIndex.label(), "corrupt index file");
    assert_eq!(EngineError::EmptyAnchorSet.label(), "empty anchor set");
    assert_eq!(EngineError::Embedding.label(), "embedding provider failure");
    assert_eq!(EngineError::Io.label(), "file I/O failure");
    assert_eq!(EngineError::MalformedRecord.label(), "malformed source record");
}

#[test]
fn baked_index_partitions_the_blob() {
    let mut b = IndexBuilder::new();
    b.append(10, &b"alpha".to_vec());
    b.append(20, &b"be".to_vec());
    b.append(30, &b"gamma!".to_vec());
    assert_eq!(b.count(), 3);
    assert_eq!(b.blob_size(), 5 + 2 + 6);
    let (idx, blob) = b.finish();
    // index file size == N * record width
    assert_eq!(idx.len(), 3 * ENTRY_WIDTH);
    // sum of entry lengths == blob size; offsets tile [0, blob_size)
    let entries = parse_index(&idx).unwrap();
    assert_eq!(entries[0], IndexEntry { hash: 10, offset: 0, len: 5 });
    assert_eq!(entries[1], IndexEntry { hash: 20, offset: 5, len: 2 });
    assert_eq!(entries[2], IndexEntry { hash: 30, offset: 7, len: 6 });
    let total: u64 = entries.iter().map(|e| e.len as u64).sum();
    assert_eq!(total, blob.len() as u64);
    assert_eq!(blob, b"alphabegamma!".to_vec());
}

#[test]
fn append_batch_matches_sequential_appends() {
    let mut a = IndexBuilder::new();
    a.append_batch(
        &vec![7, 8],
        &vec![b"one".to_vec(), b"three".to_vec()],
    );
    let mut s = IndexBuilder::new();
    s.append(7, &b"one".to_vec());
    s.append(8, &b"three".to_vec());
    let (ia, ba) = a.finish();
    let (is_, bs_) = s.finish();
    assert_eq!(ia, is_);
    assert_eq!(ba, bs_);
}
