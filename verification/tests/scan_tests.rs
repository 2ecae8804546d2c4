use bitvector_search::bake::IndexBuilder;
use bitvector_search::errors::EngineError;
use bitvector_search::index::encode_entry;
use bitvector_search::index::IndexEntry;
use bitvector_search::scan::scan;
use bitvector_search::scan::ScanMatch;

fn bake(records: &[(u64, &str)]) -> (Vec<u8>, Vec<u8>) {
    let mut b = IndexBuilder::new();
    for (hash, text) in records {
        b.append(*hash, &text.as_bytes().to_vec());
    }
    b.finish()
}

fn find<'a>(matches: &'a [ScanMatch], text: &str) -> Option<&'a ScanMatch> {
    matches.iter().find(|m| m.text == text.as_bytes().to_vec())
}

#[test]
fn bake_then_scan_returns_the_baked_record_at_distance_zero() {
    let records = [(0b1010, "alice met bob"), (0b1111, "stock market"), (0b0001, "coffee")];
    let (idx, blob) = bake(&records);
    for k in 0..records.len() {
        let matches = scan(&idx, &blob, records[k].0, 1).unwrap();
        let m = find(&matches, records[k].1).expect("baked record not returned");
        assert_eq!(m.distance, 0);
    }
}

#[test]
fn threshold_is_strictly_less_than() {
    // hash differs from the query in exactly 3 bits
    let (idx, blob) = bake(&[(0b0111, "boundary record")]);
    let query = 0b0000u64;
    // at exactly the threshold distance: excluded
    assert!(scan(&idx, &blob, query, 3).unwrap().is_empty());
    // one above: included, with the exact distance
    let matches = scan(&idx, &blob, query, 4).unwrap();
    assert_eq!(matches.len(), 1);
    assert_eq!(matches[0].distance, 3);
    assert_eq!(matches[0].text, b"boundary record".to_vec());
}

#[test]
fn later_duplicate_text_overwrites_earlier_distance() {
    // same text baked twice under different hashes
    let (idx, blob) = bake(&[(0b0001, "twin"), (0b0011, "twin")]);
    let matches = scan(&idx, &blob, 0, 8).unwrap();
    assert_eq!(matches.len(), 1);
    assert_eq!(matches[0].text, b"twin".to_vec());
    // the later record's distance (2 set bits) wins over the earlier (1)
    assert_eq!(matches[0].distance, 2);
}

#[test]
fn undecodable_slice_drops_that_record_only() {
    let mut b = IndexBuilder::new();
    b.append(0, &vec![0xff, 0xfe]);
    b.append(0, &b"ok".to_vec());
    let (idx, blob) = b.finish();
    let matches = scan(&idx, &blob, 0, 5).unwrap();
    assert_eq!(matches.len(), 1);
    assert_eq!(matches[0].text, b"ok".to_vec());
    assert_eq!(matches[0].distance, 0);
}

#[test]
fn out_of_bounds_entry_is_skipped() {
    let e = IndexEntry { hash: 0, offset: 1, len: 5 };
    let idx = encode_entry(&e);
    let blob = b"abc".to_vec();
    let matches = scan(&idx, &blob, 0, 5).unwrap();
    assert!(matches.is_empty());
}

#[test]
fn truncated_index_file_fails_scan() {
    let (mut idx, blob) = bake(&[(1, "rec")]);
    idx.pop();
    match scan(&idx, &blob, 1, 5) {
        Err(EngineError::CorruptIndex) => {}
        other => panic!("expected CorruptIndex, got {:?}", other.map(|v| v.len())),
    }
}
