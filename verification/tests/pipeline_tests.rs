use bitvector_search::csv_source::column_from_csv;
use bitvector_search::csv_source::filter_specs_from_csv;
use bitvector_search::filter::ContextFilter;
use bitvector_search::fingerprint::Fingerprint;
use bitvector_search::pipeline::process_batch;
use bitvector_search::pipeline::sanitize;

fn fp(w: u64) -> Fingerprint {
    Fingerprint::from_words(vec![w])
}

fn filter(name: &str, mask: u64, threshold: u32) -> ContextFilter {
    ContextFilter::new(name.to_string(), fp(mask), threshold)
}

#[test]
fn sanitize_replaces_newlines_and_quotes() {
    let out = sanitize(&b"a\nb\"c".to_vec());
    assert_eq!(out, b"a b'c".to_vec());
    assert_eq!(sanitize(&Vec::new()), Vec::<u8>::new());
}

#[test]
fn batch_reports_one_best_match_per_matching_record() {
    // "Together" at distance 2, "Conflict" at distance 1 from record 0:
    // only the single higher-scoring filter is reported, with its distance.
    let filters = vec![filter("Together", 0b0110, 12), filter("Conflict", 0b0010, 12)];
    let texts = vec![b"alice \"met\" bob\n".to_vec(), b"stock market fell".to_vec()];
    let fps = vec![fp(0b0000), fp(0xffff_ffff)];
    let records = process_batch(&texts, &fps, &filters);
    assert_eq!(records.len(), 1);
    assert_eq!(records[0].name, "Conflict");
    assert_eq!(records[0].distance, 1);
    // a structured sink carries the original record through unchanged...
    assert_eq!(records[0].text, b"alice \"met\" bob\n".to_vec());
    // ...and a line-oriented sink sanitizes only when rendering the line
    assert_eq!(sanitize(&records[0].text), b"alice 'met' bob ".to_vec());
}

#[test]
fn semantically_near_record_matches_and_far_record_does_not() {
    // a stand-in for anchors ["met","spoke","visited"] baked into one
    // "Together" centroid: the nearby record matches, the unrelated one not
    let together = filter("Together", 0b1110_0110, 4);
    let filters = vec![together];
    let near = fp(0b1110_0111);
    let far = fp(0b0000_1000);
    let texts = vec![b"Alice and Bob met for coffee".to_vec(), b"The stock market fell today".to_vec()];
    let records = process_batch(&texts, &vec![near, far], &filters);
    assert_eq!(records.len(), 1);
    assert_eq!(records[0].name, "Together");
    assert_eq!(records[0].distance, 1);
    assert_eq!(records[0].text, b"Alice and Bob met for coffee".to_vec());
}

#[test]
fn malformed_csv_row_is_skipped_and_counted() {
    let data = b"id,text\n1,hello\n2\n3,world\n";
    let (texts, skipped) = column_from_csv(data, 1);
    assert_eq!(texts, vec!["hello".to_string(), "world".to_string()]);
    assert_eq!(skipped, 1);
    // total processed rows reflect only the well-formed ones
    assert_eq!(texts.len(), 2);
}

#[test]
fn keyword_csv_yields_names_and_anchors() {
    let data = b"category,a1,a2,a3\nTogether,met,spoke,visited\nConflict,argued,fought\n";
    let specs = filter_specs_from_csv(data);
    assert_eq!(specs.len(), 2);
    assert_eq!(specs[0].name, "Together");
    assert_eq!(
        specs[0].anchors,
        vec!["met".to_string(), "spoke".to_string(), "visited".to_string()]
    );
    assert_eq!(specs[1].name, "Conflict");
    assert_eq!(specs[1].anchors, vec!["argued".to_string(), "fought".to_string()]);
}

#[test]
fn quoted_csv_fields_are_parsed_not_echoed() {
    // would fail if the CSV reader handed the raw bytes back unchanged
    let data = b"h\n\"a,b\"\n";
    let (texts, skipped) = column_from_csv(data, 0);
    assert_eq!(texts, vec!["a,b".to_string()]);
    assert_eq!(skipped, 0);
}
