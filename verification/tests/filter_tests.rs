use bitvector_search::errors::EngineError;
use bitvector_search::filter::best_match;
use bitvector_search::filter::build_filter;
use bitvector_search::filter::check_anchor_set;
use bitvector_search::filter::ContextFilter;
use bitvector_search::fingerprint::Fingerprint;

fn fp(w: u64) -> Fingerprint {
    Fingerprint::from_words(vec![w])
}

fn filter(name: &str, mask: u64, threshold: u32) -> ContextFilter {
    ContextFilter::new(name.to_string(), fp(mask), threshold)
}

#[test]
fn best_match_reports_the_single_highest_scoring_filter() {
    // record at distance 2 from "Together", distance 1 from "Conflict":
    // both within threshold, only the closer one is reported
    let filters = vec![filter("Together", 0b0110, 12), filter("Conflict", 0b0010, 12)];
    let record = fp(0b0000);
    let (i, d) = best_match(&record, &filters).expect("expected a match");
    assert_eq!(i, 1);
    assert_eq!(d, 1);
}

#[test]
fn best_match_tie_goes_to_the_first_declared_filter() {
    let filters = vec![filter("A", 0b0001, 12), filter("B", 0b0100, 12)];
    let record = fp(0b0000);
    let (i, d) = best_match(&record, &filters).expect("expected a match");
    assert_eq!(i, 0);
    assert_eq!(d, 1);
}

#[test]
fn record_far_from_every_filter_matches_nothing() {
    let filters = vec![filter("Together", 0xffff, 3), filter("Conflict", 0xff00, 3)];
    let record = fp(0);
    assert!(best_match(&record, &filters).is_none());
}

#[test]
fn threshold_boundary_is_exclusive() {
    // record at exactly the threshold distance: excluded
    let f = vec![filter("Edge", 0b0111, 3)];
    let record = fp(0);
    assert!(best_match(&record, &f).is_none());
    // one bit closer: included
    let g = vec![filter("Edge", 0b0011, 3)];
    let (i, d) = best_match(&record, &g).expect("expected a match");
    assert_eq!(i, 0);
    assert_eq!(d, 2);
}

#[test]
fn empty_anchor_set_is_rejected() {
    let none: Vec<String> = Vec::new();
    match check_anchor_set(&none) {
        Err(EngineError::EmptyAnchorSet) => {}
        other => panic!("expected EmptyAnchorSet, got {:?}", other),
    }
    let some = vec!["met".to_string(), "spoke".to_string(), "visited".to_string()];
    assert!(check_anchor_set(&some).is_ok());
}

#[test]
fn build_filter_quantizes_the_centroid_signs() {
    let anchors = vec!["met".to_string(), "spoke".to_string()];
    let signs = vec![true, true, false, true];
    let f = build_filter("Together".to_string(), &anchors, &signs, 12).unwrap();
    assert_eq!(f.name, "Together");
    assert_eq!(f.threshold, 12);
    assert_eq!(f.width(), 1);
    assert_eq!(f.centroid.word(0), 0b1011);
}

#[test]
fn build_filter_rejects_an_empty_anchor_set() {
    let anchors: Vec<String> = Vec::new();
    match build_filter("Empty".to_string(), &anchors, &vec![true], 12) {
        Err(EngineError::EmptyAnchorSet) => {}
        other => panic!("expected EmptyAnchorSet, got {:?}", other.map(|f| f.name)),
    }
}

#[test]
fn filter_fields_are_kept() {
    let f = filter("Together", 0b1010, 7);
    assert_eq!(f.name, "Together");
    assert_eq!(f.threshold, 7);
    assert_eq!(f.width(), 1);
    assert_eq!(f.centroid.word(0), 0b1010);
}
