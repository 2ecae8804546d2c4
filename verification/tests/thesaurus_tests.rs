use bitvector_search::thesaurus::load_from_rows;
use bitvector_search::thesaurus::thesaurus_from_csv;
use bitvector_search::thesaurus::ActionExpander;
use bitvector_search::thesaurus::SynonymDatabase;

fn strings(items: &[&str]) -> Vec<String> {
    items.iter().map(|s| s.to_string()).collect()
}

#[test]
fn lookup_finds_inserted_synonyms() {
    let mut db = SynonymDatabase::new();
    db.insert("interaction".to_string(), strings(&["met", "spoke", "visited", "emailed"]));
    db.insert("conflict".to_string(), strings(&["argued", "disagreed"]));
    assert_eq!(db.len(), 2);
    let syns = db.lookup(&"interaction".to_string()).expect("missing key");
    assert_eq!(*syns, strings(&["met", "spoke", "visited", "emailed"]));
    assert!(db.lookup(&"transaction".to_string()).is_none());
}

#[test]
fn later_insert_overwrites_earlier_lookup() {
    let mut db = SynonymDatabase::new();
    db.insert("verb".to_string(), strings(&["old"]));
    db.insert("verb".to_string(), strings(&["new"]));
    let syns = db.lookup(&"verb".to_string()).expect("missing key");
    assert_eq!(*syns, strings(&["new"]));
}

#[test]
fn expansion_builds_one_phrase_per_synonym() {
    let mut db = SynonymDatabase::new();
    db.insert("interaction".to_string(), strings(&["met", "spoke", "visited"]));
    let expander = ActionExpander::new(db);
    let phrases = expander.generate_all_possibilities("Alice", "Bob", &"interaction".to_string());
    assert_eq!(
        phrases,
        strings(&["Alice met Bob", "Alice spoke Bob", "Alice visited Bob"])
    );
    let none = expander.generate_all_possibilities("Alice", "Bob", &"unknown".to_string());
    assert!(none.is_empty());
}

#[test]
fn thesaurus_reads_from_csv_bytes() {
    let data = b"verb,s1,s2,s3,s4,s5\nmeet,met,spoke,visited,emailed,called\nshort,row\n";
    let (db, skipped) = thesaurus_from_csv(data);
    assert_eq!(db.len(), 1);
    assert_eq!(skipped, 1);
    let syns = db.lookup(&"meet".to_string()).expect("missing key");
    assert_eq!(*syns, strings(&["met", "spoke", "visited", "emailed", "called"]));
}

#[test]
fn short_thesaurus_rows_are_skipped() {
    let rows = vec![
        strings(&["run", "sprint", "jog", "dash", "race", "bolt"]),
        strings(&["too", "short"]),
        strings(&["walk", "stroll", "amble", "saunter", "wander", "roam", "extra"]),
    ];
    let (db, skipped) = load_from_rows(&rows);
    assert_eq!(skipped, 1);
    assert_eq!(db.len(), 2);
    let syns = db.lookup(&"walk".to_string()).expect("missing key");
    assert_eq!(*syns, strings(&["stroll", "amble", "saunter", "wander", "roam"]));
}
