//! The synonym thesaurus: verb categories mapped to synonym lists, and the
//! expansion of a category into anchor phrases `"<key1> <synonym> <key2>"`
//! for filter construction.

use vstd::prelude::*;
use vstd::string::StringExecFns;

verus! {

/// One thesaurus entry as a plain pair: the verb and its synonyms.
pub open spec fn entry_view(e: (String, Vec<String>)) -> (Seq<char>, Seq<Seq<char>>) {
    (e.0@, e.1.deep_view())
}

/// Looking a key up in an association list: the value of the latest entry
/// with that key, so a later insert overwrites an earlier one.
pub open spec fn lookup_spec(
    entries: Seq<(Seq<char>, Seq<Seq<char>>)>,
    key: Seq<char>,
) -> Option<Seq<Seq<char>>>
    decreases entries.len(),
{
    if entries.len() == 0 {
        None
    } else if entries.last().0 == key {
        Some(entries.last().1)
    } else {
        lookup_spec(entries.drop_last(), key)
    }
}

/// Verb categories mapped to synonym lists.
pub struct SynonymDatabase {
    entries: Vec<(String, Vec<String>)>,
}

impl SynonymDatabase {
    /// The entries in insertion order, as plain pairs.
    pub closed spec fn entries_view(&self) -> Seq<(Seq<char>, Seq<Seq<char>>)> {
        self.entries@.map_values(|e: (String, Vec<String>)| entry_view(e))
    }

    /// An empty thesaurus.
    pub fn new() -> (r: SynonymDatabase)
        ensures
            r.entries_view() == Seq::<(Seq<char>, Seq<Seq<char>>)>::empty(),
    {
        let r = SynonymDatabase { entries: Vec::new() };
        proof {
            assert(r.entries_view() =~= Seq::<(Seq<char>, Seq<Seq<char>>)>::empty());
        }
        r
    }

    /// Number of entries, later duplicates of a verb included.
    pub fn len(&self) -> (n: usize)
        ensures
            n == self.entries_view().len(),
    {
        self.entries.len()
    }

    /// Adds a verb with its synonyms; a later insert of the same verb wins
    /// every later lookup.
    pub fn insert(&mut self, verb: String, synonyms: Vec<String>)
        ensures
            final(self).entries_view() == old(self).entries_view().push(
                (verb@, synonyms.deep_view()),
            ),
    {
        let ghost before = self.entries_view();
        let ghost pair_view = (verb@, synonyms.deep_view());
        self.entries.push((verb, synonyms));
        proof {
            assert(self.entries_view() =~= before.push(pair_view));
        }
    }

    /// The synonyms of a verb: those of the latest entry carrying it.
    pub fn lookup(&self, key: &String) -> (r: Option<&Vec<String>>)
        ensures
            match r {
                None => lookup_spec(self.entries_view(), key@) is None,
                Some(v) => lookup_spec(self.entries_view(), key@) == Some(v.deep_view()),
            },
    {
        let ghost ev = self.entries_view();
        let mut i: usize = self.entries.len();
        proof {
            assert(ev.take(ev.len() as int) =~= ev);
        }
        while i > 0
            invariant
                i <= self.entries@.len(),
                ev == self.entries_view(),
                lookup_spec(ev, key@) == lookup_spec(ev.take(i as int), key@),
            decreases i,
        {
            proof {
                assert(ev.take(i as int).last() == ev[i - 1]);
                assert(ev.take(i as int).drop_last() =~= ev.take(i - 1));
            }
            if self.entries[i - 1].0 == *key {
                return Some(&self.entries[i - 1].1);
            }
            i -= 1;
        }
        None
    }
}

/// The anchor phrase built from one synonym: `<a> <s> <b>`.
pub open spec fn phrase_of(a: Seq<char>, s: Seq<char>, b: Seq<char>) -> Seq<char> {
    a + seq![' '] + s + seq![' '] + b
}

/// One phrase per synonym, in order.
pub open spec fn phrases_of(a: Seq<char>, syns: Seq<Seq<char>>, b: Seq<char>) -> Seq<Seq<char>> {
    Seq::new(syns.len(), |i: int| phrase_of(a, syns[i], b))
}

/// Joins two keys around a synonym with single spaces.
pub fn join_phrase(a: &str, s: &str, b: &str) -> (r: String)
    ensures
        r@ == phrase_of(a@, s@, b@),
{
    let mut r = a.to_owned();
    r.append(" ");
    r.append(s);
    r.append(" ");
    r.append(b);
    proof {
        reveal_strlit(" ");
        assert(" "@ =~= seq![' ']);
        assert(r@ =~= phrase_of(a@, s@, b@));
    }
    r
}

/// Expands a verb category into concrete anchor phrases between two keys.
pub struct ActionExpander {
    pub db: SynonymDatabase,
}

impl ActionExpander {
    /// Wraps a loaded thesaurus.
    pub fn new(db: SynonymDatabase) -> (r: ActionExpander)
        ensures
            r.db.entries_view() == db.entries_view(),
    {
        ActionExpander { db }
    }

    /// All phrases `<k1> <synonym> <k2>` for the synonyms of `action_type`;
    /// none for an unknown category.
    pub fn generate_all_possibilities(&self, k1: &str, k2: &str, action_type: &String) -> (r:
        Vec<String>)
        ensures
            match lookup_spec(self.db.entries_view(), action_type@) {
                None => r.deep_view() == Seq::<Seq<char>>::empty(),
                Some(syns) => r.deep_view() == phrases_of(k1@, syns, k2@),
            },
    {
        let mut r: Vec<String> = Vec::new();
        match self.db.lookup(action_type) {
            None => {
                proof {
                    assert(r.deep_view() =~= Seq::<Seq<char>>::empty());
                }
            },
            Some(syns) => {
                let ghost sv = syns.deep_view();
                let mut j: usize = 0;
                proof {
                    assert(r.deep_view() =~= phrases_of(k1@, sv, k2@).take(0));
                }
                while j < syns.len()
                    invariant
                        j <= syns@.len(),
                        sv == syns.deep_view(),
                        r.deep_view() == phrases_of(k1@, sv, k2@).take(j as int),
                    decreases syns@.len() - j,
                {
                    let ghost before = r.deep_view();
                    let phrase = join_phrase(k1, syns[j].as_str(), k2);
                    r.push(phrase);
                    proof {
                        assert(sv[j as int] == syns@[j as int]@);
                        assert(r.deep_view() =~= before.push(phrase_of(k1@, sv[j as int], k2@)));
                        assert(r.deep_view() =~= phrases_of(k1@, sv, k2@).take(j + 1));
                    }
                    j += 1;
                }
                proof {
                    assert(phrases_of(k1@, sv, k2@).take(sv.len() as int) =~= phrases_of(
                        k1@,
                        sv,
                        k2@,
                    ));
                }
            },
        }
        r
    }
}

/// The thesaurus read from CSV rows `verb, s1, s2, s3, s4, s5`: rows with
/// fewer than six fields are skipped.
pub open spec fn thesaurus_of_rows(rows: Seq<Seq<Seq<char>>>) -> Seq<(Seq<char>, Seq<Seq<char>>)>
    decreases rows.len(),
{
    if rows.len() == 0 {
        Seq::empty()
    } else {
        let rest = thesaurus_of_rows(rows.drop_last());
        if rows.last().len() < 6 {
            rest
        } else {
            rest.push((rows.last()[0], rows.last().subrange(1, 6)))
        }
    }
}

/// Builds a thesaurus from parsed CSV rows; each well-formed row carries a
/// verb and five synonyms. Returns the database and the skipped-row count.
pub fn load_from_rows(rows: &Vec<Vec<String>>) -> (r: (SynonymDatabase, usize))
    ensures
        r.0.entries_view() == thesaurus_of_rows(rows.deep_view()),
        r.0.entries_view().len() + r.1 == rows@.len(),
{
    let mut db = SynonymDatabase::new();
    let mut skipped: usize = 0;
    let mut i: usize = 0;
    proof {
        assert(db.entries_view() =~= thesaurus_of_rows(rows.deep_view().take(0)));
    }
    while i < rows.len()
        invariant
            i <= rows@.len(),
            db.entries_view() == thesaurus_of_rows(rows.deep_view().take(i as int)),
            db.entries_view().len() + skipped == i,
        decreases rows@.len() - i,
    {
        let ghost pre = rows.deep_view().take(i as int);
        proof {
            assert(rows.deep_view().take(i + 1).drop_last() =~= pre);
            assert(rows.deep_view().take(i + 1).last() == rows@[i as int].deep_view());
        }
        let row = &rows[i];
        if row.len() < 6 {
            skipped += 1;
        } else {
            let verb = row[0].clone();
            let mut syns: Vec<String> = Vec::new();
            let mut j: usize = 1;
            proof {
                assert(syns.deep_view() =~= rows@[i as int].deep_view().subrange(1, 1));
            }
            while j < 6
                invariant
                    1 <= j <= 6,
                    row == rows@[i as int],
                    i < rows@.len(),
                    rows@[i as int]@.len() >= 6,
                    syns.deep_view() == rows@[i as int].deep_view().subrange(1, j as int),
                decreases 6 - j,
            {
                let ghost before = syns.deep_view();
                syns.push(row[j].clone());
                proof {
                    assert(syns@.last()@ == rows@[i as int]@[j as int]@);
                    assert(rows@[i as int].deep_view()[j as int] == rows@[i as int]@[j as int]@);
                    assert(syns.deep_view() =~= before.push(
                        rows@[i as int].deep_view()[j as int],
                    ));
                    assert(syns.deep_view() =~= rows@[i as int].deep_view().subrange(1, j + 1));
                }
                j += 1;
            }
            proof {
                assert(rows@[i as int].deep_view()[0] == rows@[i as int]@[0]@);
            }
            db.insert(verb, syns);
        }
        i += 1;
    }
    proof {
        assert(rows.deep_view().take(rows@.len() as int) =~= rows.deep_view());
    }
    (db, skipped)
}

/// Builds a thesaurus from an in-memory CSV buffer, one verb and five
/// synonyms per row; returns the database and the skipped-row count.
pub fn thesaurus_from_csv(data: &[u8]) -> (r: (SynonymDatabase, usize))
    ensures
        r.0.entries_view() == thesaurus_of_rows(crate::csv_source::csv_rows_of(data@)),
        r.0.entries_view().len() + r.1 == crate::csv_source::csv_rows_of(data@).len(),
{
    let rows = crate::csv_source::rows_from_csv(data);
    load_from_rows(&rows)
}

} // verus!
