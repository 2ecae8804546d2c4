//! Filter-mode batch processing: for each record of a batch, find the single
//! best-scoring filter and emit one match record carrying the filter name,
//! the Hamming distance and the record's raw text. A structured sink carries
//! that text through unchanged; a line-oriented sink passes it through
//! `sanitize` when it renders the line.

use vstd::prelude::*;
use crate::filter::best_match;
use crate::filter::best_of;
use crate::filter::uniform_width;
use crate::filter::ContextFilter;
use crate::fingerprint::Fingerprint;

verus! {

/// Output sanitization of one byte: newlines become spaces and double
/// quotes become single quotes, keeping line-oriented output parseable.
pub open spec fn sanitize_byte(b: u8) -> u8 {
    if b == 10 {
        32
    } else if b == 34 {
        39
    } else {
        b
    }
}

/// Byte-wise sanitization of a whole text.
pub open spec fn sanitize_spec(s: Seq<u8>) -> Seq<u8> {
    Seq::new(s.len(), |i: int| sanitize_byte(s[i]))
}

/// Replaces newlines with spaces and double quotes with single quotes.
pub fn sanitize(text: &Vec<u8>) -> (r: Vec<u8>)
    ensures
        r@ == sanitize_spec(text@),
{
    let mut r: Vec<u8> = Vec::new();
    let mut i: usize = 0;
    while i < text.len()
        invariant
            i <= text@.len(),
            r@.len() == i,
            forall|j: int| 0 <= j < i ==> r@[j] == sanitize_byte(text@[j]),
        decreases text@.len() - i,
    {
        let b = text[i];
        if b == 10 {
            r.push(32);
        } else if b == 34 {
            r.push(39);
        } else {
            r.push(b);
        }
        i += 1;
    }
    proof {
        assert(r@ =~= sanitize_spec(text@));
    }
    r
}

/// One reported match: the winning filter's name, the Hamming distance, and
/// the record's raw text, carried through unchanged.
pub struct MatchRecord {
    pub name: String,
    pub distance: u32,
    pub text: Vec<u8>,
}

/// A match record as a plain triple of views.
pub open spec fn record_view(m: MatchRecord) -> (Seq<char>, u32, Seq<u8>) {
    (m.name@, m.distance, m.text@)
}

/// A match list as a sequence of plain triples.
pub open spec fn records_view(ms: Seq<MatchRecord>) -> Seq<(Seq<char>, u32, Seq<u8>)> {
    ms.map_values(|m: MatchRecord| record_view(m))
}

/// What filter mode emits for one batch: for each record whose fingerprint
/// matches some filter, one triple for the single best-scoring filter; for
/// the rest, nothing.
pub open spec fn batch_matches(
    texts: Seq<Vec<u8>>,
    fps: Seq<Fingerprint>,
    filters: Seq<ContextFilter>,
) -> Seq<(Seq<char>, u32, Seq<u8>)>
    recommends
        texts.len() == fps.len(),
    decreases texts.len(),
{
    if texts.len() == 0 {
        Seq::empty()
    } else {
        let rest = batch_matches(texts.drop_last(), fps.drop_last(), filters);
        match best_of(fps.last()@, filters) {
            Option::None => rest,
            Option::Some(p) => rest.push(
                (filters[p.0].name@, p.1 as u32, texts.last()@),
            ),
        }
    }
}

/// Processes one batch of records (texts paired with their fingerprints)
/// against every filter, reporting for each record the single best-scoring
/// match, never the first match found.
pub fn process_batch(
    texts: &Vec<Vec<u8>>,
    fps: &Vec<Fingerprint>,
    filters: &Vec<ContextFilter>,
) -> (r: Vec<MatchRecord>)
    requires
        texts@.len() == fps@.len(),
        forall|i: int| 0 <= i < fps@.len() ==> uniform_width(#[trigger] fps@[i]@, filters@),
    ensures
        records_view(r@) == batch_matches(texts@, fps@, filters@),
{
    let mut r: Vec<MatchRecord> = Vec::new();
    let mut i: usize = 0;
    proof {
        assert(records_view(r@) =~= batch_matches(texts@.take(0), fps@.take(0), filters@));
    }
    while i < texts.len()
        invariant
            i <= texts@.len(),
            texts@.len() == fps@.len(),
            forall|j: int| 0 <= j < fps@.len() ==> uniform_width(#[trigger] fps@[j]@, filters@),
            records_view(r@) == batch_matches(
                texts@.take(i as int),
                fps@.take(i as int),
                filters@,
            ),
        decreases texts@.len() - i,
    {
        let bm = best_match(&fps[i], filters);
        proof {
            assert(texts@.take(i + 1).drop_last() =~= texts@.take(i as int));
            assert(fps@.take(i + 1).drop_last() =~= fps@.take(i as int));
            assert(texts@.take(i + 1).last() == texts@[i as int]);
            assert(fps@.take(i + 1).last() == fps@[i as int]);
        }
        match bm {
            None => {},
            Some(p) => {
                proof {
                    crate::filter::lemma_best_of_is_single_best(fps@[i as int]@, filters@);
                }
                let name = filters[p.0].name.clone();
                let text = vstd::slice::slice_to_vec(texts[i].as_slice());
                let ghost before = r@;
                r.push(MatchRecord { name, distance: p.1, text });
                proof {
                    assert(records_view(r@) =~= records_view(before).push(
                        record_view(r@.last()),
                    ));
                }
            },
        }
        i += 1;
    }
    proof {
        assert(texts@.take(texts@.len() as int) =~= texts@);
        assert(fps@.take(fps@.len() as int) =~= fps@);
    }
    r
}

} // verus!
