//! Scan engine: a linear pass over all index entries, keeping the records
//! whose fingerprint lies strictly within `max_distance` of the query mask
//! and recovering their raw text from the blob.
//!
//! Results are keyed by matched text; a later record with the same text
//! overwrites the earlier distance, so exact-duplicate text collapses to one
//! entry. A text slice that is not valid UTF-8 drops that one record only.

use vstd::prelude::*;
use vstd::slice::slice_to_vec;
use vstd::utf8::valid_utf8;
use crate::bake::record_text;
use crate::errors::EngineError;
use crate::fingerprint::count_ones64;
use crate::fingerprint::hamming64;
use crate::fingerprint::lemma_count_ones64_bound;
use crate::fingerprint::lemma_hamming64_self;
use crate::index::parse_index;
use crate::index::parse_index_spec;
use crate::index::IndexEntry;

verus! {

/// One retained record: its raw text bytes and its Hamming distance from
/// the query mask.
pub struct ScanMatch {
    pub text: Vec<u8>,
    pub distance: u32,
}

/// No two retained records carry the same text.
pub open spec fn distinct_keys(ms: Seq<ScanMatch>) -> bool {
    forall|i: int, j: int|
        0 <= i < j < ms.len() ==> ms[i].text@ != ms[j].text@
}

/// The match list read as a map from text to distance; later list positions
/// overwrite earlier ones.
pub open spec fn matches_map(ms: Seq<ScanMatch>) -> Map<Seq<u8>, u32>
    decreases ms.len(),
{
    if ms.len() == 0 {
        Map::empty()
    } else {
        matches_map(ms.drop_last()).insert(ms.last().text@, ms.last().distance)
    }
}

/// True when an entry is retained: its hash lies strictly within
/// `max_distance` of the query, its text span lies inside the blob, and the
/// span decodes as UTF-8.
pub open spec fn entry_hit(e: IndexEntry, blob: Seq<u8>, query: u64, max_distance: u32) -> bool {
    &&& count_ones64(e.hash ^ query) < max_distance
    &&& e.offset + e.len <= blob.len()
    &&& valid_utf8(blob.subrange(e.offset as int, e.offset + e.len))
}

/// What a whole scan returns: the retained entries' texts mapped to their
/// distances, processed in index order.
pub open spec fn scan_matches(
    entries: Seq<IndexEntry>,
    blob: Seq<u8>,
    query: u64,
    max_distance: u32,
) -> Map<Seq<u8>, u32>
    decreases entries.len(),
{
    if entries.len() == 0 {
        Map::empty()
    } else {
        let m = scan_matches(entries.drop_last(), blob, query, max_distance);
        let e = entries.last();
        if entry_hit(e, blob, query, max_distance) {
            m.insert(
                blob.subrange(e.offset as int, e.offset + e.len),
                count_ones64(e.hash ^ query) as u32,
            )
        } else {
            m
        }
    }
}

/// Relies on core::str::from_utf8: it returns `Ok` exactly when the bytes
/// are a valid UTF-8 encoding.
#[verifier::external_body]
fn is_valid_utf8(b: &[u8]) -> (r: bool)
    ensures
        r == valid_utf8(b@),
{
    core::str::from_utf8(b).is_ok()
}

/// Byte-vector equality.
fn bytes_eq(a: &Vec<u8>, b: &Vec<u8>) -> (r: bool)
    ensures
        r == (a@ == b@),
{
    if a.len() != b.len() {
        return false;
    }
    let n = a.len();
    let mut i: usize = 0;
    while i < n
        invariant
            i <= n,
            n == a@.len(),
            a@.len() == b@.len(),
            forall|j: int| 0 <= j < i ==> a@[j] == b@[j],
        decreases n - i,
    {
        if a[i] != b[i] {
            return false;
        }
        i += 1;
    }
    proof {
        assert(a@ =~= b@);
    }
    true
}

proof fn lemma_matches_map_update(ms: Seq<ScanMatch>, j: int, x: ScanMatch)
    requires
        distinct_keys(ms),
        0 <= j < ms.len(),
        x.text@ == ms[j].text@,
    ensures
        matches_map(ms.update(j, x)) == matches_map(ms).insert(x.text@, x.distance),
    decreases ms.len(),
{
    let upd = ms.update(j, x);
    if j == ms.len() - 1 {
        assert(upd.drop_last() =~= ms.drop_last());
        assert(matches_map(upd) == matches_map(ms.drop_last()).insert(x.text@, x.distance));
        assert(matches_map(ms.drop_last()).insert(x.text@, x.distance) =~= matches_map(
            ms,
        ).insert(x.text@, x.distance));
    } else {
        assert(upd.drop_last() =~= ms.drop_last().update(j, x));
        lemma_matches_map_update(ms.drop_last(), j, x);
        assert(ms.last().text@ != x.text@);
        assert(matches_map(upd) == matches_map(ms.drop_last()).insert(
            x.text@,
            x.distance,
        ).insert(ms.last().text@, ms.last().distance));
        assert(matches_map(ms.drop_last()).insert(x.text@, x.distance).insert(
            ms.last().text@,
            ms.last().distance,
        ) =~= matches_map(ms).insert(x.text@, x.distance));
    }
}

/// Inserts a match, overwriting the distance when the text is already kept.
fn upsert(r: &mut Vec<ScanMatch>, text: Vec<u8>, distance: u32)
    requires
        distinct_keys(old(r)@),
    ensures
        distinct_keys(final(r)@),
        matches_map(final(r)@) == matches_map(old(r)@).insert(text@, distance),
{
    let n = r.len();
    let mut i: usize = 0;
    while i < n
        invariant
            i <= n,
            n == r@.len(),
            distinct_keys(r@),
            r@ == old(r)@,
            forall|j: int| 0 <= j < i ==> r@[j].text@ != text@,
        decreases n - i,
    {
        if bytes_eq(&r[i].text, &text) {
            let ghost before = r@;
            let x = ScanMatch { text, distance };
            r[i] = x;
            proof {
                lemma_matches_map_update(before, i as int, x);
                assert forall|a: int, b: int|
                    0 <= a < b < r@.len() implies r@[a].text@ != r@[b].text@ by {
                    assert(before[a].text@ != before[b].text@);
                }
            }
            return ;
        }
        i += 1;
    }
    let ghost before = r@;
    r.push(ScanMatch { text, distance });
    proof {
        assert(r@.drop_last() =~= before);
        assert forall|a: int, b: int| 0 <= a < b < r@.len() implies r@[a].text@ != r@[b].text@
            by {
            if b < before.len() {
                assert(before[a].text@ != before[b].text@);
            }
        }
    }
}

/// The core scan pass over already-parsed entries.
pub fn scan_entries(
    entries: &Vec<IndexEntry>,
    blob: &[u8],
    query: u64,
    max_distance: u32,
) -> (r: Vec<ScanMatch>)
    ensures
        distinct_keys(r@),
        matches_map(r@) == scan_matches(entries@, blob@, query, max_distance),
{
    let mut r: Vec<ScanMatch> = Vec::new();
    let mut i: usize = 0;
    proof {
        assert(matches_map(r@) =~= scan_matches(
            entries@.take(0),
            blob@,
            query,
            max_distance,
        ));
    }
    while i < entries.len()
        invariant
            i <= entries@.len(),
            distinct_keys(r@),
            matches_map(r@) == scan_matches(entries@.take(i as int), blob@, query, max_distance),
        decreases entries@.len() - i,
    {
        let e = entries[i];
        let d = hamming64(e.hash, query);
        let ghost pre = entries@.take(i as int);
        proof {
            assert(entries@.take(i + 1).drop_last() =~= pre);
            assert(entries@.take(i + 1).last() == entries@[i as int]);
        }
        if d < max_distance {
            let blob_len = blob.len();
            if e.len as u64 <= blob_len as u64 && e.offset <= blob_len as u64 - e.len as u64 {
                let start = e.offset as usize;
                let end = start + e.len as usize;
                let slice = &blob[start..end];
                if is_valid_utf8(slice) {
                    let text = slice_to_vec(slice);
                    proof {
                        assert(entry_hit(e, blob@, query, max_distance));
                        assert(text@ == blob@.subrange(e.offset as int, e.offset + e.len));
                    }
                    upsert(&mut r, text, d);
                } else {
                    proof {
                        assert(!entry_hit(e, blob@, query, max_distance));
                    }
                }
            } else {
                proof {
                    assert(!entry_hit(e, blob@, query, max_distance));
                }
            }
        } else {
            proof {
                assert(!entry_hit(e, blob@, query, max_distance));
            }
        }
        i += 1;
    }
    proof {
        assert(entries@.take(entries@.len() as int) =~= entries@);
    }
    r
}

/// Full scan: deserializes the index file, then passes over every entry.
/// Fails with `CorruptIndex` — and only then — when the index file's size is
/// not a multiple of the entry width.
pub fn scan(
    index_file: &[u8],
    blob: &[u8],
    query: u64,
    max_distance: u32,
) -> (r: Result<Vec<ScanMatch>, EngineError>)
    ensures
        r is Ok <==> index_file@.len() % 20 == 0,
        r is Err ==> r == Err::<Vec<ScanMatch>, EngineError>(EngineError::CorruptIndex),
        r matches Ok(v) ==> distinct_keys(v@) && matches_map(v@) == scan_matches(
            parse_index_spec(index_file@),
            blob@,
            query,
            max_distance,
        ),
{
    let entries = match parse_index(index_file) {
        Ok(entries) => entries,
        Err(e) => {
            return Err(e);
        },
    };
    Ok(scan_entries(&entries, blob, query, max_distance))
}

/// Bake-then-scan round trip: after baking records whose offsets partition
/// the blob, scanning with the fingerprint of record `k` as the query mask
/// reports record `k`'s text at distance zero, provided that text decodes as
/// UTF-8 and no other record carries the same text.
pub proof fn lemma_bake_scan_roundtrip(
    entries: Seq<IndexEntry>,
    blob: Seq<u8>,
    k: int,
    max_distance: u32,
)
    requires
        crate::bake::index_partitions(entries, blob.len() as int),
        0 <= k < entries.len(),
        max_distance >= 1,
        valid_utf8(record_text(entries, blob, k)),
        forall|j: int|
            0 <= j < entries.len() && j != k ==> record_text(entries, blob, j) != record_text(
                entries,
                blob,
                k,
            ),
    ensures
        scan_matches(entries, blob, entries[k].hash, max_distance).contains_key(
            record_text(entries, blob, k),
        ),
        scan_matches(entries, blob, entries[k].hash, max_distance)[record_text(
            entries,
            blob,
            k,
        )] == 0,
{
    crate::bake::lemma_baked_index_invariant(entries, blob);
    lemma_hamming64_self(entries[k].hash);
    lemma_scan_roundtrip_rec(entries, blob, k, max_distance, entries.len() as int);
    assert(entries.take(entries.len() as int) =~= entries);
}

proof fn lemma_scan_roundtrip_rec(
    entries: Seq<IndexEntry>,
    blob: Seq<u8>,
    k: int,
    max_distance: u32,
    n: int,
)
    requires
        0 <= k < n <= entries.len(),
        max_distance >= 1,
        count_ones64(entries[k].hash ^ entries[k].hash) == 0,
        entries[k].offset + entries[k].len <= blob.len(),
        valid_utf8(record_text(entries, blob, k)),
        forall|j: int|
            0 <= j < entries.len() && j != k ==> record_text(entries, blob, j) != record_text(
                entries,
                blob,
                k,
            ),
    ensures
        scan_matches(entries.take(n), blob, entries[k].hash, max_distance).contains_key(
            record_text(entries, blob, k),
        ),
        scan_matches(entries.take(n), blob, entries[k].hash, max_distance)[record_text(
            entries,
            blob,
            k,
        )] == 0,
    decreases n,
{
    let q = entries[k].hash;
    let text_k = record_text(entries, blob, k);
    let pre = entries.take(n);
    assert(pre.drop_last() =~= entries.take(n - 1));
    assert(pre.last() == entries[n - 1]);
    if n - 1 == k {
        let e = entries[k];
        assert(entry_hit(e, blob, q, max_distance));
        assert(blob.subrange(e.offset as int, e.offset + e.len) == text_k);
    } else {
        lemma_scan_roundtrip_rec(entries, blob, k, max_distance, n - 1);
        let e = entries[n - 1];
        if entry_hit(e, blob, q, max_distance) {
            assert(blob.subrange(e.offset as int, e.offset + e.len) == record_text(
                entries,
                blob,
                n - 1,
            ));
            assert(record_text(entries, blob, n - 1) != text_k);
        }
    }
}

/// Every distance a scan reports lies strictly below the threshold.
pub proof fn lemma_scan_distances_within(
    entries: Seq<IndexEntry>,
    blob: Seq<u8>,
    query: u64,
    max_distance: u32,
)
    ensures
        forall|k: Seq<u8>|
            scan_matches(entries, blob, query, max_distance).contains_key(k)
                ==> #[trigger] scan_matches(entries, blob, query, max_distance)[k]
                < max_distance,
    decreases entries.len(),
{
    if entries.len() > 0 {
        lemma_scan_distances_within(entries.drop_last(), blob, query, max_distance);
        let m0 = scan_matches(entries.drop_last(), blob, query, max_distance);
        let m = scan_matches(entries, blob, query, max_distance);
        let e = entries.last();
        if entry_hit(e, blob, query, max_distance) {
            lemma_count_ones64_bound(e.hash ^ query);
            let key = blob.subrange(e.offset as int, e.offset + e.len);
            assert forall|k: Seq<u8>| m.contains_key(k) implies #[trigger] m[k]
                < max_distance by {
                if k == key {
                    assert(m[k] == count_ones64(e.hash ^ query) as u32);
                } else {
                    assert(m0.contains_key(k) && m[k] == m0[k]);
                }
            }
        }
    }
}

/// Threshold boundary: the comparison is strictly `distance < max_distance`,
/// so an entry at exactly the threshold distance contributes nothing.
pub proof fn lemma_threshold_boundary(
    entries: Seq<IndexEntry>,
    e: IndexEntry,
    blob: Seq<u8>,
    query: u64,
    max_distance: u32,
)
    requires
        count_ones64(e.hash ^ query) == max_distance,
    ensures
        scan_matches(entries.push(e), blob, query, max_distance) == scan_matches(
            entries,
            blob,
            query,
            max_distance,
        ),
{
    assert(entries.push(e).drop_last() =~= entries);
    assert(!entry_hit(e, blob, query, max_distance));
}

} // verus!
