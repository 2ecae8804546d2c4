//! Bake mode: appending records to the paired binary index and raw-text blob.
//!
//! Entries are written strictly in input order; each entry's offset equals the
//! number of blob bytes written before it, so the offsets form a
//! non-overlapping partition of the blob.

use vstd::prelude::*;
use crate::index::encode_index;
use crate::index::index_bytes;
use crate::index::lemma_index_bytes_len;
use crate::index::IndexEntry;

verus! {

/// Total byte length of the texts of the first `n` entries.
pub open spec fn blob_len_prefix(entries: Seq<IndexEntry>, n: int) -> int
    decreases n,
{
    if n <= 0 {
        0
    } else {
        blob_len_prefix(entries, n - 1) + entries[n - 1].len
    }
}

/// The entries' offsets partition `[0, blob_size)` in order: each entry
/// starts where the previous one ended, and together they cover the blob.
pub open spec fn index_partitions(entries: Seq<IndexEntry>, blob_size: int) -> bool {
    &&& forall|i: int|
        0 <= i < entries.len() ==> entries[i].offset == blob_len_prefix(entries, i)
    &&& blob_len_prefix(entries, entries.len() as int) == blob_size
}

/// The raw text bytes of entry `i`, recovered from the blob by its offset
/// and length.
pub open spec fn record_text(entries: Seq<IndexEntry>, blob: Seq<u8>, i: int) -> Seq<u8>
    recommends
        0 <= i < entries.len(),
        entries[i].offset + entries[i].len <= blob.len(),
{
    blob.subrange(entries[i].offset as int, entries[i].offset + entries[i].len)
}

/// A prefix sum only depends on the entries before it.
proof fn lemma_blob_len_prefix_push(entries: Seq<IndexEntry>, e: IndexEntry, n: int)
    requires
        n <= entries.len(),
    ensures
        blob_len_prefix(entries.push(e), n) == blob_len_prefix(entries, n),
    decreases n,
{
    if n > 0 {
        lemma_blob_len_prefix_push(entries, e, n - 1);
    }
}

/// Prefix sums are monotone: no entry reaches past the end of the blob.
pub proof fn lemma_blob_len_prefix_monotone(entries: Seq<IndexEntry>, m: int, n: int)
    requires
        0 <= m <= n <= entries.len(),
    ensures
        blob_len_prefix(entries, m) <= blob_len_prefix(entries, n),
    decreases n,
{
    if m < n {
        lemma_blob_len_prefix_monotone(entries, m, n - 1);
    }
}

/// Builder for the paired index and blob files. Append-only; the partition
/// invariant holds after every append.
pub struct IndexBuilder {
    entries: Vec<IndexEntry>,
    blob: Vec<u8>,
}

impl IndexBuilder {
    /// The entries appended so far, in input order.
    pub closed spec fn entries_view(&self) -> Seq<IndexEntry> {
        self.entries@
    }

    /// The blob bytes written so far.
    pub closed spec fn blob_view(&self) -> Seq<u8> {
        self.blob@
    }

    /// The builder's offsets always partition its blob.
    pub open spec fn wf(&self) -> bool {
        index_partitions(self.entries_view(), self.blob_view().len() as int)
    }

    /// An empty index and an empty blob.
    pub fn new() -> (r: IndexBuilder)
        ensures
            r.wf(),
            r.entries_view() == Seq::<IndexEntry>::empty(),
            r.blob_view() == Seq::<u8>::empty(),
    {
        IndexBuilder { entries: Vec::new(), blob: Vec::new() }
    }

    /// Number of records baked so far.
    pub fn count(&self) -> (n: usize)
        ensures
            n == self.entries_view().len(),
    {
        self.entries.len()
    }

    /// Number of blob bytes written so far: the next entry's offset.
    pub fn blob_size(&self) -> (n: usize)
        ensures
            n == self.blob_view().len(),
    {
        self.blob.len()
    }

    /// Appends one record: the text bytes go to the end of the blob, and an
    /// entry `{hash, previous blob size, text length}` goes to the index.
    pub fn append(&mut self, hash: u64, text: &Vec<u8>)
        requires
            old(self).wf(),
            text@.len() <= u32::MAX,
            old(self).blob_view().len() + text@.len() <= usize::MAX,
        ensures
            final(self).wf(),
            final(self).entries_view() == old(self).entries_view().push(
                IndexEntry {
                    hash,
                    offset: old(self).blob_view().len() as u64,
                    len: text@.len() as u32,
                },
            ),
            final(self).blob_view() == old(self).blob_view() + text@,
    {
        let e = IndexEntry { hash, offset: self.blob.len() as u64, len: text.len() as u32 };
        let ghost old_entries = self.entries@;
        let ghost old_blob = self.blob@;
        self.entries.push(e);
        self.blob.extend_from_slice(text.as_slice());
        proof {
            assert(self.blob@ =~= old_blob + text@);
            let es = self.entries@;
            assert(es == old_entries.push(e));
            assert forall|i: int| 0 <= i < es.len() implies es[i].offset == blob_len_prefix(
                es,
                i,
            ) by {
                lemma_blob_len_prefix_push(old_entries, e, i);
                if i < old_entries.len() {
                    assert(es[i] == old_entries[i]);
                } else {
                    assert(es[i] == e);
                    assert(blob_len_prefix(es, i) == blob_len_prefix(old_entries, i));
                }
            }
            lemma_blob_len_prefix_push(old_entries, e, old_entries.len() as int);
            assert(blob_len_prefix(es, es.len() as int) == blob_len_prefix(
                old_entries,
                old_entries.len() as int,
            ) + e.len);
        }
    }

    /// Appends a whole batch in order. Texts and hashes pair up by position.
    pub fn append_batch(&mut self, hashes: &Vec<u64>, texts: &Vec<Vec<u8>>)
        requires
            old(self).wf(),
            hashes@.len() == texts@.len(),
            forall|i: int| 0 <= i < texts@.len() ==> texts@[i]@.len() <= u32::MAX,
            old(self).blob_view().len() + total_text_len(texts@, texts@.len() as int)
                <= usize::MAX,
        ensures
            final(self).wf(),
            final(self).entries_view() == old(self).entries_view() + batch_entries(
                hashes@,
                texts@,
                old(self).blob_view().len() as int,
            ),
            final(self).blob_view() == old(self).blob_view() + concat_texts(
                texts@,
                texts@.len() as int,
            ),
    {
        let n = texts.len();
        let ghost base_entries = self.entries_view();
        let ghost base_blob = self.blob_view();
        let mut i: usize = 0;
        proof {
            assert(self.entries_view() =~= base_entries + batch_entries(
                hashes@.take(0),
                texts@.take(0),
                base_blob.len() as int,
            ));
            assert(self.blob_view() =~= base_blob + concat_texts(texts@.take(0), 0));
        }
        while i < n
            invariant
                i <= n,
                n == texts@.len(),
                hashes@.len() == n,
                forall|j: int| 0 <= j < n ==> texts@[j]@.len() <= u32::MAX,
                base_blob.len() + total_text_len(texts@, n as int) <= usize::MAX,
                self.wf(),
                self.blob_view().len() == base_blob.len() + total_text_len(texts@, i as int),
                self.entries_view() == base_entries + batch_entries(
                    hashes@.take(i as int),
                    texts@.take(i as int),
                    base_blob.len() as int,
                ),
                self.blob_view() == base_blob + concat_texts(texts@.take(i as int), i as int),
            decreases n - i,
        {
            proof {
                lemma_total_text_len_monotone(texts@, i + 1, n as int);
            }
            self.append(hashes[i], &texts[i]);
            proof {
                let hs = hashes@.take(i + 1);
                let ts = texts@.take(i + 1);
                assert(hs.drop_last() =~= hashes@.take(i as int));
                assert(ts.drop_last() =~= texts@.take(i as int));
                lemma_total_text_len_take(texts@, i + 1, i as int);
                assert(total_text_len(ts, i as int) == total_text_len(texts@, i as int));
                assert(self.entries_view() =~= base_entries + batch_entries(
                    hs,
                    ts,
                    base_blob.len() as int,
                ));
                lemma_concat_texts_take(texts@, i + 1, i as int);
                lemma_concat_texts_take(texts@, i as int, i as int);
                assert(concat_texts(ts, (i + 1) as int) == concat_texts(ts, i as int)
                    + ts[i as int]@);
                assert(self.blob_view() =~= base_blob + concat_texts(ts, (i + 1) as int));
            }
            i += 1;
        }
        proof {
            assert(hashes@.take(n as int) =~= hashes@);
            assert(texts@.take(n as int) =~= texts@);
        }
    }

    /// Serializes the finished pair: the index file bytes and the blob bytes.
    pub fn finish(self) -> (r: (Vec<u8>, Vec<u8>))
        ensures
            r.0@ == index_bytes(self.entries_view()),
            r.0@.len() == self.entries_view().len() * 20,
            r.1@ == self.blob_view(),
    {
        let idx = encode_index(&self.entries);
        (idx, self.blob)
    }
}

/// Total byte length of the first `n` texts.
pub open spec fn total_text_len(texts: Seq<Vec<u8>>, n: int) -> int
    decreases n,
{
    if n <= 0 {
        0
    } else {
        total_text_len(texts, n - 1) + texts[n - 1]@.len()
    }
}

proof fn lemma_total_text_len_monotone(texts: Seq<Vec<u8>>, m: int, n: int)
    requires
        0 <= m <= n <= texts.len(),
    ensures
        total_text_len(texts, m) <= total_text_len(texts, n),
    decreases n,
{
    if m < n {
        lemma_total_text_len_monotone(texts, m, n - 1);
    }
}

proof fn lemma_total_text_len_take(texts: Seq<Vec<u8>>, m: int, k: int)
    requires
        0 <= k <= m <= texts.len(),
    ensures
        total_text_len(texts.take(m), k) == total_text_len(texts, k),
    decreases k,
{
    if k > 0 {
        lemma_total_text_len_take(texts, m, k - 1);
    }
}

/// The first `n` texts, concatenated: the blob bytes a batch contributes.
pub open spec fn concat_texts(texts: Seq<Vec<u8>>, n: int) -> Seq<u8>
    decreases n,
{
    if n <= 0 {
        Seq::empty()
    } else {
        concat_texts(texts, n - 1) + texts[n - 1]@
    }
}

proof fn lemma_concat_texts_take(texts: Seq<Vec<u8>>, m: int, k: int)
    requires
        0 <= k <= m <= texts.len(),
    ensures
        concat_texts(texts.take(m), k) == concat_texts(texts, k),
    decreases k,
{
    if k > 0 {
        lemma_concat_texts_take(texts, m, k - 1);
    }
}

/// The index entries one batch contributes when appended after `base` blob
/// bytes: texts laid out in order, each entry starting where the previous
/// text ended.
pub open spec fn batch_entries(hashes: Seq<u64>, texts: Seq<Vec<u8>>, base: int) -> Seq<
    IndexEntry,
>
    recommends
        hashes.len() == texts.len(),
    decreases texts.len(),
{
    if texts.len() == 0 {
        Seq::empty()
    } else {
        batch_entries(hashes.drop_last(), texts.drop_last(), base).push(
            IndexEntry {
                hash: hashes.last(),
                offset: (base + total_text_len(texts, texts.len() - 1)) as u64,
                len: texts.last()@.len() as u32,
            },
        )
    }
}

/// After baking `N` records the partition facts of the index file hold:
/// the serialized index holds exactly `N * 20` bytes, the entry lengths sum
/// to the blob size, and the offsets tile `[0, blob_size)` in order.
pub proof fn lemma_baked_index_invariant(entries: Seq<IndexEntry>, blob: Seq<u8>)
    requires
        index_partitions(entries, blob.len() as int),
    ensures
        index_bytes(entries).len() == entries.len() * 20,
        blob_len_prefix(entries, entries.len() as int) == blob.len(),
        entries.len() > 0 ==> entries[0].offset == 0,
        forall|i: int|
            0 <= i < entries.len() - 1 ==> entries[i].offset + entries[i].len == entries[i
                + 1].offset,
        entries.len() > 0 ==> entries.last().offset + entries.last().len == blob.len(),
        forall|i: int|
            0 <= i < entries.len() ==> entries[i].offset + entries[i].len <= blob.len(),
{
    lemma_index_bytes_len(entries);
    assert forall|i: int| 0 <= i < entries.len() implies entries[i].offset + entries[i].len
        <= blob.len() by {
        assert(entries[i].offset == blob_len_prefix(entries, i));
        assert(blob_len_prefix(entries, i + 1) == blob_len_prefix(entries, i)
            + entries[i].len);
        lemma_blob_len_prefix_monotone(entries, i + 1, entries.len() as int);
    }
    assert forall|i: int| 0 <= i < entries.len() - 1 implies entries[i].offset
        + entries[i].len == entries[i + 1].offset by {
        assert(entries[i].offset == blob_len_prefix(entries, i));
        assert(entries[i + 1].offset == blob_len_prefix(entries, i + 1));
    }
    if entries.len() > 0 {
        let n = entries.len() as int;
        assert(entries[0].offset == blob_len_prefix(entries, 0));
        assert(entries[n - 1].offset == blob_len_prefix(entries, n - 1));
        assert(blob_len_prefix(entries, n) == blob_len_prefix(entries, n - 1)
            + entries[n - 1].len);
    }
}

} // verus!
