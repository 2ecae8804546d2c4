//! The on-disk binary index format: fixed-width little-endian records
//! `{hash: 8 bytes, offset: 8 bytes, length: 4 bytes}`, no header.
//!
//! The codec is explicit — a pure encode to a fixed-size byte string and a
//! bounds-checked decode — so the format carries no memory-layout assumption.

use vstd::prelude::*;
use vstd::bytes::lemma_auto_spec_u32_to_from_le_bytes;
use vstd::bytes::lemma_auto_spec_u64_to_from_le_bytes;
use vstd::bytes::spec_u32_from_le_bytes;
use vstd::bytes::spec_u32_to_le_bytes;
use vstd::bytes::spec_u64_from_le_bytes;
use vstd::bytes::spec_u64_to_le_bytes;
use vstd::bytes::u32_from_le_bytes;
use vstd::bytes::u32_to_le_bytes;
use vstd::bytes::u64_from_le_bytes;
use vstd::bytes::u64_to_le_bytes;
use crate::errors::EngineError;

verus! {

/// Width in bytes of one serialized index entry.
pub const ENTRY_WIDTH: usize = 20;

/// One fixed-size index record: the record's fingerprint hash, the byte
/// offset of its raw text in the blob file, and that text's byte length.
#[derive(Clone, Copy, Debug, PartialEq, Eq, Structural)]
pub struct IndexEntry {
    pub hash: u64,
    pub offset: u64,
    pub len: u32,
}

/// The 20-byte little-endian encoding of one entry.
pub open spec fn entry_bytes(e: IndexEntry) -> Seq<u8> {
    spec_u64_to_le_bytes(e.hash) + spec_u64_to_le_bytes(e.offset) + spec_u32_to_le_bytes(e.len)
}

/// The entry read back from a 20-byte chunk.
pub open spec fn decode_entry_spec(b: Seq<u8>) -> IndexEntry
    recommends
        b.len() == 20,
{
    IndexEntry {
        hash: spec_u64_from_le_bytes(b.subrange(0, 8)),
        offset: spec_u64_from_le_bytes(b.subrange(8, 16)),
        len: spec_u32_from_le_bytes(b.subrange(16, 20)),
    }
}

/// Concatenated encodings of a sequence of entries: the whole index file.
pub open spec fn index_bytes(entries: Seq<IndexEntry>) -> Seq<u8>
    decreases entries.len(),
{
    if entries.len() == 0 {
        Seq::empty()
    } else {
        index_bytes(entries.drop_last()) + entry_bytes(entries.last())
    }
}

/// The entries read back from an index file whose size is a multiple of the
/// entry width.
pub open spec fn parse_index_spec(b: Seq<u8>) -> Seq<IndexEntry>
    decreases b.len(),
{
    if b.len() < 20 {
        Seq::empty()
    } else {
        parse_index_spec(b.take(b.len() - 20)).push(
            decode_entry_spec(b.skip(b.len() - 20)),
        )
    }
}

pub proof fn lemma_entry_bytes_len(e: IndexEntry)
    ensures
        entry_bytes(e).len() == 20,
{
    lemma_auto_spec_u64_to_from_le_bytes();
    lemma_auto_spec_u32_to_from_le_bytes();
}

/// An index file holds exactly `entry count * entry width` bytes.
pub proof fn lemma_index_bytes_len(entries: Seq<IndexEntry>)
    ensures
        index_bytes(entries).len() == entries.len() * 20,
    decreases entries.len(),
{
    if entries.len() > 0 {
        lemma_index_bytes_len(entries.drop_last());
        lemma_entry_bytes_len(entries.last());
    }
}

/// Decoding a chunk produced by the encoder gives back the entry.
pub proof fn lemma_entry_roundtrip(e: IndexEntry)
    ensures
        decode_entry_spec(entry_bytes(e)) == e,
{
    lemma_auto_spec_u64_to_from_le_bytes();
    lemma_auto_spec_u32_to_from_le_bytes();
    lemma_entry_bytes_len(e);
    let b = entry_bytes(e);
    assert(b.subrange(0, 8) =~= spec_u64_to_le_bytes(e.hash));
    assert(b.subrange(8, 16) =~= spec_u64_to_le_bytes(e.offset));
    assert(b.subrange(16, 20) =~= spec_u32_to_le_bytes(e.len));
}

/// Parsing an encoded index gives back the entries that were written.
pub proof fn lemma_index_roundtrip(entries: Seq<IndexEntry>)
    ensures
        parse_index_spec(index_bytes(entries)) == entries,
    decreases entries.len(),
{
    if entries.len() == 0 {
        assert(parse_index_spec(index_bytes(entries)) =~= entries);
    } else {
        let b = index_bytes(entries);
        lemma_index_bytes_len(entries);
        lemma_index_bytes_len(entries.drop_last());
        lemma_entry_bytes_len(entries.last());
        assert(b.take(b.len() - 20) =~= index_bytes(entries.drop_last()));
        assert(b.skip(b.len() - 20) =~= entry_bytes(entries.last()));
        lemma_index_roundtrip(entries.drop_last());
        lemma_entry_roundtrip(entries.last());
        assert(parse_index_spec(b) =~= entries);
    }
}

/// Serializes one entry as 20 little-endian bytes.
pub fn encode_entry(e: &IndexEntry) -> (r: Vec<u8>)
    ensures
        r@ == entry_bytes(*e),
        r@.len() == 20,
{
    let mut r = u64_to_le_bytes(e.hash);
    let mut o = u64_to_le_bytes(e.offset);
    let mut l = u32_to_le_bytes(e.len);
    r.append(&mut o);
    r.append(&mut l);
    proof {
        lemma_entry_bytes_len(*e);
        assert(r@ =~= entry_bytes(*e));
    }
    r
}

/// Reads one entry back from a 20-byte chunk.
pub fn decode_entry(b: &[u8]) -> (e: IndexEntry)
    requires
        b@.len() == 20,
    ensures
        e == decode_entry_spec(b@),
        entry_bytes(e) == b@,
{
    let hash = u64_from_le_bytes(&b[0..8]);
    let offset = u64_from_le_bytes(&b[8..16]);
    let len = u32_from_le_bytes(&b[16..20]);
    let e = IndexEntry { hash, offset, len };
    proof {
        lemma_auto_spec_u64_to_from_le_bytes();
        lemma_auto_spec_u32_to_from_le_bytes();
        assert(entry_bytes(e) =~= b@);
    }
    e
}

/// Serializes a whole entry list: the bytes of the index file.
pub fn encode_index(entries: &Vec<IndexEntry>) -> (r: Vec<u8>)
    ensures
        r@ == index_bytes(entries@),
        r@.len() == entries@.len() * 20,
{
    let mut r: Vec<u8> = Vec::new();
    let mut i: usize = 0;
    proof {
        assert(r@ =~= index_bytes(entries@.take(0)));
    }
    while i < entries.len()
        invariant
            i <= entries@.len(),
            r@ == index_bytes(entries@.take(i as int)),
        decreases entries@.len() - i,
    {
        let mut chunk = encode_entry(&entries[i]);
        proof {
            assert(entries@.take(i + 1).drop_last() =~= entries@.take(i as int));
            assert(entries@.take(i + 1).last() == entries@[i as int]);
        }
        r.append(&mut chunk);
        i += 1;
    }
    proof {
        assert(entries@.take(entries@.len() as int) =~= entries@);
        lemma_index_bytes_len(entries@);
    }
    r
}

/// Deserializes an index file. Fails with `CorruptIndex` — and only then —
/// when the file size is not a multiple of the entry width.
pub fn parse_index(b: &[u8]) -> (r: Result<Vec<IndexEntry>, EngineError>)
    ensures
        r is Ok <==> b@.len() % 20 == 0,
        r is Err ==> r == Err::<Vec<IndexEntry>, EngineError>(EngineError::CorruptIndex),
        r matches Ok(v) ==> v@ == parse_index_spec(b@) && index_bytes(v@) == b@,
{
    let n = b.len();
    if n % ENTRY_WIDTH != 0 {
        return Err(EngineError::CorruptIndex);
    }
    let count = n / ENTRY_WIDTH;
    let mut v: Vec<IndexEntry> = Vec::new();
    let mut i: usize = 0;
    proof {
        assert(v@ =~= parse_index_spec(b@.take(0)));
        assert(index_bytes(v@) =~= b@.take(0));
    }
    while i < count
        invariant
            i <= count,
            count * 20 == b@.len(),
            count * 20 <= usize::MAX,
            count == b@.len() / 20,
            v@.len() == i,
            v@ == parse_index_spec(b@.take(20 * i)),
            index_bytes(v@) == b@.take(20 * i),
        decreases count - i,
    {
        proof {
            assert((i + 1) * 20 <= count * 20) by (nonlinear_arith)
                requires
                    i < count,
            ;
            assert(i * 20 + 20 <= usize::MAX);
        }
        let start = i * ENTRY_WIDTH;
        let e = decode_entry(&b[start..start + ENTRY_WIDTH]);
        proof {
            let pre = b@.take(20 * (i + 1));
            assert(pre.len() == 20 * (i + 1));
            assert(pre.take(pre.len() - 20) =~= b@.take(20 * i));
            assert(pre.skip(pre.len() - 20) =~= b@.subrange(
                start as int,
                start as int + 20,
            ));
            assert(parse_index_spec(pre) == parse_index_spec(b@.take(20 * i)).push(
                decode_entry_spec(b@.subrange(start as int, start as int + 20)),
            ));
        }
        let ghost old_v = v@;
        v.push(e);
        proof {
            assert(v@ == old_v.push(e));
            assert(v@.drop_last() =~= old_v);
            assert(index_bytes(v@) == index_bytes(old_v) + entry_bytes(e));
            assert(index_bytes(v@) =~= b@.take(20 * (i + 1)));
        }
        i += 1;
    }
    proof {
        assert(b@.take(20 * (count as int)) =~= b@);
    }
    Ok(v)
}

} // verus!
