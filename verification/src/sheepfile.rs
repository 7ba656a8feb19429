//! The repack container format: the `index.shp` layout (a little-endian
//! entry count, then one fixed 22-byte record per entry) and the names of
//! the segment files that hold the payload bytes.
use vstd::prelude::*;
use crate::bytes::{spec_u16_le, spec_u32_le, spec_u64_le, u16_le_bytes, u32_le_bytes,
    u64_le_bytes, push_u16_le, push_u32_le, push_u64_le, read_u16_le, read_u32_le, read_u64_le,
    lemma_u16_le_round, lemma_u32_le_round, lemma_u64_le_round, lemma_u16_le_bytes_of,
    lemma_u32_le_bytes_of, lemma_u64_le_bytes_of};
use crate::error::Error;
use crate::text::{spec_decimal, decimal_string};

verus! {

/// The name of the index file inside a repack directory.
pub const INDEX_FILENAME: &'static str = "index.shp";

/// The size cap of one segment file.
pub const MAX_DATA_FILE_SIZE_BYTES: u64 = 256000000;

/// One index record: where a file's bytes sit among the segment files.
#[derive(Clone, Copy, Debug, PartialEq, Eq, Structural)]
pub struct Entry {
    pub file_id: u32,
    pub name_hash: u64,
    pub data_file_index: u16,
    pub start_bytes: u32,
    pub size_bytes: u32,
}

/// The whole index: the record count and the records.
#[derive(Debug)]
pub struct Index {
    pub num_entries: u32,
    pub entries: Vec<Entry>,
}

/// The name of segment file `index`: `data{index}.baa`.
pub fn get_data_filename(index: usize) -> (r: String)
    ensures
        r@ == "data"@ + spec_decimal(index as nat) + ".baa"@,
{
    let mut s = String::new();
    s.append("data");
    let digits = decimal_string(index as u64);
    s.append(digits.as_str());
    s.append(".baa");
    proof {
        assert(s@ =~= "data"@ + spec_decimal(index as nat) + ".baa"@);
    }
    s
}

/// The 22 little-endian bytes of one record.
pub open spec fn spec_entry_bytes(e: Entry) -> Seq<u8> {
    u32_le_bytes(e.file_id) + u64_le_bytes(e.name_hash) + u16_le_bytes(e.data_file_index)
        + u32_le_bytes(e.start_bytes) + u32_le_bytes(e.size_bytes)
}

/// The record read from the 22 bytes at `p`.
pub open spec fn spec_entry_from(s: Seq<u8>, p: int) -> Entry {
    Entry {
        file_id: spec_u32_le(s, p) as u32,
        name_hash: spec_u64_le(s, p + 4) as u64,
        data_file_index: spec_u16_le(s, p + 12) as u16,
        start_bytes: spec_u32_le(s, p + 14) as u32,
        size_bytes: spec_u32_le(s, p + 18) as u32,
    }
}

/// The records rendered back to back.
pub open spec fn spec_entries_bytes(es: Seq<Entry>) -> Seq<u8>
    decreases es.len(),
{
    if es.len() == 0 {
        Seq::empty()
    } else {
        spec_entries_bytes(es.drop_last()) + spec_entry_bytes(es.last())
    }
}

/// The whole index rendered: the count, then the records.
pub open spec fn spec_index_bytes(es: Seq<Entry>) -> Seq<u8>
    recommends
        es.len() <= u32::MAX,
{
    u32_le_bytes(es.len() as u32) + spec_entries_bytes(es)
}

/// What parsing an index blob yields: the records, when the blob holds
/// the count and at least that many records; extra trailing bytes are
/// ignored.
pub open spec fn spec_parse_index(s: Seq<u8>) -> Option<Seq<Entry>> {
    if s.len() < 4 {
        None
    } else {
        let n = spec_u32_le(s, 0);
        if 4 + 22 * n > s.len() {
            None
        } else {
            Some(Seq::new(n as nat, |k: int| spec_entry_from(s, 4 + 22 * k)))
        }
    }
}

/// Rendered records take 22 bytes each.
pub proof fn lemma_entries_bytes_len(es: Seq<Entry>)
    ensures
        spec_entries_bytes(es).len() == 22 * es.len(),
    decreases es.len(),
{
    if es.len() == 0 {
    } else {
        lemma_entries_bytes_len(es.drop_last());
    }
}

/// A record read back from its own rendering is itself.
proof fn lemma_entry_round(e: Entry)
    ensures
        spec_entry_from(spec_entry_bytes(e), 0) == e,
        spec_entry_bytes(e).len() == 22,
{
    let b = spec_entry_bytes(e);
    assert(b.subrange(0, 4) =~= u32_le_bytes(e.file_id));
    assert(b.subrange(4, 12) =~= u64_le_bytes(e.name_hash));
    assert(b.subrange(12, 14) =~= u16_le_bytes(e.data_file_index));
    assert(b.subrange(14, 18) =~= u32_le_bytes(e.start_bytes));
    assert(b.subrange(18, 22) =~= u32_le_bytes(e.size_bytes));
    lemma_u32_le_round(e.file_id);
    lemma_u64_le_round(e.name_hash);
    lemma_u16_le_round(e.data_file_index);
    lemma_u32_le_round(e.start_bytes);
    lemma_u32_le_round(e.size_bytes);
    assert(spec_u32_le(b, 0) == spec_u32_le(u32_le_bytes(e.file_id), 0));
    assert(spec_u64_le(b, 4) == spec_u64_le(u64_le_bytes(e.name_hash), 0));
    assert(spec_u16_le(b, 12) == spec_u16_le(u16_le_bytes(e.data_file_index), 0));
    assert(spec_u32_le(b, 14) == spec_u32_le(u32_le_bytes(e.start_bytes), 0));
    assert(spec_u32_le(b, 18) == spec_u32_le(u32_le_bytes(e.size_bytes), 0));
}

/// A record parsed from a window renders back to that window.
proof fn lemma_entry_bytes_of(s: Seq<u8>, p: int)
    requires
        0 <= p,
        p + 22 <= s.len(),
    ensures
        spec_entry_bytes(spec_entry_from(s, p)) == s.subrange(p, p + 22),
{
    lemma_u32_le_bytes_of(s, p);
    lemma_u64_le_bytes_of(s, p + 4);
    lemma_u16_le_bytes_of(s, p + 12);
    lemma_u32_le_bytes_of(s, p + 14);
    lemma_u32_le_bytes_of(s, p + 18);
    assert(spec_entry_bytes(spec_entry_from(s, p)) =~= s.subrange(p, p + 22));
}

/// Where each record sits inside the rendering: record `j` occupies the
/// 22 bytes at `22 * j`.
proof fn lemma_entries_bytes_index(es: Seq<Entry>, j: int)
    requires
        0 <= j < es.len(),
    ensures
        spec_entries_bytes(es).subrange(22 * j, 22 * j + 22) == spec_entry_bytes(es[j]),
    decreases es.len(),
{
    lemma_entries_bytes_len(es);
    lemma_entries_bytes_len(es.drop_last());
    lemma_entry_round(es.last());
    if j == es.len() - 1 {
        assert(spec_entries_bytes(es).subrange(22 * j, 22 * j + 22)
            =~= spec_entry_bytes(es.last()));
    } else {
        lemma_entries_bytes_index(es.drop_last(), j);
        assert(spec_entries_bytes(es).subrange(22 * j, 22 * j + 22)
            =~= spec_entries_bytes(es.drop_last()).subrange(22 * j, 22 * j + 22));
        assert(es.drop_last()[j] == es[j]);
    }
}

/// Parsing the rendering of any record list gives the list back.
pub proof fn lemma_index_round_trip(es: Seq<Entry>)
    requires
        es.len() <= u32::MAX,
    ensures
        spec_parse_index(spec_index_bytes(es)) == Some(es),
{
    let b = spec_index_bytes(es);
    lemma_entries_bytes_len(es);
    lemma_u32_le_round(es.len() as u32);
    assert(b.subrange(0, 4) =~= u32_le_bytes(es.len() as u32));
    assert(spec_u32_le(b, 0) == spec_u32_le(u32_le_bytes(es.len() as u32), 0));
    assert(spec_u32_le(b, 0) == es.len());
    let parsed = spec_parse_index(b)->Some_0;
    assert forall|k: int| 0 <= k < es.len() implies #[trigger] parsed[k] == es[k] by {
        lemma_entries_bytes_index(es, k);
        lemma_entry_round(es[k]);
        assert(b.subrange(4 + 22 * k, 4 + 22 * k + 22)
            =~= spec_entries_bytes(es).subrange(22 * k, 22 * k + 22));
        let w = b.subrange(4 + 22 * k, 4 + 22 * k + 22);
        assert(w == spec_entry_bytes(es[k]));
        assert(spec_u32_le(b, 4 + 22 * k) == spec_u32_le(w, 0));
        assert(spec_u64_le(b, 4 + 22 * k + 4) == spec_u64_le(w, 4));
        assert(spec_u16_le(b, 4 + 22 * k + 12) == spec_u16_le(w, 12));
        assert(spec_u32_le(b, 4 + 22 * k + 14) == spec_u32_le(w, 14));
        assert(spec_u32_le(b, 4 + 22 * k + 18) == spec_u32_le(w, 18));
        assert(spec_entry_from(b, 4 + 22 * k) == spec_entry_from(w, 0));
        assert(spec_entry_from(w, 0) == es[k]);
    }
    assert(parsed =~= es);
}

/// Rendering the records parsed from a blob that holds nothing else gives
/// the blob back, byte for byte.
pub proof fn lemma_index_reserialize(b: Seq<u8>)
    requires
        spec_parse_index(b) is Some,
        b.len() == 4 + 22 * spec_parse_index(b)->Some_0.len(),
    ensures
        spec_index_bytes(spec_parse_index(b)->Some_0) == b,
{
    let es = spec_parse_index(b)->Some_0;
    let n = spec_u32_le(b, 0);
    assert(es.len() == n);
    assert(n <= u32::MAX) by {
        assert(22 * n <= b.len());
    }
    lemma_u32_le_bytes_of(b, 0);
    assert(u32_le_bytes(es.len() as u32) == b.subrange(0, 4));
    assert forall|k: int| 0 <= k <= es.len()
        implies #[trigger] spec_entries_bytes(es.take(k)) == b.subrange(4, 4 + 22 * k) by {
        lemma_reserialize_prefix(b, es, k);
    }
    assert(es.take(es.len() as int) =~= es);
    assert(spec_entries_bytes(es) == b.subrange(4, 4 + 22 * es.len() as int));
    assert(spec_index_bytes(es) =~= b);
}

/// The first `k` records of a parsed blob render back to its first
/// `4 + 22 k` bytes after the count.
proof fn lemma_reserialize_prefix(b: Seq<u8>, es: Seq<Entry>, k: int)
    requires
        spec_parse_index(b) is Some,
        es == spec_parse_index(b)->Some_0,
        0 <= k <= es.len(),
    ensures
        spec_entries_bytes(es.take(k)) == b.subrange(4, 4 + 22 * k),
    decreases k,
{
    if k == 0 {
        assert(spec_entries_bytes(es.take(0)) =~= b.subrange(4, 4));
    } else {
        lemma_reserialize_prefix(b, es, k - 1);
        lemma_entry_bytes_of(b, 4 + 22 * (k - 1));
        assert(es.take(k).drop_last() =~= es.take(k - 1));
        assert(es.take(k).last() == es[k - 1]);
        assert(es[k - 1] == spec_entry_from(b, 4 + 22 * (k - 1)));
        assert(spec_entries_bytes(es.take(k))
            == spec_entries_bytes(es.take(k - 1)) + spec_entry_bytes(es[k - 1]));
        assert(b.subrange(4, 4 + 22 * k)
            =~= b.subrange(4, 4 + 22 * (k - 1))
                + b.subrange(4 + 22 * (k - 1), 4 + 22 * (k - 1) + 22));
    }
}

/// Renders an index: the record count, then the records back to back.
pub fn index_to_bytes(entries: &Vec<Entry>) -> (r: Vec<u8>)
    requires
        entries@.len() <= u32::MAX,
    ensures
        r@ == spec_index_bytes(entries@),
{
    let n = entries.len();
    let mut out: Vec<u8> = Vec::new();
    push_u32_le(&mut out, n as u32);
    let mut i: usize = 0;
    proof {
        assert(entries@.take(0) =~= Seq::<Entry>::empty());
        assert(out@ =~= u32_le_bytes(n as u32) + spec_entries_bytes(entries@.take(0)));
    }
    while i < n
        invariant
            n == entries@.len(),
            n <= u32::MAX,
            0 <= i <= n,
            out@ == u32_le_bytes(n as u32) + spec_entries_bytes(entries@.take(i as int)),
        decreases n - i,
    {
        let e = entries[i];
        let ghost out0 = out@;
        push_u32_le(&mut out, e.file_id);
        push_u64_le(&mut out, e.name_hash);
        push_u16_le(&mut out, e.data_file_index);
        push_u32_le(&mut out, e.start_bytes);
        push_u32_le(&mut out, e.size_bytes);
        proof {
            assert(out@ =~= out0 + spec_entry_bytes(e));
            assert(entries@.take(i + 1).drop_last() =~= entries@.take(i as int));
            assert(entries@.take(i + 1).last() == e);
            assert(out@ =~= u32_le_bytes(n as u32)
                + spec_entries_bytes(entries@.take(i + 1)));
        }
        i += 1;
    }
    proof {
        assert(entries@.take(n as int) =~= entries@);
    }
    out
}

/// Parses an index blob into its records.
///
/// Fails exactly when the blob cannot hold the count or as many records
/// as the count names; trailing bytes are ignored.
pub fn parse_index(data: &[u8]) -> (r: Result<Index, Error>)
    ensures
        match r {
            Ok(idx) => {
                &&& spec_parse_index(data@) == Some(idx.entries@)
                &&& idx.num_entries == idx.entries@.len()
            },
            Err(e) => spec_parse_index(data@) is None && e == Error::ParseError,
        },
{
    let len = data.len();
    if len < 4 {
        return Err(Error::ParseError);
    }
    let n = read_u32_le(data, 0);
    let nu = n as usize;
    if (len - 4) / 22 < nu {
        return Err(Error::ParseError);
    }
    let mut entries: Vec<Entry> = Vec::new();
    let mut k: usize = 0;
    while k < nu
        invariant
            len == data@.len(),
            n == spec_u32_le(data@, 0),
            nu == n,
            4 + 22 * nu <= len,
            0 <= k <= nu,
            entries@.len() == k,
            forall|j: int| 0 <= j < k
                ==> #[trigger] entries@[j] == spec_entry_from(data@, 4 + 22 * j),
        decreases nu - k,
    {
        let p = 4 + 22 * k;
        let file_id = read_u32_le(data, p);
        let name_hash = read_u64_le(data, p + 4);
        let data_file_index = read_u16_le(data, p + 12);
        let start_bytes = read_u32_le(data, p + 14);
        let size_bytes = read_u32_le(data, p + 18);
        entries.push(Entry { file_id, name_hash, data_file_index, start_bytes, size_bytes });
        k += 1;
    }
    proof {
        assert(entries@ =~= spec_parse_index(data@)->Some_0);
    }
    Ok(Index { num_entries: n, entries })
}

} // verus!
