//! The archive index: a trailer-described sequence of fixed-size blocks,
//! each holding 24-byte entries that map an encoded key to a byte range
//! inside the archive blob.
use vstd::prelude::*;
use std::collections::HashMap;
use crate::bytes::{spec_u32_le, spec_u32_be, read_u32_le, read_u32_be, read_16_bytes};
use crate::error::Error;
use crate::keys::{EKey, key_u128, key_u128_of, is_null_key, is_null_key_bytes};

verus! {

broadcast use vstd::std_specs::hash::group_hash_axioms;

/// The parsed archive index footer: the last 0x24 bytes of the blob.
#[derive(Clone, Copy, Debug)]
pub struct ArchiveIndexFooter {
    pub toc_hash: [u8; 16],
    pub version: u8,
    pub block_size_kb: u8,
    pub offset_bytes: u8,
    pub size_bytes: u8,
    pub key_size_in_bytes: u8,
    pub checksum_size: u8,
    pub num_files: u32,
}

/// One entry of an archive index: an encoded key and the byte range it
/// occupies inside the archive.
#[derive(Clone, Copy, Debug, PartialEq, Eq)]
pub struct ArchiveIndexEntry {
    pub ekey: EKey,
    pub size_bytes: u32,
    pub offset_bytes: u32,
}

/// Whether the footer shape assertions hold: version 1, 4 KiB blocks,
/// 4-byte offsets and sizes, 16-byte keys, 8-byte checksums.
pub open spec fn spec_footer_ok(s: Seq<u8>) -> bool {
    let fo = s.len() - 0x24;
    &&& s.len() >= 0x24
    &&& s[fo + 16] == 1u8
    &&& s[fo + 19] == 4u8
    &&& s[fo + 20] == 4u8
    &&& s[fo + 21] == 4u8
    &&& s[fo + 22] == 16u8
    &&& s[fo + 23] == 8u8
}

/// The `num_files` field of the footer.
pub open spec fn spec_num_files(s: Seq<u8>) -> int {
    spec_u32_le(s, s.len() - 0x24 + 24)
}

/// The start positions of the entries of one block: entries are read
/// sequentially until the remaining block bytes cannot hold one, or an
/// all-zero key is read; what follows is padding.
pub open spec fn spec_block_positions(s: Seq<u8>, pos: int, block_end: int) -> Seq<int>
    decreases block_end - pos,
{
    if pos < 0 || pos + 24 > block_end {
        Seq::empty()
    } else if is_null_key(s.subrange(pos, pos + 16)) {
        Seq::empty()
    } else {
        seq![pos] + spec_block_positions(s, pos + 24, block_end)
    }
}

/// The start positions of all entries, read block by block until `remaining`
/// entries have been found. A block that would reach past the footer, or a
/// total that would overshoot `remaining`, is a parse failure.
pub open spec fn spec_archive_positions(s: Seq<u8>, bs: int, start: int, remaining: int) -> Option<Seq<int>>
    decreases s.len() - start,
{
    if remaining <= 0 {
        Some(Seq::empty())
    } else if bs <= 0 || start < 0 || start + bs > s.len() - 0x24 {
        None
    } else {
        let ps = spec_block_positions(s, start, start + bs);
        if ps.len() > remaining {
            None
        } else {
            match spec_archive_positions(s, bs, start + bs, remaining - ps.len()) {
                Some(rest) => Some(ps + rest),
                None => None,
            }
        }
    }
}

/// What parsing an archive index blob yields: the entry positions, or
/// nothing when the footer or the block structure is malformed.
pub open spec fn spec_parse_archive(s: Seq<u8>) -> Option<Seq<int>> {
    if !spec_footer_ok(s) {
        None
    } else {
        spec_archive_positions(s, s[s.len() - 0x24 + 19] * 1024, 0, spec_num_files(s))
    }
}

/// Whether `e` holds exactly the fields of the 24-byte entry at `p`:
/// the key, then the size and the offset, both big-endian.
pub open spec fn entry_at(s: Seq<u8>, p: int, e: ArchiveIndexEntry) -> bool {
    &&& e.ekey@ == s.subrange(p, p + 16)
    &&& e.size_bytes == spec_u32_be(s, p + 16)
    &&& e.offset_bytes == spec_u32_be(s, p + 20)
}

/// The entry whose key packs to `k`, taking the last such entry when the
/// key occurs more than once.
pub open spec fn spec_lookup(entries: Seq<ArchiveIndexEntry>, k: u128) -> Option<ArchiveIndexEntry>
    decreases entries.len(),
{
    if entries.len() == 0 {
        None
    } else if key_u128_of(entries.last().ekey@) == k {
        Some(entries.last())
    } else {
        spec_lookup(entries.drop_last(), k)
    }
}

/// Appending an entry changes lookups only for that entry's key.
proof fn lemma_lookup_push(entries: Seq<ArchiveIndexEntry>, e: ArchiveIndexEntry, k: u128)
    ensures
        spec_lookup(entries.push(e), k) == if key_u128_of(e.ekey@) == k {
            Some(e)
        } else {
            spec_lookup(entries, k)
        },
{
    let pushed = entries.push(e);
    assert(pushed.last() == e);
    assert(pushed.drop_last() =~= entries);
}

/// A successful lookup's key is the key of some entry.
proof fn lemma_lookup_in_entries(entries: Seq<ArchiveIndexEntry>, k: u128)
    requires
        spec_lookup(entries, k) is Some,
    ensures
        exists|j: int| 0 <= j < entries.len()
            && key_u128_of((#[trigger] entries[j]).ekey@) == k,
    decreases entries.len(),
{
    if entries.len() == 0 {
    } else if key_u128_of(entries.last().ekey@) == k {
        assert(key_u128_of(entries[entries.len() - 1].ekey@) == k);
    } else {
        lemma_lookup_in_entries(entries.drop_last(), k);
        let j = choose|j: int| 0 <= j < entries.drop_last().len()
            && key_u128_of((#[trigger] entries.drop_last()[j]).ekey@) == k;
        assert(entries[j] == entries.drop_last()[j]);
    }
}

/// An index whose entries all carry non-sentinel keys answers no lookup
/// for the all-zero key: the sentinel never appears as a map key.
pub proof fn lemma_no_null_key_lookup(entries: Seq<ArchiveIndexEntry>, null: Seq<u8>)
    requires
        is_null_key(null),
        forall|j: int| 0 <= j < entries.len()
            ==> !is_null_key((#[trigger] entries[j]).ekey@),
        forall|j: int| 0 <= j < entries.len()
            ==> (#[trigger] entries[j]).ekey@.len() == 16,
    ensures
        spec_lookup(entries, key_u128_of(null)) is None,
    decreases entries.len(),
{
    assert(crate::keys::key_val(null) == 0);
    if entries.len() == 0 {
    } else {
        let e = entries.last();
        assert(key_u128_of(e.ekey@) != 0) by {
            if key_u128_of(e.ekey@) == 0 {
                assert(crate::keys::key_val(e.ekey@) == 0);
                assert(forall|i: int| 0 <= i < 16 ==> e.ekey@[i] == 0u8) by {
                    assert forall|i: int| 0 <= i < 16 implies e.ekey@[i] == 0u8 by {
                        if e.ekey@[i] != 0u8 {
                            assert(crate::keys::key_val(e.ekey@) > 0);
                        }
                    }
                }
                assert(is_null_key(e.ekey@));
            }
        }
        lemma_no_null_key_lookup(entries.drop_last(), null);
        assert(forall|j: int| 0 <= j < entries.len() - 1
            ==> #[trigger] entries.drop_last()[j] == entries[j]);
    }
}

/// Reads whether the sixteen bytes at `pos` are the all-zero sentinel.
fn null_at(data: &[u8], pos: usize) -> (r: bool)
    requires
        pos + 16 <= data@.len(),
    ensures
        r == is_null_key(data@.subrange(pos as int, pos + 16)),
{
    let bytes = read_16_bytes(data, pos);
    is_null_key_bytes(&bytes)
}

/// Parses the footer from the last 0x24 bytes of an index blob,
/// enforcing its shape assertions.
pub fn parse_footer(data: &[u8]) -> (r: Result<ArchiveIndexFooter, Error>)
    ensures
        match r {
            Ok(f) => {
                &&& spec_footer_ok(data@)
                &&& f.toc_hash@ == data@.subrange(data@.len() - 0x24, data@.len() - 0x24 + 16)
                &&& f.version == 1
                &&& f.block_size_kb == 4
                &&& f.offset_bytes == 4
                &&& f.size_bytes == 4
                &&& f.key_size_in_bytes == 16
                &&& f.checksum_size == 8
                &&& f.num_files == spec_num_files(data@)
            },
            Err(e) => !spec_footer_ok(data@) && e == Error::ParseError,
        },
{
    let n = data.len();
    if n < 0x24 {
        return Err(Error::ParseError);
    }
    let fo = n - 0x24;
    if data[fo + 16] != 1 || data[fo + 19] != 4 || data[fo + 20] != 4 || data[fo + 21] != 4
        || data[fo + 22] != 16 || data[fo + 23] != 8 {
        return Err(Error::ParseError);
    }
    let toc_hash = read_16_bytes(data, fo);
    let num_files = read_u32_le(data, fo + 24);
    Ok(ArchiveIndexFooter {
        toc_hash,
        version: 1,
        block_size_kb: 4,
        offset_bytes: 4,
        size_bytes: 4,
        key_size_in_bytes: 16,
        checksum_size: 8,
        num_files,
    })
}

/// An archive index: the entries parsed from the `.index` blob, the hex
/// key of the archive it describes, and a map from packed encoded key to
/// the position of its (last) entry.
#[derive(Debug)]
pub struct ArchiveIndex {
    pub key: String,
    pub entries: Vec<ArchiveIndexEntry>,
    pub index: HashMap<u128, usize>,
}

impl ArchiveIndex {
    /// The private index is coherent: it holds exactly the packed keys of
    /// the entries, each mapped to the last entry holding it.
    pub open spec fn wf(&self) -> bool {
        &&& forall|k: u128| self.index@.contains_key(k)
            ==> 0 <= #[trigger] self.index@[k] < self.entries@.len()
                && spec_lookup(self.entries@, k) == Some(self.entries@[self.index@[k] as int])
        &&& forall|j: int| 0 <= j < self.entries@.len()
            ==> self.index@.contains_key(key_u128_of((#[trigger] self.entries@[j]).ekey@))
    }

    /// Parses an archive index blob.
    ///
    /// Succeeds exactly when the footer shape assertions hold and the
    /// blocks yield exactly `num_files` entries before reaching the
    /// footer. The entries come out in block order, bit-exact, and none
    /// carries the all-zero sentinel key.
    pub fn parse(key: &str, data: &[u8]) -> (r: Result<ArchiveIndex, Error>)
        ensures
            match r {
                Ok(idx) => {
                    &&& spec_parse_archive(data@) is Some
                    &&& idx.wf()
                    &&& idx.key@ == key@
                    &&& idx.entries@.len() == spec_parse_archive(data@)->Some_0.len()
                    &&& idx.entries@.len() == spec_num_files(data@)
                    &&& forall|j: int| 0 <= j < idx.entries@.len()
                        ==> entry_at(data@, spec_parse_archive(data@)->Some_0[j],
                            #[trigger] idx.entries@[j])
                    &&& forall|j: int| 0 <= j < idx.entries@.len()
                        ==> !is_null_key((#[trigger] idx.entries@[j]).ekey@)
                },
                Err(e) => spec_parse_archive(data@) is None && e == Error::ParseError,
            },
    {
        let ghost s = data@;
        let n = data.len();
        if n < 0x24 {
            return Err(Error::ParseError);
        }
        let fo = n - 0x24;
        if data[fo + 16] != 1 || data[fo + 19] != 4 || data[fo + 20] != 4 || data[fo + 21] != 4
            || data[fo + 22] != 16 || data[fo + 23] != 8 {
            return Err(Error::ParseError);
        }
        let num_files = read_u32_le(data, fo + 24);
        let nf = num_files as usize;
        proof {
            assert(spec_footer_ok(s));
            assert(s[s.len() - 0x24 + 19] * 1024 == 4096);
            assert(spec_num_files(s) == nf);
            let r0 = spec_archive_positions(s, 4096, 0, nf as int);
            if r0 is Some {
                assert(Seq::<int>::empty() + r0->Some_0 =~= r0->Some_0);
            }
        }
        let mut entries: Vec<ArchiveIndexEntry> = Vec::new();
        let mut index: HashMap<u128, usize> = HashMap::new();
        let ghost mut taken: Seq<int> = Seq::empty();
        let mut block_start: usize = 0;
        while entries.len() < nf
            invariant
                s == data@,
                n == s.len(),
                fo == n - 0x24,
                n >= 0x24,
                spec_footer_ok(s),
                nf == spec_num_files(s),
                entries@.len() <= nf,
                entries@.len() == taken.len(),
                forall|j: int| 0 <= j < taken.len()
                    ==> entry_at(s, taken[j], #[trigger] entries@[j]),
                forall|j: int| 0 <= j < entries@.len()
                    ==> !is_null_key((#[trigger] entries@[j]).ekey@),
                forall|k: u128| index@.contains_key(k)
                    ==> 0 <= #[trigger] index@[k] < entries@.len()
                        && spec_lookup(entries@, k) == Some(entries@[index@[k] as int]),
                forall|j: int| 0 <= j < entries@.len()
                    ==> index@.contains_key(key_u128_of((#[trigger] entries@[j]).ekey@)),
                ({
                    let full = spec_archive_positions(s, 4096, 0, nf as int);
                    match spec_archive_positions(s, 4096, block_start as int,
                        nf - entries@.len()) {
                        Some(rest) => full == Some(taken + rest),
                        None => full is None,
                    }
                }),
            decreases n - block_start,
        {
            if block_start > fo || 4096 > fo - block_start {
                proof {
                    assert(spec_archive_positions(s, 4096, block_start as int,
                        nf - entries@.len()) is None);
                }
                return Err(Error::ParseError);
            }
            let block_end = block_start + 4096;
            let ghost remaining0 = nf - entries@.len();
            let ghost taken0 = taken;
            let ghost block_ps = spec_block_positions(s, block_start as int, block_end as int);
            let mut pos: usize = block_start;
            while pos + 24 <= block_end && !null_at(data, pos)
                invariant
                    s == data@,
                    n == s.len(),
                    n >= 0x24,
                    fo == n - 0x24,
                    block_end == block_start + 4096,
                    block_end <= fo,
                    block_start <= pos <= block_end,
                    nf == spec_num_files(s),
                    taken0.len() < nf,
                    entries@.len() <= nf,
                    entries@.len() == taken.len(),
                    block_ps == spec_block_positions(s, block_start as int, block_end as int),
                    taken0.len() <= taken.len(),
                    taken =~= taken0 + block_ps.take(taken.len() - taken0.len()),
                    remaining0 == nf - taken0.len(),
                    block_ps =~= block_ps.take(taken.len() - taken0.len())
                        + spec_block_positions(s, pos as int, block_end as int),
                    forall|j: int| 0 <= j < taken.len()
                        ==> entry_at(s, taken[j], #[trigger] entries@[j]),
                    forall|j: int| 0 <= j < entries@.len()
                        ==> !is_null_key((#[trigger] entries@[j]).ekey@),
                    forall|k: u128| index@.contains_key(k)
                        ==> 0 <= #[trigger] index@[k] < entries@.len()
                            && spec_lookup(entries@, k) == Some(entries@[index@[k] as int]),
                    forall|j: int| 0 <= j < entries@.len()
                        ==> index@.contains_key(key_u128_of((#[trigger] entries@[j]).ekey@)),
                    ({
                        let full = spec_archive_positions(s, 4096, 0, nf as int);
                        match spec_archive_positions(s, 4096, block_start as int, remaining0) {
                            Some(rest) => full == Some(taken0 + rest),
                            None => full is None,
                        }
                    }),
                decreases block_end - pos,
            {
                let ghost done = taken.len() - taken0.len();
                proof {
                    assert(spec_block_positions(s, pos as int, block_end as int)
                        =~= seq![pos as int]
                            + spec_block_positions(s, pos + 24, block_end as int));
                }
                if entries.len() == nf {
                    proof {
                        assert(block_ps.len() > remaining0) by {
                            assert(block_ps.len() >= done + 1);
                        }
                        assert(spec_archive_positions(s, 4096, block_start as int,
                            remaining0) is None);
                    }
                    return Err(Error::ParseError);
                }
                let ekey_bytes = read_16_bytes(data, pos);
                let size_bytes = read_u32_be(data, pos + 16);
                let offset_bytes = read_u32_be(data, pos + 20);
                let entry = ArchiveIndexEntry { ekey: EKey(ekey_bytes), size_bytes, offset_bytes };
                let ghost entries0 = entries@;
                let k = key_u128(&ekey_bytes);
                let at = entries.len();
                entries.push(entry);
                index.insert(k, at);
                proof {
                    taken = taken.push(pos as int);
                    assert(entry_at(s, pos as int, entry));
                    assert(block_ps[done] == pos as int);
                    assert(taken =~= taken0 + block_ps.take(done + 1));
                    assert(block_ps =~= block_ps.take(done + 1)
                        + spec_block_positions(s, pos + 24, block_end as int));
                    assert forall|k2: u128| index@.contains_key(k2)
                        implies 0 <= #[trigger] index@[k2] < entries@.len()
                            && spec_lookup(entries@, k2)
                                == Some(entries@[index@[k2] as int]) by {
                        lemma_lookup_push(entries0, entry, k2);
                    }
                }
                pos = pos + 24;
            }
            proof {
                let ghost done = taken.len() - taken0.len();
                assert(spec_block_positions(s, pos as int, block_end as int)
                    =~= Seq::<int>::empty());
                assert(block_ps =~= block_ps.take(done));
                assert(block_ps.len() == done);
                assert(block_ps =~= block_ps.take(done));
                assert(block_ps.len() <= remaining0);
                let tail = spec_archive_positions(s, 4096, block_end as int,
                    remaining0 - block_ps.len());
                assert(spec_archive_positions(s, 4096, block_start as int, remaining0)
                    == match tail {
                        Some(rest) => Some(block_ps + rest),
                        None => None::<Seq<int>>,
                    });
                assert(taken =~= taken0 + block_ps);
                if tail is Some {
                    assert(taken0 + (block_ps + tail->Some_0) =~= taken + tail->Some_0);
                }
            }
            block_start = block_end;
        }
        proof {
            assert(spec_archive_positions(s, 4096, block_start as int, nf - entries@.len())
                == Some(Seq::<int>::empty()));
            assert(taken + Seq::<int>::empty() =~= taken);
            assert(spec_parse_archive(s) == Some(taken));
        }
        Ok(ArchiveIndex { key: key.to_owned(), entries, index })
    }

    /// Looks up the entry for an encoded key: the last parsed entry holding
    /// that key, or nothing when no entry does.
    pub fn get_entry_for_ekey(&self, ekey: &EKey) -> (r: Option<&ArchiveIndexEntry>)
        requires
            self.wf(),
        ensures
            match r {
                Some(e) => spec_lookup(self.entries@, key_u128_of(ekey@)) == Some(*e),
                None => spec_lookup(self.entries@, key_u128_of(ekey@)) is None,
            },
    {
        let k = key_u128(&ekey.0);
        match self.index.get(&k) {
            Some(i) => Some(&self.entries[*i]),
            None => {
                proof {
                    if spec_lookup(self.entries@, k) is Some {
                        lemma_lookup_in_entries(self.entries@, k);
                    }
                }
                None
            },
        }
    }
}

impl ArchiveIndexEntry {
    /// The half-open byte range `[offset, offset + size)` of the entry
    /// inside its archive.
    pub fn get_byte_range(&self) -> (r: (u64, u64))
        ensures
            r.0 == self.offset_bytes,
            r.1 == self.offset_bytes + self.size_bytes,
    {
        let start = self.offset_bytes as u64;
        let end = start + self.size_bytes as u64;
        (start, end)
    }
}

} // verus!
