//! The root table: a BLTE-wrapped sequence of blocks mapping file data ids
//! and path-name hashes to content keys. Ids are reconstructed from
//! cumulative deltas with a gap of one after every entry.
use vstd::prelude::*;
use std::collections::HashMap;
use vstd::string::StringSliceAdditionalSpecFns;
use crate::blte::{decode_blte, spec_decode_blte};
use crate::bytes::{spec_u32_le, spec_u64_le, read_u32_le, read_u64_le, read_16_bytes};
use crate::error::Error;
use crate::keys::CKey;
use crate::namehash::{name_hash, spec_name_hash};

verus! {

broadcast use vstd::std_specs::hash::group_hash_axioms;

/// One root entry: a content key and the 64-bit hash of the file's path
/// name (zero when the file has no hashed name).
#[derive(Clone, Copy, Debug, PartialEq, Eq)]
pub struct RootFileEntry {
    pub ckey: CKey,
    pub name_hash: u64,
}

/// Whether a whole block starts at `pos`: a 12-byte header, then one
/// 4-byte delta and one 24-byte entry per file.
pub open spec fn spec_block_fits(d: Seq<u8>, pos: int) -> bool {
    &&& 0 <= pos
    &&& pos + 12 <= d.len()
    &&& pos + 12 + 28 * spec_u32_le(d, pos) <= d.len()
}

/// The `(file id, entry position)` pairs of one block from entry `j` on,
/// with the next id starting at `next_fid`: each delta advances the id,
/// each entry consumes it and one more. An id past the 32-bit range is a
/// parse failure.
pub open spec fn spec_block_pairs(
    d: Seq<u8>,
    delta_base: int,
    entry_base: int,
    j: int,
    nf: int,
    next_fid: int,
) -> Option<Seq<(int, int)>>
    decreases nf - j,
{
    if j >= nf {
        Some(Seq::empty())
    } else {
        let fid = next_fid + spec_u32_le(d, delta_base + 4 * j);
        if fid > u32::MAX {
            None
        } else {
            match spec_block_pairs(d, delta_base, entry_base, j + 1, nf, fid + 1) {
                Some(rest) => Some(seq![(fid, entry_base + 24 * j)] + rest),
                None => None,
            }
        }
    }
}

/// The `(file id, entry position)` pairs of all blocks from `pos` on.
/// Blocks are read until the remaining bytes cannot hold one; each block
/// restarts its id accumulator at zero.
pub open spec fn spec_root_blocks(d: Seq<u8>, pos: int) -> Option<Seq<(int, int)>>
    decreases d.len() - pos,
{
    if !spec_block_fits(d, pos) {
        Some(Seq::empty())
    } else {
        let nf = spec_u32_le(d, pos);
        match spec_block_pairs(d, pos + 12, pos + 12 + 4 * nf, 0, nf, 0) {
            None => None,
            Some(ps) => match spec_root_blocks(d, pos + 12 + 28 * nf) {
                Some(rest) => Some(ps + rest),
                None => None,
            },
        }
    }
}

/// Whether `e` holds exactly the fields of the 24-byte entry at `p`: the
/// content key, then the little-endian name hash.
pub open spec fn root_entry_at(d: Seq<u8>, p: int, e: RootFileEntry) -> bool {
    &&& e.ckey@ == d.subrange(p, p + 16)
    &&& e.name_hash == spec_u64_le(d, p + 16)
}

/// The position of the last id equal to `v`, or nothing.
pub open spec fn spec_last_id_index(ids: Seq<u32>, v: u32) -> Option<int>
    decreases ids.len(),
{
    if ids.len() == 0 {
        None
    } else if ids.last() == v {
        Some(ids.len() - 1)
    } else {
        spec_last_id_index(ids.drop_last(), v)
    }
}

/// The position of the last entry whose name hash equals `h`, or nothing.
pub open spec fn spec_last_hash_index(entries: Seq<RootFileEntry>, h: u64) -> Option<int>
    decreases entries.len(),
{
    if entries.len() == 0 {
        None
    } else if entries.last().name_hash == h {
        Some(entries.len() - 1)
    } else {
        spec_last_hash_index(entries.drop_last(), h)
    }
}

/// Appending an id changes last-id lookups only for that id.
proof fn lemma_last_id_push(ids: Seq<u32>, v: u32, k: u32)
    ensures
        spec_last_id_index(ids.push(v), k) == if v == k {
            Some(ids.len() as int)
        } else {
            spec_last_id_index(ids, k)
        },
{
    let pushed = ids.push(v);
    assert(pushed.last() == v);
    assert(pushed.drop_last() =~= ids);
}

/// Appending an entry changes last-hash lookups only for that hash.
proof fn lemma_last_hash_push(entries: Seq<RootFileEntry>, e: RootFileEntry, h: u64)
    ensures
        spec_last_hash_index(entries.push(e), h) == if e.name_hash == h {
            Some(entries.len() as int)
        } else {
            spec_last_hash_index(entries, h)
        },
{
    let pushed = entries.push(e);
    assert(pushed.last() == e);
    assert(pushed.drop_last() =~= entries);
}

/// A successful last-id lookup indexes an id equal to the one sought.
pub proof fn lemma_last_id_in_range(ids: Seq<u32>, v: u32)
    requires
        spec_last_id_index(ids, v) is Some,
    ensures
        0 <= spec_last_id_index(ids, v)->Some_0 < ids.len(),
        ids[spec_last_id_index(ids, v)->Some_0] == v,
    decreases ids.len(),
{
    if ids.len() == 0 {
    } else if ids.last() == v {
    } else {
        lemma_last_id_in_range(ids.drop_last(), v);
    }
}

/// A successful last-hash lookup indexes an entry with that hash.
pub proof fn lemma_last_hash_in_range(entries: Seq<RootFileEntry>, h: u64)
    requires
        spec_last_hash_index(entries, h) is Some,
    ensures
        0 <= spec_last_hash_index(entries, h)->Some_0 < entries.len(),
        entries[spec_last_hash_index(entries, h)->Some_0].name_hash == h,
    decreases entries.len(),
{
    if entries.len() == 0 {
    } else if entries.last().name_hash == h {
    } else {
        lemma_last_hash_in_range(entries.drop_last(), h);
    }
}

/// Within one block the reconstructed file ids rise strictly: every entry
/// takes an id at least `next_fid`, and later entries take greater ids.
pub proof fn lemma_block_ids_increasing(
    d: Seq<u8>,
    delta_base: int,
    entry_base: int,
    j: int,
    nf: int,
    next_fid: int,
)
    requires
        next_fid >= 0,
        spec_block_pairs(d, delta_base, entry_base, j, nf, next_fid) is Some,
    ensures
        ({
            let ps = spec_block_pairs(d, delta_base, entry_base, j, nf, next_fid)->Some_0;
            &&& forall|a: int| 0 <= a < ps.len() ==> (#[trigger] ps[a]).0 >= next_fid
            &&& forall|a: int, b: int| 0 <= a < b < ps.len()
                ==> (#[trigger] ps[a]).0 < (#[trigger] ps[b]).0
        }),
    decreases nf - j,
{
    if j >= nf {
    } else {
        let fid = next_fid + spec_u32_le(d, delta_base + 4 * j);
        lemma_block_ids_increasing(d, delta_base, entry_base, j + 1, nf, fid + 1);
        let ps = spec_block_pairs(d, delta_base, entry_base, j, nf, next_fid)->Some_0;
        let rest = spec_block_pairs(d, delta_base, entry_base, j + 1, nf, fid + 1)->Some_0;
        assert(ps[0].0 == fid);
        assert(forall|a: int| 1 <= a < ps.len() ==> ps[a] == rest[a - 1]);
    }
}

/// The root table: the entries and their file ids in parse order, and the
/// two lookup maps, each resolving to the last entry for its key.
#[derive(Debug)]
pub struct RootFile {
    pub entries: Vec<RootFileEntry>,
    pub file_ids: Vec<u32>,
    pub file_id_to_entry_index: HashMap<u32, usize>,
    pub name_hash_to_entry_index: HashMap<u64, usize>,
}

impl RootFile {
    /// The maps are coherent with the parsed sequences: each holds exactly
    /// the ids (or hashes) that occur, mapped to their last occurrence.
    pub open spec fn wf(&self) -> bool {
        &&& self.entries@.len() == self.file_ids@.len()
        &&& forall|k: u32| self.file_id_to_entry_index@.contains_key(k)
            ==> spec_last_id_index(self.file_ids@, k)
                == Some(#[trigger] self.file_id_to_entry_index@[k] as int)
        &&& forall|j: int| 0 <= j < self.file_ids@.len()
            ==> self.file_id_to_entry_index@.contains_key(#[trigger] self.file_ids@[j])
        &&& forall|k: u64| self.name_hash_to_entry_index@.contains_key(k)
            ==> spec_last_hash_index(self.entries@, k)
                == Some(#[trigger] self.name_hash_to_entry_index@[k] as int)
        &&& forall|j: int| 0 <= j < self.entries@.len()
            ==> self.name_hash_to_entry_index@.contains_key(
                (#[trigger] self.entries@[j]).name_hash)
    }

    /// Parses a BLTE-wrapped root table.
    ///
    /// Fails with the decoder's error when the BLTE envelope is bad, and
    /// with a parse error when a reconstructed file id leaves the 32-bit
    /// range; blocks are read until the remaining bytes cannot hold one.
    pub fn parse(data: &[u8]) -> (r: Result<RootFile, Error>)
        ensures
            match r {
                Ok(rf) => {
                    &&& spec_decode_blte(data@) is Ok
                    &&& {
                        let d = spec_decode_blte(data@)->Ok_0;
                        &&& spec_root_blocks(d, 0) is Some
                        &&& rf.wf()
                        &&& rf.entries@.len() == spec_root_blocks(d, 0)->Some_0.len()
                        &&& rf.file_ids@.len() == rf.entries@.len()
                        &&& forall|j: int| 0 <= j < rf.entries@.len()
                            ==> root_entry_at(d, spec_root_blocks(d, 0)->Some_0[j].1,
                                #[trigger] rf.entries@[j])
                        &&& forall|j: int| 0 <= j < rf.entries@.len()
                            ==> #[trigger] rf.file_ids@[j]
                                == spec_root_blocks(d, 0)->Some_0[j].0
                    }
                },
                Err(e) => match spec_decode_blte(data@) {
                    Ok(d) => spec_root_blocks(d, 0) is None && e == Error::ParseError,
                    Err(de) => e == de,
                },
            },
    {
        let decoded = match decode_blte(data) {
            Ok(d) => d,
            Err(e) => {
                return Err(e);
            },
        };
        let d = decoded.as_slice();
        let ghost dv = d@;
        let n = d.len();
        proof {
            let r0 = spec_root_blocks(dv, 0);
            if r0 is Some {
                assert(Seq::<(int, int)>::empty() + r0->Some_0 =~= r0->Some_0);
            }
        }
        let mut entries: Vec<RootFileEntry> = Vec::new();
        let mut file_ids: Vec<u32> = Vec::new();
        let mut file_id_to_entry_index: HashMap<u32, usize> = HashMap::new();
        let mut name_hash_to_entry_index: HashMap<u64, usize> = HashMap::new();
        let ghost mut taken: Seq<(int, int)> = Seq::empty();
        let mut pos: usize = 0;
        while block_fits(d, pos)
            invariant
                dv == d@,
                n == dv.len(),
                spec_decode_blte(data@) == Ok::<Seq<u8>, Error>(dv),
                0 <= pos <= n,
                entries@.len() == taken.len(),
                file_ids@.len() == taken.len(),
                forall|j: int| 0 <= j < taken.len()
                    ==> root_entry_at(dv, taken[j].1, #[trigger] entries@[j]),
                forall|j: int| 0 <= j < taken.len()
                    ==> #[trigger] file_ids@[j] == taken[j].0,
                forall|k: u32| file_id_to_entry_index@.contains_key(k)
                    ==> spec_last_id_index(file_ids@, k)
                        == Some(#[trigger] file_id_to_entry_index@[k] as int),
                forall|j: int| 0 <= j < file_ids@.len()
                    ==> file_id_to_entry_index@.contains_key(#[trigger] file_ids@[j]),
                forall|k: u64| name_hash_to_entry_index@.contains_key(k)
                    ==> spec_last_hash_index(entries@, k)
                        == Some(#[trigger] name_hash_to_entry_index@[k] as int),
                forall|j: int| 0 <= j < entries@.len()
                    ==> name_hash_to_entry_index@.contains_key(
                        (#[trigger] entries@[j]).name_hash),
                ({
                    let full = spec_root_blocks(dv, 0);
                    match spec_root_blocks(dv, pos as int) {
                        Some(rest) => full == Some(taken + rest),
                        None => full is None,
                    }
                }),
            decreases n - pos,
        {
            let nf = read_u32_le(d, pos);
            let nfu = nf as usize;
            let delta_base = pos + 12;
            let entry_base = pos + 12 + 4 * nfu;
            let next_pos = pos + 12 + 28 * nfu;
            proof {
                let full = spec_root_blocks(dv, 0);
                let b0 = spec_block_pairs(dv, delta_base as int, entry_base as int,
                    0, nfu as int, 0);
                if b0 is Some {
                    let after0 = spec_root_blocks(dv, next_pos as int);
                    assert(spec_root_blocks(dv, pos as int) == match after0 {
                        Some(rest) => Some(b0->Some_0 + rest),
                        None => None::<Seq<(int, int)>>,
                    });
                    if after0 is Some {
                        assert(taken + (b0->Some_0 + after0->Some_0)
                            =~= taken + b0->Some_0 + after0->Some_0);
                    }
                }
            }
            let mut next_fid: u64 = 0;
            let mut j: usize = 0;
            while j < nfu
                invariant
                    dv == d@,
                    n == dv.len(),
                    spec_decode_blte(data@) == Ok::<Seq<u8>, Error>(dv),
                    spec_block_fits(dv, pos as int),
                    nfu == spec_u32_le(dv, pos as int),
                    delta_base == pos + 12,
                    entry_base == pos + 12 + 4 * nfu,
                    next_pos == pos + 12 + 28 * nfu,
                    next_pos <= n,
                    0 <= j <= nfu,
                    next_fid <= 0x1_0000_0000u64,
                    entries@.len() == taken.len(),
                    file_ids@.len() == taken.len(),
                    forall|j2: int| 0 <= j2 < taken.len()
                        ==> root_entry_at(dv, taken[j2].1, #[trigger] entries@[j2]),
                    forall|j2: int| 0 <= j2 < taken.len()
                        ==> #[trigger] file_ids@[j2] == taken[j2].0,
                    forall|k: u32| file_id_to_entry_index@.contains_key(k)
                        ==> spec_last_id_index(file_ids@, k)
                            == Some(#[trigger] file_id_to_entry_index@[k] as int),
                    forall|j2: int| 0 <= j2 < file_ids@.len()
                        ==> file_id_to_entry_index@.contains_key(#[trigger] file_ids@[j2]),
                    forall|k: u64| name_hash_to_entry_index@.contains_key(k)
                        ==> spec_last_hash_index(entries@, k)
                            == Some(#[trigger] name_hash_to_entry_index@[k] as int),
                    forall|j2: int| 0 <= j2 < entries@.len()
                        ==> name_hash_to_entry_index@.contains_key(
                            (#[trigger] entries@[j2]).name_hash),
                    ({
                        let full = spec_root_blocks(dv, 0);
                        match spec_block_pairs(dv, delta_base as int, entry_base as int,
                            j as int, nfu as int, next_fid as int) {
                            Some(rest) => match spec_root_blocks(dv, next_pos as int) {
                                Some(after) => full == Some(taken + rest + after),
                                None => full is None,
                            },
                            None => full is None,
                        }
                    }),
                decreases nfu - j,
            {
                let delta = read_u32_le(d, delta_base + 4 * j);
                let fid64: u64 = next_fid + (delta as u64);
                if fid64 > 0xFFFF_FFFFu64 {
                    proof {
                        assert(spec_block_pairs(dv, delta_base as int, entry_base as int,
                            j as int, nfu as int, next_fid as int) is None);
                    }
                    return Err(Error::ParseError);
                }
                let fid = fid64 as u32;
                let p = entry_base + 24 * j;
                let ckey_bytes = read_16_bytes(d, p);
                let nh = read_u64_le(d, p + 16);
                let entry = RootFileEntry { ckey: CKey(ckey_bytes), name_hash: nh };
                let ghost entries0 = entries@;
                let ghost ids0 = file_ids@;
                let ghost taken_old = taken;
                let at = entries.len();
                entries.push(entry);
                file_ids.push(fid);
                file_id_to_entry_index.insert(fid, at);
                name_hash_to_entry_index.insert(nh, at);
                proof {
                    let pair = (fid64 as int, p as int);
                    taken = taken.push(pair);
                    assert(root_entry_at(dv, p as int, entry));
                    assert forall|k: u32| file_id_to_entry_index@.contains_key(k)
                        implies spec_last_id_index(file_ids@, k)
                            == Some(#[trigger] file_id_to_entry_index@[k] as int) by {
                        lemma_last_id_push(ids0, fid, k);
                    }
                    assert forall|k: u64| name_hash_to_entry_index@.contains_key(k)
                        implies spec_last_hash_index(entries@, k)
                            == Some(#[trigger] name_hash_to_entry_index@[k] as int) by {
                        lemma_last_hash_push(entries0, entry, k);
                    }
                    let bj = spec_block_pairs(dv, delta_base as int, entry_base as int,
                        j as int, nfu as int, next_fid as int);
                    let bj1 = spec_block_pairs(dv, delta_base as int, entry_base as int,
                        j + 1, nfu as int, fid64 + 1);
                    if bj1 is Some {
                        assert(bj == Some(seq![pair] + bj1->Some_0));
                        let after = spec_root_blocks(dv, next_pos as int);
                        if after is Some {
                            assert(taken_old + (seq![pair] + bj1->Some_0) + after->Some_0
                                =~= taken + bj1->Some_0 + after->Some_0);
                        }
                    }
                }
                next_fid = fid64 + 1;
                j += 1;
            }
            proof {
                assert(spec_block_pairs(dv, delta_base as int, entry_base as int,
                    j as int, nfu as int, next_fid as int)
                    == Some(Seq::<(int, int)>::empty()));
                let after = spec_root_blocks(dv, next_pos as int);
                if after is Some {
                    assert(taken + Seq::<(int, int)>::empty() + after->Some_0
                        =~= taken + after->Some_0);
                }
            }
            pos = next_pos;
        }
        proof {
            assert(spec_root_blocks(dv, pos as int) == Some(Seq::<(int, int)>::empty()));
            assert(taken + Seq::<(int, int)>::empty() =~= taken);
            assert(spec_root_blocks(dv, 0) == Some(taken));
        }
        Ok(RootFile { entries, file_ids, file_id_to_entry_index, name_hash_to_entry_index })
    }

    /// The content key recorded for a file id: the last entry parsed for
    /// that id, or nothing when no block mentions it.
    pub fn get_ckey_for_file_id(&self, file_id: u32) -> (r: Option<&CKey>)
        requires
            self.wf(),
        ensures
            match r {
                Some(c) => spec_last_id_index(self.file_ids@, file_id) is Some
                    && *c == self.entries@[spec_last_id_index(self.file_ids@,
                        file_id)->Some_0].ckey,
                None => spec_last_id_index(self.file_ids@, file_id) is None,
            },
    {
        match self.file_id_to_entry_index.get(&file_id) {
            Some(i) => {
                proof {
                    lemma_last_id_in_range(self.file_ids@, file_id);
                }
                Some(&self.entries[*i].ckey)
            },
            None => {
                proof {
                    if spec_last_id_index(self.file_ids@, file_id) is Some {
                        lemma_last_id_in_range(self.file_ids@, file_id);
                    }
                }
                None
            },
        }
    }

    /// The content key for a path name: the path is folded and hashed, and
    /// the last entry with that name hash answers.
    pub fn get_ckey_for_file_path(&self, name: &str) -> (r: Option<&CKey>)
        requires
            self.wf(),
        ensures
            match r {
                Some(c) => spec_last_hash_index(self.entries@,
                        spec_name_hash(name.spec_bytes())) is Some
                    && *c == self.entries@[spec_last_hash_index(self.entries@,
                        spec_name_hash(name.spec_bytes()))->Some_0].ckey,
                None => spec_last_hash_index(self.entries@,
                    spec_name_hash(name.spec_bytes())) is None,
            },
    {
        let h = name_hash(name);
        match self.name_hash_to_entry_index.get(&h) {
            Some(i) => {
                proof {
                    lemma_last_hash_in_range(self.entries@, h);
                }
                Some(&self.entries[*i].ckey)
            },
            None => {
                proof {
                    if spec_last_hash_index(self.entries@, h) is Some {
                        lemma_last_hash_in_range(self.entries@, h);
                    }
                }
                None
            },
        }
    }
}

/// Whether a whole block starts at `pos`.
fn block_fits(d: &[u8], pos: usize) -> (r: bool)
    ensures
        r == spec_block_fits(d@, pos as int),
{
    let n = d.len();
    if pos > n || n - pos < 12 {
        return false;
    }
    let nf = read_u32_le(d, pos);
    (n - pos - 12) as u64 >= 28 * (nf as u64)
}

} // verus!
