//! The repack plan: which file ids get written, from which archive byte
//! ranges, in which order; and the coalescing of many entries of one
//! archive into a single range request.
use vstd::prelude::*;
use crate::archive::{ArchiveIndex, ArchiveIndexEntry};
use crate::encoding::{EncodingFile, spec_lookup_ekey};
use crate::fetcher::{spec_find_archive, resolve_ckey};
use crate::keys::key_u128_of;
use crate::root::{RootFile, spec_last_id_index, lemma_last_id_in_range};

verus! {

/// The smallest byte range of one archive covering every given entry:
/// from the least offset to the greatest end.
pub fn coalesce_range(entries: &[ArchiveIndexEntry]) -> (r: (u64, u64))
    requires
        entries@.len() >= 1,
    ensures
        r.0 <= r.1,
        forall|i: int| 0 <= i < entries@.len()
            ==> r.0 <= (#[trigger] entries@[i]).offset_bytes
                && entries@[i].offset_bytes + entries@[i].size_bytes <= r.1,
        exists|i: int| 0 <= i < entries@.len()
            && r.0 == (#[trigger] entries@[i]).offset_bytes,
        exists|i: int| 0 <= i < entries@.len()
            && r.1 == (#[trigger] entries@[i]).offset_bytes + entries@[i].size_bytes,
{
    let n = entries.len();
    let first = entries[0];
    let mut start: u64 = first.offset_bytes as u64;
    let mut end: u64 = first.offset_bytes as u64 + first.size_bytes as u64;
    let mut i: usize = 1;
    while i < n
        invariant
            n == entries@.len(),
            1 <= i <= n,
            start <= end,
            forall|j: int| 0 <= j < i
                ==> start <= (#[trigger] entries@[j]).offset_bytes
                    && entries@[j].offset_bytes + entries@[j].size_bytes <= end,
            exists|j: int| 0 <= j < i && start == (#[trigger] entries@[j]).offset_bytes,
            exists|j: int| 0 <= j < i
                && end == (#[trigger] entries@[j]).offset_bytes + entries@[j].size_bytes,
        decreases n - i,
    {
        let e = entries[i];
        let e_start = e.offset_bytes as u64;
        let e_end = e.offset_bytes as u64 + e.size_bytes as u64;
        if e_start < start {
            start = e_start;
        }
        if e_end > end {
            end = e_end;
        }
        i += 1;
    }
    (start, end)
}

/// One unit of repack work: a file id, its name hash, and the archive
/// byte range holding its encoded bytes.
#[derive(Clone, Copy, Debug, PartialEq, Eq)]
pub struct RepackItem {
    pub file_id: u32,
    pub name_hash: u64,
    pub archive_index: usize,
    pub entry: ArchiveIndexEntry,
}

/// The repack work unit for a file id, when the id resolves: its winning
/// root entry, that entry's encoded key, and the first archive holding
/// it.
pub open spec fn spec_item_for(root: RootFile, encoding: EncodingFile, archives: Seq<ArchiveIndex>, fid: u32) -> Option<RepackItem> {
    match spec_last_id_index(root.file_ids@, fid) {
        None => None,
        Some(w) => match spec_lookup_ekey(encoding.pairs@,
            key_u128_of(root.entries@[w].ckey@)) {
            None => None,
            Some(ek) => match spec_find_archive(archives, key_u128_of(ek@), 0) {
                None => None,
                Some(p) => Some(RepackItem {
                    file_id: fid,
                    name_hash: root.entries@[w].name_hash,
                    archive_index: p.0 as usize,
                    entry: p.1,
                }),
            },
        },
    }
}

/// Plans a repack: one work item for every file id that resolves all the
/// way to an archive byte range, sorted by file id ascending; ids that
/// do not resolve are skipped.
pub fn plan_repack(root: &RootFile, encoding: &EncodingFile, archives: &Vec<ArchiveIndex>) -> (r: Vec<RepackItem>)
    requires
        root.wf(),
        encoding.wf(),
        forall|i: int| 0 <= i < archives@.len() ==> (#[trigger] archives@[i]).wf(),
    ensures
        forall|a: int, b: int| 0 <= a < b < r@.len()
            ==> (#[trigger] r@[a]).file_id < (#[trigger] r@[b]).file_id,
        forall|k: int| 0 <= k < r@.len()
            ==> spec_item_for(*root, *encoding, archives@, (#[trigger] r@[k]).file_id)
                == Some(r@[k]),
        forall|fid: u32| #[trigger] spec_item_for(*root, *encoding, archives@, fid) is Some
            ==> exists|k: int| 0 <= k < r@.len() && (#[trigger] r@[k]).file_id == fid,
{
    let n = root.file_ids.len();
    let mut out: Vec<RepackItem> = Vec::new();
    let mut j: usize = 0;
    proof {
        assert forall|fid: u32|
            #[trigger] spec_item_for(*root, *encoding, archives@, fid) is Some
                && spec_last_id_index(root.file_ids@, fid)->Some_0 < 0
            implies exists|k: int| 0 <= k < out@.len()
                && (#[trigger] out@[k]).file_id == fid by {
            lemma_last_id_in_range(root.file_ids@, fid);
        }
    }
    while j < n
        invariant
            root.wf(),
            encoding.wf(),
            forall|i: int| 0 <= i < archives@.len() ==> (#[trigger] archives@[i]).wf(),
            n == root.file_ids@.len(),
            0 <= j <= n,
            forall|a: int, b: int| 0 <= a < b < out@.len()
                ==> (#[trigger] out@[a]).file_id < (#[trigger] out@[b]).file_id,
            forall|k: int| 0 <= k < out@.len()
                ==> spec_item_for(*root, *encoding, archives@,
                    (#[trigger] out@[k]).file_id) == Some(out@[k]),
            forall|k: int| 0 <= k < out@.len()
                ==> (spec_last_id_index(root.file_ids@, (#[trigger] out@[k]).file_id)
                    matches Some(w) && w < j),
            forall|fid: u32| #[trigger] spec_item_for(*root, *encoding, archives@, fid)
                    is Some
                && spec_last_id_index(root.file_ids@, fid)->Some_0 < j
                ==> exists|k: int| 0 <= k < out@.len()
                    && (#[trigger] out@[k]).file_id == fid,
        decreases n - j,
    {
        let fid = root.file_ids[j];
        let is_winner = match root.file_id_to_entry_index.get(&fid) {
            Some(wi) => *wi == j,
            None => false,
        };
        proof {
            broadcast use vstd::std_specs::hash::group_hash_axioms;
            assert(root.file_id_to_entry_index@.contains_key(fid));
            assert(is_winner <==> spec_last_id_index(root.file_ids@, fid)
                == Some(j as int));
            if !is_winner {
                lemma_last_id_in_range(root.file_ids@, fid);
                assert forall|fid2: u32|
                    #[trigger] spec_item_for(*root, *encoding, archives@, fid2) is Some
                        && spec_last_id_index(root.file_ids@, fid2)->Some_0 < j + 1
                    implies exists|k: int| 0 <= k < out@.len()
                        && (#[trigger] out@[k]).file_id == fid2 by {
                    lemma_last_id_in_range(root.file_ids@, fid2);
                    if spec_last_id_index(root.file_ids@, fid2)->Some_0 == j {
                        assert(root.file_ids@[j as int] == fid2);
                        assert(false);
                    }
                }
            }
        }
        if is_winner {
            let ckey = root.entries[j].ckey;
            match resolve_ckey(encoding, archives, &ckey) {
                Some(p) => {
                    let item = RepackItem {
                        file_id: fid,
                        name_hash: root.entries[j].name_hash,
                        archive_index: p.0,
                        entry: p.1,
                    };
                    proof {
                        assert(spec_item_for(*root, *encoding, archives@, fid)
                            == Some(item));
                    }
                    let mut pos: usize = out.len();
                    while pos > 0 && out[pos - 1].file_id > fid
                        invariant
                            0 <= pos <= out@.len(),
                            forall|a: int, b: int| 0 <= a < b < out@.len()
                                ==> (#[trigger] out@[a]).file_id
                                    < (#[trigger] out@[b]).file_id,
                            forall|idx: int| pos <= idx < out@.len()
                                ==> (#[trigger] out@[idx]).file_id > fid,
                        decreases pos,
                    {
                        pos -= 1;
                    }
                    let ghost out0 = out@;
                    proof {
                        assert forall|idx: int| 0 <= idx < out@.len()
                            implies (#[trigger] out@[idx]).file_id != fid by {
                            assert(spec_last_id_index(root.file_ids@,
                                out@[idx].file_id) is Some);
                            assert(spec_last_id_index(root.file_ids@,
                                out@[idx].file_id)->Some_0 < j);
                        }
                        if pos > 0 {
                            assert(out@[pos - 1].file_id < fid);
                        }
                    }
                    out.insert(pos, item);
                    proof {
                        assert(out@ == out0.insert(pos as int, item));
                        assert forall|fid2: u32|
                            #[trigger] spec_item_for(*root, *encoding, archives@,
                                fid2) is Some
                                && spec_last_id_index(root.file_ids@,
                                    fid2)->Some_0 < j + 1
                            implies exists|k: int| 0 <= k < out@.len()
                                && (#[trigger] out@[k]).file_id == fid2 by {
                            lemma_last_id_in_range(root.file_ids@, fid2);
                            if spec_last_id_index(root.file_ids@, fid2)->Some_0 == j {
                                assert(root.file_ids@[j as int] == fid2);
                                assert(out@[pos as int].file_id == fid2);
                            } else {
                                let k0 = choose|k: int| 0 <= k < out0.len()
                                    && (#[trigger] out0[k]).file_id == fid2;
                                if k0 < pos {
                                    assert(out@[k0].file_id == fid2);
                                } else {
                                    assert(out@[k0 + 1].file_id == fid2);
                                }
                            }
                        }
                    }
                },
                None => {
                    proof {
                        assert(spec_item_for(*root, *encoding, archives@, fid) is None);
                        assert forall|fid2: u32|
                            #[trigger] spec_item_for(*root, *encoding, archives@,
                                fid2) is Some
                                && spec_last_id_index(root.file_ids@,
                                    fid2)->Some_0 < j + 1
                            implies exists|k: int| 0 <= k < out@.len()
                                && (#[trigger] out@[k]).file_id == fid2 by {
                            lemma_last_id_in_range(root.file_ids@, fid2);
                            if spec_last_id_index(root.file_ids@, fid2)->Some_0 == j {
                                assert(root.file_ids@[j as int] == fid2);
                                assert(false);
                            }
                        }
                    }
                },
            }
        }
        j += 1;
    }
    proof {
        assert forall|fid: u32|
            #[trigger] spec_item_for(*root, *encoding, archives@, fid) is Some
            implies exists|k: int| 0 <= k < out@.len()
                && (#[trigger] out@[k]).file_id == fid by {
            lemma_last_id_in_range(root.file_ids@, fid);
        }
    }
    out
}

} // verus!
