//! The repack reader: loads `index.shp` and resolves entries by file id
//! or by hashed path name.
use vstd::prelude::*;
use std::collections::HashMap;
use vstd::string::StringSliceAdditionalSpecFns;
use crate::error::Error;
use crate::namehash::{name_hash, spec_name_hash};
use crate::sheepfile::{Entry, parse_index, spec_parse_index};

verus! {

broadcast use vstd::std_specs::hash::group_hash_axioms;

/// The position of the last entry with the given file id.
pub open spec fn spec_last_entry_id_index(es: Seq<Entry>, fid: u32) -> Option<int>
    decreases es.len(),
{
    if es.len() == 0 {
        None
    } else if es.last().file_id == fid {
        Some(es.len() - 1)
    } else {
        spec_last_entry_id_index(es.drop_last(), fid)
    }
}

/// The position of the last entry with the given name hash.
pub open spec fn spec_last_entry_hash_index(es: Seq<Entry>, h: u64) -> Option<int>
    decreases es.len(),
{
    if es.len() == 0 {
        None
    } else if es.last().name_hash == h {
        Some(es.len() - 1)
    } else {
        spec_last_entry_hash_index(es.drop_last(), h)
    }
}

/// Appending an entry changes last-id lookups only for its id.
proof fn lemma_last_entry_id_push(es: Seq<Entry>, e: Entry, fid: u32)
    ensures
        spec_last_entry_id_index(es.push(e), fid) == if e.file_id == fid {
            Some(es.len() as int)
        } else {
            spec_last_entry_id_index(es, fid)
        },
{
    let pushed = es.push(e);
    assert(pushed.last() == e);
    assert(pushed.drop_last() =~= es);
}

/// Appending an entry changes last-hash lookups only for its hash.
proof fn lemma_last_entry_hash_push(es: Seq<Entry>, e: Entry, h: u64)
    ensures
        spec_last_entry_hash_index(es.push(e), h) == if e.name_hash == h {
            Some(es.len() as int)
        } else {
            spec_last_entry_hash_index(es, h)
        },
{
    let pushed = es.push(e);
    assert(pushed.last() == e);
    assert(pushed.drop_last() =~= es);
}

/// A found last-id index is in range and holds the id.
proof fn lemma_last_entry_id_in_range(es: Seq<Entry>, fid: u32)
    requires
        spec_last_entry_id_index(es, fid) is Some,
    ensures
        0 <= spec_last_entry_id_index(es, fid)->Some_0 < es.len(),
        es[spec_last_entry_id_index(es, fid)->Some_0].file_id == fid,
    decreases es.len(),
{
    if es.len() == 0 {
    } else if es.last().file_id == fid {
    } else {
        lemma_last_entry_id_in_range(es.drop_last(), fid);
    }
}

/// A found last-hash index is in range and holds the hash.
proof fn lemma_last_entry_hash_in_range(es: Seq<Entry>, h: u64)
    requires
        spec_last_entry_hash_index(es, h) is Some,
    ensures
        0 <= spec_last_entry_hash_index(es, h)->Some_0 < es.len(),
        es[spec_last_entry_hash_index(es, h)->Some_0].name_hash == h,
    decreases es.len(),
{
    if es.len() == 0 {
    } else if es.last().name_hash == h {
    } else {
        lemma_last_entry_hash_in_range(es.drop_last(), h);
    }
}

/// A loaded repack index: the entries in file order and the two lookup
/// maps, each resolving to the last entry for its key.
#[derive(Debug)]
pub struct SheepfileReader {
    pub entries: Vec<Entry>,
    pub file_ids_to_entry_index: HashMap<u32, usize>,
    pub name_hash_to_entry_index: HashMap<u64, usize>,
}

impl SheepfileReader {
    /// The maps are coherent with the entry list.
    pub open spec fn wf(&self) -> bool {
        &&& forall|k: u32| self.file_ids_to_entry_index@.contains_key(k)
            ==> spec_last_entry_id_index(self.entries@, k)
                == Some(#[trigger] self.file_ids_to_entry_index@[k] as int)
        &&& forall|j: int| 0 <= j < self.entries@.len()
            ==> self.file_ids_to_entry_index@.contains_key(
                (#[trigger] self.entries@[j]).file_id)
        &&& forall|k: u64| self.name_hash_to_entry_index@.contains_key(k)
            ==> spec_last_entry_hash_index(self.entries@, k)
                == Some(#[trigger] self.name_hash_to_entry_index@[k] as int)
        &&& forall|j: int| 0 <= j < self.entries@.len()
            ==> self.name_hash_to_entry_index@.contains_key(
                (#[trigger] self.entries@[j]).name_hash)
    }

    /// Parses an index blob and builds the lookup maps.
    pub fn parse(data: &[u8]) -> (r: Result<SheepfileReader, Error>)
        ensures
            match r {
                Ok(rd) => spec_parse_index(data@) == Some(rd.entries@) && rd.wf(),
                Err(e) => spec_parse_index(data@) is None && e == Error::ParseError,
            },
    {
        let index = match parse_index(data) {
            Ok(idx) => idx,
            Err(e) => {
                return Err(e);
            },
        };
        let entries = index.entries;
        let n = entries.len();
        let mut file_ids_to_entry_index: HashMap<u32, usize> = HashMap::new();
        let mut name_hash_to_entry_index: HashMap<u64, usize> = HashMap::new();
        let mut i: usize = 0;
        while i < n
            invariant
                n == entries@.len(),
                0 <= i <= n,
                forall|k: u32| file_ids_to_entry_index@.contains_key(k)
                    ==> spec_last_entry_id_index(entries@.take(i as int), k)
                        == Some(#[trigger] file_ids_to_entry_index@[k] as int),
                forall|j: int| 0 <= j < i
                    ==> file_ids_to_entry_index@.contains_key(
                        (#[trigger] entries@[j]).file_id),
                forall|k: u64| name_hash_to_entry_index@.contains_key(k)
                    ==> spec_last_entry_hash_index(entries@.take(i as int), k)
                        == Some(#[trigger] name_hash_to_entry_index@[k] as int),
                forall|j: int| 0 <= j < i
                    ==> name_hash_to_entry_index@.contains_key(
                        (#[trigger] entries@[j]).name_hash),
            decreases n - i,
        {
            let e = entries[i];
            file_ids_to_entry_index.insert(e.file_id, i);
            name_hash_to_entry_index.insert(e.name_hash, i);
            proof {
                assert(entries@.take(i + 1).drop_last() =~= entries@.take(i as int));
                assert(entries@.take(i + 1).last() == e);
                assert forall|k: u32| file_ids_to_entry_index@.contains_key(k)
                    implies spec_last_entry_id_index(entries@.take(i + 1), k)
                        == Some(#[trigger] file_ids_to_entry_index@[k] as int) by {
                    lemma_last_entry_id_push(entries@.take(i as int), e, k);
                }
                assert forall|k: u64| name_hash_to_entry_index@.contains_key(k)
                    implies spec_last_entry_hash_index(entries@.take(i + 1), k)
                        == Some(#[trigger] name_hash_to_entry_index@[k] as int) by {
                    lemma_last_entry_hash_push(entries@.take(i as int), e, k);
                }
            }
            i += 1;
        }
        proof {
            assert(entries@.take(n as int) =~= entries@);
        }
        Ok(SheepfileReader { entries, file_ids_to_entry_index, name_hash_to_entry_index })
    }

    /// The entry recorded for a file id: the last one, or nothing.
    pub fn get_entry_for_file_id(&self, file_id: u32) -> (r: Option<&Entry>)
        requires
            self.wf(),
        ensures
            match r {
                Some(e) => spec_last_entry_id_index(self.entries@, file_id) is Some
                    && *e == self.entries@[spec_last_entry_id_index(self.entries@,
                        file_id)->Some_0],
                None => spec_last_entry_id_index(self.entries@, file_id) is None,
            },
    {
        match self.file_ids_to_entry_index.get(&file_id) {
            Some(i) => {
                proof {
                    lemma_last_entry_id_in_range(self.entries@, file_id);
                }
                Some(&self.entries[*i])
            },
            None => {
                proof {
                    if spec_last_entry_id_index(self.entries@, file_id) is Some {
                        lemma_last_entry_id_in_range(self.entries@, file_id);
                    }
                }
                None
            },
        }
    }

    /// The entry for a path name: the path is folded and hashed, and the
    /// last entry with that name hash answers.
    pub fn get_entry_for_name(&self, name: &str) -> (r: Option<&Entry>)
        requires
            self.wf(),
        ensures
            match r {
                Some(e) => spec_last_entry_hash_index(self.entries@,
                        spec_name_hash(name.spec_bytes())) is Some
                    && *e == self.entries@[spec_last_entry_hash_index(self.entries@,
                        spec_name_hash(name.spec_bytes()))->Some_0],
                None => spec_last_entry_hash_index(self.entries@,
                    spec_name_hash(name.spec_bytes())) is None,
            },
    {
        let h = name_hash(name);
        match self.name_hash_to_entry_index.get(&h) {
            Some(i) => {
                proof {
                    lemma_last_entry_hash_in_range(self.entries@, h);
                }
                Some(&self.entries[*i])
            },
            None => {
                proof {
                    if spec_last_entry_hash_index(self.entries@, h) is Some {
                        lemma_last_entry_hash_in_range(self.entries@, h);
                    }
                }
                None
            },
        }
    }
}

} // verus!
