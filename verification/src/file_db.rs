//! An auxiliary file database: fixed 36-byte records mapping file ids
//! and name hashes to a byte range inside a named archive.
use vstd::prelude::*;
use std::collections::HashMap;
use vstd::utf8::{decode_utf8, valid_utf8};
use crate::bytes::{spec_u32_le, spec_u64_le, u32_le_bytes, u64_le_bytes, push_u32_le,
    push_u64_le, read_u32_le, read_u64_le, read_16_bytes};
use crate::error::Error;
use crate::keys::{spec_hex_decode, hexunstring};
use crate::text::str_from_utf8_bytes;

verus! {

broadcast use vstd::std_specs::hash::group_hash_axioms;

/// One record: a file id, a name hash, the 16-byte archive key, and the
/// byte range inside that archive.
#[derive(Clone, Copy, Debug, PartialEq, Eq)]
pub struct FileInfo {
    pub file_id: u32,
    pub name_hash: u64,
    pub archive_key: [u8; 16],
    pub start_bytes: u32,
    pub size_bytes: u32,
}

impl FileInfo {
    /// The archive key bytes read as text, when they are UTF-8.
    pub fn archive_key_str(&self) -> (r: Option<&str>)
        ensures
            match r {
                Some(s) => valid_utf8(self.archive_key@) && s@ == decode_utf8(self.archive_key@),
                None => !valid_utf8(self.archive_key@),
            },
    {
        str_from_utf8_bytes(self.archive_key.as_slice())
    }
}

/// Whether `e` holds exactly the fields of the 36-byte record at `p`.
pub open spec fn info_at(s: Seq<u8>, p: int, e: FileInfo) -> bool {
    &&& e.file_id == spec_u32_le(s, p)
    &&& e.name_hash == spec_u64_le(s, p + 4)
    &&& e.archive_key@ == s.subrange(p + 12, p + 28)
    &&& e.start_bytes == spec_u32_le(s, p + 28)
    &&& e.size_bytes == spec_u32_le(s, p + 32)
}

/// The records rendered back to back.
pub open spec fn spec_infos_bytes(es: Seq<FileInfo>) -> Seq<u8>
    decreases es.len(),
{
    if es.len() == 0 {
        Seq::empty()
    } else {
        spec_infos_bytes(es.drop_last()) + u32_le_bytes(es.last().file_id)
            + u64_le_bytes(es.last().name_hash) + es.last().archive_key@
            + u32_le_bytes(es.last().start_bytes) + u32_le_bytes(es.last().size_bytes)
    }
}

/// Whether a database blob is well-formed: a count and that many records.
pub open spec fn spec_file_db_ok(s: Seq<u8>) -> bool {
    s.len() >= 4 && 4 + 36 * spec_u32_le(s, 0) <= s.len()
}

/// The position of the last record with the given file id.
pub open spec fn spec_last_info_id_index(es: Seq<FileInfo>, fid: u32) -> Option<int>
    decreases es.len(),
{
    if es.len() == 0 {
        None
    } else if es.last().file_id == fid {
        Some(es.len() - 1)
    } else {
        spec_last_info_id_index(es.drop_last(), fid)
    }
}

/// The position of the last record with the given name hash.
pub open spec fn spec_last_info_hash_index(es: Seq<FileInfo>, h: u64) -> Option<int>
    decreases es.len(),
{
    if es.len() == 0 {
        None
    } else if es.last().name_hash == h {
        Some(es.len() - 1)
    } else {
        spec_last_info_hash_index(es.drop_last(), h)
    }
}

/// Appending a record changes last-id lookups only for its id.
proof fn lemma_last_info_id_push(es: Seq<FileInfo>, e: FileInfo, fid: u32)
    ensures
        spec_last_info_id_index(es.push(e), fid) == if e.file_id == fid {
            Some(es.len() as int)
        } else {
            spec_last_info_id_index(es, fid)
        },
{
    let pushed = es.push(e);
    assert(pushed.last() == e);
    assert(pushed.drop_last() =~= es);
}

/// Appending a record changes last-hash lookups only for its hash.
proof fn lemma_last_info_hash_push(es: Seq<FileInfo>, e: FileInfo, h: u64)
    ensures
        spec_last_info_hash_index(es.push(e), h) == if e.name_hash == h {
            Some(es.len() as int)
        } else {
            spec_last_info_hash_index(es, h)
        },
{
    let pushed = es.push(e);
    assert(pushed.last() == e);
    assert(pushed.drop_last() =~= es);
}

/// The database: the records in order and the two lookup maps, each
/// resolving to the last record for its key.
#[derive(Debug)]
pub struct FileDb {
    pub file_id_to_file_info_index: HashMap<u32, usize>,
    pub name_hash_to_file_info_index: HashMap<u64, usize>,
    pub file_infos: Vec<FileInfo>,
}

impl FileDb {
    /// The maps are coherent with the record list.
    pub open spec fn wf(&self) -> bool {
        &&& forall|k: u32| self.file_id_to_file_info_index@.contains_key(k)
            ==> spec_last_info_id_index(self.file_infos@, k)
                == Some(#[trigger] self.file_id_to_file_info_index@[k] as int)
        &&& forall|j: int| 0 <= j < self.file_infos@.len()
            ==> self.file_id_to_file_info_index@.contains_key(
                (#[trigger] self.file_infos@[j]).file_id)
        &&& forall|k: u64| self.name_hash_to_file_info_index@.contains_key(k)
            ==> spec_last_info_hash_index(self.file_infos@, k)
                == Some(#[trigger] self.name_hash_to_file_info_index@[k] as int)
        &&& forall|j: int| 0 <= j < self.file_infos@.len()
            ==> self.name_hash_to_file_info_index@.contains_key(
                (#[trigger] self.file_infos@[j]).name_hash)
    }

    /// An empty database.
    pub fn new() -> (r: FileDb)
        ensures
            r.wf(),
            r.file_infos@.len() == 0,
    {
        FileDb {
            file_id_to_file_info_index: HashMap::new(),
            name_hash_to_file_info_index: HashMap::new(),
            file_infos: Vec::new(),
        }
    }

    /// Appends one record, decoding the archive key from its hex form;
    /// fails exactly when the key is not 32 hex characters.
    pub fn append(&mut self, file_id: u32, name_hash: u64, archive_key_str: &str, start_bytes: u32, size_bytes: u32) -> (r: Result<(), Error>)
        requires
            old(self).wf(),
        ensures
            final(self).wf(),
            match r {
                Ok(()) => {
                    &&& spec_hex_decode(archive_key_str@) is Some
                    &&& final(self).file_infos@.len() == old(self).file_infos@.len() + 1
                    &&& final(self).file_infos@.drop_last() == old(self).file_infos@
                    &&& ({
                        let e = final(self).file_infos@.last();
                        &&& e.file_id == file_id
                        &&& e.name_hash == name_hash
                        &&& e.archive_key@ == spec_hex_decode(archive_key_str@)->Some_0
                        &&& e.start_bytes == start_bytes
                        &&& e.size_bytes == size_bytes
                    })
                },
                Err(e) => spec_hex_decode(archive_key_str@) is None
                    && e == Error::ParseError && *final(self) == *old(self),
            },
    {
        let key = match hexunstring(archive_key_str) {
            Ok(k) => k,
            Err(e) => {
                return Err(e);
            },
        };
        let info = FileInfo { file_id, name_hash, archive_key: key, start_bytes, size_bytes };
        let ghost infos0 = self.file_infos@;
        let at = self.file_infos.len();
        self.file_infos.push(info);
        self.file_id_to_file_info_index.insert(file_id, at);
        self.name_hash_to_file_info_index.insert(name_hash, at);
        proof {
            assert(self.file_infos@.drop_last() =~= infos0);
            assert forall|k: u32| self.file_id_to_file_info_index@.contains_key(k)
                implies spec_last_info_id_index(self.file_infos@, k)
                    == Some(#[trigger] self.file_id_to_file_info_index@[k] as int) by {
                lemma_last_info_id_push(infos0, info, k);
            }
            assert forall|k: u64| self.name_hash_to_file_info_index@.contains_key(k)
                implies spec_last_info_hash_index(self.file_infos@, k)
                    == Some(#[trigger] self.name_hash_to_file_info_index@[k] as int) by {
                lemma_last_info_hash_push(infos0, info, k);
            }
        }
        Ok(())
    }

    /// Renders the database: the record count, then the records.
    pub fn serialize(&self) -> (r: Vec<u8>)
        requires
            self.file_infos@.len() <= u32::MAX,
        ensures
            r@ == u32_le_bytes(self.file_infos@.len() as u32)
                + spec_infos_bytes(self.file_infos@),
    {
        let n = self.file_infos.len();
        let mut out: Vec<u8> = Vec::new();
        push_u32_le(&mut out, n as u32);
        let mut i: usize = 0;
        proof {
            assert(self.file_infos@.take(0) =~= Seq::<FileInfo>::empty());
            assert(out@ =~= u32_le_bytes(n as u32)
                + spec_infos_bytes(self.file_infos@.take(0)));
        }
        while i < n
            invariant
                n == self.file_infos@.len(),
                0 <= i <= n,
                out@ == u32_le_bytes(n as u32) + spec_infos_bytes(self.file_infos@.take(i as int)),
            decreases n - i,
        {
            let e = self.file_infos[i];
            let ghost out0 = out@;
            push_u32_le(&mut out, e.file_id);
            push_u64_le(&mut out, e.name_hash);
            let mut k: usize = 0;
            let ghost out_mid = out@;
            while k < 16
                invariant
                    0 <= k <= 16,
                    e.archive_key@.len() == 16,
                    out@ == out_mid + e.archive_key@.take(k as int),
                decreases 16 - k,
            {
                out.push(e.archive_key[k]);
                proof {
                    assert(out@ =~= out_mid + e.archive_key@.take(k + 1));
                }
                k += 1;
            }
            proof {
                assert(e.archive_key@.take(16) =~= e.archive_key@);
            }
            push_u32_le(&mut out, e.start_bytes);
            push_u32_le(&mut out, e.size_bytes);
            proof {
                assert(self.file_infos@.take(i + 1).drop_last()
                    =~= self.file_infos@.take(i as int));
                assert(self.file_infos@.take(i + 1).last() == e);
                assert(out@ =~= u32_le_bytes(n as u32)
                    + spec_infos_bytes(self.file_infos@.take(i + 1)));
            }
            i += 1;
        }
        proof {
            assert(self.file_infos@.take(n as int) =~= self.file_infos@);
        }
        out
    }

    /// Parses a database blob and builds the lookup maps.
    ///
    /// Fails exactly when the blob cannot hold the count or as many
    /// records as the count names; trailing bytes are ignored.
    pub fn parse(data: &[u8]) -> (r: Result<FileDb, Error>)
        ensures
            match r {
                Ok(db) => {
                    &&& spec_file_db_ok(data@)
                    &&& db.wf()
                    &&& db.file_infos@.len() == spec_u32_le(data@, 0)
                    &&& forall|j: int| 0 <= j < db.file_infos@.len()
                        ==> info_at(data@, 4 + 36 * j, #[trigger] db.file_infos@[j])
                },
                Err(e) => !spec_file_db_ok(data@) && e == Error::ParseError,
            },
    {
        let len = data.len();
        if len < 4 {
            return Err(Error::ParseError);
        }
        let n = read_u32_le(data, 0);
        let nu = n as usize;
        if (len - 4) / 36 < nu {
            return Err(Error::ParseError);
        }
        let mut db = FileDb::new();
        let mut j: usize = 0;
        while j < nu
            invariant
                len == data@.len(),
                n == spec_u32_le(data@, 0),
                nu == n,
                4 + 36 * nu <= len,
                0 <= j <= nu,
                db.wf(),
                db.file_infos@.len() == j,
                forall|k: int| 0 <= k < j
                    ==> info_at(data@, 4 + 36 * k, #[trigger] db.file_infos@[k]),
            decreases nu - j,
        {
            let p = 4 + 36 * j;
            let file_id = read_u32_le(data, p);
            let name_hash = read_u64_le(data, p + 4);
            let archive_key = read_16_bytes(data, p + 12);
            let start_bytes = read_u32_le(data, p + 28);
            let size_bytes = read_u32_le(data, p + 32);
            let info = FileInfo { file_id, name_hash, archive_key, start_bytes, size_bytes };
            let ghost infos0 = db.file_infos@;
            let at = db.file_infos.len();
            db.file_infos.push(info);
            db.file_id_to_file_info_index.insert(file_id, at);
            db.name_hash_to_file_info_index.insert(name_hash, at);
            proof {
                assert forall|k: u32| db.file_id_to_file_info_index@.contains_key(k)
                    implies spec_last_info_id_index(db.file_infos@, k)
                        == Some(#[trigger] db.file_id_to_file_info_index@[k] as int) by {
                    lemma_last_info_id_push(infos0, info, k);
                }
                assert forall|k: u64| db.name_hash_to_file_info_index@.contains_key(k)
                    implies spec_last_info_hash_index(db.file_infos@, k)
                        == Some(#[trigger] db.name_hash_to_file_info_index@[k] as int) by {
                    lemma_last_info_hash_push(infos0, info, k);
                }
            }
            j += 1;
        }
        Ok(db)
    }
}

/// The serialized record layout: the count, then 36 bytes per record.
pub struct SerializedFileInfos {
    pub num_files: u32,
    pub files: Vec<FileInfo>,
}

} // verus!
