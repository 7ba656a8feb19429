//! The fetcher's decisions: CDN hosts and object URLs, the fields read
//! from the `versions` and `cdns` manifests and the two configs, and the
//! resolution chain from file id to archive byte range. The network and
//! filesystem steps around these decisions live outside the library.
use vstd::prelude::*;
use vstd::string::{StringSliceAdditionalSpecFns, StrSliceExecFns, StringExecFns};
use vstd::utf8::{decode_utf8, encode_utf8, valid_utf8};
use crate::archive::{ArchiveIndex, ArchiveIndexEntry, spec_lookup};
use crate::config::{Config, spec_last_name_index};
use crate::encoding::{EncodingFile, spec_lookup_ekey};
use crate::error::Error;
use crate::keys::{CKey, EKey, key_u128_of, spec_hex_decode};
use crate::manifest::{Manifest, spec_first_index, spec_find_row_from, lemma_first_index,
    lemma_find_row_range};
use crate::root::{RootFile, spec_last_id_index};
use crate::text::{spec_split, split_bytes, utf8_to_string};

verus! {

/// One CDN host: its name and the product path under it.
#[derive(Clone)]
pub struct CDNHost {
    pub host: String,
    pub path: String,
}

impl CDNHost {
    /// A host with the given name and path.
    pub fn new(host: &str, path: &str) -> (r: CDNHost)
        ensures
            r.host@ == host@,
            r.path@ == path@,
    {
        CDNHost { host: host.to_owned(), path: path.to_owned() }
    }

    /// The URL of a CDN object: the host, the path, the category, the
    /// first and second two-character slices of the key, and the key.
    pub fn make_url(&self, key: &str, extra_path: &str) -> (r: String)
        requires
            key.is_ascii(),
            key@.len() >= 4,
        ensures
            r@ == "http://"@ + self.host@ + "/"@ + self.path@ + "/"@ + extra_path@ + "/"@
                + key@.subrange(0, 2) + "/"@ + key@.subrange(2, 4) + "/"@ + key@,
    {
        let mut s = String::new();
        s.append("http://");
        s.append(self.host.as_str());
        s.append("/");
        s.append(self.path.as_str());
        s.append("/");
        s.append(extra_path);
        s.append("/");
        let k01 = key.substring_ascii(0, 2);
        let k23 = key.substring_ascii(2, 4);
        s.append(k01);
        s.append("/");
        s.append(k23);
        s.append("/");
        s.append(key);
        proof {
            assert(s@ =~= "http://"@ + self.host@ + "/"@ + self.path@ + "/"@ + extra_path@
                + "/"@ + key@.subrange(0, 2) + "/"@ + key@.subrange(2, 4) + "/"@ + key@);
        }
        s
    }
}

/// The local CDN mirror's location: objects live under
/// `{cache_path}/{category}/{key}`. The reads and writes themselves
/// happen outside the library.
pub struct CDNCache {
    pub cache_path: String,
}

impl CDNCache {
    /// A cache rooted at the given directory.
    pub fn new(cache_path: &str) -> (r: CDNCache)
        ensures
            r.cache_path@ == cache_path@,
    {
        CDNCache { cache_path: cache_path.to_owned() }
    }
}

/// The name of the sidecar file caching one byte range: `{start}_{end}`.
pub fn segment_cache_name(start: u64, end: u64) -> (r: String)
    ensures
        r@ == crate::text::spec_decimal(start as nat) + "_"@
            + crate::text::spec_decimal(end as nat),
{
    let mut s = crate::text::decimal_string(start);
    s.append("_");
    let e = crate::text::decimal_string(end);
    s.append(e.as_str());
    s
}

/// The non-empty pieces among `ps[i ..]`.
pub open spec fn spec_nonempty_from(ps: Seq<Seq<u8>>, i: int) -> Seq<Seq<u8>>
    decreases ps.len() - i,
{
    if i < 0 || i >= ps.len() {
        Seq::empty()
    } else if ps[i].len() == 0 {
        spec_nonempty_from(ps, i + 1)
    } else {
        seq![ps[i]] + spec_nonempty_from(ps, i + 1)
    }
}

/// The whitespace-separated host tokens of a `Hosts` cell: the non-empty
/// pieces between spaces.
pub open spec fn spec_host_tokens(s: Seq<u8>) -> Seq<Seq<u8>> {
    spec_nonempty_from(spec_split(s, 0x20u8), 0)
}

/// Splits a `Hosts` cell at spaces, dropping empty pieces.
pub fn split_hosts(cell: &str) -> (r: Result<Vec<String>, Error>)
    ensures
        ({
            let toks = spec_host_tokens(cell.spec_bytes());
            match r {
                Ok(v) => {
                    &&& v.deep_view().len() == toks.len()
                    &&& forall|k: int| 0 <= k < toks.len()
                        ==> valid_utf8(#[trigger] toks[k])
                            && v.deep_view()[k] == decode_utf8(toks[k])
                },
                Err(e) => e == Error::ParseError
                    && exists|k: int| 0 <= k < toks.len() && !valid_utf8(#[trigger] toks[k]),
            }
        }),
{
    let pieces = split_bytes(cell.as_bytes(), 0x20);
    let ghost psv = pieces.deep_view();
    let ghost toks = spec_host_tokens(cell.spec_bytes());
    let n = pieces.len();
    let mut out: Vec<String> = Vec::new();
    let mut i: usize = 0;
    proof {
        assert(Seq::<Seq<u8>>::empty() + spec_nonempty_from(psv, 0)
            =~= spec_nonempty_from(psv, 0));
    }
    let ghost mut taken: Seq<Seq<u8>> = Seq::empty();
    while i < n
        invariant
            psv == pieces.deep_view(),
            psv == spec_split(cell.spec_bytes(), 0x20u8),
            n == pieces@.len(),
            toks == spec_host_tokens(cell.spec_bytes()),
            toks == spec_nonempty_from(psv, 0),
            0 <= i <= n,
            toks =~= taken + spec_nonempty_from(psv, i as int),
            out.deep_view().len() == taken.len(),
            forall|k: int| 0 <= k < taken.len()
                ==> valid_utf8(#[trigger] taken[k])
                    && out.deep_view()[k] == decode_utf8(taken[k]),
        decreases n - i,
    {
        let piece = &pieces[i];
        proof {
            assert(piece@ == psv[i as int]);
        }
        if piece.len() > 0 {
            let bytes = crate::bytes::copy_range(piece.as_slice(), 0, piece.len());
            proof {
                assert(bytes@ =~= piece@);
            }
            match utf8_to_string(bytes) {
                Some(s) => {
                    let ghost out0 = out.deep_view();
                    out.push(s);
                    proof {
                        taken = taken.push(psv[i as int]);
                        assert(out.deep_view() =~= out0.push(s@));
                        assert(taken + spec_nonempty_from(psv, i + 1)
                            =~= taken.drop_last() + (seq![psv[i as int]]
                                + spec_nonempty_from(psv, i + 1)));
                        assert(taken.drop_last() =~= taken.take(taken.len() - 1));
                    }
                },
                None => {
                    proof {
                        let k = taken.len() as int;
                        assert(spec_nonempty_from(psv, i as int)
                            =~= seq![psv[i as int]] + spec_nonempty_from(psv, i + 1));
                        assert(toks[k] == psv[i as int]);
                        assert(!valid_utf8(psv[i as int]));
                    }
                    return Err(Error::ParseError);
                },
            }
        }
        i += 1;
    }
    proof {
        assert(spec_nonempty_from(psv, n as int) =~= Seq::<Seq<u8>>::empty());
        assert(taken + Seq::<Seq<u8>>::empty() =~= taken);
        assert(toks =~= taken);
    }
    Ok(out)
}

/// The `Path` and `Hosts` cells of the `cdns` manifest row whose `Name`
/// is the region, when all of that exists.
pub open spec fn spec_cdn_cells(fields: Seq<Seq<char>>, rows: Seq<Seq<Seq<char>>>, region: Seq<char>) -> Option<(Seq<char>, Seq<char>)> {
    match spec_first_index(fields, "Name"@) {
        None => None,
        Some(ni) => match spec_find_row_from(rows, ni, region, 0) {
            None => None,
            Some(ri) => match spec_first_index(fields, "Path"@) {
                None => None,
                Some(pi) => if pi >= rows[ri].len() {
                    None
                } else {
                    match spec_first_index(fields, "Hosts"@) {
                        None => None,
                        Some(hi) => if hi >= rows[ri].len() {
                            None
                        } else {
                            Some((rows[ri][pi], rows[ri][hi]))
                        },
                    }
                },
            },
        },
    }
}

/// Reads the region's CDN path and host list from the `cdns` manifest.
///
/// Fails exactly when the region row or either column is missing, or a
/// host token is not UTF-8.
pub fn pick_hosts(cdns: &Manifest, region: &str) -> (r: Result<(String, Vec<CDNHost>), Error>)
    ensures
        ({
            let cells = spec_cdn_cells(cdns.field_names.deep_view(), cdns.rows.deep_view(),
                region@);
            match r {
                Ok((path, hosts)) => {
                    &&& cells is Some
                    &&& path@ == cells->Some_0.0
                    &&& {
                        let toks = spec_host_tokens(encode_utf8(cells->Some_0.1));
                        &&& hosts@.len() == toks.len()
                        &&& forall|k: int| 0 <= k < toks.len()
                            ==> valid_utf8(#[trigger] toks[k])
                                && (#[trigger] hosts@[k]).host@ == decode_utf8(toks[k])
                                && hosts@[k].path@ == cells->Some_0.0
                    }
                },
                Err(e) => e == Error::ParseError && (cells is None || {
                    let toks = spec_host_tokens(encode_utf8(cells->Some_0.1));
                    exists|k: int| 0 <= k < toks.len() && !valid_utf8(#[trigger] toks[k])
                }),
            }
        }),
{
    let row = match cdns.find_row("Name", region) {
        Some(i) => i,
        None => {
            return Err(Error::ParseError);
        },
    };
    proof {
        lemma_first_index(cdns.field_names.deep_view(), "Name"@);
        lemma_find_row_range(cdns.rows.deep_view(),
            spec_first_index(cdns.field_names.deep_view(), "Name"@)->Some_0, region@, 0);
    }
    let path = match cdns.get_field(row, "Path") {
        Some(p) => p,
        None => {
            return Err(Error::ParseError);
        },
    };
    let hosts_cell = match cdns.get_field(row, "Hosts") {
        Some(h) => h,
        None => {
            return Err(Error::ParseError);
        },
    };
    let names = match split_hosts(hosts_cell) {
        Ok(v) => v,
        Err(e) => {
            proof {
                let cells = spec_cdn_cells(cdns.field_names.deep_view(),
                    cdns.rows.deep_view(), region@);
                assert(cells is Some);
                assert(cells->Some_0.1 == hosts_cell@);
            }
            return Err(e);
        },
    };
    let path_string = path.to_owned();
    let n = names.len();
    let mut hosts: Vec<CDNHost> = Vec::new();
    let mut i: usize = 0;
    let ghost toks = spec_host_tokens(hosts_cell.spec_bytes());
    while i < n
        invariant
            n == names@.len(),
            0 <= i <= n,
            hosts@.len() == i,
            names.deep_view().len() == toks.len(),
            path_string@ == path@,
            forall|k: int| 0 <= k < toks.len()
                ==> valid_utf8(#[trigger] toks[k])
                    && names.deep_view()[k] == decode_utf8(toks[k]),
            forall|k: int| 0 <= k < i
                ==> (#[trigger] hosts@[k]).host@ == decode_utf8(toks[k])
                    && hosts@[k].path@ == path@,
        decreases n - i,
    {
        let h = CDNHost::new(names[i].as_str(), path_string.as_str());
        hosts.push(h);
        i += 1;
    }
    Ok((path_string, hosts))
}

/// The `BuildConfig` and `CDNConfig` cells of the `versions` manifest row
/// whose `Region` is the region, when all of that exists.
pub open spec fn spec_version_cells(fields: Seq<Seq<char>>, rows: Seq<Seq<Seq<char>>>, region: Seq<char>) -> Option<(Seq<char>, Seq<char>)> {
    match spec_first_index(fields, "Region"@) {
        None => None,
        Some(ni) => match spec_find_row_from(rows, ni, region, 0) {
            None => None,
            Some(ri) => match spec_first_index(fields, "BuildConfig"@) {
                None => None,
                Some(bi) => if bi >= rows[ri].len() {
                    None
                } else {
                    match spec_first_index(fields, "CDNConfig"@) {
                        None => None,
                        Some(ci) => if ci >= rows[ri].len() {
                            None
                        } else {
                            Some((rows[ri][bi], rows[ri][ci]))
                        },
                    }
                },
            },
        },
    }
}

/// Reads the region's build-config and CDN-config keys from the
/// `versions` manifest; fails exactly when the row or a column is
/// missing.
pub fn config_keys(versions: &Manifest, region: &str) -> (r: Result<(String, String), Error>)
    ensures
        ({
            let cells = spec_version_cells(versions.field_names.deep_view(),
                versions.rows.deep_view(), region@);
            match r {
                Ok((b, c)) => cells is Some && b@ == cells->Some_0.0 && c@ == cells->Some_0.1,
                Err(e) => cells is None && e == Error::ParseError,
            }
        }),
{
    let row = match versions.find_row("Region", region) {
        Some(i) => i,
        None => {
            return Err(Error::ParseError);
        },
    };
    proof {
        lemma_first_index(versions.field_names.deep_view(), "Region"@);
        lemma_find_row_range(versions.rows.deep_view(),
            spec_first_index(versions.field_names.deep_view(), "Region"@)->Some_0,
            region@, 0);
    }
    let build = match versions.get_field(row, "BuildConfig") {
        Some(b) => b,
        None => {
            return Err(Error::ParseError);
        },
    };
    let cdn = match versions.get_field(row, "CDNConfig") {
        Some(c) => c,
        None => {
            return Err(Error::ParseError);
        },
    };
    Ok((build.to_owned(), cdn.to_owned()))
}

/// The second value of the build config's `encoding` line: the key the
/// CDN serves the encoding table under. A missing line, or one with
/// fewer than two values, is rejected.
pub fn encoding_key(build_config: &Config) -> (r: Result<String, Error>)
    requires
        build_config.wf(),
    ensures
        ({
            let li = spec_last_name_index(build_config.names.deep_view(), "encoding"@);
            match r {
                Ok(s) => li is Some
                    && build_config.values.deep_view()[li->Some_0].len() >= 2
                    && s@ == build_config.values.deep_view()[li->Some_0][1],
                Err(e) => e == Error::ParseError
                    && (li is None
                        || build_config.values.deep_view()[li->Some_0].len() < 2),
            }
        }),
{
    let values = match build_config.get("encoding") {
        Some(v) => v,
        None => {
            return Err(Error::ParseError);
        },
    };
    if values.len() < 2 {
        return Err(Error::ParseError);
    }
    Ok(values[1].clone())
}

/// The first value of the build config's `root` line, decoded as a
/// content key; a missing line, an empty value list, or a malformed key
/// is rejected.
pub fn root_ckey(build_config: &Config) -> (r: Result<CKey, Error>)
    requires
        build_config.wf(),
    ensures
        ({
            let li = spec_last_name_index(build_config.names.deep_view(), "root"@);
            match r {
                Ok(k) => li is Some
                    && build_config.values.deep_view()[li->Some_0].len() >= 1
                    && spec_hex_decode(build_config.values.deep_view()[li->Some_0][0])
                        == Some(k@),
                Err(e) => e == Error::ParseError
                    && (li is None
                        || build_config.values.deep_view()[li->Some_0].len() < 1
                        || spec_hex_decode(build_config.values.deep_view()[
                            li->Some_0][0]) is None),
            }
        }),
{
    let values = match build_config.get("root") {
        Some(v) => v,
        None => {
            return Err(Error::ParseError);
        },
    };
    if values.len() < 1 {
        return Err(Error::ParseError);
    }
    CKey::from_str(values[0].as_str())
}

/// The archive key list of the CDN config; a missing line is rejected.
pub fn archive_keys<'a>(cdn_config: &'a Config) -> (r: Result<&'a Vec<String>, Error>)
    requires
        cdn_config.wf(),
    ensures
        ({
            let li = spec_last_name_index(cdn_config.names.deep_view(), "archives"@);
            match r {
                Ok(v) => li is Some && v.deep_view() == cdn_config.values.deep_view()[
                    li->Some_0],
                Err(e) => li is None && e == Error::ParseError,
            }
        }),
{
    match cdn_config.get("archives") {
        Some(v) => Ok(v),
        None => Err(Error::ParseError),
    }
}

/// The first archive (in list order) holding the encoded key, with its
/// entry.
pub open spec fn spec_find_archive(archives: Seq<ArchiveIndex>, k: u128, i: int) -> Option<(int, ArchiveIndexEntry)>
    decreases archives.len() - i,
{
    if i < 0 || i >= archives.len() {
        None
    } else {
        match spec_lookup(archives[i].entries@, k) {
            Some(e) => Some((i, e)),
            None => spec_find_archive(archives, k, i + 1),
        }
    }
}

/// Scans the archive list for an encoded key: the first archive whose
/// index holds it answers, with its entry.
pub fn find_archive_entry(archives: &Vec<ArchiveIndex>, ekey: &EKey) -> (r: Option<(usize, ArchiveIndexEntry)>)
    requires
        forall|i: int| 0 <= i < archives@.len() ==> (#[trigger] archives@[i]).wf(),
    ensures
        match r {
            Some(p) => spec_find_archive(archives@, key_u128_of(ekey@), 0)
                == Some((p.0 as int, p.1)),
            None => spec_find_archive(archives@, key_u128_of(ekey@), 0) is None,
        },
{
    let n = archives.len();
    let mut i: usize = 0;
    while i < n
        invariant
            n == archives@.len(),
            0 <= i <= n,
            forall|j: int| 0 <= j < archives@.len() ==> (#[trigger] archives@[j]).wf(),
            spec_find_archive(archives@, key_u128_of(ekey@), 0)
                == spec_find_archive(archives@, key_u128_of(ekey@), i as int),
        decreases n - i,
    {
        match archives[i].get_entry_for_ekey(ekey) {
            Some(e) => {
                return Some((i, *e));
            },
            None => {},
        }
        i += 1;
    }
    None
}

/// Resolves a content key to the archive and entry that store its
/// encoded form: the encoding table gives the encoded key, the archive
/// scan finds its home; either link may be missing.
pub fn resolve_ckey(encoding: &EncodingFile, archives: &Vec<ArchiveIndex>, ckey: &CKey) -> (r: Option<(usize, ArchiveIndexEntry)>)
    requires
        encoding.wf(),
        forall|i: int| 0 <= i < archives@.len() ==> (#[trigger] archives@[i]).wf(),
    ensures
        ({
            let found = match spec_lookup_ekey(encoding.pairs@, key_u128_of(ckey@)) {
                None => None,
                Some(ek) => spec_find_archive(archives@, key_u128_of(ek@), 0),
            };
            match r {
                Some(p) => found == Some((p.0 as int, p.1)),
                None => found is None,
            }
        }),
{
    let ekey = match encoding.get_ekey_for_ckey(ckey) {
        Some(e) => e,
        None => {
            return None;
        },
    };
    find_archive_entry(archives, ekey)
}

/// Resolves a file id through the whole chain: root to content key,
/// encoding to encoded key, archive scan to byte range. A missing id
/// reports it; a broken later link reports a missing content key.
pub fn resolve_file_id(root: &RootFile, encoding: &EncodingFile, archives: &Vec<ArchiveIndex>, file_id: u32) -> (r: Result<(usize, ArchiveIndexEntry), Error>)
    requires
        root.wf(),
        encoding.wf(),
        forall|i: int| 0 <= i < archives@.len() ==> (#[trigger] archives@[i]).wf(),
    ensures
        ({
            match spec_last_id_index(root.file_ids@, file_id) {
                None => r == Err::<(usize, ArchiveIndexEntry), Error>(
                    Error::MissingFileId(file_id)),
                Some(w) => {
                    let found = match spec_lookup_ekey(encoding.pairs@,
                        key_u128_of(root.entries@[w].ckey@)) {
                        None => None,
                        Some(ek) => spec_find_archive(archives@, key_u128_of(ek@), 0),
                    };
                    match r {
                        Ok(p) => found == Some((p.0 as int, p.1)),
                        Err(e) => found is None && e == Error::MissingCKey,
                    }
                },
            }
        }),
{
    let ckey = match root.get_ckey_for_file_id(file_id) {
        Some(c) => *c,
        None => {
            return Err(Error::MissingFileId(file_id));
        },
    };
    match resolve_ckey(encoding, archives, &ckey) {
        Some(p) => Ok(p),
        None => Err(Error::MissingCKey),
    }
}

/// Resolves a path name the same way, going through the folded name
/// hash; a missing name reports the path itself.
pub fn resolve_file_name(root: &RootFile, encoding: &EncodingFile, archives: &Vec<ArchiveIndex>, name: &str) -> (r: Result<(usize, ArchiveIndexEntry), Error>)
    requires
        root.wf(),
        encoding.wf(),
        forall|i: int| 0 <= i < archives@.len() ==> (#[trigger] archives@[i]).wf(),
    ensures
        ({
            let h = crate::namehash::spec_name_hash(name.spec_bytes());
            match crate::root::spec_last_hash_index(root.entries@, h) {
                None => r matches Err(e) && e matches Error::MissingFileName(s) && s@ == name@,
                Some(w) => {
                    let found = match spec_lookup_ekey(encoding.pairs@,
                        key_u128_of(root.entries@[w].ckey@)) {
                        None => None,
                        Some(ek) => spec_find_archive(archives@, key_u128_of(ek@), 0),
                    };
                    match r {
                        Ok(p) => found == Some((p.0 as int, p.1)),
                        Err(e) => found is None && e == Error::MissingCKey,
                    }
                },
            }
        }),
{
    let ckey = match root.get_ckey_for_file_path(name) {
        Some(c) => *c,
        None => {
            return Err(Error::MissingFileName(name.to_owned()));
        },
    };
    match resolve_ckey(encoding, archives, &ckey) {
        Some(p) => Ok(p),
        None => Err(Error::MissingCKey),
    }
}

} // verus!
