use polymorph::archive::ArchiveIndex;
use polymorph::config::parse_config;
use polymorph::encoding::EncodingFile;
use polymorph::error::Error;
use polymorph::fetcher::{encoding_key, root_ckey, archive_keys};
use polymorph::keys::{CKey, EKey};
use polymorph::manifest::Manifest;
use polymorph::root::RootFile;

fn blte_wrap(payload: &[u8]) -> Vec<u8> {
    let mut buf = Vec::new();
    buf.extend_from_slice(b"BLTE");
    buf.extend_from_slice(&36u32.to_be_bytes());
    buf.push(0x0f);
    buf.extend_from_slice(&[0x00, 0x00, 0x01]);
    buf.extend_from_slice(&(payload.len() as u32 + 1).to_be_bytes());
    buf.extend_from_slice(&(payload.len() as u32).to_be_bytes());
    buf.extend_from_slice(&[0u8; 16]);
    buf.push(b'N');
    buf.extend_from_slice(payload);
    buf
}

fn key_bytes(tag: u8) -> [u8; 16] {
    let mut k = [0u8; 16];
    k[0] = tag;
    k[15] = tag.wrapping_add(1);
    k
}

#[test]
fn manifest_fields_and_rows() {
    let text = b"Name!STRING:0|Path!STRING:0|Hosts!STRING:0\n\
                 # comment\n\
                 us|tpr/wow|host1.example host2.example\n\
                 eu|tpr/wow-eu|host3.example\n";
    let m = Manifest::parse(text).unwrap();
    assert_eq!(m.field_names, vec!["Name", "Path", "Hosts"]);
    assert_eq!(m.rows.len(), 2);
    assert_eq!(m.get_field_index("Path"), Some(1));
    assert_eq!(m.get_field_index("Missing"), None);
    assert_eq!(m.find_row("Name", "eu"), Some(1));
    assert_eq!(m.find_row("Name", "kr"), None);
    assert_eq!(m.get_field(0, "Hosts"), Some("host1.example host2.example"));
    assert_eq!(m.get_field(5, "Hosts"), None);
}

#[test]
fn manifest_rejects_bad_header() {
    assert_eq!(
        Manifest::parse(b"Name|Path\nus|tpr\n").unwrap_err(),
        Error::ParseError
    );
    assert_eq!(Manifest::parse(b"").unwrap_err(), Error::ParseError);
}

#[test]
fn config_lines_and_lookup() {
    let text = "# build config\n\
                root = aabbccdd\n\
                encoding = 0017a402f556fbece46c38dc431a2c9b 1122334455667788991011121314cafe\n\
                \n\
                root = 00112233445566778899aabbccddeeff\n";
    let c = parse_config(text).unwrap();
    let root = c.get("root").unwrap();
    assert_eq!(root, &vec!["00112233445566778899aabbccddeeff".to_string()]);
    let enc = c.get("encoding").unwrap();
    assert_eq!(enc.len(), 2);
    assert!(c.get("absent").is_none());
}

#[test]
fn config_rejects_line_without_assignment() {
    assert_eq!(parse_config("root aabb\n").unwrap_err(), Error::ParseError);
}

#[test]
fn config_encoding_needs_second_value() {
    let short = parse_config("encoding = only-one\n").unwrap();
    assert_eq!(encoding_key(&short), Err(Error::ParseError));
    let two = parse_config(
        "encoding = aaaa 1122334455667788991011121314cafe\n").unwrap();
    assert_eq!(
        encoding_key(&two).unwrap(),
        "1122334455667788991011121314cafe"
    );
    let missing = parse_config("root = aabb\n").unwrap();
    assert_eq!(encoding_key(&missing), Err(Error::ParseError));
}

#[test]
fn config_root_key_and_archives() {
    let c = parse_config(
        "root = 0017a402f556fbece46c38dc431a2c9b\narchives = aa bb\n").unwrap();
    let k = root_ckey(&c).unwrap();
    assert_eq!(k.to_string(), "0017a402f556fbece46c38dc431a2c9b");
    assert_eq!(archive_keys(&c).unwrap(), &vec!["aa".to_string(), "bb".to_string()]);
    let bad = parse_config("root = nothex\n").unwrap();
    assert_eq!(root_ckey(&bad), Err(Error::ParseError));
}

fn build_archive_index(entries: &[([u8; 16], u32, u32)]) -> Vec<u8> {
    let mut block = Vec::new();
    for (ekey, size, offset) in entries {
        block.extend_from_slice(ekey);
        block.extend_from_slice(&size.to_be_bytes());
        block.extend_from_slice(&offset.to_be_bytes());
    }
    block.resize(4096, 0);
    let mut data = block;
    data.extend_from_slice(&[0u8; 16]); // toc hash
    data.push(1); // version
    data.extend_from_slice(&[0, 0]);
    data.push(4); // block size in KiB
    data.push(4); // offset bytes
    data.push(4); // size bytes
    data.push(16); // key size
    data.push(8); // checksum size
    data.extend_from_slice(&(entries.len() as u32).to_le_bytes());
    data.extend_from_slice(&[0u8; 8]);
    data
}

#[test]
fn archive_index_parses_and_looks_up() {
    let a = key_bytes(0x11);
    let b = key_bytes(0x22);
    let data = build_archive_index(&[(a, 100, 0), (b, 50, 100)]);
    let idx = ArchiveIndex::parse("deadbeef", &data).unwrap();
    assert_eq!(idx.key, "deadbeef");
    assert_eq!(idx.entries.len(), 2);
    let ea = idx.get_entry_for_ekey(&EKey(a)).unwrap();
    assert_eq!((ea.size_bytes, ea.offset_bytes), (100, 0));
    assert_eq!(ea.get_byte_range(), (0, 100));
    let eb = idx.get_entry_for_ekey(&EKey(b)).unwrap();
    assert_eq!((eb.size_bytes, eb.offset_bytes), (50, 100));
    assert!(idx.get_entry_for_ekey(&EKey(key_bytes(0x33))).is_none());
}

#[test]
fn archive_footer_fields() {
    let a = key_bytes(0x11);
    let data = build_archive_index(&[(a, 100, 0)]);
    let f = polymorph::archive::parse_footer(&data).unwrap();
    assert_eq!(f.version, 1);
    assert_eq!(f.block_size_kb, 4);
    assert_eq!(f.num_files, 1);
    assert_eq!(f.toc_hash, [0u8; 16]);
}

#[test]
fn archive_index_rejects_bad_footer() {
    let a = key_bytes(0x11);
    let mut data = build_archive_index(&[(a, 100, 0)]);
    let n = data.len();
    data[n - 0x24 + 16] = 2; // version
    assert!(matches!(ArchiveIndex::parse("k", &data), Err(Error::ParseError)));
    assert!(matches!(ArchiveIndex::parse("k", &[0u8; 10]), Err(Error::ParseError)));
}

#[test]
fn archive_index_counts_exactly() {
    // A count larger than the entries the single block holds runs past
    // the footer and is rejected; the exact count parses.
    let a = key_bytes(0x11);
    let mut data = build_archive_index(&[(a, 1, 0)]);
    let n = data.len();
    data[n - 0x24 + 24] = 9; // claim nine entries
    assert!(matches!(ArchiveIndex::parse("k", &data), Err(Error::ParseError)));
}

#[test]
fn encoding_table_maps_first_ekey() {
    let ck = key_bytes(0x31);
    let ek1 = key_bytes(0x41);
    let ek2 = key_bytes(0x51);
    let mut payload = Vec::new();
    payload.extend_from_slice(b"EN");
    payload.push(1); // version
    payload.push(16); // content key size
    payload.push(16); // encoded key size
    payload.extend_from_slice(&1u16.to_be_bytes()); // page size (KiB)
    payload.extend_from_slice(&0u16.to_be_bytes());
    payload.extend_from_slice(&1u32.to_be_bytes()); // content pages
    payload.extend_from_slice(&0u32.to_be_bytes());
    payload.push(0); // padding
    payload.extend_from_slice(&0u32.to_be_bytes()); // espec size
    payload.extend_from_slice(&[0u8; 32]); // page index
    let mut page = Vec::new();
    page.push(2); // two encoded keys; the first is kept
    page.push(0);
    page.extend_from_slice(&100u32.to_be_bytes());
    page.extend_from_slice(&ck);
    page.extend_from_slice(&ek1);
    page.extend_from_slice(&ek2);
    page.resize(1024, 0);
    payload.extend_from_slice(&page);
    let enc = EncodingFile::parse(&blte_wrap(&payload)).unwrap();
    assert_eq!(enc.pairs.len(), 1);
    assert_eq!(enc.get_ekey_for_ckey(&CKey(ck)), Some(&EKey(ek1)));
    assert!(enc.get_ekey_for_ckey(&CKey(key_bytes(0x61))).is_none());
}

fn root_block(deltas: &[u32], entries: &[([u8; 16], u64)]) -> Vec<u8> {
    let mut b = Vec::new();
    b.extend_from_slice(&(deltas.len() as u32).to_le_bytes());
    b.extend_from_slice(&0u32.to_le_bytes()); // content flags
    b.extend_from_slice(&0u32.to_le_bytes()); // locale flags
    for d in deltas {
        b.extend_from_slice(&d.to_le_bytes());
    }
    for (ck, nh) in entries {
        b.extend_from_slice(ck);
        b.extend_from_slice(&nh.to_le_bytes());
    }
    b
}

#[test]
fn root_block_id_reconstruction() {
    let ca = key_bytes(0x0a);
    let cb = key_bytes(0x0b);
    let cc = key_bytes(0x0c);
    let payload = root_block(&[0, 2, 0], &[(ca, 0), (cb, 0), (cc, 0)]);
    let root = RootFile::parse(&blte_wrap(&payload)).unwrap();
    assert_eq!(root.entries.len(), 3);
    assert_eq!(root.file_ids, vec![0u32, 3, 4]);
    assert_eq!(root.get_ckey_for_file_id(0), Some(&CKey(ca)));
    assert_eq!(root.get_ckey_for_file_id(3), Some(&CKey(cb)));
    assert_eq!(root.get_ckey_for_file_id(4), Some(&CKey(cc)));
    assert!(root.get_ckey_for_file_id(1).is_none());
    assert!(root.get_ckey_for_file_id(2).is_none());
}

#[test]
fn root_lookup_by_path() {
    let ca = key_bytes(0x0a);
    let hash = polymorph::namehash::name_hash("world/maps/foo.wdt");
    let payload = root_block(&[7], &[(ca, hash)]);
    let root = RootFile::parse(&blte_wrap(&payload)).unwrap();
    assert_eq!(root.get_ckey_for_file_path("world/maps/foo.wdt"), Some(&CKey(ca)));
    assert_eq!(root.get_ckey_for_file_path("WORLD\\MAPS\\FOO.WDT"), Some(&CKey(ca)));
    assert!(root.get_ckey_for_file_path("other/name").is_none());
}

#[test]
fn name_hash_matches_folded_jenkins() {
    let h = polymorph::namehash::name_hash("world/maps/foo.wdt");
    let direct = hashers::jenkins::lookup3(b"WORLD\\MAPS\\FOO.WDT");
    assert_eq!(h, direct);
    assert_eq!(h, polymorph::namehash::name_hash("WORLD\\MAPS\\FOO.WDT"));
}
