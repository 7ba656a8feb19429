use polymorph::archive::{ArchiveIndex, ArchiveIndexEntry};
use polymorph::encoding::EncodingFile;
use polymorph::error::Error;
use polymorph::fetcher::{CDNHost, find_archive_entry, resolve_file_id, split_hosts,
    segment_cache_name};
use polymorph::keys::EKey;
use polymorph::namehash::make_name_variants;
use polymorph::repack::{coalesce_range, plan_repack};
use polymorph::root::RootFile;
use polymorph::sheepfile::{get_data_filename, index_to_bytes, parse_index, Entry};
use polymorph::sheepfile_reader::SheepfileReader;
use polymorph::sheepfile_writer::SheepfileWriter;

fn key_bytes(tag: u8) -> [u8; 16] {
    let mut k = [0u8; 16];
    k[0] = tag;
    k[15] = tag.wrapping_add(1);
    k
}

fn blte_wrap(payload: &[u8]) -> Vec<u8> {
    let mut buf = Vec::new();
    buf.extend_from_slice(b"BLTE");
    buf.extend_from_slice(&36u32.to_be_bytes());
    buf.push(0x0f);
    buf.extend_from_slice(&[0x00, 0x00, 0x01]);
    buf.extend_from_slice(&(payload.len() as u32 + 1).to_be_bytes());
    buf.extend_from_slice(&(payload.len() as u32).to_be_bytes());
    buf.extend_from_slice(&[0u8; 16]);
    buf.push(b'N');
    buf.extend_from_slice(payload);
    buf
}

#[test]
fn url_building() {
    let host = CDNHost::new("cdn.example", "tpr/wow");
    let url = host.make_url("0017a402f556fbece46c38dc431a2c9b", "data");
    assert_eq!(
        url,
        "http://cdn.example/tpr/wow/data/00/17/0017a402f556fbece46c38dc431a2c9b"
    );
}

#[test]
fn data_filenames() {
    assert_eq!(get_data_filename(0), "data0.baa");
    assert_eq!(get_data_filename(12), "data12.baa");
    assert_eq!(segment_cache_name(5, 260), "5_260");
}

#[test]
fn host_splitting() {
    let hosts = split_hosts("a.example  b.example c.example").unwrap();
    assert_eq!(hosts, vec!["a.example", "b.example", "c.example"]);
    let empty = split_hosts("   ").unwrap();
    assert!(empty.is_empty());
}

#[test]
fn index_round_trip() {
    let entries = vec![
        Entry { file_id: 1, name_hash: 7, data_file_index: 0, start_bytes: 0, size_bytes: 10 },
        Entry { file_id: 9, name_hash: 0, data_file_index: 1, start_bytes: 4, size_bytes: 2 },
    ];
    let bytes = index_to_bytes(&entries);
    assert_eq!(bytes.len(), 4 + 22 * 2);
    let parsed = parse_index(&bytes).unwrap();
    assert_eq!(parsed.entries, entries);
    let again = index_to_bytes(&parsed.entries);
    assert_eq!(again, bytes);
}

#[test]
fn index_rejects_short_blob() {
    assert_eq!(parse_index(&[1, 0, 0]).unwrap_err(), Error::ParseError);
    let mut bytes = index_to_bytes(&vec![Entry {
        file_id: 1, name_hash: 0, data_file_index: 0, start_bytes: 0, size_bytes: 1,
    }]);
    bytes.pop();
    assert_eq!(parse_index(&bytes).unwrap_err(), Error::ParseError);
}

#[test]
fn reader_resolves_ids_and_names() {
    let h = polymorph::namehash::name_hash("world/maps/foo.wdt");
    let entries = vec![
        Entry { file_id: 3, name_hash: h, data_file_index: 0, start_bytes: 0, size_bytes: 5 },
        Entry { file_id: 8, name_hash: 1, data_file_index: 0, start_bytes: 5, size_bytes: 5 },
    ];
    let reader = SheepfileReader::parse(&index_to_bytes(&entries)).unwrap();
    assert_eq!(reader.get_entry_for_file_id(3), Some(&entries[0]));
    assert_eq!(reader.get_entry_for_file_id(8), Some(&entries[1]));
    assert!(reader.get_entry_for_file_id(4).is_none());
    assert_eq!(reader.get_entry_for_name("WORLD\\MAPS\\FOO.WDT"), Some(&entries[0]));
    assert!(reader.get_entry_for_name("nope").is_none());
}

#[test]
fn writer_segments_payloads() {
    // Payloads of 100, 200 and 255,999,750 bytes: the first two share
    // segment zero, the third starts segment one.
    let mut w = SheepfileWriter::new();
    let e0 = w.append_entry(10, 0, &vec![0xaau8; 100]);
    let e1 = w.append_entry(11, 0, &vec![0xbbu8; 200]);
    let e2 = w.append_entry(12, 0, &vec![0xccu8; 255_999_750]);
    assert_eq!((e0.data_file_index, e0.start_bytes, e0.size_bytes), (0, 0, 100));
    assert_eq!((e1.data_file_index, e1.start_bytes, e1.size_bytes), (0, 100, 200));
    assert_eq!((e2.data_file_index, e2.start_bytes, e2.size_bytes), (1, 0, 255_999_750));
    let parsed = parse_index(&w.finish()).unwrap();
    assert_eq!(parsed.entries.len(), 3);
    let segs: Vec<u16> = parsed.entries.iter().map(|e| e.data_file_index).collect();
    assert_eq!(segs, vec![0u16, 0, 1]);
}

#[test]
fn writer_cap_boundary() {
    // A payload of exactly the cap starts a new segment only when the
    // open segment already holds something.
    let cap = 256_000_000usize;
    let mut w = SheepfileWriter::new();
    let e0 = w.append_entry(1, 0, &vec![0u8; cap]);
    assert_eq!((e0.data_file_index, e0.start_bytes), (0, 0));
    let mut w2 = SheepfileWriter::new();
    w2.append_entry(1, 0, &[1u8]);
    let e1 = w2.append_entry(2, 0, &vec![0u8; cap]);
    assert_eq!((e1.data_file_index, e1.start_bytes), (1, 0));
}

#[test]
fn writer_ranges_read_back() {
    // Mirror the segment files the caller would write and check that
    // every recorded range holds exactly the bytes appended for it.
    let payloads: Vec<Vec<u8>> = vec![vec![1, 2, 3], vec![], vec![9; 40], vec![7, 7]];
    let mut w = SheepfileWriter::new();
    let mut segments: Vec<Vec<u8>> = vec![Vec::new()];
    let mut recorded = Vec::new();
    for (i, p) in payloads.iter().enumerate() {
        let e = w.append_entry(i as u32, 1000 + i as u64, p);
        while segments.len() <= e.data_file_index as usize {
            segments.push(Vec::new());
        }
        assert_eq!(segments[e.data_file_index as usize].len(), e.start_bytes as usize);
        segments[e.data_file_index as usize].extend_from_slice(p);
        recorded.push(e);
    }
    for (e, p) in recorded.iter().zip(payloads.iter()) {
        let seg = &segments[e.data_file_index as usize];
        let got = &seg[e.start_bytes as usize..(e.start_bytes + e.size_bytes) as usize];
        assert_eq!(got, &p[..]);
    }
    // no segment outgrows the cap
    for seg in &segments {
        assert!(seg.len() as u64 <= 256_000_000);
    }
    // ranges within one segment never overlap
    for a in &recorded {
        for b in &recorded {
            if a.file_id != b.file_id && a.data_file_index == b.data_file_index {
                assert!(
                    a.start_bytes + a.size_bytes <= b.start_bytes
                        || b.start_bytes + b.size_bytes <= a.start_bytes
                );
            }
        }
    }
}

#[test]
fn coalesce_covers_all_entries() {
    let e1 = ArchiveIndexEntry { ekey: EKey(key_bytes(1)), size_bytes: 8, offset_bytes: 100 };
    let e2 = ArchiveIndexEntry { ekey: EKey(key_bytes(2)), size_bytes: 16, offset_bytes: 40 };
    let e3 = ArchiveIndexEntry { ekey: EKey(key_bytes(3)), size_bytes: 4, offset_bytes: 300 };
    assert_eq!(coalesce_range(&[e1, e2, e3]), (40, 304));
    // one entry spanning the whole archive coalesces to the whole archive
    let whole = ArchiveIndexEntry { ekey: EKey(key_bytes(4)), size_bytes: 512, offset_bytes: 0 };
    assert_eq!(coalesce_range(&[whole]), (0, 512));
}

fn build_archive_index(entries: &[([u8; 16], u32, u32)]) -> Vec<u8> {
    let mut block = Vec::new();
    for (ekey, size, offset) in entries {
        block.extend_from_slice(ekey);
        block.extend_from_slice(&size.to_be_bytes());
        block.extend_from_slice(&offset.to_be_bytes());
    }
    block.resize(4096, 0);
    let mut data = block;
    data.extend_from_slice(&[0u8; 16]);
    data.push(1);
    data.extend_from_slice(&[0, 0]);
    data.push(4);
    data.push(4);
    data.push(4);
    data.push(16);
    data.push(8);
    data.extend_from_slice(&(entries.len() as u32).to_le_bytes());
    data.extend_from_slice(&[0u8; 8]);
    data
}

fn root_block(deltas: &[u32], entries: &[([u8; 16], u64)]) -> Vec<u8> {
    let mut b = Vec::new();
    b.extend_from_slice(&(deltas.len() as u32).to_le_bytes());
    b.extend_from_slice(&0u32.to_le_bytes());
    b.extend_from_slice(&0u32.to_le_bytes());
    for d in deltas {
        b.extend_from_slice(&d.to_le_bytes());
    }
    for (ck, nh) in entries {
        b.extend_from_slice(ck);
        b.extend_from_slice(&nh.to_le_bytes());
    }
    b
}

fn encoding_table(pairs: &[([u8; 16], [u8; 16])]) -> Vec<u8> {
    let mut payload = Vec::new();
    payload.extend_from_slice(b"EN");
    payload.push(1);
    payload.push(16);
    payload.push(16);
    payload.extend_from_slice(&1u16.to_be_bytes());
    payload.extend_from_slice(&0u16.to_be_bytes());
    payload.extend_from_slice(&1u32.to_be_bytes());
    payload.extend_from_slice(&0u32.to_be_bytes());
    payload.push(0);
    payload.extend_from_slice(&0u32.to_be_bytes());
    payload.extend_from_slice(&[0u8; 32]);
    let mut page = Vec::new();
    for (ck, ek) in pairs {
        page.push(1);
        page.push(0);
        page.extend_from_slice(&10u32.to_be_bytes());
        page.extend_from_slice(ck);
        page.extend_from_slice(ek);
    }
    page.resize(1024, 0);
    payload.extend_from_slice(&page);
    payload
}

#[test]
fn resolution_and_plan() {
    let ck_a = key_bytes(0xa1);
    let ck_b = key_bytes(0xb1);
    let ek_a = key_bytes(0xa2);
    let ek_b = key_bytes(0xb2);
    // file ids 5 and 2; 5 parsed first, so the plan must sort them
    let root_bytes = blte_wrap(&root_block(&[5], &[(ck_a, 11)]));
    let mut two = root_block(&[5], &[(ck_a, 11)]);
    two.extend_from_slice(&root_block(&[2], &[(ck_b, 22)]));
    let root = RootFile::parse(&blte_wrap(&two)).unwrap();
    assert_eq!(root.file_ids, vec![5u32, 2]);
    drop(root_bytes);

    let encoding = EncodingFile::parse(&blte_wrap(&encoding_table(&[
        (ck_a, ek_a),
        (ck_b, ek_b),
    ]))).unwrap();
    let archives = vec![
        ArchiveIndex::parse("arch0", &build_archive_index(&[(ek_b, 64, 128)])).unwrap(),
        ArchiveIndex::parse("arch1", &build_archive_index(&[(ek_a, 32, 0)])).unwrap(),
    ];

    let (ai, entry) = find_archive_entry(&archives, &EKey(ek_a)).unwrap();
    assert_eq!(ai, 1);
    assert_eq!(entry.size_bytes, 32);

    let (ai5, e5) = resolve_file_id(&root, &encoding, &archives, 5).unwrap();
    assert_eq!((ai5, e5.offset_bytes, e5.size_bytes), (1, 0, 32));
    assert_eq!(
        resolve_file_id(&root, &encoding, &archives, 99).unwrap_err(),
        Error::MissingFileId(99)
    );

    // an id whose content key is absent from the encoding table
    let enc_only_a = EncodingFile::parse(&blte_wrap(&encoding_table(&[(ck_a, ek_a)]))).unwrap();
    assert_eq!(
        resolve_file_id(&root, &enc_only_a, &archives, 2).unwrap_err(),
        Error::MissingCKey
    );

    match polymorph::fetcher::resolve_file_name(&root, &encoding, &archives, "no/such/file") {
        Err(Error::MissingFileName(n)) => assert_eq!(n, "no/such/file"),
        other => panic!("unexpected resolution: {:?}", other),
    }

    let plan = plan_repack(&root, &encoding, &archives);
    assert_eq!(plan.len(), 2);
    assert_eq!(plan[0].file_id, 2);
    assert_eq!(plan[0].name_hash, 22);
    assert_eq!(plan[0].archive_index, 0);
    assert_eq!(plan[1].file_id, 5);
    assert_eq!(plan[1].archive_index, 1);
    let partial = plan_repack(&root, &enc_only_a, &archives);
    assert_eq!(partial.len(), 1);
    assert_eq!(partial[0].file_id, 5);
}

#[test]
fn name_variant_spellings() {
    let vs = make_name_variants(" world/maps/Foo.wdt ");
    assert!(vs.contains(&"WORLD\\MAPS\\FOO.WDT".to_string()));
    assert!(vs.contains(&"WORLD\\\\MAPS\\\\FOO.WDT".to_string()));
    assert!(vs.contains(&" world/maps/Foo.wdt ".to_string()));
    assert!(vs.contains(&" world\\maps\\Foo.wdt ".to_string()));
    assert!(vs.contains(&" WORLD/MAPS/FOO.WDT ".to_string()));
    assert!(vs.contains(&" world/maps/foo.wdt ".to_string()));
    for (i, a) in vs.iter().enumerate() {
        for b in vs.iter().skip(i + 1) {
            assert_ne!(a, b);
        }
    }
}

#[test]
fn file_db_round_trip() {
    let mut db = polymorph::file_db::FileDb::new();
    db.append(7, 99, "0017a402f556fbece46c38dc431a2c9b", 10, 20).unwrap();
    db.append(8, 100, "00112233445566778899aabbccddeeff", 30, 40).unwrap();
    assert_eq!(
        db.append(9, 0, "nothex", 0, 0).unwrap_err(),
        Error::ParseError
    );
    let bytes = db.serialize();
    let parsed = polymorph::file_db::FileDb::parse(&bytes).unwrap();
    assert_eq!(parsed.file_infos, db.file_infos);
    assert_eq!(parsed.file_infos[0].file_id, 7);
    assert_eq!(parsed.file_infos[1].start_bytes, 30);
    // 0x00 0x17 0xa4 ... is not valid UTF-8, so no text form exists
    assert!(parsed.file_infos[0].archive_key_str().is_none());
    // a key whose bytes happen to be ASCII reads back as that text
    let mut db2 = polymorph::file_db::FileDb::new();
    db2.append(1, 2, "6162636465666768696a6b6c6d6e6f70", 0, 0).unwrap();
    assert_eq!(db2.file_infos[0].archive_key_str(), Some("abcdefghijklmnop"));
}
