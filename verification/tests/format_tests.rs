use polymorph::blte::decode_blte;
use polymorph::error::Error;
use polymorph::keys::{hexstring, hexunstring, CKey, EKey};
use polymorph::vlq::{vlq_read, vlq_write};

#[test]
fn test_hexstring() {
    let hex: [u8; 4] = [0x13, 0x12, 0xde, 0xad];
    assert_eq!(hexstring(&hex), "1312dead");
}

#[test]
fn test_hexunstring() {
    let s = "0017a402f556fbece46c38dc431a2c9b";
    let hex: [u8; 16] = [
        0x00, 0x17, 0xa4, 0x02, 0xf5, 0x56, 0xfb, 0xec, 0xe4, 0x6c, 0x38, 0xdc, 0x43, 0x1a,
        0x2c, 0x9b,
    ];
    assert_eq!(hexunstring(s), Ok(hex));
}

#[test]
fn test_ekey_conversion() {
    let s = "0017a402f556fbece46c38dc431a2c9b";
    let key: EKey = EKey([
        0x00, 0x17, 0xa4, 0x02, 0xf5, 0x56, 0xfb, 0xec, 0xe4, 0x6c, 0x38, 0xdc, 0x43, 0x1a,
        0x2c, 0x9b,
    ]);
    assert_eq!(EKey::from_str(s), Ok(key.clone()));
    assert_eq!(key.to_string(), s.to_string());
}

#[test]
fn test_hex_round_trip() {
    let bytes: [u8; 16] = [
        0x00, 0x01, 0x0f, 0x10, 0x7f, 0x80, 0xff, 0x42, 0x99, 0xab, 0xcd, 0xef, 0x00, 0xff,
        0x55, 0xaa,
    ];
    let s = hexstring(&bytes);
    assert_eq!(s.len(), 32);
    assert_eq!(hexunstring(&s), Ok(bytes));
    let upper = "0017A402F556FBECE46C38DC431A2C9B";
    let decoded = hexunstring(upper).unwrap();
    assert_eq!(hexstring(&decoded), upper.to_ascii_lowercase());
}

#[test]
fn test_hexunstring_rejects() {
    assert_eq!(hexunstring(""), Err(Error::ParseError));
    assert_eq!(hexunstring("0017a402f556fbece46c38dc431a2c9"), Err(Error::ParseError));
    assert_eq!(hexunstring("0017a402f556fbece46c38dc431a2c9bb"), Err(Error::ParseError));
    assert_eq!(hexunstring("z017a402f556fbece46c38dc431a2c9b"), Err(Error::ParseError));
    assert!(CKey::from_str("not hex").is_err());
}

fn blte_single_n_frame() -> Vec<u8> {
    // magic, data offset 0x24, flag 0x0f, one chunk of compressed size 5
    // and uncompressed size 4 with a zero checksum, then the N frame.
    let mut buf = Vec::new();
    buf.extend_from_slice(b"BLTE");
    buf.extend_from_slice(&[0x00, 0x00, 0x00, 0x24]);
    buf.push(0x0f);
    buf.extend_from_slice(&[0x00, 0x00, 0x01]);
    buf.extend_from_slice(&[0x00, 0x00, 0x00, 0x05]);
    buf.extend_from_slice(&[0x00, 0x00, 0x00, 0x04]);
    buf.extend_from_slice(&[0u8; 16]);
    buf.push(b'N');
    buf.extend_from_slice(&[0xde, 0xad, 0xbe, 0xef]);
    buf
}

#[test]
fn test_blte_single_n_chunk() {
    let buf = blte_single_n_frame();
    assert_eq!(decode_blte(&buf), Ok(vec![0xde, 0xad, 0xbe, 0xef]));
}

#[test]
fn test_blte_zlib_chunk_lengths() {
    // An N frame and a Z frame whose size fields are accurate: the output
    // length equals the sum of the uncompressed sizes.
    let plain: Vec<u8> = (0u16..300).map(|v| (v % 251) as u8).collect();
    let packed = miniz_oxide::deflate::compress_to_vec_zlib(&plain, 6);
    let raw = [0x01u8, 0x02, 0x03];
    let mut buf = Vec::new();
    buf.extend_from_slice(b"BLTE");
    buf.extend_from_slice(&[0x00, 0x00, 0x00, 0x3c]);
    buf.push(0x0f);
    buf.extend_from_slice(&[0x00, 0x00, 0x02]);
    // chunk 0: raw
    buf.extend_from_slice(&(raw.len() as u32 + 1).to_be_bytes());
    buf.extend_from_slice(&(raw.len() as u32).to_be_bytes());
    buf.extend_from_slice(&[0u8; 16]);
    // chunk 1: zlib
    buf.extend_from_slice(&(packed.len() as u32 + 1).to_be_bytes());
    buf.extend_from_slice(&(plain.len() as u32).to_be_bytes());
    buf.extend_from_slice(&[0u8; 16]);
    assert_eq!(buf.len(), 0x3c);
    buf.push(b'N');
    buf.extend_from_slice(&raw);
    buf.push(b'Z');
    buf.extend_from_slice(&packed);
    let out = decode_blte(&buf).unwrap();
    assert_eq!(out.len(), raw.len() + plain.len());
    assert_eq!(&out[..3], &raw);
    assert_eq!(&out[3..], &plain[..]);
}

#[test]
fn test_blte_encrypted_frame() {
    let mut buf = blte_single_n_frame();
    buf[0x24] = b'E';
    assert_eq!(decode_blte(&buf), Err(Error::UnsupportedEncryptedData));
}

#[test]
fn test_blte_bad_zlib() {
    // a Z frame whose body is not a zlib stream
    let mut buf = blte_single_n_frame();
    buf[0x24] = b'Z';
    assert_eq!(decode_blte(&buf), Err(Error::ZlibError));
}

#[test]
fn test_blte_unknown_tag() {
    let mut buf = blte_single_n_frame();
    buf[0x24] = b'Q';
    assert_eq!(decode_blte(&buf), Err(Error::ParseError));
}

#[test]
fn test_blte_bad_magic() {
    let mut buf = blte_single_n_frame();
    buf[0] = b'X';
    assert_eq!(decode_blte(&buf), Err(Error::ParseError));
}

#[test]
fn test_blte_truncated_frame() {
    let mut buf = blte_single_n_frame();
    buf.pop();
    assert_eq!(decode_blte(&buf), Err(Error::ParseError));
}

#[test]
fn test_vlq() {
    let buf = vec![0xffu8, 0x7f, 0x03];
    let (value1, next) = vlq_read(&buf, 0).unwrap();
    let (value2, end) = vlq_read(&buf, next).unwrap();
    assert_eq!(value1, 0x3fff);
    assert_eq!(value2, 0x03);
    assert_eq!(end, buf.len());

    let mut buf2: Vec<u8> = Vec::new();
    vlq_write(value1, &mut buf2);
    vlq_write(value2, &mut buf2);
    assert_eq!(buf, buf2);
}

#[test]
fn test_vlq_runs_out() {
    let buf = vec![0xffu8, 0x80];
    assert_eq!(vlq_read(&buf, 0), Err(Error::ParseError));
}
