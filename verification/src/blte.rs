//! The BLTE block-transport envelope: a `BLTE` magic, a chunk table, and a
//! sequence of framed chunks, each raw (`N`), zlib-compressed (`Z`) or
//! encrypted (`E`, not supported).
use vstd::prelude::*;
use crate::bytes::{spec_u24_be, spec_u32_be, read_u24_be, read_u32_be, copy_range, read_16_bytes};
use crate::error::Error;
use vstd::slice::slice_subrange;

verus! {

/// What inflating a zlib stream yields, when it inflates. Inflation is a
/// function of the input bytes alone.
pub uninterp spec fn zlib_inflate(s: Seq<u8>) -> Option<Seq<u8>>;

/// Relies on `miniz_oxide::inflate::decompress_to_vec_zlib`: it inflates a
/// zlib-wrapped deflate stream, and its result depends only on the input
/// bytes.
#[verifier::external_body]
fn zlib_decompress(data: &[u8]) -> (r: Option<Vec<u8>>)
    ensures
        match r {
            Some(v) => zlib_inflate(data@) == Some(v@),
            None => zlib_inflate(data@) is None,
        },
{
    match miniz_oxide::inflate::decompress_to_vec_zlib(data) {
        Ok(v) => Some(v),
        Err(_) => None,
    }
}

/// One chunk descriptor of a BLTE header.
#[derive(Clone, Copy, Debug)]
pub struct BLTEChunk {
    pub compressed_size: u32,
    pub uncompressed_size: u32,
    pub checksum: [u8; 16],
}

/// The parsed BLTE header: the offset where chunk data starts, the flag
/// byte, and the chunk descriptors.
#[derive(Clone, Debug)]
pub struct BLTEHeader {
    pub data_offset: u32,
    pub flag: u8,
    pub chunks: Vec<BLTEChunk>,
}

/// Whether the buffer begins with a well-formed BLTE header: the magic, the
/// fixed fields, and one descriptor per chunk.
pub open spec fn spec_blte_header_ok(s: Seq<u8>) -> bool {
    &&& s.len() >= 12
    &&& s[0] == 0x42u8
    &&& s[1] == 0x4cu8
    &&& s[2] == 0x54u8
    &&& s[3] == 0x45u8
    &&& 12 + 24 * spec_u24_be(s, 9) <= s.len()
}

/// The compressed size field of chunk `j`.
pub open spec fn spec_chunk_compressed(s: Seq<u8>, j: int) -> int {
    spec_u32_be(s, 12 + 24 * j)
}

/// The uncompressed size field of chunk `j`.
pub open spec fn spec_chunk_uncompressed(s: Seq<u8>, j: int) -> int {
    spec_u32_be(s, 12 + 24 * j + 4)
}

/// What decoding chunks `j ..` yields, with chunk `j`'s frame starting at
/// byte `offs`: the concatenation of the decoded frames, or the first
/// failure. A frame whose first byte is `N` passes its body through, `Z`
/// inflates it, `E` is unsupported, anything else is a parse error.
pub open spec fn spec_decode_chunks(s: Seq<u8>, cc: int, j: int, offs: int) -> Result<Seq<u8>, Error>
    decreases cc - j,
{
    if j >= cc {
        Ok(Seq::empty())
    } else {
        let comp = spec_chunk_compressed(s, j);
        if comp < 1 || offs < 0 || offs + comp > s.len() {
            Err(Error::ParseError)
        } else {
            let tag = s[offs];
            let body = s.subrange(offs + 1, offs + comp);
            if tag == 0x4eu8 {
                match spec_decode_chunks(s, cc, j + 1, offs + comp) {
                    Ok(rest) => Ok(body + rest),
                    Err(e) => Err(e),
                }
            } else if tag == 0x5au8 {
                match zlib_inflate(body) {
                    Some(inflated) => match spec_decode_chunks(s, cc, j + 1, offs + comp) {
                        Ok(rest) => Ok(inflated + rest),
                        Err(e) => Err(e),
                    },
                    None => Err(Error::ZlibError),
                }
            } else if tag == 0x45u8 {
                Err(Error::UnsupportedEncryptedData)
            } else {
                Err(Error::ParseError)
            }
        }
    }
}

/// What decoding a whole BLTE buffer yields.
pub open spec fn spec_decode_blte(s: Seq<u8>) -> Result<Seq<u8>, Error> {
    if !spec_blte_header_ok(s) {
        Err(Error::ParseError)
    } else {
        spec_decode_chunks(s, spec_u24_be(s, 9), 0, spec_u32_be(s, 4))
    }
}

/// Parses the BLTE header at the start of the buffer.
pub fn parse_blte_header(buf: &[u8]) -> (r: Result<BLTEHeader, Error>)
    ensures
        match r {
            Ok(h) => {
                &&& spec_blte_header_ok(buf@)
                &&& h.data_offset == spec_u32_be(buf@, 4)
                &&& h.flag == buf@[8]
                &&& h.chunks@.len() == spec_u24_be(buf@, 9)
                &&& forall|j: int| 0 <= j < h.chunks@.len()
                    ==> (#[trigger] h.chunks@[j]).compressed_size == spec_chunk_compressed(buf@, j)
                        && h.chunks@[j].uncompressed_size == spec_chunk_uncompressed(buf@, j)
                        && h.chunks@[j].checksum@ == buf@.subrange(12 + 24 * j + 8, 12 + 24 * j + 24)
            },
            Err(e) => !spec_blte_header_ok(buf@) && e == Error::ParseError,
        },
{
    if buf.len() < 12 {
        return Err(Error::ParseError);
    }
    if buf[0] != 0x42 || buf[1] != 0x4c || buf[2] != 0x54 || buf[3] != 0x45 {
        return Err(Error::ParseError);
    }
    let data_offset = read_u32_be(buf, 4);
    let flag = buf[8];
    let chunk_count = read_u24_be(buf, 9);
    let cc = chunk_count as usize;
    if (buf.len() - 12) / 24 < cc {
        return Err(Error::ParseError);
    }
    let n = buf.len();
    let mut chunks: Vec<BLTEChunk> = Vec::new();
    let mut j: usize = 0;
    while j < cc
        invariant
            n == buf@.len(),
            12 + 24 * cc <= n,
            0 <= j <= cc,
            chunks@.len() == j,
            forall|k: int| 0 <= k < j
                ==> (#[trigger] chunks@[k]).compressed_size == spec_chunk_compressed(buf@, k)
                    && chunks@[k].uncompressed_size == spec_chunk_uncompressed(buf@, k)
                    && chunks@[k].checksum@ == buf@.subrange(12 + 24 * k + 8, 12 + 24 * k + 24),
        decreases cc - j,
    {
        let base = 12 + 24 * j;
        let compressed_size = read_u32_be(buf, base);
        let uncompressed_size = read_u32_be(buf, base + 4);
        let checksum = read_16_bytes(buf, base + 8);
        chunks.push(BLTEChunk { compressed_size, uncompressed_size, checksum });
        j += 1;
    }
    Ok(BLTEHeader { data_offset, flag, chunks })
}

/// Decodes a BLTE envelope into the raw bytes it carries.
///
/// Fails with a parse error on a malformed header, a truncated or empty
/// frame, or an unknown frame tag; with a zlib error when a `Z` frame does
/// not inflate; and reports an `E` frame as unsupported encrypted data.
pub fn decode_blte(buf: &[u8]) -> (r: Result<Vec<u8>, Error>)
    ensures
        match r {
            Ok(v) => spec_decode_blte(buf@) == Ok::<Seq<u8>, Error>(v@),
            Err(e) => spec_decode_blte(buf@) == Err::<Seq<u8>, Error>(e),
        },
{
    let header = match parse_blte_header(buf) {
        Ok(h) => h,
        Err(e) => {
            return Err(e);
        },
    };
    let cc = header.chunks.len();
    let ghost s = buf@;
    let ghost ccs = cc as int;
    let mut out: Vec<u8> = Vec::new();
    let mut data_offs: usize = header.data_offset as usize;
    let mut j: usize = 0;
    while j < cc
        invariant
            spec_blte_header_ok(s),
            s == buf@,
            ccs == cc,
            cc == header.chunks@.len(),
            cc == spec_u24_be(s, 9),
            0 <= j <= cc,
            data_offs <= s.len() || j == 0,
            forall|k: int| 0 <= k < cc
                ==> (#[trigger] header.chunks@[k]).compressed_size
                    == spec_chunk_compressed(s, k),
            ({
                let full = spec_decode_chunks(s, ccs, 0, spec_u32_be(s, 4));
                match spec_decode_chunks(s, ccs, j as int, data_offs as int) {
                    Ok(rest) => full == Ok::<Seq<u8>, Error>(out@ + rest),
                    Err(e) => full == Err::<Seq<u8>, Error>(e),
                }
            }),
        decreases cc - j,
    {
        let comp = header.chunks[j].compressed_size as usize;
        if comp < 1 || data_offs > buf.len() || comp > buf.len() - data_offs {
            return Err(Error::ParseError);
        }
        let tag = buf[data_offs];
        let ghost body = s.subrange(data_offs + 1, data_offs + comp);
        if tag == 0x4e {
            let frame = slice_subrange(buf, data_offs + 1, data_offs + comp);
            let ghost out_before = out@;
            out.extend_from_slice(frame);
            proof {
                assert(out@ =~= out_before + body);
                let rest_now = spec_decode_chunks(s, ccs, j + 1, data_offs + comp);
                if rest_now is Ok {
                    assert(out_before + (body + rest_now->Ok_0) =~= out@ + rest_now->Ok_0);
                }
            }
        } else if tag == 0x5a {
            let frame = slice_subrange(buf, data_offs + 1, data_offs + comp);
            match zlib_decompress(frame) {
                Some(inflated) => {
                    let ghost out_before = out@;
                    out.extend_from_slice(inflated.as_slice());
                    proof {
                        assert(out@ =~= out_before + inflated@);
                        let rest_now = spec_decode_chunks(s, ccs, j + 1, data_offs + comp);
                        if rest_now is Ok {
                            assert(out_before + (inflated@ + rest_now->Ok_0)
                                =~= out@ + rest_now->Ok_0);
                        }
                    }
                },
                None => {
                    return Err(Error::ZlibError);
                },
            }
        } else if tag == 0x45 {
            return Err(Error::UnsupportedEncryptedData);
        } else {
            return Err(Error::ParseError);
        }
        data_offs = data_offs + comp;
        j += 1;
    }
    proof {
        let full = spec_decode_chunks(s, ccs, 0, spec_u32_be(s, 4));
        assert(spec_decode_chunks(s, ccs, j as int, data_offs as int)
            == Ok::<Seq<u8>, Error>(Seq::<u8>::empty()));
        assert(out@ + Seq::<u8>::empty() =~= out@);
    }
    Ok(out)
}

} // verus!
