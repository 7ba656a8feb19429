//! Fixed-width integer readers over byte buffers, in both endiannesses, as
//! the wire formats use them.
use vstd::prelude::*;
use vstd::slice::{slice_subrange, slice_to_vec};

verus! {

/// Little-endian 16-bit value at offset `i`.
pub open spec fn spec_u16_le(s: Seq<u8>, i: int) -> int {
    s[i] + s[i + 1] * 0x100
}

/// Little-endian 32-bit value at offset `i`.
pub open spec fn spec_u32_le(s: Seq<u8>, i: int) -> int {
    s[i] + s[i + 1] * 0x100 + s[i + 2] * 0x10000 + s[i + 3] * 0x1000000
}

/// Little-endian 64-bit value at offset `i`.
pub open spec fn spec_u64_le(s: Seq<u8>, i: int) -> int {
    s[i] + s[i + 1] * 0x100 + s[i + 2] * 0x10000 + s[i + 3] * 0x1000000
        + s[i + 4] * 0x100000000 + s[i + 5] * 0x10000000000
        + s[i + 6] * 0x1000000000000 + s[i + 7] * 0x100000000000000
}

/// Big-endian 16-bit value at offset `i`.
pub open spec fn spec_u16_be(s: Seq<u8>, i: int) -> int {
    s[i] * 0x100 + s[i + 1]
}

/// Big-endian 24-bit value at offset `i`.
pub open spec fn spec_u24_be(s: Seq<u8>, i: int) -> int {
    s[i] * 0x10000 + s[i + 1] * 0x100 + s[i + 2]
}

/// Big-endian 32-bit value at offset `i`.
pub open spec fn spec_u32_be(s: Seq<u8>, i: int) -> int {
    s[i] * 0x1000000 + s[i + 1] * 0x10000 + s[i + 2] * 0x100 + s[i + 3]
}

/// Reads a little-endian 16-bit value.
pub fn read_u16_le(data: &[u8], i: usize) -> (r: u16)
    requires
        i + 2 <= data@.len(),
    ensures
        r == spec_u16_le(data@, i as int),
{
    (data[i] as u16) + (data[i + 1] as u16) * 0x100
}

/// Reads a little-endian 32-bit value.
pub fn read_u32_le(data: &[u8], i: usize) -> (r: u32)
    requires
        i + 4 <= data@.len(),
    ensures
        r == spec_u32_le(data@, i as int),
{
    (data[i] as u32) + (data[i + 1] as u32) * 0x100 + (data[i + 2] as u32) * 0x10000
        + (data[i + 3] as u32) * 0x1000000
}

/// Reads a little-endian 64-bit value.
pub fn read_u64_le(data: &[u8], i: usize) -> (r: u64)
    requires
        i + 8 <= data@.len(),
    ensures
        r == spec_u64_le(data@, i as int),
{
    (data[i] as u64) + (data[i + 1] as u64) * 0x100 + (data[i + 2] as u64) * 0x10000
        + (data[i + 3] as u64) * 0x1000000 + (data[i + 4] as u64) * 0x100000000
        + (data[i + 5] as u64) * 0x10000000000 + (data[i + 6] as u64) * 0x1000000000000
        + (data[i + 7] as u64) * 0x100000000000000
}

/// Reads a big-endian 16-bit value.
pub fn read_u16_be(data: &[u8], i: usize) -> (r: u16)
    requires
        i + 2 <= data@.len(),
    ensures
        r == spec_u16_be(data@, i as int),
{
    (data[i] as u16) * 0x100 + (data[i + 1] as u16)
}

/// Reads a big-endian 24-bit value.
pub fn read_u24_be(data: &[u8], i: usize) -> (r: u32)
    requires
        i + 3 <= data@.len(),
    ensures
        r == spec_u24_be(data@, i as int),
        r < 0x1000000,
{
    (data[i] as u32) * 0x10000 + (data[i + 1] as u32) * 0x100 + (data[i + 2] as u32)
}

/// Reads a big-endian 32-bit value.
pub fn read_u32_be(data: &[u8], i: usize) -> (r: u32)
    requires
        i + 4 <= data@.len(),
    ensures
        r == spec_u32_be(data@, i as int),
{
    (data[i] as u32) * 0x1000000 + (data[i + 1] as u32) * 0x10000 + (data[i + 2] as u32) * 0x100
        + (data[i + 3] as u32)
}

/// The two little-endian bytes of a 16-bit value.
pub open spec fn u16_le_bytes(v: u16) -> Seq<u8> {
    seq![(v & 0xff) as u8, ((v >> 8) & 0xff) as u8]
}

/// The four little-endian bytes of a 32-bit value.
pub open spec fn u32_le_bytes(v: u32) -> Seq<u8> {
    seq![
        (v & 0xff) as u8,
        ((v >> 8) & 0xff) as u8,
        ((v >> 16) & 0xff) as u8,
        ((v >> 24) & 0xff) as u8,
    ]
}

/// The eight little-endian bytes of a 64-bit value.
pub open spec fn u64_le_bytes(v: u64) -> Seq<u8> {
    seq![
        (v & 0xff) as u8,
        ((v >> 8) & 0xff) as u8,
        ((v >> 16) & 0xff) as u8,
        ((v >> 24) & 0xff) as u8,
        ((v >> 32) & 0xff) as u8,
        ((v >> 40) & 0xff) as u8,
        ((v >> 48) & 0xff) as u8,
        ((v >> 56) & 0xff) as u8,
    ]
}

/// Appends a 16-bit value in little-endian order.
pub fn push_u16_le(out: &mut Vec<u8>, v: u16)
    ensures
        final(out)@ == old(out)@ + u16_le_bytes(v),
{
    out.push((v & 0xff) as u8);
    out.push(((v >> 8) & 0xff) as u8);
    proof {
        assert(out@ =~= old(out)@ + u16_le_bytes(v));
    }
}

/// Appends a 32-bit value in little-endian order.
pub fn push_u32_le(out: &mut Vec<u8>, v: u32)
    ensures
        final(out)@ == old(out)@ + u32_le_bytes(v),
{
    out.push((v & 0xff) as u8);
    out.push(((v >> 8) & 0xff) as u8);
    out.push(((v >> 16) & 0xff) as u8);
    out.push(((v >> 24) & 0xff) as u8);
    proof {
        assert(out@ =~= old(out)@ + u32_le_bytes(v));
    }
}

/// Appends a 64-bit value in little-endian order.
pub fn push_u64_le(out: &mut Vec<u8>, v: u64)
    ensures
        final(out)@ == old(out)@ + u64_le_bytes(v),
{
    out.push((v & 0xff) as u8);
    out.push(((v >> 8) & 0xff) as u8);
    out.push(((v >> 16) & 0xff) as u8);
    out.push(((v >> 24) & 0xff) as u8);
    out.push(((v >> 32) & 0xff) as u8);
    out.push(((v >> 40) & 0xff) as u8);
    out.push(((v >> 48) & 0xff) as u8);
    out.push(((v >> 56) & 0xff) as u8);
    proof {
        assert(out@ =~= old(out)@ + u64_le_bytes(v));
    }
}

/// Reading back the little-endian bytes of a 16-bit value gives the value.
pub proof fn lemma_u16_le_round(v: u16)
    ensures
        spec_u16_le(u16_le_bytes(v), 0) == v,
{
    assert((v & 0xff) < 0x100 && ((v >> 8) & 0xff) < 0x100) by (bit_vector);
    assert((v & 0xff) + ((v >> 8) & 0xff) * 0x100 == v) by (bit_vector);
}

/// Reading back the little-endian bytes of a 32-bit value gives the value.
pub proof fn lemma_u32_le_round(v: u32)
    ensures
        spec_u32_le(u32_le_bytes(v), 0) == v,
{
    assert((v & 0xff) < 0x100 && ((v >> 8) & 0xff) < 0x100 && ((v >> 16) & 0xff) < 0x100
        && ((v >> 24) & 0xff) < 0x100) by (bit_vector);
    assert((v & 0xff) + ((v >> 8) & 0xff) * 0x100 + ((v >> 16) & 0xff) * 0x10000
        + ((v >> 24) & 0xff) * 0x1000000 == v) by (bit_vector);
}

/// Reading back the little-endian bytes of a 64-bit value gives the value.
pub proof fn lemma_u64_le_round(v: u64)
    ensures
        spec_u64_le(u64_le_bytes(v), 0) == v,
{
    assert((v & 0xff) < 0x100 && ((v >> 8) & 0xff) < 0x100 && ((v >> 16) & 0xff) < 0x100
        && ((v >> 24) & 0xff) < 0x100 && ((v >> 32) & 0xff) < 0x100
        && ((v >> 40) & 0xff) < 0x100 && ((v >> 48) & 0xff) < 0x100
        && ((v >> 56) & 0xff) < 0x100) by (bit_vector);
    assert((v & 0xff) + ((v >> 8) & 0xff) * 0x100 + ((v >> 16) & 0xff) * 0x10000
        + ((v >> 24) & 0xff) * 0x1000000 + ((v >> 32) & 0xff) * 0x100000000
        + ((v >> 40) & 0xff) * 0x10000000000 + ((v >> 48) & 0xff) * 0x1000000000000
        + ((v >> 56) & 0xff) * 0x100000000000000 == v) by (bit_vector);
}

/// Rendering a 16-bit value read from two bytes gives those bytes back.
pub proof fn lemma_u16_le_bytes_of(s: Seq<u8>, i: int)
    requires
        0 <= i,
        i + 2 <= s.len(),
        spec_u16_le(s, i) <= u16::MAX,
    ensures
        u16_le_bytes(spec_u16_le(s, i) as u16) == s.subrange(i, i + 2),
{
    let b0 = s[i];
    let b1 = s[i + 1];
    let v = (spec_u16_le(s, i)) as u16;
    assert(v == (((b0 as u16) + (b1 as u16) * 0x100) as u16));
    assert(((((b0 as u16) + (b1 as u16) * 0x100) as u16) & 0xff) == b0 as u16) by (bit_vector);
    assert((((((b0 as u16) + (b1 as u16) * 0x100) as u16) >> 8) & 0xff) == b1 as u16) by (bit_vector);
    assert(u16_le_bytes(v) =~= s.subrange(i, i + 2));
}

/// Rendering a 32-bit value read from four bytes gives those bytes back.
pub proof fn lemma_u32_le_bytes_of(s: Seq<u8>, i: int)
    requires
        0 <= i,
        i + 4 <= s.len(),
        spec_u32_le(s, i) <= u32::MAX,
    ensures
        u32_le_bytes(spec_u32_le(s, i) as u32) == s.subrange(i, i + 4),
{
    let b0 = s[i];
    let b1 = s[i + 1];
    let b2 = s[i + 2];
    let b3 = s[i + 3];
    let v = (spec_u32_le(s, i)) as u32;
    assert(v == (((b0 as u32) + (b1 as u32) * 0x100 + (b2 as u32) * 0x10000 + (b3 as u32) * 0x1000000) as u32));
    assert(((((b0 as u32) + (b1 as u32) * 0x100 + (b2 as u32) * 0x10000 + (b3 as u32) * 0x1000000) as u32) & 0xff) == b0 as u32) by (bit_vector);
    assert((((((b0 as u32) + (b1 as u32) * 0x100 + (b2 as u32) * 0x10000 + (b3 as u32) * 0x1000000) as u32) >> 8) & 0xff) == b1 as u32) by (bit_vector);
    assert((((((b0 as u32) + (b1 as u32) * 0x100 + (b2 as u32) * 0x10000 + (b3 as u32) * 0x1000000) as u32) >> 16) & 0xff) == b2 as u32) by (bit_vector);
    assert((((((b0 as u32) + (b1 as u32) * 0x100 + (b2 as u32) * 0x10000 + (b3 as u32) * 0x1000000) as u32) >> 24) & 0xff) == b3 as u32) by (bit_vector);
    assert(u32_le_bytes(v) =~= s.subrange(i, i + 4));
}

/// Rendering a 64-bit value read from eight bytes gives those bytes back.
pub proof fn lemma_u64_le_bytes_of(s: Seq<u8>, i: int)
    requires
        0 <= i,
        i + 8 <= s.len(),
        spec_u64_le(s, i) <= u64::MAX,
    ensures
        u64_le_bytes(spec_u64_le(s, i) as u64) == s.subrange(i, i + 8),
{
    let b0 = s[i];
    let b1 = s[i + 1];
    let b2 = s[i + 2];
    let b3 = s[i + 3];
    let b4 = s[i + 4];
    let b5 = s[i + 5];
    let b6 = s[i + 6];
    let b7 = s[i + 7];
    let v = (spec_u64_le(s, i)) as u64;
    assert(v == (((b0 as u64) + (b1 as u64) * 0x100 + (b2 as u64) * 0x10000 + (b3 as u64) * 0x1000000 + (b4 as u64) * 0x100000000 + (b5 as u64) * 0x10000000000 + (b6 as u64) * 0x1000000000000 + (b7 as u64) * 0x100000000000000) as u64));
    assert(((((b0 as u64) + (b1 as u64) * 0x100 + (b2 as u64) * 0x10000 + (b3 as u64) * 0x1000000 + (b4 as u64) * 0x100000000 + (b5 as u64) * 0x10000000000 + (b6 as u64) * 0x1000000000000 + (b7 as u64) * 0x100000000000000) as u64) & 0xff) == b0 as u64) by (bit_vector);
    assert((((((b0 as u64) + (b1 as u64) * 0x100 + (b2 as u64) * 0x10000 + (b3 as u64) * 0x1000000 + (b4 as u64) * 0x100000000 + (b5 as u64) * 0x10000000000 + (b6 as u64) * 0x1000000000000 + (b7 as u64) * 0x100000000000000) as u64) >> 8) & 0xff) == b1 as u64) by (bit_vector);
    assert((((((b0 as u64) + (b1 as u64) * 0x100 + (b2 as u64) * 0x10000 + (b3 as u64) * 0x1000000 + (b4 as u64) * 0x100000000 + (b5 as u64) * 0x10000000000 + (b6 as u64) * 0x1000000000000 + (b7 as u64) * 0x100000000000000) as u64) >> 16) & 0xff) == b2 as u64) by (bit_vector);
    assert((((((b0 as u64) + (b1 as u64) * 0x100 + (b2 as u64) * 0x10000 + (b3 as u64) * 0x1000000 + (b4 as u64) * 0x100000000 + (b5 as u64) * 0x10000000000 + (b6 as u64) * 0x1000000000000 + (b7 as u64) * 0x100000000000000) as u64) >> 24) & 0xff) == b3 as u64) by (bit_vector);
    assert((((((b0 as u64) + (b1 as u64) * 0x100 + (b2 as u64) * 0x10000 + (b3 as u64) * 0x1000000 + (b4 as u64) * 0x100000000 + (b5 as u64) * 0x10000000000 + (b6 as u64) * 0x1000000000000 + (b7 as u64) * 0x100000000000000) as u64) >> 32) & 0xff) == b4 as u64) by (bit_vector);
    assert((((((b0 as u64) + (b1 as u64) * 0x100 + (b2 as u64) * 0x10000 + (b3 as u64) * 0x1000000 + (b4 as u64) * 0x100000000 + (b5 as u64) * 0x10000000000 + (b6 as u64) * 0x1000000000000 + (b7 as u64) * 0x100000000000000) as u64) >> 40) & 0xff) == b5 as u64) by (bit_vector);
    assert((((((b0 as u64) + (b1 as u64) * 0x100 + (b2 as u64) * 0x10000 + (b3 as u64) * 0x1000000 + (b4 as u64) * 0x100000000 + (b5 as u64) * 0x10000000000 + (b6 as u64) * 0x1000000000000 + (b7 as u64) * 0x100000000000000) as u64) >> 48) & 0xff) == b6 as u64) by (bit_vector);
    assert((((((b0 as u64) + (b1 as u64) * 0x100 + (b2 as u64) * 0x10000 + (b3 as u64) * 0x1000000 + (b4 as u64) * 0x100000000 + (b5 as u64) * 0x10000000000 + (b6 as u64) * 0x1000000000000 + (b7 as u64) * 0x100000000000000) as u64) >> 56) & 0xff) == b7 as u64) by (bit_vector);
    assert(u64_le_bytes(v) =~= s.subrange(i, i + 8));
}

/// Copies `data[start .. end]` into a fresh vector.
pub fn copy_range(data: &[u8], start: usize, end: usize) -> (r: Vec<u8>)
    requires
        start <= end <= data@.len(),
    ensures
        r@ == data@.subrange(start as int, end as int),
{
    slice_to_vec(slice_subrange(data, start, end))
}

/// Copies the sixteen bytes at `data[i .. i + 16]`.
pub fn read_16_bytes(data: &[u8], i: usize) -> (r: [u8; 16])
    requires
        i + 16 <= data@.len(),
    ensures
        r@ == data@.subrange(i as int, i + 16),
{
    let n = data.len();
    let mut out = [0u8; 16];
    let mut j: usize = 0;
    while j < 16
        invariant
            n == data@.len(),
            i + 16 <= n,
            0 <= j <= 16,
            out@.len() == 16,
            forall|k: int| 0 <= k < j ==> out@[k] == data@[i + k],
        decreases 16 - j,
    {
        out[j] = data[i + j];
        j += 1;
    }
    proof {
        assert(out@ =~= data@.subrange(i as int, i + 16));
    }
    out
}

} // verus!
