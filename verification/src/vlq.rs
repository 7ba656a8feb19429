//! Variable-length quantities: 7-bit groups with a continuation bit, as
//! some auxiliary tables store them.
use vstd::prelude::*;
use crate::error::Error;

verus! {

/// What reading a quantity at `pos` with accumulator `acc` yields: the
/// value and the position after it, or nothing when the bytes run out
/// before a byte without the continuation bit.
pub open spec fn spec_vlq_read(s: Seq<u8>, pos: int, acc: u32) -> Option<(u32, int)>
    decreases s.len() - pos,
{
    if pos < 0 || pos >= s.len() {
        None
    } else {
        let b = s[pos];
        let v = acc | ((b & 0x7f) as u32);
        if b & 0x80 == 0 {
            Some((v, pos + 1))
        } else {
            spec_vlq_read(s, pos + 1, v << 7)
        }
    }
}

/// The encoding of a value: its 7-bit groups from the least significant
/// up, every group but the last carrying the continuation bit.
pub open spec fn spec_vlq_bytes(v: int) -> Seq<u8>
    decreases v,
{
    if v < 0x80 {
        seq![v as u8]
    } else {
        seq![((v % 0x80) + 0x80) as u8] + spec_vlq_bytes(v / 0x80)
    }
}

/// Reads one variable-length quantity starting at `pos`.
///
/// Fails exactly when the buffer ends before a byte without the
/// continuation bit; accumulated bits beyond 32 are discarded.
pub fn vlq_read(data: &[u8], pos: usize) -> (r: Result<(u32, usize), Error>)
    ensures
        match r {
            Ok(p) => spec_vlq_read(data@, pos as int, 0) == Some((p.0, p.1 as int)),
            Err(e) => spec_vlq_read(data@, pos as int, 0) is None && e == Error::ParseError,
        },
{
    let n = data.len();
    let mut out: u32 = 0;
    let mut p: usize = pos;
    while p < n
        invariant
            n == data@.len(),
            pos <= p,
            spec_vlq_read(data@, pos as int, 0) == spec_vlq_read(data@, p as int, out),
        decreases n - p,
    {
        let b = data[p];
        out = out | ((b & 0x7f) as u32);
        if b & 0x80 == 0 {
            return Ok((out, p + 1));
        }
        out = out << 7;
        p += 1;
    }
    Err(Error::ParseError)
}

/// Appends the encoding of one value.
pub fn vlq_write(value: u32, output: &mut Vec<u8>)
    ensures
        final(output)@ == old(output)@ + spec_vlq_bytes(value as int),
{
    let mut v: u32 = value;
    proof {
        assert(output@ + spec_vlq_bytes(v as int)
            =~= old(output)@ + spec_vlq_bytes(value as int));
    }
    while v >= 0x80
        invariant
            output@ + spec_vlq_bytes(v as int) =~= old(output)@
                + spec_vlq_bytes(value as int),
        decreases v,
    {
        let x: u8 = ((v & 0x7f) as u8) | 0x80;
        let ghost v0 = v;
        let ghost out0 = output@;
        output.push(x);
        proof {
            assert(v0 & 0x7f == v0 % 0x80 && v0 >> 7 == v0 / 0x80) by (bit_vector);
            assert((((v0 & 0x7f) as u8) | 0x80) == ((v0 % 0x80) + 0x80) as u8)
                by (bit_vector);
            assert(output@ + spec_vlq_bytes((v0 >> 7) as int)
                =~= out0 + spec_vlq_bytes(v0 as int));
        }
        v = v >> 7;
    }
    let ghost out1 = output@;
    output.push(v as u8);
    proof {
        assert(output@ =~= out1 + spec_vlq_bytes(v as int));
    }
}

} // verus!
