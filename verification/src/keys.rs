//! Content keys and encoded keys: two distinct 16-byte identifier spaces,
//! their lowercase hex codec, and the 128-bit packing used to index them in
//! hash maps.
use vstd::prelude::*;
use crate::error::Error;
use crate::text::{all_ascii, ascii_chars_of, ascii_to_string};
use vstd::string::StringSliceAdditionalSpecFns;

verus! {

/// The ASCII byte of the lowercase hex digit for a value below 16.
pub open spec fn spec_hex_digit(v: u8) -> u8
    recommends
        v < 16,
{
    if v < 10 {
        (0x30 + v) as u8
    } else {
        (0x61 + (v - 10)) as u8
    }
}

/// The lowercase hex rendering of a byte sequence, two digits per byte.
pub open spec fn spec_hex_bytes(s: Seq<u8>) -> Seq<u8> {
    Seq::new(s.len() * 2, |i: int|
        if i % 2 == 0 {
            spec_hex_digit(s[i / 2] / 16)
        } else {
            spec_hex_digit(s[i / 2] % 16)
        })
}

/// The lowercase hex rendering of a byte sequence, as characters.
pub open spec fn spec_hex_chars(s: Seq<u8>) -> Seq<char> {
    ascii_chars_of(spec_hex_bytes(s))
}

/// True for the characters `0-9`, `a-f` and `A-F`.
pub open spec fn is_hex_char(c: char) -> bool {
    ('0' <= c && c <= '9') || ('a' <= c && c <= 'f') || ('A' <= c && c <= 'F')
}

/// The value of a hex digit character.
pub open spec fn spec_hex_char_val(c: char) -> u8
    recommends
        is_hex_char(c),
{
    if '0' <= c && c <= '9' {
        (c as u8 - 0x30) as u8
    } else if 'a' <= c && c <= 'f' {
        (c as u8 - 0x61 + 10) as u8
    } else {
        (c as u8 - 0x41 + 10) as u8
    }
}

/// What decoding a hex string yields: the byte sequence, if the string is
/// exactly 32 hex digits, and nothing otherwise.
pub open spec fn spec_hex_decode(s: Seq<char>) -> Option<Seq<u8>> {
    if s.len() == 32 && (forall|i: int| 0 <= i < s.len() ==> is_hex_char(#[trigger] s[i])) {
        Some(Seq::new(16, |i: int|
            (spec_hex_char_val(s[2 * i]) * 16 + spec_hex_char_val(s[2 * i + 1])) as u8))
    } else {
        None
    }
}

/// What holds of a hex string that decodes successfully.
proof fn lemma_hex_decode_some_chars(s: Seq<char>)
    requires
        spec_hex_decode(s) is Some,
    ensures
        s.len() == 32,
        forall|i: int| 0 <= i < 32 ==> is_hex_char(#[trigger] s[i]),
        vstd::utf8::is_ascii_chars(s),
{
    assert(forall|i: int| 0 <= i < 32 ==> is_hex_char(#[trigger] s[i]));
}

/// Renders a byte slice as lowercase hex, two digits per byte.
pub fn hexstring(hex: &[u8]) -> (r: String)
    ensures
        r@ == spec_hex_chars(hex@),
{
    let n = hex.len();
    let mut out: Vec<u8> = Vec::new();
    let mut i: usize = 0;
    while i < n
        invariant
            n == hex@.len(),
            0 <= i <= n,
            out@ == spec_hex_bytes(hex@.take(i as int)),
        decreases n - i,
    {
        let b = hex[i];
        out.push(if b / 16 < 10 { 0x30 + b / 16 } else { 0x61 + (b / 16 - 10) });
        out.push(if b % 16 < 10 { 0x30 + b % 16 } else { 0x61 + (b % 16 - 10) });
        proof {
            assert(out@ =~= spec_hex_bytes(hex@.take(i + 1)));
        }
        i += 1;
    }
    proof {
        assert(hex@.take(n as int) =~= hex@);
        assert(forall|j: int| 0 <= j < out@.len() ==> #[trigger] out@[j] < 0x80);
    }
    ascii_to_string(out)
}

/// Reads the value of one ASCII hex digit byte, or nothing if the byte is
/// not a hex digit.
fn hex_byte_val(b: u8) -> (r: Option<u8>)
    ensures
        (b < 0x80 && is_hex_char(b as char)) ==> r == Some(spec_hex_char_val(b as char)),
        !(b < 0x80 && is_hex_char(b as char)) ==> r is None,
{
    if 0x30 <= b && b <= 0x39 {
        Some(b - 0x30)
    } else if 0x61 <= b && b <= 0x66 {
        Some(b - 0x61 + 10)
    } else if 0x41 <= b && b <= 0x46 {
        Some(b - 0x41 + 10)
    } else {
        None
    }
}

/// Decodes a 32-character hex string into 16 bytes; fails on any other
/// length and on any non-hex character.
pub fn hexunstring(s: &str) -> (r: Result<[u8; 16], Error>)
    ensures
        match r {
            Ok(k) => spec_hex_decode(s@) == Some(k@),
            Err(e) => spec_hex_decode(s@) is None && e == Error::ParseError,
        },
{
    let bytes = s.as_bytes();
    let mut vals: Vec<u8> = Vec::new();
    let n = bytes.len();
    let mut i: usize = 0;
    while i < n
        invariant
            bytes@ == s.spec_bytes(),
            n == bytes@.len(),
            0 <= i <= n,
            vals@.len() == i,
            forall|j: int| 0 <= j < i ==> bytes@[j] < 0x80 && is_hex_char(bytes@[j] as char),
            forall|j: int| 0 <= j < i ==> vals@[j] == spec_hex_char_val(bytes@[j] as char),
        decreases n - i,
    {
        match hex_byte_val(bytes[i]) {
            Some(v) => {
                vals.push(v);
            },
            None => {
                proof {
                    if spec_hex_decode(s@) is Some {
                        lemma_hex_decode_some_chars(s@);
                        crate::text::lemma_ascii_chars_bytes(s);
                        assert(bytes@ == s.spec_bytes());
                        assert(s.spec_bytes()[i as int] == s@[i as int] as u8);
                        assert(is_hex_char(s@[i as int]));
                        assert(s@[i as int] <= 'f');
                        assert(bytes@[i as int] < 0x80);
                        assert(bytes@[i as int] as char == s@[i as int]);
                        assert(false);
                    }
                }
                return Err(Error::ParseError);
            },
        }
        i += 1;
    }
    if n != 32 {
        proof {
            if spec_hex_decode(s@) is Some {
                lemma_hex_decode_some_chars(s@);
                crate::text::lemma_ascii_chars_bytes(s);
                assert(false);
            }
        }
        return Err(Error::ParseError);
    }
    let mut key = [0u8; 16];
    let mut k: usize = 0;
    while k < 16
        invariant
            vals@.len() == 32,
            bytes@.len() == 32,
            0 <= k <= 16,
            forall|j: int| 0 <= j < 32 ==> vals@[j] == spec_hex_char_val(bytes@[j] as char),
            forall|j: int| 0 <= j < 32 ==> bytes@[j] < 0x80 && is_hex_char(bytes@[j] as char),
            forall|j: int| 0 <= j < k ==> key@[j]
                == (spec_hex_char_val(bytes@[2 * j] as char) * 16
                    + spec_hex_char_val(bytes@[2 * j + 1] as char)) as u8,
            forall|j: int| 0 <= j < 32 ==> vals@[j] < 16,
        decreases 16 - k,
    {
        key[k] = vals[2 * k] * 16 + vals[2 * k + 1];
        k += 1;
    }
    proof {
        crate::text::lemma_str_ascii_chars(s);
        let cs = s@;
        assert(forall|j: int| 0 <= j < 32 ==> #[trigger] cs[j] == bytes@[j] as char);
        assert(forall|j: int| 0 <= j < 32 ==> is_hex_char(#[trigger] cs[j]));
        let expect = spec_hex_decode(cs)->Some_0;
        assert(key@ =~= expect);
    }
    Ok(key)
}

/// Decoding the hex rendering of sixteen bytes gives the bytes back.
pub proof fn lemma_hex_round_trip(b: Seq<u8>)
    requires
        b.len() == 16,
    ensures
        spec_hex_decode(spec_hex_chars(b)) == Some(b),
{
    let cs = spec_hex_chars(b);
    assert(cs.len() == 32);
    assert(forall|i: int| 0 <= i < 32 ==> is_hex_char(#[trigger] cs[i])) by {
        assert(forall|i: int| 0 <= i < 32
            ==> #[trigger] cs[i] == spec_hex_bytes(b)[i] as char);
    }
    let d = spec_hex_decode(cs)->Some_0;
    assert(d =~= b) by {
        assert(forall|i: int| 0 <= i < 16 ==> #[trigger] d[i] == b[i]) by {
            assert(forall|i: int| 0 <= i < 16
                ==> spec_hex_char_val(#[trigger] cs[2 * i]) == b[i] / 16
                    && spec_hex_char_val(cs[2 * i + 1]) == b[i] % 16);
        }
    }
}

/// Re-encoding a decoded hex string gives the string back, lowercased: the
/// codec is a bijection up to the case of the digits.
pub proof fn lemma_hex_recode_lowercase(s: Seq<char>, k: Seq<u8>)
    requires
        spec_hex_decode(s) == Some(k),
    ensures
        spec_hex_chars(k) == crate::text::lower_chars(s),
{
    lemma_hex_decode_some_chars(s);
    let out = spec_hex_chars(k);
    assert(out =~= crate::text::lower_chars(s)) by {
        assert(forall|i: int| 0 <= i < 32
            ==> #[trigger] out[i] == crate::text::lower_char(s[i])) by {
            assert(forall|i: int| 0 <= i < 16
                ==> #[trigger] k[i] == (spec_hex_char_val(s[2 * i]) * 16
                    + spec_hex_char_val(s[2 * i + 1])) as u8);
            assert(forall|i: int| 0 <= i < 32 ==> is_hex_char(#[trigger] s[i])
                && spec_hex_char_val(s[i]) < 16);
        }
    }
}

/// The value of sixteen bytes read as one big-endian 128-bit integer: the
/// form in which the library indexes keys in hash maps.
pub open spec fn key_val(s: Seq<u8>) -> int
    recommends
        s.len() == 16,
{
    s[0] * 0x1000000000000000000000000000000
        + s[1] * 0x10000000000000000000000000000
        + s[2] * 0x100000000000000000000000000
        + s[3] * 0x1000000000000000000000000
        + s[4] * 0x10000000000000000000000
        + s[5] * 0x100000000000000000000
        + s[6] * 0x1000000000000000000
        + s[7] * 0x10000000000000000
        + s[8] * 0x100000000000000
        + s[9] * 0x1000000000000
        + s[10] * 0x10000000000
        + s[11] * 0x100000000
        + s[12] * 0x1000000
        + s[13] * 0x10000
        + s[14] * 0x100
        + s[15]
}

/// `key_val` packed into a `u128`.
pub open spec fn key_u128_of(s: Seq<u8>) -> u128
    recommends
        s.len() == 16,
{
    key_val(s) as u128
}

/// Packs sixteen bytes into the `u128` the hash maps are keyed by.
pub fn key_u128(k: &[u8; 16]) -> (r: u128)
    ensures
        r == key_u128_of(k@),
{
    let s = k.as_slice();
    (s[0] as u128) * 0x1000000000000000000000000000000
        + (s[1] as u128) * 0x10000000000000000000000000000
        + (s[2] as u128) * 0x100000000000000000000000000
        + (s[3] as u128) * 0x1000000000000000000000000
        + (s[4] as u128) * 0x10000000000000000000000
        + (s[5] as u128) * 0x100000000000000000000
        + (s[6] as u128) * 0x1000000000000000000
        + (s[7] as u128) * 0x10000000000000000
        + (s[8] as u128) * 0x100000000000000
        + (s[9] as u128) * 0x1000000000000
        + (s[10] as u128) * 0x10000000000
        + (s[11] as u128) * 0x100000000
        + (s[12] as u128) * 0x1000000
        + (s[13] as u128) * 0x10000
        + (s[14] as u128) * 0x100
        + (s[15] as u128)
}

/// Each byte of a sixteen-byte key can be read back out of its packed
/// 128-bit value.
proof fn lemma_key_bytes_recovered(
    b0: u8, b1: u8, b2: u8, b3: u8, b4: u8, b5: u8, b6: u8, b7: u8,
    b8: u8, b9: u8, b10: u8, b11: u8, b12: u8, b13: u8, b14: u8, b15: u8,
    v: u128,
)
    requires
        v == (((b0 as u128) * 0x1000000000000000000000000000000 +
            (b1 as u128) * 0x10000000000000000000000000000 +
            (b2 as u128) * 0x100000000000000000000000000 +
            (b3 as u128) * 0x1000000000000000000000000 + (b4 as u128) * 0x10000000000000000000000 +
            (b5 as u128) * 0x100000000000000000000 + (b6 as u128) * 0x1000000000000000000 +
            (b7 as u128) * 0x10000000000000000 + (b8 as u128) * 0x100000000000000 +
            (b9 as u128) * 0x1000000000000 + (b10 as u128) * 0x10000000000 +
            (b11 as u128) * 0x100000000 + (b12 as u128) * 0x1000000 + (b13 as u128) * 0x10000 +
            (b14 as u128) * 0x100 + (b15 as u128)) as u128),
    ensures
        ((v >> 120) & 0xff) == b0,
        ((v >> 112) & 0xff) == b1,
        ((v >> 104) & 0xff) == b2,
        ((v >> 96) & 0xff) == b3,
        ((v >> 88) & 0xff) == b4,
        ((v >> 80) & 0xff) == b5,
        ((v >> 72) & 0xff) == b6,
        ((v >> 64) & 0xff) == b7,
        ((v >> 56) & 0xff) == b8,
        ((v >> 48) & 0xff) == b9,
        ((v >> 40) & 0xff) == b10,
        ((v >> 32) & 0xff) == b11,
        ((v >> 24) & 0xff) == b12,
        ((v >> 16) & 0xff) == b13,
        ((v >> 8) & 0xff) == b14,
        (v & 0xff) == b15,
{
    let w = v;
    assert(((w >> 120) & 0xff) == b0 as u128) by (bit_vector)
        requires
            w == (((b0 as u128) * 0x1000000000000000000000000000000 +
                (b1 as u128) * 0x10000000000000000000000000000 +
                (b2 as u128) * 0x100000000000000000000000000 +
                (b3 as u128) * 0x1000000000000000000000000 +
                (b4 as u128) * 0x10000000000000000000000 + (b5 as u128) * 0x100000000000000000000 +
                (b6 as u128) * 0x1000000000000000000 + (b7 as u128) * 0x10000000000000000 +
                (b8 as u128) * 0x100000000000000 + (b9 as u128) * 0x1000000000000 +
                (b10 as u128) * 0x10000000000 + (b11 as u128) * 0x100000000 +
                (b12 as u128) * 0x1000000 + (b13 as u128) * 0x10000 + (b14 as u128) * 0x100 +
                (b15 as u128)) as u128),
    ;
    assert(((w >> 112) & 0xff) == b1 as u128) by (bit_vector)
        requires
            w == (((b0 as u128) * 0x1000000000000000000000000000000 +
                (b1 as u128) * 0x10000000000000000000000000000 +
                (b2 as u128) * 0x100000000000000000000000000 +
                (b3 as u128) * 0x1000000000000000000000000 +
                (b4 as u128) * 0x10000000000000000000000 + (b5 as u128) * 0x100000000000000000000 +
                (b6 as u128) * 0x1000000000000000000 + (b7 as u128) * 0x10000000000000000 +
                (b8 as u128) * 0x100000000000000 + (b9 as u128) * 0x1000000000000 +
                (b10 as u128) * 0x10000000000 + (b11 as u128) * 0x100000000 +
                (b12 as u128) * 0x1000000 + (b13 as u128) * 0x10000 + (b14 as u128) * 0x100 +
                (b15 as u128)) as u128),
    ;
    assert(((w >> 104) & 0xff) == b2 as u128) by (bit_vector)
        requires
            w == (((b0 as u128) * 0x1000000000000000000000000000000 +
                (b1 as u128) * 0x10000000000000000000000000000 +
                (b2 as u128) * 0x100000000000000000000000000 +
                (b3 as u128) * 0x1000000000000000000000000 +
                (b4 as u128) * 0x10000000000000000000000 + (b5 as u128) * 0x100000000000000000000 +
                (b6 as u128) * 0x1000000000000000000 + (b7 as u128) * 0x10000000000000000 +
                (b8 as u128) * 0x100000000000000 + (b9 as u128) * 0x1000000000000 +
                (b10 as u128) * 0x10000000000 + (b11 as u128) * 0x100000000 +
                (b12 as u128) * 0x1000000 + (b13 as u128) * 0x10000 + (b14 as u128) * 0x100 +
                (b15 as u128)) as u128),
    ;
    assert(((w >> 96) & 0xff) == b3 as u128) by (bit_vector)
        requires
            w == (((b0 as u128) * 0x1000000000000000000000000000000 +
                (b1 as u128) * 0x10000000000000000000000000000 +
                (b2 as u128) * 0x100000000000000000000000000 +
                (b3 as u128) * 0x1000000000000000000000000 +
                (b4 as u128) * 0x10000000000000000000000 + (b5 as u128) * 0x100000000000000000000 +
                (b6 as u128) * 0x1000000000000000000 + (b7 as u128) * 0x10000000000000000 +
                (b8 as u128) * 0x100000000000000 + (b9 as u128) * 0x1000000000000 +
                (b10 as u128) * 0x10000000000 + (b11 as u128) * 0x100000000 +
                (b12 as u128) * 0x1000000 + (b13 as u128) * 0x10000 + (b14 as u128) * 0x100 +
                (b15 as u128)) as u128),
    ;
    assert(((w >> 88) & 0xff) == b4 as u128) by (bit_vector)
        requires
            w == (((b0 as u128) * 0x1000000000000000000000000000000 +
                (b1 as u128) * 0x10000000000000000000000000000 +
                (b2 as u128) * 0x100000000000000000000000000 +
                (b3 as u128) * 0x1000000000000000000000000 +
                (b4 as u128) * 0x10000000000000000000000 + (b5 as u128) * 0x100000000000000000000 +
                (b6 as u128) * 0x1000000000000000000 + (b7 as u128) * 0x10000000000000000 +
                (b8 as u128) * 0x100000000000000 + (b9 as u128) * 0x1000000000000 +
                (b10 as u128) * 0x10000000000 + (b11 as u128) * 0x100000000 +
                (b12 as u128) * 0x1000000 + (b13 as u128) * 0x10000 + (b14 as u128) * 0x100 +
                (b15 as u128)) as u128),
    ;
    assert(((w >> 80) & 0xff) == b5 as u128) by (bit_vector)
        requires
            w == (((b0 as u128) * 0x1000000000000000000000000000000 +
                (b1 as u128) * 0x10000000000000000000000000000 +
                (b2 as u128) * 0x100000000000000000000000000 +
                (b3 as u128) * 0x1000000000000000000000000 +
                (b4 as u128) * 0x10000000000000000000000 + (b5 as u128) * 0x100000000000000000000 +
                (b6 as u128) * 0x1000000000000000000 + (b7 as u128) * 0x10000000000000000 +
                (b8 as u128) * 0x100000000000000 + (b9 as u128) * 0x1000000000000 +
                (b10 as u128) * 0x10000000000 + (b11 as u128) * 0x100000000 +
                (b12 as u128) * 0x1000000 + (b13 as u128) * 0x10000 + (b14 as u128) * 0x100 +
                (b15 as u128)) as u128),
    ;
    assert(((w >> 72) & 0xff) == b6 as u128) by (bit_vector)
        requires
            w == (((b0 as u128) * 0x1000000000000000000000000000000 +
                (b1 as u128) * 0x10000000000000000000000000000 +
                (b2 as u128) * 0x100000000000000000000000000 +
                (b3 as u128) * 0x1000000000000000000000000 +
                (b4 as u128) * 0x10000000000000000000000 + (b5 as u128) * 0x100000000000000000000 +
                (b6 as u128) * 0x1000000000000000000 + (b7 as u128) * 0x10000000000000000 +
                (b8 as u128) * 0x100000000000000 + (b9 as u128) * 0x1000000000000 +
                (b10 as u128) * 0x10000000000 + (b11 as u128) * 0x100000000 +
                (b12 as u128) * 0x1000000 + (b13 as u128) * 0x10000 + (b14 as u128) * 0x100 +
                (b15 as u128)) as u128),
    ;
    assert(((w >> 64) & 0xff) == b7 as u128) by (bit_vector)
        requires
            w == (((b0 as u128) * 0x1000000000000000000000000000000 +
                (b1 as u128) * 0x10000000000000000000000000000 +
                (b2 as u128) * 0x100000000000000000000000000 +
                (b3 as u128) * 0x1000000000000000000000000 +
                (b4 as u128) * 0x10000000000000000000000 + (b5 as u128) * 0x100000000000000000000 +
                (b6 as u128) * 0x1000000000000000000 + (b7 as u128) * 0x10000000000000000 +
                (b8 as u128) * 0x100000000000000 + (b9 as u128) * 0x1000000000000 +
                (b10 as u128) * 0x10000000000 + (b11 as u128) * 0x100000000 +
                (b12 as u128) * 0x1000000 + (b13 as u128) * 0x10000 + (b14 as u128) * 0x100 +
                (b15 as u128)) as u128),
    ;
    assert(((w >> 56) & 0xff) == b8 as u128) by (bit_vector)
        requires
            w == (((b0 as u128) * 0x1000000000000000000000000000000 +
                (b1 as u128) * 0x10000000000000000000000000000 +
                (b2 as u128) * 0x100000000000000000000000000 +
                (b3 as u128) * 0x1000000000000000000000000 +
                (b4 as u128) * 0x10000000000000000000000 + (b5 as u128) * 0x100000000000000000000 +
                (b6 as u128) * 0x1000000000000000000 + (b7 as u128) * 0x10000000000000000 +
                (b8 as u128) * 0x100000000000000 + (b9 as u128) * 0x1000000000000 +
                (b10 as u128) * 0x10000000000 + (b11 as u128) * 0x100000000 +
                (b12 as u128) * 0x1000000 + (b13 as u128) * 0x10000 + (b14 as u128) * 0x100 +
                (b15 as u128)) as u128),
    ;
    assert(((w >> 48) & 0xff) == b9 as u128) by (bit_vector)
        requires
            w == (((b0 as u128) * 0x1000000000000000000000000000000 +
                (b1 as u128) * 0x10000000000000000000000000000 +
                (b2 as u128) * 0x100000000000000000000000000 +
                (b3 as u128) * 0x1000000000000000000000000 +
                (b4 as u128) * 0x10000000000000000000000 + (b5 as u128) * 0x100000000000000000000 +
                (b6 as u128) * 0x1000000000000000000 + (b7 as u128) * 0x10000000000000000 +
                (b8 as u128) * 0x100000000000000 + (b9 as u128) * 0x1000000000000 +
                (b10 as u128) * 0x10000000000 + (b11 as u128) * 0x100000000 +
                (b12 as u128) * 0x1000000 + (b13 as u128) * 0x10000 + (b14 as u128) * 0x100 +
                (b15 as u128)) as u128),
    ;
    assert(((w >> 40) & 0xff) == b10 as u128) by (bit_vector)
        requires
            w == (((b0 as u128) * 0x1000000000000000000000000000000 +
                (b1 as u128) * 0x10000000000000000000000000000 +
                (b2 as u128) * 0x100000000000000000000000000 +
                (b3 as u128) * 0x1000000000000000000000000 +
                (b4 as u128) * 0x10000000000000000000000 + (b5 as u128) * 0x100000000000000000000 +
                (b6 as u128) * 0x1000000000000000000 + (b7 as u128) * 0x10000000000000000 +
                (b8 as u128) * 0x100000000000000 + (b9 as u128) * 0x1000000000000 +
                (b10 as u128) * 0x10000000000 + (b11 as u128) * 0x100000000 +
                (b12 as u128) * 0x1000000 + (b13 as u128) * 0x10000 + (b14 as u128) * 0x100 +
                (b15 as u128)) as u128),
    ;
    assert(((w >> 32) & 0xff) == b11 as u128) by (bit_vector)
        requires
            w == (((b0 as u128) * 0x1000000000000000000000000000000 +
                (b1 as u128) * 0x10000000000000000000000000000 +
                (b2 as u128) * 0x100000000000000000000000000 +
                (b3 as u128) * 0x1000000000000000000000000 +
                (b4 as u128) * 0x10000000000000000000000 + (b5 as u128) * 0x100000000000000000000 +
                (b6 as u128) * 0x1000000000000000000 + (b7 as u128) * 0x10000000000000000 +
                (b8 as u128) * 0x100000000000000 + (b9 as u128) * 0x1000000000000 +
                (b10 as u128) * 0x10000000000 + (b11 as u128) * 0x100000000 +
                (b12 as u128) * 0x1000000 + (b13 as u128) * 0x10000 + (b14 as u128) * 0x100 +
                (b15 as u128)) as u128),
    ;
    assert(((w >> 24) & 0xff) == b12 as u128) by (bit_vector)
        requires
            w == (((b0 as u128) * 0x1000000000000000000000000000000 +
                (b1 as u128) * 0x10000000000000000000000000000 +
                (b2 as u128) * 0x100000000000000000000000000 +
                (b3 as u128) * 0x1000000000000000000000000 +
                (b4 as u128) * 0x10000000000000000000000 + (b5 as u128) * 0x100000000000000000000 +
                (b6 as u128) * 0x1000000000000000000 + (b7 as u128) * 0x10000000000000000 +
                (b8 as u128) * 0x100000000000000 + (b9 as u128) * 0x1000000000000 +
                (b10 as u128) * 0x10000000000 + (b11 as u128) * 0x100000000 +
                (b12 as u128) * 0x1000000 + (b13 as u128) * 0x10000 + (b14 as u128) * 0x100 +
                (b15 as u128)) as u128),
    ;
    assert(((w >> 16) & 0xff) == b13 as u128) by (bit_vector)
        requires
            w == (((b0 as u128) * 0x1000000000000000000000000000000 +
                (b1 as u128) * 0x10000000000000000000000000000 +
                (b2 as u128) * 0x100000000000000000000000000 +
                (b3 as u128) * 0x1000000000000000000000000 +
                (b4 as u128) * 0x10000000000000000000000 + (b5 as u128) * 0x100000000000000000000 +
                (b6 as u128) * 0x1000000000000000000 + (b7 as u128) * 0x10000000000000000 +
                (b8 as u128) * 0x100000000000000 + (b9 as u128) * 0x1000000000000 +
                (b10 as u128) * 0x10000000000 + (b11 as u128) * 0x100000000 +
                (b12 as u128) * 0x1000000 + (b13 as u128) * 0x10000 + (b14 as u128) * 0x100 +
                (b15 as u128)) as u128),
    ;
    assert(((w >> 8) & 0xff) == b14 as u128) by (bit_vector)
        requires
            w == (((b0 as u128) * 0x1000000000000000000000000000000 +
                (b1 as u128) * 0x10000000000000000000000000000 +
                (b2 as u128) * 0x100000000000000000000000000 +
                (b3 as u128) * 0x1000000000000000000000000 +
                (b4 as u128) * 0x10000000000000000000000 + (b5 as u128) * 0x100000000000000000000 +
                (b6 as u128) * 0x1000000000000000000 + (b7 as u128) * 0x10000000000000000 +
                (b8 as u128) * 0x100000000000000 + (b9 as u128) * 0x1000000000000 +
                (b10 as u128) * 0x10000000000 + (b11 as u128) * 0x100000000 +
                (b12 as u128) * 0x1000000 + (b13 as u128) * 0x10000 + (b14 as u128) * 0x100 +
                (b15 as u128)) as u128),
    ;
    assert((w & 0xff) == b15 as u128) by (bit_vector)
        requires
            w == (((b0 as u128) * 0x1000000000000000000000000000000 +
                (b1 as u128) * 0x10000000000000000000000000000 +
                (b2 as u128) * 0x100000000000000000000000000 +
                (b3 as u128) * 0x1000000000000000000000000 +
                (b4 as u128) * 0x10000000000000000000000 + (b5 as u128) * 0x100000000000000000000 +
                (b6 as u128) * 0x1000000000000000000 + (b7 as u128) * 0x10000000000000000 +
                (b8 as u128) * 0x100000000000000 + (b9 as u128) * 0x1000000000000 +
                (b10 as u128) * 0x10000000000 + (b11 as u128) * 0x100000000 +
                (b12 as u128) * 0x1000000 + (b13 as u128) * 0x10000 + (b14 as u128) * 0x100 +
                (b15 as u128)) as u128),
    ;
}

/// Packing sixteen bytes into 128 bits loses nothing: two keys with the
/// same packed value are the same bytes.
pub proof fn lemma_key_u128_injective(a: Seq<u8>, b: Seq<u8>)
    requires
        a.len() == 16,
        b.len() == 16,
        key_u128_of(a) == key_u128_of(b),
    ensures
        a == b,
{
    assert(0 <= key_val(a) <= u128::MAX);
    assert(0 <= key_val(b) <= u128::MAX);
    let va = key_val(a) as u128;
    let vb = key_val(b) as u128;
    assert(va == vb);
    lemma_key_bytes_recovered(a[0], a[1], a[2], a[3], a[4], a[5], a[6], a[7], a[8], a[9],
        a[10], a[11], a[12], a[13], a[14], a[15], va);
    lemma_key_bytes_recovered(b[0], b[1], b[2], b[3], b[4], b[5], b[6], b[7], b[8], b[9],
        b[10], b[11], b[12], b[13], b[14], b[15], vb);
    assert(a =~= b);
}

/// A content key: the 16-byte identity of an asset's decoded contents.
/// Distinct from `EKey`; the two spaces never mix.
#[derive(Clone, Copy, Debug, PartialEq, Eq, Hash)]
pub struct CKey(pub [u8; 16]);

/// An encoded key: the 16-byte identity of the encoded bytes as stored on
/// the CDN. Distinct from `CKey`; the two spaces never mix.
#[derive(Clone, Copy, Debug, PartialEq, Eq, Hash)]
pub struct EKey(pub [u8; 16]);

impl View for CKey {
    type V = Seq<u8>;

    open spec fn view(&self) -> Seq<u8> {
        self.0@
    }
}

impl View for EKey {
    type V = Seq<u8>;

    open spec fn view(&self) -> Seq<u8> {
        self.0@
    }
}

impl CKey {
    /// The canonical 32-character lowercase hex form.
    pub fn to_string(&self) -> (r: String)
        ensures
            r@ == spec_hex_chars(self@),
    {
        hexstring(self.0.as_slice())
    }

    /// Parses the canonical hex form; fails on any other length and on any
    /// non-hex character.
    pub fn from_str(s: &str) -> (r: Result<CKey, Error>)
        ensures
            match r {
                Ok(k) => spec_hex_decode(s@) == Some(k@),
                Err(e) => spec_hex_decode(s@) is None && e == Error::ParseError,
            },
    {
        match hexunstring(s) {
            Ok(bytes) => Ok(CKey(bytes)),
            Err(e) => Err(e),
        }
    }
}

impl EKey {
    /// The canonical 32-character lowercase hex form.
    pub fn to_string(&self) -> (r: String)
        ensures
            r@ == spec_hex_chars(self@),
    {
        hexstring(self.0.as_slice())
    }

    /// Parses the canonical hex form; fails on any other length and on any
    /// non-hex character.
    pub fn from_str(s: &str) -> (r: Result<EKey, Error>)
        ensures
            match r {
                Ok(k) => spec_hex_decode(s@) == Some(k@),
                Err(e) => spec_hex_decode(s@) is None && e == Error::ParseError,
            },
    {
        match hexunstring(s) {
            Ok(bytes) => Ok(EKey(bytes)),
            Err(e) => Err(e),
        }
    }
}

/// True of the all-zero encoded key, the block-terminator sentinel in
/// archive index blocks.
pub open spec fn is_null_key(s: Seq<u8>) -> bool {
    s.len() == 16 && forall|i: int| 0 <= i < 16 ==> s[i] == 0u8
}

/// Tests whether sixteen bytes are the all-zero sentinel key.
pub fn is_null_key_bytes(k: &[u8; 16]) -> (r: bool)
    ensures
        r == is_null_key(k@),
{
    let s = k.as_slice();
    let mut i: usize = 0;
    while i < 16
        invariant
            s@ == k@,
            k@.len() == 16,
            0 <= i <= 16,
            forall|j: int| 0 <= j < i ==> k@[j] == 0u8,
        decreases 16 - i,
    {
        if s[i] != 0 {
            return false;
        }
        i += 1;
    }
    true
}

} // verus!
