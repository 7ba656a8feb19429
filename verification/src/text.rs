//! Small text utilities shared by the parsers: UTF-8 decoding at the byte
//! boundary, ASCII string construction, string equality, and decimal
//! rendering of integers.
use vstd::prelude::*;
use vstd::utf8::{decode_utf8, encode_utf8, valid_utf8, encode_utf8_decode_utf8,
    encode_utf8_valid_utf8, is_ascii_chars, is_ascii_chars_encode_utf8};
use vstd::string::StringSliceAdditionalSpecFns;

verus! {

/// The characters that a sequence of ASCII bytes stands for.
pub open spec fn ascii_chars_of(s: Seq<u8>) -> Seq<char> {
    s.map_values(|b: u8| b as char)
}

/// True when every byte is ASCII.
pub open spec fn all_ascii(s: Seq<u8>) -> bool {
    forall|i: int| 0 <= i < s.len() ==> s[i] < 0x80
}

/// Relies on `String::from_utf8` of std: it succeeds exactly on valid UTF-8
/// input and returns the string holding those bytes.
#[verifier::external_body]
fn string_from_utf8(v: Vec<u8>) -> (r: Option<String>)
    ensures
        match r {
            Some(s) => valid_utf8(v@) && s@ == decode_utf8(v@),
            None => !valid_utf8(v@),
        },
{
    match String::from_utf8(v) {
        Ok(s) => Some(s),
        Err(_) => None,
    }
}

/// ASCII bytes decode to themselves, character for character.
pub proof fn lemma_ascii_decode(s: Seq<u8>)
    requires
        all_ascii(s),
    ensures
        valid_utf8(s),
        decode_utf8(s) == ascii_chars_of(s),
    decreases s.len(),
{
    let cs = ascii_chars_of(s);
    assert(is_ascii_chars(cs));
    is_ascii_chars_encode_utf8(cs);
    assert(encode_utf8(cs) =~= s);
    encode_utf8_valid_utf8(cs);
    encode_utf8_decode_utf8(cs);
}

/// A string whose bytes are all ASCII reads as those bytes, character for
/// character.
pub proof fn lemma_str_ascii_chars(s: &str)
    requires
        all_ascii(s.spec_bytes()),
    ensures
        s@ == ascii_chars_of(s.spec_bytes()),
        s@.len() == s.spec_bytes().len(),
{
    encode_utf8_decode_utf8(s@);
    lemma_ascii_decode(s.spec_bytes());
}

/// A string of ASCII characters is encoded as those characters, byte for
/// byte.
pub proof fn lemma_ascii_chars_bytes(s: &str)
    requires
        is_ascii_chars(s@),
    ensures
        s.spec_bytes().len() == s@.len(),
        forall|i: int| 0 <= i < s@.len() ==> s.spec_bytes()[i] == s@[i] as u8,
{
    is_ascii_chars_encode_utf8(s@);
}

/// Builds the string holding the given ASCII bytes.
pub fn ascii_to_string(v: Vec<u8>) -> (r: String)
    requires
        all_ascii(v@),
    ensures
        r@ == ascii_chars_of(v@),
{
    proof {
        lemma_ascii_decode(v@);
    }
    match string_from_utf8(v) {
        Some(s) => s,
        None => vstd::pervasive::unreached(),
    }
}

/// Relies on `str::from_utf8` of std: it succeeds exactly on valid UTF-8
/// input and returns the borrowed text.
#[verifier::external_body]
pub(crate) fn str_from_utf8_bytes<'a>(v: &'a [u8]) -> (r: Option<&'a str>)
    ensures
        match r {
            Some(s) => valid_utf8(v@) && s@ == decode_utf8(v@),
            None => !valid_utf8(v@),
        },
{
    std::str::from_utf8(v).ok()
}

/// Decodes a byte buffer as UTF-8, or reports that it is not valid UTF-8.
pub(crate) fn utf8_to_string(v: Vec<u8>) -> (r: Option<String>)
    ensures
        valid_utf8(v@) ==> (r matches Some(s) && s@ == decode_utf8(v@)),
        !valid_utf8(v@) ==> r is None,
{
    string_from_utf8(v)
}

/// A vector of bytes views deeply as it views shallowly.
pub broadcast proof fn lemma_vec_u8_deep_view(v: Vec<u8>)
    ensures
        #[trigger] v.deep_view() == v@,
{
    assert(v.deep_view() =~= v@);
}

/// Compares two byte slices for equality.
pub fn bytes_eq(a: &[u8], b: &[u8]) -> (r: bool)
    ensures
        r == (a@ == b@),
{
    if a.len() != b.len() {
        return false;
    }
    let n = a.len();
    let mut i: usize = 0;
    while i < n
        invariant
            n == a@.len() == b@.len(),
            0 <= i <= n,
            forall|j: int| 0 <= j < i ==> a@[j] == b@[j],
        decreases n - i,
    {
        if a[i] != b[i] {
            return false;
        }
        i += 1;
    }
    proof {
        assert(a@ =~= b@);
    }
    true
}

/// Compares two strings for equality of their character sequences.
pub fn str_eq(a: &str, b: &str) -> (r: bool)
    ensures
        r == (a@ == b@),
{
    let r = bytes_eq(a.as_bytes(), b.as_bytes());
    proof {
        if a.spec_bytes() == b.spec_bytes() {
            encode_utf8_decode_utf8(a@);
            encode_utf8_decode_utf8(b@);
        }
    }
    r
}

/// The pieces of `s` split at every `sep`, scanning from `i` with the
/// current piece starting at `start`. Splitting always yields one piece
/// more than there are separators.
pub open spec fn spec_split_from(s: Seq<u8>, sep: u8, start: int, i: int) -> Seq<Seq<u8>>
    decreases s.len() - i,
{
    if i < 0 || i >= s.len() {
        seq![s.subrange(start, s.len() as int)]
    } else if s[i] == sep {
        seq![s.subrange(start, i)] + spec_split_from(s, sep, i + 1, i + 1)
    } else {
        spec_split_from(s, sep, start, i + 1)
    }
}

/// The pieces of `s` split at every `sep`.
pub open spec fn spec_split(s: Seq<u8>, sep: u8) -> Seq<Seq<u8>> {
    spec_split_from(s, sep, 0, 0)
}

/// Splits a byte slice at every occurrence of `sep`.
pub fn split_bytes(data: &[u8], sep: u8) -> (r: Vec<Vec<u8>>)
    ensures
        r.deep_view() == spec_split(data@, sep),
        r@.len() >= 1,
{
    let n = data.len();
    let mut out: Vec<Vec<u8>> = Vec::new();
    let mut start: usize = 0;
    let mut i: usize = 0;
    proof {
        assert(out.deep_view() + spec_split_from(data@, sep, 0, 0)
            =~= spec_split_from(data@, sep, 0, 0));
    }
    while i < n
        invariant
            n == data@.len(),
            0 <= start <= i <= n,
            out.deep_view() + spec_split_from(data@, sep, start as int, i as int)
                =~= spec_split(data@, sep),
        decreases n - i,
    {
        if data[i] == sep {
            let piece = crate::bytes::copy_range(data, start, i);
            let ghost out0 = out.deep_view();
            out.push(piece);
            proof {
                assert(piece.deep_view() =~= piece@);
                assert(out.deep_view() =~= out0.push(piece@));
                assert(out.deep_view()
                    + spec_split_from(data@, sep, i + 1, i + 1)
                    =~= out0 + (seq![data@.subrange(start as int, i as int)]
                        + spec_split_from(data@, sep, i + 1, i + 1)));
            }
            start = i + 1;
        }
        i += 1;
    }
    let piece = crate::bytes::copy_range(data, start, n);
    let ghost out0 = out.deep_view();
    out.push(piece);
    proof {
        assert(piece.deep_view() =~= piece@);
        assert(out.deep_view() =~= out0.push(piece@));
        assert(out.deep_view() =~= out0 + seq![data@.subrange(start as int, n as int)]);
    }
    out
}

/// A piece with one trailing carriage return removed.
pub open spec fn strip_cr(p: Seq<u8>) -> Seq<u8> {
    if p.len() > 0 && p.last() == 0x0du8 {
        p.drop_last()
    } else {
        p
    }
}

/// The lines of a text, as `str::lines` cuts them: split at every line
/// feed, the optional final empty piece dropped, and a carriage return
/// stripped from the end of every piece that a line feed terminated.
pub open spec fn spec_lines(s: Seq<u8>) -> Seq<Seq<u8>> {
    let ps = spec_split(s, 0x0au8);
    let nl = ps.len() - 1;
    let kept = if ps.last().len() == 0 { ps.drop_last() } else { ps };
    Seq::new(kept.len(), |i: int| if i < nl { strip_cr(kept[i]) } else { kept[i] })
}

/// Cuts a text into lines, as `str::lines` does.
pub fn lines_bytes(data: &[u8]) -> (r: Vec<Vec<u8>>)
    ensures
        r.deep_view() == spec_lines(data@),
{
    let mut pieces = split_bytes(data, 0x0a);
    let ghost ps = pieces.deep_view();
    let ghost nl = ps.len() - 1;
    let np = pieces.len();
    let mut popped = false;
    if pieces[np - 1].len() == 0 {
        pieces.pop();
        popped = true;
        proof {
            assert(pieces.deep_view() =~= ps.drop_last());
        }
    }
    let ghost kept = pieces.deep_view();
    let n = pieces.len();
    let mut out: Vec<Vec<u8>> = Vec::new();
    let mut i: usize = 0;
    while i < n
        invariant
            n == pieces@.len(),
            kept == pieces.deep_view(),
            kept.len() == n,
            0 <= i <= n,
            out@.len() == i,
            popped ==> nl == n,
            !popped ==> nl == n - 1,
            forall|j: int| 0 <= j < i
                ==> (#[trigger] out.deep_view()[j])
                    == if j < nl { strip_cr(kept[j]) } else { kept[j] },
        decreases n - i,
    {
        let p = &pieces[i];
        let pl = p.len();
        let strip = popped || i + 1 < n;
        let stripped = if strip && pl > 0 && p[pl - 1] == 0x0d {
            crate::bytes::copy_range(p.as_slice(), 0, pl - 1)
        } else {
            crate::bytes::copy_range(p.as_slice(), 0, pl)
        };
        proof {
            assert(p@ == kept[i as int]);
            assert(p@.subrange(0, p@.len() as int) =~= p@);
            if strip && pl > 0 && p@[pl - 1] == 0x0du8 {
                assert(p@.subrange(0, pl - 1) =~= p@.drop_last());
            }
        }
        proof {
            assert(stripped.deep_view() =~= stripped@);
        }
        let ghost outdv0 = out.deep_view();
        out.push(stripped);
        proof {
            assert(out.deep_view() =~= outdv0.push(stripped@));
            if popped || i + 1 < n {
                assert(stripped@ =~= strip_cr(kept[i as int]));
            } else {
                assert(stripped@ =~= kept[i as int]);
            }
        }
        i += 1;
    }
    proof {
        assert(out.deep_view() =~= spec_lines(data@));
    }
    out
}

/// ASCII lowercase folding of one character: `A`-`Z` fold, all else stays.
pub open spec fn lower_char(c: char) -> char {
    if 'A' <= c && c <= 'Z' {
        (((c as u8) + 0x20) as u8) as char
    } else {
        c
    }
}

/// ASCII uppercase folding of one character: `a`-`z` fold, all else stays.
pub open spec fn upper_char(c: char) -> char {
    if 'a' <= c && c <= 'z' {
        (((c as u8) - 0x20) as u8) as char
    } else {
        c
    }
}

/// ASCII lowercase folding of a character sequence.
pub open spec fn lower_chars(s: Seq<char>) -> Seq<char> {
    Seq::new(s.len(), |i: int| lower_char(s[i]))
}

/// ASCII uppercase folding of a character sequence.
pub open spec fn upper_chars(s: Seq<char>) -> Seq<char> {
    Seq::new(s.len(), |i: int| upper_char(s[i]))
}

/// Relies on `String::push` of std: it appends one character.
#[verifier::external_body]
pub(crate) fn string_push(s: &mut String, c: char)
    ensures
        final(s)@ == old(s)@.push(c),
{
    s.push(c);
}

/// One character with `/` replaced by `to` when it is `from`.
pub open spec fn replace_char(c: char, from: char, to: char) -> char {
    if c == from {
        to
    } else {
        c
    }
}

/// A character sequence with every `from` replaced by `to`.
pub open spec fn replace_chars(s: Seq<char>, from: char, to: char) -> Seq<char> {
    Seq::new(s.len(), |i: int| replace_char(s[i], from, to))
}

/// A character sequence with every `from` replaced by the two characters
/// `t1 t2`.
pub open spec fn replace_char_two(s: Seq<char>, from: char, t1: char, t2: char) -> Seq<char>
    decreases s.len(),
{
    if s.len() == 0 {
        Seq::empty()
    } else if s.first() == from {
        seq![t1, t2] + replace_char_two(s.drop_first(), from, t1, t2)
    } else {
        seq![s.first()] + replace_char_two(s.drop_first(), from, t1, t2)
    }
}

/// The ASCII whitespace characters.
pub open spec fn is_ws_char(c: char) -> bool {
    c == ' ' || c == '\t' || c == '\n' || c == '\r'
}

/// A sequence with its leading ASCII whitespace removed.
pub open spec fn spec_trim_start(s: Seq<char>) -> Seq<char>
    decreases s.len(),
{
    if s.len() > 0 && is_ws_char(s.first()) {
        spec_trim_start(s.drop_first())
    } else {
        s
    }
}

/// A sequence with its trailing ASCII whitespace removed.
pub open spec fn spec_trim_end(s: Seq<char>) -> Seq<char>
    decreases s.len(),
{
    if s.len() > 0 && is_ws_char(s.last()) {
        spec_trim_end(s.drop_last())
    } else {
        s
    }
}

/// A sequence with ASCII whitespace removed from both ends.
pub open spec fn trim_chars(s: Seq<char>) -> Seq<char> {
    spec_trim_end(spec_trim_start(s))
}

/// The decimal digits of `n`, most significant first.
pub open spec fn spec_decimal(n: nat) -> Seq<char>
    decreases n,
{
    if n < 10 {
        seq![((0x30 + n) as u8) as char]
    } else {
        spec_decimal(n / 10).push(((0x30 + n % 10) as u8) as char)
    }
}

/// Renders `n` in decimal.
pub fn decimal_string(n: u64) -> (r: String)
    ensures
        r@ == spec_decimal(n as nat),
{
    let mut digits: Vec<u8> = Vec::new();
    let mut m: u64 = n;
    proof {
        assert(spec_decimal(n as nat) =~= spec_decimal(m as nat)
            + ascii_chars_of(digits@).reverse());
    }
    while m >= 10
        invariant
            all_ascii(digits@),
            spec_decimal(n as nat) == spec_decimal(m as nat) + ascii_chars_of(digits@).reverse(),
        decreases m,
    {
        let ghost old_digits = digits@;
        let d: u8 = (m % 10) as u8;
        digits.push(0x30 + d);
        proof {
            assert(ascii_chars_of(digits@).reverse() =~= seq![((0x30 + d) as u8) as char]
                + ascii_chars_of(old_digits).reverse());
            assert(spec_decimal(m as nat) + ascii_chars_of(old_digits).reverse()
                =~= spec_decimal((m / 10) as nat) + ascii_chars_of(digits@).reverse());
        }
        m = m / 10;
    }
    let ghost pre_digits = digits@;
    let d_last: u8 = (m % 10) as u8;
    digits.push(0x30 + d_last);
    proof {
        assert(ascii_chars_of(digits@).reverse() =~= seq![((0x30 + d_last) as u8) as char]
            + ascii_chars_of(pre_digits).reverse());
        assert(spec_decimal(n as nat) =~= ascii_chars_of(digits@).reverse());
    }
    let n_digits = digits.len();
    let mut out: Vec<u8> = Vec::new();
    let mut i: usize = 0;
    while i < n_digits
        invariant
            n_digits == digits@.len(),
            0 <= i <= n_digits,
            all_ascii(digits@),
            all_ascii(out@),
            out@ == digits@.reverse().take(i as int),
        decreases n_digits - i,
    {
        out.push(digits[n_digits - 1 - i]);
        proof {
            assert(out@ =~= digits@.reverse().take(i + 1));
        }
        i += 1;
    }
    proof {
        assert(out@ =~= digits@.reverse());
        assert(ascii_chars_of(out@) =~= ascii_chars_of(digits@).reverse());
    }
    ascii_to_string(out)
}

} // verus!
