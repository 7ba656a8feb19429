//! Path-name hashing for root lookups: ASCII uppercase folding with `/`
//! turned into `\`, then the 64-bit Jenkins lookup3 hash of the folded
//! bytes.
use vstd::prelude::*;
use vstd::string::StringSliceAdditionalSpecFns;

verus! {

/// The 64-bit Jenkins lookup3 hash of a byte sequence: the secondary word
/// in the high half, the primary word in the low half.
pub uninterp spec fn lookup3_of(s: Seq<u8>) -> u64;

/// Relies on `hashers::jenkins::lookup3`: the 64-bit lookup3 hash, packed
/// as `(pb << 32) | pc`. The crate hashes the bytes in fixed 12-byte
/// groups on every path it takes, so the result depends on the byte
/// contents alone.
#[verifier::external_body]
pub(crate) fn jenkins_lookup3(data: &[u8]) -> (r: u64)
    ensures
        r == lookup3_of(data@),
{
    hashers::jenkins::lookup3(data)
}

/// Normalization of one path byte: `/` becomes `\`, lowercase ASCII
/// letters fold to uppercase, all else stays.
pub open spec fn norm_byte(b: u8) -> u8 {
    if b == 0x2fu8 {
        0x5cu8
    } else if 0x61 <= b && b <= 0x7a {
        (b - 0x20) as u8
    } else {
        b
    }
}

/// Normalization of a whole path: each byte folded by `norm_byte`.
pub open spec fn spec_normalize_bytes(s: Seq<u8>) -> Seq<u8> {
    Seq::new(s.len(), |i: int| norm_byte(s[i]))
}

/// The canonical name hash of a path's bytes: lookup3 of the folded bytes.
pub open spec fn spec_name_hash(s: Seq<u8>) -> u64 {
    lookup3_of(spec_normalize_bytes(s))
}

/// Folds a path's bytes: uppercase ASCII, `/` to `\`.
pub fn normalize_bytes(data: &[u8]) -> (r: Vec<u8>)
    ensures
        r@ == spec_normalize_bytes(data@),
{
    let n = data.len();
    let mut out: Vec<u8> = Vec::new();
    let mut i: usize = 0;
    while i < n
        invariant
            n == data@.len(),
            0 <= i <= n,
            out@.len() == i,
            forall|j: int| 0 <= j < i ==> out@[j] == norm_byte(data@[j]),
        decreases n - i,
    {
        let b = data[i];
        if b == 0x2f {
            out.push(0x5c);
        } else if 0x61 <= b && b <= 0x7a {
            out.push(b - 0x20);
        } else {
            out.push(b);
        }
        i += 1;
    }
    proof {
        assert(out@ =~= spec_normalize_bytes(data@));
    }
    out
}

/// The canonical name hash of a path string.
pub fn name_hash(name: &str) -> (r: u64)
    ensures
        r == spec_name_hash(name.spec_bytes()),
{
    let folded = normalize_bytes(name.as_bytes());
    jenkins_lookup3(folded.as_slice())
}

/// Uppercases a string's ASCII letters.
pub fn upper_string(s: &str) -> (r: String)
    ensures
        r@ == crate::text::upper_chars(s@),
{
    let n = s.unicode_len();
    let mut out = String::new();
    let mut i: usize = 0;
    while i < n
        invariant
            n == s@.len(),
            0 <= i <= n,
            out@ == crate::text::upper_chars(s@).take(i as int),
        decreases n - i,
    {
        let c = s.get_char(i);
        if 'a' <= c && c <= 'z' {
            crate::text::string_push(&mut out, ((c as u8) - 0x20) as char);
        } else {
            crate::text::string_push(&mut out, c);
        }
        proof {
            assert(out@ =~= crate::text::upper_chars(s@).take(i + 1));
        }
        i += 1;
    }
    proof {
        assert(crate::text::upper_chars(s@).take(n as int) =~= crate::text::upper_chars(s@));
    }
    out
}

/// Lowercases a string's ASCII letters.
pub fn lower_string(s: &str) -> (r: String)
    ensures
        r@ == crate::text::lower_chars(s@),
{
    let n = s.unicode_len();
    let mut out = String::new();
    let mut i: usize = 0;
    while i < n
        invariant
            n == s@.len(),
            0 <= i <= n,
            out@ == crate::text::lower_chars(s@).take(i as int),
        decreases n - i,
    {
        let c = s.get_char(i);
        if 'A' <= c && c <= 'Z' {
            crate::text::string_push(&mut out, ((c as u8) + 0x20) as char);
        } else {
            crate::text::string_push(&mut out, c);
        }
        proof {
            assert(out@ =~= crate::text::lower_chars(s@).take(i + 1));
        }
        i += 1;
    }
    proof {
        assert(crate::text::lower_chars(s@).take(n as int) =~= crate::text::lower_chars(s@));
    }
    out
}

/// Replaces every `/` with `\`.
pub fn replace_slash(s: &str) -> (r: String)
    ensures
        r@ == crate::text::replace_chars(s@, '/', '\\'),
{
    let n = s.unicode_len();
    let mut out = String::new();
    let mut i: usize = 0;
    while i < n
        invariant
            n == s@.len(),
            0 <= i <= n,
            out@ == crate::text::replace_chars(s@, '/', '\\').take(i as int),
        decreases n - i,
    {
        let c = s.get_char(i);
        if c == '/' {
            crate::text::string_push(&mut out, '\\');
        } else {
            crate::text::string_push(&mut out, c);
        }
        proof {
            assert(out@ =~= crate::text::replace_chars(s@, '/', '\\').take(i + 1));
        }
        i += 1;
    }
    proof {
        assert(crate::text::replace_chars(s@, '/', '\\').take(n as int)
            =~= crate::text::replace_chars(s@, '/', '\\'));
    }
    out
}

/// Replaces every `/` with two backslashes.
pub fn replace_slash_double(s: &str) -> (r: String)
    ensures
        r@ == crate::text::replace_char_two(s@, '/', '\\', '\\'),
{
    let n = s.unicode_len();
    let mut out = String::new();
    let mut i: usize = 0;
    proof {
        assert(s@.skip(0) =~= s@);
    }
    while i < n
        invariant
            n == s@.len(),
            0 <= i <= n,
            crate::text::replace_char_two(s@, '/', '\\', '\\')
                =~= out@ + crate::text::replace_char_two(s@.skip(i as int), '/', '\\', '\\'),
        decreases n - i,
    {
        let c = s.get_char(i);
        let ghost out0 = out@;
        proof {
            assert(s@.skip(i as int).first() == s@[i as int]);
            assert(s@.skip(i as int).drop_first() =~= s@.skip(i + 1));
        }
        if c == '/' {
            crate::text::string_push(&mut out, '\\');
            crate::text::string_push(&mut out, '\\');
            proof {
                assert(out0 + (seq!['\\', '\\']
                    + crate::text::replace_char_two(s@.skip(i + 1), '/', '\\', '\\'))
                    =~= out@ + crate::text::replace_char_two(s@.skip(i + 1), '/', '\\', '\\'));
            }
        } else {
            crate::text::string_push(&mut out, c);
            proof {
                assert(out0 + (seq![c]
                    + crate::text::replace_char_two(s@.skip(i + 1), '/', '\\', '\\'))
                    =~= out@ + crate::text::replace_char_two(s@.skip(i + 1), '/', '\\', '\\'));
            }
        }
        i += 1;
    }
    proof {
        assert(s@.skip(n as int) =~= Seq::<char>::empty());
        assert(out@ + Seq::<char>::empty() =~= out@);
    }
    out
}

/// The string with ASCII whitespace trimmed from both ends.
pub fn trim_str<'a>(s: &'a str) -> (r: &'a str)
    ensures
        r@ == crate::text::trim_chars(s@),
{
    let n = s.unicode_len();
    proof {
        assert(s@.subrange(0, n as int) =~= s@);
    }
    let mut a: usize = 0;
    while a < n && is_ws(s.get_char(a))
        invariant
            n == s@.len(),
            0 <= a <= n,
            crate::text::spec_trim_start(s@)
                == crate::text::spec_trim_start(s@.subrange(a as int, n as int)),
        decreases n - a,
    {
        proof {
            assert(s@.subrange(a as int, n as int).drop_first()
                =~= s@.subrange(a + 1, n as int));
        }
        a += 1;
    }
    proof {
        assert(crate::text::spec_trim_start(s@) == s@.subrange(a as int, n as int));
    }
    let mut b: usize = n;
    while b > a && is_ws(s.get_char(b - 1))
        invariant
            n == s@.len(),
            0 <= a <= b <= n,
            crate::text::spec_trim_start(s@)
                == s@.subrange(a as int, n as int),
            crate::text::spec_trim_end(s@.subrange(a as int, n as int))
                == crate::text::spec_trim_end(s@.subrange(a as int, b as int)),
        decreases b,
    {
        proof {
            assert(s@.subrange(a as int, b as int).drop_last()
                =~= s@.subrange(a as int, b - 1));
        }
        b -= 1;
    }
    proof {
        assert(crate::text::trim_chars(s@) == s@.subrange(a as int, b as int));
    }
    s.substring_char(a, b)
}

/// Whether a character is ASCII whitespace.
fn is_ws(c: char) -> (r: bool)
    ensures
        r == crate::text::is_ws_char(c),
{
    c == ' ' || c == '\t' || c == '\n' || c == '\r'
}

/// The eleven spellings whose hashes the hash-cracking utility tries for
/// a path: the path itself, case-folded forms, and slash replacements,
/// each also over the trimmed uppercase form.
pub open spec fn spec_name_variants(s: Seq<char>) -> Seq<Seq<char>> {
    let tu = crate::text::upper_chars(crate::text::trim_chars(s));
    seq![
        crate::text::replace_chars(tu, '/', '\\'),
        crate::text::replace_char_two(tu, '/', '\\', '\\'),
        s,
        crate::text::replace_chars(s, '/', '\\'),
        crate::text::replace_char_two(s, '/', '\\', '\\'),
        crate::text::upper_chars(s),
        crate::text::lower_chars(s),
        crate::text::replace_chars(crate::text::upper_chars(s), '/', '\\'),
        crate::text::replace_chars(crate::text::lower_chars(s), '/', '\\'),
        crate::text::replace_char_two(crate::text::upper_chars(s), '/', '\\', '\\'),
        crate::text::replace_char_two(crate::text::lower_chars(s), '/', '\\', '\\'),
    ]
}

/// Pushes a string unless an equal one is already present.
fn push_unique(out: &mut Vec<String>, s: String)
    requires
        forall|i: int, j: int| 0 <= i < j < old(out)@.len()
            ==> old(out)@[i]@ != old(out)@[j]@,
    ensures
        forall|i: int, j: int| 0 <= i < j < final(out)@.len()
            ==> final(out)@[i]@ != final(out)@[j]@,
        old(out)@.len() <= final(out)@.len() <= old(out)@.len() + 1,
        forall|i: int| 0 <= i < old(out)@.len()
            ==> #[trigger] final(out)@[i] == old(out)@[i],
        final(out)@.len() > old(out)@.len()
            ==> final(out)@[old(out)@.len() as int]@ == s@,
        exists|j: int| 0 <= j < final(out)@.len() && (#[trigger] final(out)@[j])@ == s@,
{
    let n = out.len();
    let mut i: usize = 0;
    while i < n
        invariant
            n == out@.len(),
            0 <= i <= n,
            forall|a: int, b: int| 0 <= a < b < out@.len() ==> out@[a]@ != out@[b]@,
            forall|j: int| 0 <= j < i ==> (#[trigger] out@[j])@ != s@,
        decreases n - i,
    {
        if crate::text::str_eq(out[i].as_str(), s.as_str()) {
            proof {
                assert(out@[i as int]@ == s@);
            }
            return;
        }
        i += 1;
    }
    out.push(s);
    proof {
        assert(out@[out@.len() - 1]@ == s@);
    }
}

/// Pushes spelling number `k` of the variant list unless an equal one is
/// already present, keeping the collected prefix faithful to the list.
fn push_variant(out: &mut Vec<String>, s: String, Ghost(vs): Ghost<Seq<Seq<char>>>, Ghost(k): Ghost<int>)
    requires
        0 <= k < vs.len(),
        s@ == vs[k],
        forall|i: int, j: int| 0 <= i < j < old(out)@.len()
            ==> old(out)@[i]@ != old(out)@[j]@,
        forall|i: int| 0 <= i < old(out)@.len()
            ==> vs.contains((#[trigger] old(out)@[i])@),
        forall|k2: int| 0 <= k2 < k
            ==> exists|i: int| 0 <= i < old(out)@.len()
                && (#[trigger] old(out)@[i])@ == #[trigger] vs[k2],
    ensures
        forall|i: int, j: int| 0 <= i < j < final(out)@.len()
            ==> final(out)@[i]@ != final(out)@[j]@,
        forall|i: int| 0 <= i < final(out)@.len()
            ==> vs.contains((#[trigger] final(out)@[i])@),
        forall|k2: int| 0 <= k2 <= k
            ==> exists|i: int| 0 <= i < final(out)@.len()
                && (#[trigger] final(out)@[i])@ == #[trigger] vs[k2],
{
    let ghost prev = out@;
    push_unique(out, s);
    proof {
        assert forall|i: int| 0 <= i < out@.len()
            implies vs.contains((#[trigger] out@[i])@) by {
            if i < prev.len() {
                assert(out@[i] == prev[i]);
            } else {
                assert(out@[i]@ == vs[k]);
            }
        }
        assert forall|k2: int| 0 <= k2 <= k
            implies exists|i: int| 0 <= i < out@.len()
                && (#[trigger] out@[i])@ == #[trigger] vs[k2] by {
            if k2 < k {
                let w = choose|i: int| 0 <= i < prev.len()
                    && (#[trigger] prev[i])@ == vs[k2];
                assert(out@[w] == prev[w]);
                assert(out@[w]@ == vs[k2]);
            }
        }
    }
}

/// The distinct spellings the hash-cracking utility tries for a path:
/// exactly the set named by `spec_name_variants`, each once.
pub fn make_name_variants(name: &str) -> (r: Vec<String>)
    ensures
        forall|i: int, j: int| 0 <= i < j < r@.len() ==> r@[i]@ != r@[j]@,
        forall|i: int| 0 <= i < r@.len()
            ==> spec_name_variants(name@).contains((#[trigger] r@[i])@),
        forall|k: int| 0 <= k < spec_name_variants(name@).len()
            ==> exists|i: int| 0 <= i < r@.len()
                && (#[trigger] r@[i])@ == #[trigger] spec_name_variants(name@)[k],
{
    let ghost vs = spec_name_variants(name@);
    let t = trim_str(name);
    let tu = upper_string(t);
    let c1 = replace_slash(tu.as_str());
    let c2 = replace_slash_double(tu.as_str());
    let c3 = name.to_owned();
    let c4 = replace_slash(name);
    let c5 = replace_slash_double(name);
    let u = upper_string(name);
    let l = lower_string(name);
    let c8 = replace_slash(u.as_str());
    let c9 = replace_slash(l.as_str());
    let c10 = replace_slash_double(u.as_str());
    let c11 = replace_slash_double(l.as_str());
    let mut out: Vec<String> = Vec::new();
    push_variant(&mut out, c1, Ghost(vs), Ghost(0));
    push_variant(&mut out, c2, Ghost(vs), Ghost(1));
    push_variant(&mut out, c3, Ghost(vs), Ghost(2));
    push_variant(&mut out, c4, Ghost(vs), Ghost(3));
    push_variant(&mut out, c5, Ghost(vs), Ghost(4));
    push_variant(&mut out, u, Ghost(vs), Ghost(5));
    push_variant(&mut out, l, Ghost(vs), Ghost(6));
    push_variant(&mut out, c8, Ghost(vs), Ghost(7));
    push_variant(&mut out, c9, Ghost(vs), Ghost(8));
    push_variant(&mut out, c10, Ghost(vs), Ghost(9));
    push_variant(&mut out, c11, Ghost(vs), Ghost(10));
    out
}

/// Normalization is idempotent: folding a path a second time changes
/// nothing, so a path and its folded spelling hash alike.
pub proof fn lemma_normalize_idempotent(s: Seq<u8>)
    ensures
        spec_normalize_bytes(spec_normalize_bytes(s)) == spec_normalize_bytes(s),
        spec_name_hash(spec_normalize_bytes(s)) == spec_name_hash(s),
{
    assert(spec_normalize_bytes(spec_normalize_bytes(s)) =~= spec_normalize_bytes(s));
}

} // verus!
