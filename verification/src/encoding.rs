//! The encoding table: a BLTE-wrapped, paged mapping from content key to
//! encoded keys. Only the content-key half is read; where a content key has
//! several encoded keys, the first is kept.
use vstd::prelude::*;
use std::collections::HashMap;
use crate::blte::{decode_blte, spec_decode_blte};
use crate::bytes::{spec_u16_be, spec_u32_be, read_u16_be, read_u32_be, read_16_bytes};
use crate::error::Error;
use crate::keys::{CKey, EKey, key_u128, key_u128_of};

verus! {

broadcast use vstd::std_specs::hash::group_hash_axioms;

/// Whether the decoded table begins with a well-formed header: the `EN`
/// magic and a zero padding byte.
pub open spec fn spec_encoding_header_ok(d: Seq<u8>) -> bool {
    &&& d.len() >= 22
    &&& d[0] == 0x45u8
    &&& d[1] == 0x4eu8
    &&& d[17] == 0u8
}

/// Where the content-key pages start, relative to the end of the header:
/// after the ESpec block and the page index.
pub open spec fn spec_page_start(d: Seq<u8>) -> int {
    22 + spec_u32_be(d, 18) + spec_u32_be(d, 9) * (d[3] + 16)
}

/// The size in bytes of one content-key page.
pub open spec fn spec_page_size(d: Seq<u8>) -> int {
    spec_u16_be(d, 5) * 1024
}

/// The number of content-key pages.
pub open spec fn spec_page_count(d: Seq<u8>) -> int {
    spec_u32_be(d, 9)
}

/// The start positions of the records of one page: records are read
/// sequentially until a zero key count, or a record that the page cannot
/// hold.
pub open spec fn spec_record_positions(d: Seq<u8>, pos: int, page_end: int) -> Seq<int>
    decreases page_end - pos,
{
    if pos < 0 || pos + 22 > page_end {
        Seq::empty()
    } else if d[pos] == 0u8 {
        Seq::empty()
    } else if pos + 22 + 16 * d[pos] > page_end {
        Seq::empty()
    } else {
        seq![pos] + spec_record_positions(d, pos + 22 + 16 * d[pos], page_end)
    }
}

/// The record positions of pages `i ..`, or nothing when a page would
/// reach past the end of the table.
pub open spec fn spec_encoding_pages(d: Seq<u8>, i: int) -> Option<Seq<int>>
    decreases spec_page_count(d) - i,
{
    if i >= spec_page_count(d) {
        Some(Seq::empty())
    } else {
        let offs = spec_page_start(d) + spec_page_size(d) * i;
        let page_end = offs + spec_page_size(d);
        if page_end > d.len() {
            None
        } else {
            let ps = spec_record_positions(d, offs, page_end);
            match spec_encoding_pages(d, i + 1) {
                Some(rest) => Some(ps + rest),
                None => None,
            }
        }
    }
}

/// What parsing a decoded encoding table yields: the record positions, or
/// nothing when the header or a page is malformed.
pub open spec fn spec_parse_encoding(d: Seq<u8>) -> Option<Seq<int>> {
    if !spec_encoding_header_ok(d) {
        None
    } else {
        spec_encoding_pages(d, 0)
    }
}

/// Whether the pair holds the record at `p`: its content key, and the
/// first of its encoded keys.
pub open spec fn pair_at(d: Seq<u8>, p: int, pair: (CKey, EKey)) -> bool {
    &&& pair.0@ == d.subrange(p + 6, p + 22)
    &&& pair.1@ == d.subrange(p + 22, p + 38)
}

/// The encoded key paired with the content key that packs to `k`, taking
/// the last pair when the content key occurs more than once.
pub open spec fn spec_lookup_ekey(pairs: Seq<(CKey, EKey)>, k: u128) -> Option<EKey>
    decreases pairs.len(),
{
    if pairs.len() == 0 {
        None
    } else if key_u128_of(pairs.last().0@) == k {
        Some(pairs.last().1)
    } else {
        spec_lookup_ekey(pairs.drop_last(), k)
    }
}

/// Appending a pair changes lookups only for that pair's content key.
proof fn lemma_lookup_ekey_push(pairs: Seq<(CKey, EKey)>, pair: (CKey, EKey), k: u128)
    ensures
        spec_lookup_ekey(pairs.push(pair), k) == if key_u128_of(pair.0@) == k {
            Some(pair.1)
        } else {
            spec_lookup_ekey(pairs, k)
        },
{
    let pushed = pairs.push(pair);
    assert(pushed.last() == pair);
    assert(pushed.drop_last() =~= pairs);
}

/// A successful lookup's key is the key of some pair.
proof fn lemma_lookup_ekey_in_pairs(pairs: Seq<(CKey, EKey)>, k: u128)
    requires
        spec_lookup_ekey(pairs, k) is Some,
    ensures
        exists|j: int| 0 <= j < pairs.len()
            && key_u128_of((#[trigger] pairs[j]).0@) == k,
    decreases pairs.len(),
{
    if pairs.len() == 0 {
    } else if key_u128_of(pairs.last().0@) == k {
        assert(key_u128_of(pairs[pairs.len() - 1].0@) == k);
    } else {
        lemma_lookup_ekey_in_pairs(pairs.drop_last(), k);
        let j = choose|j: int| 0 <= j < pairs.drop_last().len()
            && key_u128_of((#[trigger] pairs.drop_last()[j]).0@) == k;
        assert(pairs[j] == pairs.drop_last()[j]);
    }
}

/// The encoding table: the content-key/encoded-key pairs in parse order,
/// and a map from packed content key to the position of its (last) pair.
#[derive(Debug)]
pub struct EncodingFile {
    pub pairs: Vec<(CKey, EKey)>,
    pub ckey_to_ekey: HashMap<u128, usize>,
}

impl EncodingFile {
    /// The map is coherent: it holds exactly the packed content keys of the
    /// pairs, each mapped to the last pair holding it.
    pub open spec fn wf(&self) -> bool {
        &&& forall|k: u128| self.ckey_to_ekey@.contains_key(k)
            ==> 0 <= #[trigger] self.ckey_to_ekey@[k] < self.pairs@.len()
                && key_u128_of(self.pairs@[self.ckey_to_ekey@[k] as int].0@) == k
                && spec_lookup_ekey(self.pairs@, k)
                    == Some(self.pairs@[self.ckey_to_ekey@[k] as int].1)
        &&& forall|j: int| 0 <= j < self.pairs@.len()
            ==> self.ckey_to_ekey@.contains_key(key_u128_of((#[trigger] self.pairs@[j]).0@))
    }

    /// Parses a BLTE-wrapped encoding table.
    ///
    /// Fails with the decoder's error when the BLTE envelope is bad, and
    /// with a parse error when the `EN` header or a page is malformed; the
    /// pairs come out in page order, bit-exact.
    pub fn parse(data: &[u8]) -> (r: Result<EncodingFile, Error>)
        ensures
            match r {
                Ok(enc) => {
                    &&& spec_decode_blte(data@) is Ok
                    &&& {
                        let d = spec_decode_blte(data@)->Ok_0;
                        &&& spec_parse_encoding(d) is Some
                        &&& enc.wf()
                        &&& enc.pairs@.len() == spec_parse_encoding(d)->Some_0.len()
                        &&& forall|j: int| 0 <= j < enc.pairs@.len()
                            ==> pair_at(d, spec_parse_encoding(d)->Some_0[j],
                                #[trigger] enc.pairs@[j])
                    }
                },
                Err(e) => match spec_decode_blte(data@) {
                    Ok(d) => spec_parse_encoding(d) is None && e == Error::ParseError,
                    Err(de) => e == de,
                },
            },
    {
        let decoded = match decode_blte(data) {
            Ok(d) => d,
            Err(e) => {
                return Err(e);
            },
        };
        let d = decoded.as_slice();
        let ghost dv = d@;
        let n = d.len();
        if n < 22 || d[0] != 0x45 || d[1] != 0x4e || d[17] != 0 {
            return Err(Error::ParseError);
        }
        let espec_page_size = read_u32_be(d, 18);
        let page_count = read_u32_be(d, 9);
        let hash_size_ckey = d[3];
        let page_size16 = read_u16_be(d, 5);
        proof {
            assert((page_count as int) * ((hash_size_ckey as int) + 16)
                <= 0xFFFFFFFFint * 271) by (nonlinear_arith)
                requires
                    0 <= page_count as int <= 0xFFFFFFFFint,
                    0 <= hash_size_ckey as int <= 0xFFint,
            ;
        }
        let page_start: u64 = 22 + (espec_page_size as u64)
            + (page_count as u64) * ((hash_size_ckey as u64) + 16);
        let page_size: u64 = (page_size16 as u64) * 1024;
        proof {
            assert(spec_encoding_header_ok(dv));
            assert(page_start == spec_page_start(dv));
            assert(page_size == spec_page_size(dv));
            assert(page_count == spec_page_count(dv));
            let r0 = spec_encoding_pages(dv, 0);
            if r0 is Some {
                assert(Seq::<int>::empty() + r0->Some_0 =~= r0->Some_0);
            }
        }
        let mut pairs: Vec<(CKey, EKey)> = Vec::new();
        let mut ckey_to_ekey: HashMap<u128, usize> = HashMap::new();
        let ghost mut taken: Seq<int> = Seq::empty();
        let mut i: u32 = 0;
        while i < page_count
            invariant
                dv == d@,
                n == dv.len(),
                spec_decode_blte(data@) == Ok::<Seq<u8>, Error>(dv),
                spec_encoding_header_ok(dv),
                page_start == spec_page_start(dv),
                page_size == spec_page_size(dv),
                page_count == spec_page_count(dv),
                page_size <= 0x3FFFC00,
                page_start <= 0x30000000000,
                0 <= i <= page_count,
                pairs@.len() == taken.len(),
                forall|j: int| 0 <= j < taken.len()
                    ==> pair_at(dv, taken[j], #[trigger] pairs@[j]),
                forall|k: u128| ckey_to_ekey@.contains_key(k)
                    ==> 0 <= #[trigger] ckey_to_ekey@[k] < pairs@.len()
                        && key_u128_of(pairs@[ckey_to_ekey@[k] as int].0@) == k
                        && spec_lookup_ekey(pairs@, k)
                            == Some(pairs@[ckey_to_ekey@[k] as int].1),
                forall|j: int| 0 <= j < pairs@.len()
                    ==> ckey_to_ekey@.contains_key(key_u128_of((#[trigger] pairs@[j]).0@)),
                ({
                    let full = spec_encoding_pages(dv, 0);
                    match spec_encoding_pages(dv, i as int) {
                        Some(rest) => full == Some(taken + rest),
                        None => full is None,
                    }
                }),
            decreases page_count - i,
    {
            proof {
                assert((page_size as int) * (i as int) <= 0x3FFFC00int * 0xFFFFFFFFint)
                    by (nonlinear_arith)
                    requires
                        0 <= page_size as int <= 0x3FFFC00int,
                        0 <= i as int <= 0xFFFFFFFFint,
                ;
            }
            let offs64: u64 = page_start + page_size * (i as u64);
            let end64: u64 = offs64 + page_size;
            if end64 > n as u64 {
                proof {
                    assert(spec_encoding_pages(dv, i as int) is None);
                }
                return Err(Error::ParseError);
            }
            let offs = offs64 as usize;
            let page_end = end64 as usize;
            let ghost taken0 = taken;
            let ghost page_ps = spec_record_positions(dv, offs as int, page_end as int);
            let mut pos: usize = offs;
            while pos < page_end && page_end - pos >= 22 && d[pos] != 0
                && page_end - pos >= 22 + 16 * (d[pos] as usize)
                invariant
                    dv == d@,
                    n == dv.len(),
                    offs <= pos <= page_end,
                    page_end <= n,
                    page_ps == spec_record_positions(dv, offs as int, page_end as int),
                    taken0.len() <= taken.len(),
                    pairs@.len() == taken.len(),
                    taken =~= taken0 + page_ps.take(taken.len() - taken0.len()),
                    page_ps =~= page_ps.take(taken.len() - taken0.len())
                        + spec_record_positions(dv, pos as int, page_end as int),
                    forall|j: int| 0 <= j < taken.len()
                        ==> pair_at(dv, taken[j], #[trigger] pairs@[j]),
                    forall|k: u128| ckey_to_ekey@.contains_key(k)
                        ==> 0 <= #[trigger] ckey_to_ekey@[k] < pairs@.len()
                            && key_u128_of(pairs@[ckey_to_ekey@[k] as int].0@) == k
                            && spec_lookup_ekey(pairs@, k)
                                == Some(pairs@[ckey_to_ekey@[k] as int].1),
                    forall|j: int| 0 <= j < pairs@.len()
                        ==> ckey_to_ekey@.contains_key(
                            key_u128_of((#[trigger] pairs@[j]).0@)),
                decreases page_end - pos,
            {
                let ghost done = taken.len() - taken0.len();
                let cnt = d[pos] as usize;
                proof {
                    assert(spec_record_positions(dv, pos as int, page_end as int)
                        =~= seq![pos as int]
                            + spec_record_positions(dv, pos + 22 + 16 * dv[pos as int],
                                page_end as int));
                }
                let ckey_bytes = read_16_bytes(d, pos + 6);
                let ekey_bytes = read_16_bytes(d, pos + 22);
                let pair = (CKey(ckey_bytes), EKey(ekey_bytes));
                let ghost pairs0 = pairs@;
                let k = key_u128(&ckey_bytes);
                let at = pairs.len();
                pairs.push(pair);
                ckey_to_ekey.insert(k, at);
                proof {
                    taken = taken.push(pos as int);
                    assert(pair_at(dv, pos as int, pair));
                    assert(page_ps[done] == pos as int);
                    assert(taken =~= taken0 + page_ps.take(done + 1));
                    assert(page_ps =~= page_ps.take(done + 1)
                        + spec_record_positions(dv, pos + 22 + 16 * dv[pos as int],
                            page_end as int));
                    assert forall|k2: u128| ckey_to_ekey@.contains_key(k2)
                        implies 0 <= #[trigger] ckey_to_ekey@[k2] < pairs@.len()
                            && key_u128_of(pairs@[ckey_to_ekey@[k2] as int].0@) == k2
                            && spec_lookup_ekey(pairs@, k2)
                                == Some(pairs@[ckey_to_ekey@[k2] as int].1) by {
                        lemma_lookup_ekey_push(pairs0, pair, k2);
                    }
                }
                pos = pos + 22 + 16 * cnt;
            }
            proof {
                let done = taken.len() - taken0.len();
                assert(spec_record_positions(dv, pos as int, page_end as int)
                    =~= Seq::<int>::empty());
                assert(page_ps =~= page_ps.take(done));
                let tail = spec_encoding_pages(dv, i + 1);
                assert(spec_encoding_pages(dv, i as int) == match tail {
                    Some(rest) => Some(page_ps + rest),
                    None => None::<Seq<int>>,
                });
                assert(taken =~= taken0 + page_ps);
                if tail is Some {
                    assert(taken0 + (page_ps + tail->Some_0) =~= taken + tail->Some_0);
                }
            }
            i = i + 1;
        }
        proof {
            assert(spec_encoding_pages(dv, i as int) == Some(Seq::<int>::empty()));
            assert(taken + Seq::<int>::empty() =~= taken);
            assert(spec_parse_encoding(dv) == Some(taken));
        }
        Ok(EncodingFile { pairs, ckey_to_ekey })
    }

    /// Looks up the encoded key for a content key: the one paired with the
    /// last parsed record for that content key, or nothing when no record
    /// holds it.
    pub fn get_ekey_for_ckey(&self, ckey: &CKey) -> (r: Option<&EKey>)
        requires
            self.wf(),
        ensures
            match r {
                Some(e) => spec_lookup_ekey(self.pairs@, key_u128_of(ckey@)) == Some(*e),
                None => spec_lookup_ekey(self.pairs@, key_u128_of(ckey@)) is None,
            },
    {
        let k = key_u128(&ckey.0);
        match self.ckey_to_ekey.get(&k) {
            Some(i) => Some(&self.pairs[*i].1),
            None => {
                proof {
                    if spec_lookup_ekey(self.pairs@, k) is Some {
                        lemma_lookup_ekey_in_pairs(self.pairs@, k);
                    }
                }
                None
            },
        }
    }
}

} // verus!
