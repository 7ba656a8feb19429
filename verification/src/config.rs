//! The `key = value ...` text configs (build config, CDN config): comment
//! and blank lines ignored, each other line split at its first ` = ` into
//! a name and a space-separated, order-significant value list. A repeated
//! name takes its last line.
use vstd::prelude::*;
use vstd::utf8::{decode_utf8, valid_utf8};
use vstd::string::StringSliceAdditionalSpecFns;
use vstd::slice::slice_subrange;
use crate::error::Error;
use crate::manifest::spec_cells_from;
use crate::text::{spec_split, spec_lines, split_bytes, lines_bytes, utf8_to_string, str_eq};

verus! {

broadcast use crate::text::lemma_vec_u8_deep_view;

/// The first position at or after `i` where ` = ` stands.
pub open spec fn spec_find_assign(l: Seq<u8>, i: int) -> Option<int>
    decreases l.len() - i,
{
    if i < 0 || i + 3 > l.len() {
        None
    } else if l[i] == 0x20u8 && l[i + 1] == 0x3du8 && l[i + 2] == 0x20u8 {
        Some(i)
    } else {
        spec_find_assign(l, i + 1)
    }
}

/// The `(name, values)` pairs drawn from lines `ls[i ..]`: blank and `#`
/// lines are skipped; each other line must hold ` = `, its left side is
/// the name, its right side splits at every space.
pub open spec fn spec_config_from(ls: Seq<Seq<u8>>, i: int) -> Option<Seq<(Seq<char>, Seq<Seq<char>>)>>
    decreases ls.len() - i,
{
    if i < 0 || i >= ls.len() {
        Some(Seq::empty())
    } else if ls[i].len() == 0 || ls[i][0] == 0x23u8 {
        spec_config_from(ls, i + 1)
    } else {
        match spec_find_assign(ls[i], 0) {
            None => None,
            Some(p) => {
                let key = ls[i].subrange(0, p);
                let vals = spec_split(ls[i].subrange(p + 3, ls[i].len() as int), 0x20u8);
                if !valid_utf8(key) {
                    None
                } else {
                    match spec_cells_from(vals, 0) {
                        None => None,
                        Some(vs) => match spec_config_from(ls, i + 1) {
                            Some(rest) => Some(seq![(decode_utf8(key), vs)] + rest),
                            None => None,
                        },
                    }
                }
            },
        }
    }
}

/// What parsing a config text yields.
pub open spec fn spec_config(s: Seq<u8>) -> Option<Seq<(Seq<char>, Seq<Seq<char>>)>> {
    spec_config_from(spec_lines(s), 0)
}

/// The position of the last pair whose name is `k`.
pub open spec fn spec_last_name_index(names: Seq<Seq<char>>, k: Seq<char>) -> Option<int>
    decreases names.len(),
{
    if names.len() == 0 {
        None
    } else if names.last() == k {
        Some(names.len() - 1)
    } else {
        spec_last_name_index(names.drop_last(), k)
    }
}

/// A found last index is in range, holds the name, and nothing after it
/// does.
pub proof fn lemma_last_name_index(names: Seq<Seq<char>>, k: Seq<char>)
    ensures
        match spec_last_name_index(names, k) {
            Some(i) => 0 <= i < names.len() && names[i] == k
                && forall|j: int| i < j < names.len() ==> names[j] != k,
            None => forall|j: int| 0 <= j < names.len() ==> names[j] != k,
        },
    decreases names.len(),
{
    if names.len() == 0 {
    } else if names.last() == k {
    } else {
        lemma_last_name_index(names.drop_last(), k);
        assert(forall|j: int| 0 <= j < names.len() - 1
            ==> #[trigger] names[j] == names.drop_last()[j]);
    }
}

/// A parsed config: the names and their value lists, in line order; a
/// lookup answers from the last line holding the name.
#[derive(Debug)]
pub struct Config {
    pub names: Vec<String>,
    pub values: Vec<Vec<String>>,
}

impl Config {
    /// The two columns are parallel.
    pub open spec fn wf(&self) -> bool {
        self.names@.len() == self.values@.len()
    }

    /// The value list of the last line named `name`, or nothing.
    pub fn get(&self, name: &str) -> (r: Option<&Vec<String>>)
        requires
            self.wf(),
        ensures
            match r {
                Some(v) => spec_last_name_index(self.names.deep_view(), name@) is Some
                    && v.deep_view() == self.values.deep_view()[
                        spec_last_name_index(self.names.deep_view(), name@)->Some_0],
                None => spec_last_name_index(self.names.deep_view(), name@) is None,
            },
    {
        proof {
            lemma_last_name_index(self.names.deep_view(), name@);
        }
        let n = self.names.len();
        let mut i: usize = n;
        while i > 0
            invariant
                self.wf(),
                n == self.names@.len(),
                0 <= i <= n,
                forall|j: int| i <= j < n ==> self.names.deep_view()[j] != name@,
            decreases i,
        {
            i -= 1;
            if str_eq(self.names[i].as_str(), name) {
                proof {
                    lemma_last_name_index(self.names.deep_view(), name@);
                    assert(self.names.deep_view()[i as int] == self.names@[i as int]@);
                }
                return Some(&self.values[i]);
            }
        }
        proof {
            lemma_last_name_index(self.names.deep_view(), name@);
        }
        None
    }
}

/// A found assignment marker is in range.
proof fn lemma_find_assign_range(l: Seq<u8>, i: int)
    requires
        spec_find_assign(l, i) is Some,
    ensures
        i <= spec_find_assign(l, i)->Some_0,
        spec_find_assign(l, i)->Some_0 + 3 <= l.len(),
    decreases l.len() - i,
{
    if i < 0 || i + 3 > l.len() {
    } else if l[i] == 0x20u8 && l[i + 1] == 0x3du8 && l[i + 2] == 0x20u8 {
    } else {
        lemma_find_assign_range(l, i + 1);
    }
}

/// Finds the first ` = ` in a line.
fn find_assign(l: &[u8]) -> (r: Option<usize>)
    ensures
        match r {
            Some(p) => spec_find_assign(l@, 0) == Some(p as int),
            None => spec_find_assign(l@, 0) is None,
        },
{
    let n = l.len();
    if n < 3 {
        return None;
    }
    let mut i: usize = 0;
    while i <= n - 3
        invariant
            n == l@.len(),
            n >= 3,
            0 <= i,
            i <= n - 2,
            spec_find_assign(l@, 0) == spec_find_assign(l@, i as int),
        decreases n - i,
    {
        if l[i] == 0x20 && l[i + 1] == 0x3d && l[i + 2] == 0x20 {
            return Some(i);
        }
        i += 1;
    }
    None
}

/// Parses a config text.
///
/// Fails exactly when a kept line lacks ` = `; names and values come out
/// in line order, duplicates preserved.
pub fn parse_config(data: &str) -> (r: Result<Config, Error>)
    ensures
        match r {
            Ok(c) => {
                &&& c.wf()
                &&& spec_config(data.spec_bytes()) is Some
                &&& {
                    let pairs = spec_config(data.spec_bytes())->Some_0;
                    &&& c.names.deep_view().len() == pairs.len()
                    &&& forall|j: int| 0 <= j < pairs.len()
                        ==> c.names.deep_view()[j] == (#[trigger] pairs[j]).0
                            && c.values.deep_view()[j] == pairs[j].1
                }
            },
            Err(e) => spec_config(data.spec_bytes()) is None && e == Error::ParseError,
        },
{
    let bytes = data.as_bytes();
    let lines = lines_bytes(bytes);
    let ghost lsv = lines.deep_view();
    let nl = lines.len();
    let mut names: Vec<String> = Vec::new();
    let mut values: Vec<Vec<String>> = Vec::new();
    let ghost mut taken: Seq<(Seq<char>, Seq<Seq<char>>)> = Seq::empty();
    let mut li: usize = 0;
    proof {
        let r0 = spec_config_from(lsv, 0);
        if r0 is Some {
            assert(taken + r0->Some_0 =~= r0->Some_0);
        }
    }
    while li < nl
        invariant
            lsv == lines.deep_view(),
            lsv == spec_lines(data.spec_bytes()),
            nl == lines@.len(),
            0 <= li <= nl,
            names@.len() == taken.len(),
            values@.len() == taken.len(),
            forall|j: int| 0 <= j < taken.len()
                ==> names.deep_view()[j] == (#[trigger] taken[j]).0
                    && values.deep_view()[j] == taken[j].1,
            ({
                let full = spec_config_from(lsv, 0);
                match spec_config_from(lsv, li as int) {
                    Some(rest) => full == Some(taken + rest),
                    None => full is None,
                }
            }),
        decreases nl - li,
    {
        let line = &lines[li];
        proof {
            assert(line@ == lsv[li as int]);
        }
        if line.len() == 0 || line[0] == 0x23 {
            li += 1;
            continue;
        }
        let p = match find_assign(line.as_slice()) {
            Some(p) => p,
            None => {
                return Err(Error::ParseError);
            },
        };
        proof {
            lemma_find_assign_range(line@, 0);
        }
        let key_bytes = crate::bytes::copy_range(line.as_slice(), 0, p);
        let key = match utf8_to_string(key_bytes) {
            Some(k) => k,
            None => {
                return Err(Error::ParseError);
            },
        };
        let rest_slice = slice_subrange(line.as_slice(), p + 3, line.len());
        let cells = split_bytes(rest_slice, 0x20);
        let ghost csv = cells.deep_view();
        let nc = cells.len();
        let mut vals: Vec<String> = Vec::new();
        let mut ci: usize = 0;
        proof {
            let r0 = spec_cells_from(csv, 0);
            if r0 is Some {
                assert(Seq::<Seq<char>>::empty() + r0->Some_0 =~= r0->Some_0);
            }
        }
        while ci < nc
            invariant
                lsv == lines.deep_view(),
                lsv == spec_lines(data.spec_bytes()),
                nl == lsv.len(),
                0 <= li < nl,
                lsv[li as int].len() > 0,
                lsv[li as int][0] != 0x23u8,
                spec_find_assign(lsv[li as int], 0) is Some,
                valid_utf8(lsv[li as int].subrange(0,
                    spec_find_assign(lsv[li as int], 0)->Some_0)),
                csv == spec_split(lsv[li as int].subrange(
                    spec_find_assign(lsv[li as int], 0)->Some_0 + 3,
                    lsv[li as int].len() as int), 0x20u8),
                csv == cells.deep_view(),
                nc == cells@.len(),
                0 <= ci <= nc,
                names@.len() == taken.len(),
                values@.len() == taken.len(),
                forall|j: int| 0 <= j < taken.len()
                    ==> names.deep_view()[j] == (#[trigger] taken[j]).0
                        && values.deep_view()[j] == taken[j].1,
                ({
                    let full = spec_config_from(lsv, 0);
                    match spec_config_from(lsv, li as int) {
                        Some(rest) => full == Some(taken + rest),
                        None => full is None,
                    }
                }),
                ({
                    let full = spec_cells_from(csv, 0);
                    match spec_cells_from(csv, ci as int) {
                        Some(rest) => full == Some(vals.deep_view() + rest),
                        None => full is None,
                    }
                }),
            decreases nc - ci,
        {
            let cell_bytes = crate::bytes::copy_range(cells[ci].as_slice(), 0,
                cells[ci].len());
            proof {
                assert(cell_bytes@ == csv[ci as int]);
            }
            match utf8_to_string(cell_bytes) {
                Some(s) => {
                    let ghost vals0 = vals.deep_view();
                    vals.push(s);
                    proof {
                        assert(vals.deep_view() =~= vals0.push(s@));
                        let rest1 = spec_cells_from(csv, ci + 1);
                        if rest1 is Some {
                            assert(vals0 + (seq![s@] + rest1->Some_0)
                                =~= vals.deep_view() + rest1->Some_0);
                        }
                    }
                },
                None => {
                    return Err(Error::ParseError);
                },
            }
            ci += 1;
        }
        proof {
            assert(spec_cells_from(csv, nc as int) == Some(Seq::<Seq<char>>::empty()));
            assert(vals.deep_view() + Seq::<Seq<char>>::empty() =~= vals.deep_view());
        }
        let ghost names0 = names.deep_view();
        let ghost values0 = values.deep_view();
        let ghost keydv = key@;
        let ghost valsdv = vals.deep_view();
        names.push(key);
        values.push(vals);
        proof {
            assert(names.deep_view() =~= names0.push(keydv));
            assert(values.deep_view() =~= values0.push(valsdv));
            let pair = (keydv, valsdv);
            let taken_old = taken;
            taken = taken.push(pair);
            let rest1 = spec_config_from(lsv, li + 1);
            if rest1 is Some {
                assert(taken_old + (seq![pair] + rest1->Some_0)
                    =~= taken + rest1->Some_0);
            }
        }
        li += 1;
    }
    proof {
        assert(spec_config_from(lsv, nl as int)
            == Some(Seq::<(Seq<char>, Seq<Seq<char>>)>::empty()));
        assert(taken + Seq::<(Seq<char>, Seq<Seq<char>>)>::empty() =~= taken);
    }
    Ok(Config { names, values })
}

} // verus!
