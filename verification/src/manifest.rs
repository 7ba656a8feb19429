//! The patch-server manifests (`versions`, `cdns`): pipe-delimited text
//! tables whose header names each column as `Name!Type:Width`; only the
//! name is kept.
use vstd::prelude::*;
use vstd::utf8::{decode_utf8, valid_utf8};
use vstd::slice::slice_to_vec;
use crate::error::Error;
use crate::text::{spec_split, spec_lines, split_bytes, lines_bytes, utf8_to_string, str_eq};

verus! {

broadcast use crate::text::lemma_vec_u8_deep_view;

/// The column names drawn from the header pieces `fs[i ..]`: the part of
/// each before its first `!`, which must be present, decoded as UTF-8.
pub open spec fn spec_fields_from(fs: Seq<Seq<u8>>, i: int) -> Option<Seq<Seq<char>>>
    decreases fs.len() - i,
{
    if i < 0 || i >= fs.len() {
        Some(Seq::empty())
    } else {
        let parts = spec_split(fs[i], 0x21u8);
        if parts.len() < 2 || !valid_utf8(parts[0]) {
            None
        } else {
            match spec_fields_from(fs, i + 1) {
                Some(rest) => Some(seq![decode_utf8(parts[0])] + rest),
                None => None,
            }
        }
    }
}

/// The cells `cs[j ..]` decoded as UTF-8.
pub open spec fn spec_cells_from(cs: Seq<Seq<u8>>, j: int) -> Option<Seq<Seq<char>>>
    decreases cs.len() - j,
{
    if j < 0 || j >= cs.len() {
        Some(Seq::empty())
    } else if !valid_utf8(cs[j]) {
        None
    } else {
        match spec_cells_from(cs, j + 1) {
            Some(rest) => Some(seq![decode_utf8(cs[j])] + rest),
            None => None,
        }
    }
}

/// The rows drawn from lines `ls[i ..]`: empty lines and lines starting
/// with `#` are skipped, every other line splits at `|` into cells.
pub open spec fn spec_rows_from(ls: Seq<Seq<u8>>, i: int) -> Option<Seq<Seq<Seq<char>>>>
    decreases ls.len() - i,
{
    if i < 0 || i >= ls.len() {
        Some(Seq::empty())
    } else if ls[i].len() == 0 || ls[i][0] == 0x23u8 {
        spec_rows_from(ls, i + 1)
    } else {
        match spec_cells_from(spec_split(ls[i], 0x7cu8), 0) {
            None => None,
            Some(cells) => match spec_rows_from(ls, i + 1) {
                Some(rest) => Some(seq![cells] + rest),
                None => None,
            },
        }
    }
}

/// What parsing a manifest yields: the column names and the rows, or
/// nothing when the text is not UTF-8, has no lines, or has a header
/// field without `!`.
pub open spec fn spec_manifest(s: Seq<u8>) -> Option<(Seq<Seq<char>>, Seq<Seq<Seq<char>>>)> {
    if !valid_utf8(s) || spec_lines(s).len() == 0 {
        None
    } else {
        let ls = spec_lines(s);
        match spec_fields_from(spec_split(ls[0], 0x7cu8), 0) {
            None => None,
            Some(fields) => match spec_rows_from(ls, 1) {
                Some(rows) => Some((fields, rows)),
                None => None,
            },
        }
    }
}

/// The first position among `fields` holding exactly `needle`.
pub open spec fn spec_first_index(fields: Seq<Seq<char>>, needle: Seq<char>) -> Option<int>
    decreases fields.len(),
{
    if fields.len() == 0 {
        None
    } else if fields.first() == needle {
        Some(0)
    } else {
        match spec_first_index(fields.drop_first(), needle) {
            Some(i) => Some(i + 1),
            None => None,
        }
    }
}

/// A found first index is in range and holds the needle, and nothing
/// before it does.
pub proof fn lemma_first_index(fields: Seq<Seq<char>>, needle: Seq<char>)
    ensures
        match spec_first_index(fields, needle) {
            Some(i) => 0 <= i < fields.len() && fields[i] == needle
                && forall|j: int| 0 <= j < i ==> fields[j] != needle,
            None => forall|j: int| 0 <= j < fields.len() ==> fields[j] != needle,
        },
    decreases fields.len(),
{
    if fields.len() == 0 {
    } else {
        lemma_first_index(fields.drop_first(), needle);
        assert(forall|j: int| 1 <= j < fields.len()
            ==> #[trigger] fields[j] == fields.drop_first()[j - 1]);
    }
}

/// The first row at or after `i` whose cell in column `fi` is `value`;
/// rows too short to reach the column do not match.
pub open spec fn spec_find_row_from(rows: Seq<Seq<Seq<char>>>, fi: int, value: Seq<char>, i: int) -> Option<int>
    decreases rows.len() - i,
{
    if i < 0 || i >= rows.len() {
        None
    } else if fi < rows[i].len() && rows[i][fi] == value {
        Some(i)
    } else {
        spec_find_row_from(rows, fi, value, i + 1)
    }
}

/// A found row index is in range, matches, and is the first to match.
pub proof fn lemma_find_row_range(rows: Seq<Seq<Seq<char>>>, fi: int, value: Seq<char>, i: int)
    requires
        spec_find_row_from(rows, fi, value, i) is Some,
    ensures
        i <= spec_find_row_from(rows, fi, value, i)->Some_0 < rows.len(),
        fi < rows[spec_find_row_from(rows, fi, value, i)->Some_0].len(),
        rows[spec_find_row_from(rows, fi, value, i)->Some_0][fi] == value,
    decreases rows.len() - i,
{
    if i < 0 || i >= rows.len() {
    } else if fi < rows[i].len() && rows[i][fi] == value {
    } else {
        lemma_find_row_range(rows, fi, value, i + 1);
    }
}

/// A parsed manifest: the column names and the rows, each a list of
/// cells.
#[derive(Debug)]
pub struct Manifest {
    pub field_names: Vec<String>,
    pub rows: Vec<Vec<String>>,
}

impl Manifest {
    /// Parses a manifest text.
    ///
    /// Fails exactly when the text is not UTF-8, has no lines, or has a
    /// header field without a `!` type marker.
    pub fn parse(data: &[u8]) -> (r: Result<Manifest, Error>)
        ensures
            match r {
                Ok(m) => spec_manifest(data@)
                    == Some((m.field_names.deep_view(), m.rows.deep_view())),
                Err(e) => spec_manifest(data@) is None && e == Error::ParseError,
            },
    {
        let whole = slice_to_vec(data);
        if utf8_to_string(whole).is_none() {
            return Err(Error::ParseError);
        }
        let lines = lines_bytes(data);
        let ghost lsv = lines.deep_view();
        if lines.len() == 0 {
            return Err(Error::ParseError);
        }
        let header_fields = split_bytes(lines[0].as_slice(), 0x7c);
        let ghost fsv = header_fields.deep_view();
        let nf = header_fields.len();
        let mut field_names: Vec<String> = Vec::new();
        let mut i: usize = 0;
        proof {
            let r0 = spec_fields_from(fsv, 0);
            if r0 is Some {
                assert(Seq::<Seq<char>>::empty() + r0->Some_0 =~= r0->Some_0);
            }
        }
        while i < nf
            invariant
                valid_utf8(data@),
                lsv == spec_lines(data@),
                lsv.len() >= 1,
                fsv == spec_split(lsv[0], 0x7cu8),
                fsv == header_fields.deep_view(),
                nf == header_fields@.len(),
                0 <= i <= nf,
                ({
                    let full = spec_fields_from(fsv, 0);
                    match spec_fields_from(fsv, i as int) {
                        Some(rest) => full == Some(field_names.deep_view() + rest),
                        None => full is None,
                    }
                }),
            decreases nf - i,
        {
            let parts = split_bytes(header_fields[i].as_slice(), 0x21);
            proof {
                assert(header_fields@[i as int]@ == fsv[i as int]);
            }
            if parts.len() < 2 {
                return Err(Error::ParseError);
            }
            let name_bytes = crate::bytes::copy_range(parts[0].as_slice(), 0, parts[0].len());
            proof {
                assert(name_bytes@ == parts.deep_view()[0]);
            }
            match utf8_to_string(name_bytes) {
                Some(s) => {
                    let ghost names0 = field_names.deep_view();
                    field_names.push(s);
                    proof {
                        assert(field_names.deep_view() =~= names0.push(s@));
                        let rest1 = spec_fields_from(fsv, i + 1);
                        if rest1 is Some {
                            assert(names0 + (seq![s@] + rest1->Some_0)
                                =~= field_names.deep_view() + rest1->Some_0);
                        }
                    }
                },
                None => {
                    return Err(Error::ParseError);
                },
            }
            i += 1;
        }
        proof {
            assert(spec_fields_from(fsv, nf as int) == Some(Seq::<Seq<char>>::empty()));
            assert(field_names.deep_view() + Seq::<Seq<char>>::empty()
                =~= field_names.deep_view());
        }
        let nl = lines.len();
        let mut rows: Vec<Vec<String>> = Vec::new();
        let mut li: usize = 1;
        proof {
            let r0 = spec_rows_from(lsv, 1);
            if r0 is Some {
                assert(Seq::<Seq<Seq<char>>>::empty() + r0->Some_0 =~= r0->Some_0);
            }
        }
        while li < nl
            invariant
                valid_utf8(data@),
                lsv == spec_lines(data@),
                lsv == lines.deep_view(),
                nl == lines@.len(),
                nl >= 1,
                spec_fields_from(spec_split(lsv[0], 0x7cu8), 0)
                    == Some(field_names.deep_view()),
                1 <= li <= nl,
                ({
                    let full = spec_rows_from(lsv, 1);
                    match spec_rows_from(lsv, li as int) {
                        Some(rest) => full == Some(rows.deep_view() + rest),
                        None => full is None,
                    }
                }),
            decreases nl - li,
        {
            let line = &lines[li];
            proof {
                assert(line@ == lsv[li as int]);
            }
            if line.len() == 0 || line[0] == 0x23 {
                li += 1;
                continue;
            }
            let cells = split_bytes(line.as_slice(), 0x7c);
            let ghost csv = cells.deep_view();
            let nc = cells.len();
            let mut row: Vec<String> = Vec::new();
            let mut ci: usize = 0;
            proof {
                let r0 = spec_cells_from(csv, 0);
                if r0 is Some {
                    assert(Seq::<Seq<char>>::empty() + r0->Some_0 =~= r0->Some_0);
                }
            }
            while ci < nc
                invariant
                    valid_utf8(data@),
                    lsv == spec_lines(data@),
                    nl == lsv.len(),
                    nl >= 1,
                    spec_fields_from(spec_split(lsv[0], 0x7cu8), 0)
                        == Some(field_names.deep_view()),
                    1 <= li < nl,
                    lsv[li as int].len() > 0,
                    lsv[li as int][0] != 0x23u8,
                    csv == spec_split(lsv[li as int], 0x7cu8),
                    csv == cells.deep_view(),
                    nc == cells@.len(),
                    0 <= ci <= nc,
                    ({
                        let full = spec_rows_from(lsv, 1);
                        match spec_rows_from(lsv, li as int) {
                            Some(rest) => full == Some(rows.deep_view() + rest),
                            None => full is None,
                        }
                    }),
                    ({
                        let full = spec_cells_from(csv, 0);
                        match spec_cells_from(csv, ci as int) {
                            Some(rest) => full == Some(row.deep_view() + rest),
                            None => full is None,
                        }
                    }),
                decreases nc - ci,
            {
                let cell_bytes = crate::bytes::copy_range(cells[ci].as_slice(), 0,
                    cells[ci].len());
                proof {
                    assert(cell_bytes@ == csv[ci as int]);
                }
                match utf8_to_string(cell_bytes) {
                    Some(s) => {
                        let ghost row0 = row.deep_view();
                        row.push(s);
                        proof {
                            assert(row.deep_view() =~= row0.push(s@));
                            let rest1 = spec_cells_from(csv, ci + 1);
                            if rest1 is Some {
                                assert(row0 + (seq![s@] + rest1->Some_0)
                                    =~= row.deep_view() + rest1->Some_0);
                            }
                        }
                    },
                    None => {
                        return Err(Error::ParseError);
                    },
                }
                ci += 1;
            }
            proof {
                assert(spec_cells_from(csv, nc as int) == Some(Seq::<Seq<char>>::empty()));
                assert(row.deep_view() + Seq::<Seq<char>>::empty() =~= row.deep_view());
            }
            let ghost rows0 = rows.deep_view();
            let ghost rowdv = row.deep_view();
            rows.push(row);
            proof {
                assert(rows.deep_view() =~= rows0.push(rowdv));
                let rest1 = spec_rows_from(lsv, li + 1);
                if rest1 is Some {
                    assert(rows0 + (seq![rowdv] + rest1->Some_0)
                        =~= rows.deep_view() + rest1->Some_0);
                }
            }
            li += 1;
        }
        proof {
            assert(spec_rows_from(lsv, nl as int) == Some(Seq::<Seq<Seq<char>>>::empty()));
            assert(rows.deep_view() + Seq::<Seq<Seq<char>>>::empty() =~= rows.deep_view());
        }
        Ok(Manifest { field_names, rows })
    }

    /// The position of the first column with the given name.
    pub fn get_field_index(&self, needle: &str) -> (r: Option<usize>)
        ensures
            match r {
                Some(i) => spec_first_index(self.field_names.deep_view(), needle@)
                    == Some(i as int),
                None => spec_first_index(self.field_names.deep_view(), needle@) is None,
            },
    {
        proof {
            lemma_first_index(self.field_names.deep_view(), needle@);
        }
        let n = self.field_names.len();
        let mut i: usize = 0;
        while i < n
            invariant
                n == self.field_names@.len(),
                0 <= i <= n,
                forall|j: int| 0 <= j < i
                    ==> self.field_names.deep_view()[j] != needle@,
                spec_first_index(self.field_names.deep_view(), needle@) matches Some(k)
                    ==> i <= k,
            decreases n - i,
    {
            proof {
                lemma_first_index(self.field_names.deep_view(), needle@);
            }
            if str_eq(self.field_names[i].as_str(), needle) {
                proof {
                    assert(self.field_names.deep_view()[i as int]
                        == self.field_names@[i as int]@);
                }
                return Some(i);
            }
            i += 1;
        }
        None
    }

    /// The cell of row `row` in the column named `field`, when both exist.
    pub fn get_field(&self, row: usize, field: &str) -> (r: Option<&str>)
        ensures
            match r {
                Some(cell) => {
                    let fi = spec_first_index(self.field_names.deep_view(), field@);
                    &&& fi is Some
                    &&& row < self.rows.deep_view().len()
                    &&& fi->Some_0 < self.rows.deep_view()[row as int].len()
                    &&& cell@ == self.rows.deep_view()[row as int][fi->Some_0]
                },
                None => {
                    let fi = spec_first_index(self.field_names.deep_view(), field@);
                    ||| fi is None
                    ||| row >= self.rows.deep_view().len()
                    ||| fi->Some_0 >= self.rows.deep_view()[row as int].len()
                },
            },
    {
        let fi = match self.get_field_index(field) {
            Some(i) => i,
            None => {
                return None;
            },
        };
        proof {
            lemma_first_index(self.field_names.deep_view(), field@);
        }
        if row >= self.rows.len() {
            return None;
        }
        let cells = &self.rows[row];
        proof {
            assert(self.rows.deep_view()[row as int] == cells.deep_view());
        }
        if fi >= cells.len() {
            proof {
                assert(cells.deep_view().len() == cells@.len());
            }
            return None;
        }
        proof {
            assert(cells.deep_view()[fi as int] == cells@[fi as int]@);
        }
        Some(cells[fi].as_str())
    }

    /// The position of the first row whose cell in the column named
    /// `field` equals `value`; rows too short to reach the column do not
    /// match, and a missing column matches nothing.
    pub fn find_row(&self, field: &str, value: &str) -> (r: Option<usize>)
        ensures
            ({
                let rr = match spec_first_index(self.field_names.deep_view(), field@) {
                    None => None,
                    Some(fi) => spec_find_row_from(self.rows.deep_view(), fi, value@, 0),
                };
                match r {
                    Some(i) => rr == Some(i as int),
                    None => rr is None,
                }
            }),
    {
        let fi = match self.get_field_index(field) {
            Some(i) => i,
            None => {
                return None;
            },
        };
        let ghost rows = self.rows.deep_view();
        let n = self.rows.len();
        let mut i: usize = 0;
        while i < n
            invariant
                rows == self.rows.deep_view(),
                n == self.rows@.len(),
                0 <= i <= n,
                spec_first_index(self.field_names.deep_view(), field@) == Some(fi as int),
                spec_find_row_from(rows, fi as int, value@, 0)
                    == spec_find_row_from(rows, fi as int, value@, i as int),
            decreases n - i,
        {
            let cells = &self.rows[i];
            proof {
                assert(cells.deep_view() == rows[i as int]);
            }
            if fi < cells.len() {
                if str_eq(cells[fi].as_str(), value) {
                    proof {
                        assert(rows[i as int][fi as int] == cells@[fi as int]@);
                    }
                    return Some(i);
                }
            }
            i += 1;
        }
        None
    }
}

} // verus!
