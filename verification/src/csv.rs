//! Ingestion of comma-separated text into a columnar `Datastore`.
//!
//! The text is split into lines; empty lines are dropped, carriage returns
//! are removed, and each remaining line is split on commas.  The first line
//! names the columns; every data row must have exactly as many fields as the
//! header, and the first row that does not is the error.  Reading the text
//! from a file is the caller's concern.

use vstd::prelude::*;
use vstd::string::StringExecFns;

use crate::database::{clone_strings, col_data, col_name, Column, Datastore};
use crate::text::{chars_of, find_char, string_range, vec_range};

verus! {

/// Why a body of comma-separated text was rejected.
#[derive(Debug, PartialEq)]
pub enum CsvError {
    /// The text has no nonempty line at all.
    NoHeader,
    /// The header line has no field.
    EmptyHeader,
    /// A data row whose field count differs from the header's.
    RowWidth { row: Vec<String>, expected: usize, got: usize },
}

/// The abstraction of a `CsvError`.
pub enum CsvErrView {
    NoHeader,
    EmptyHeader,
    RowWidth { row: Seq<Seq<char>>, expected: int, got: int },
}

/// The texts of a row of cells.
pub open spec fn row_view(r: Vec<String>) -> Seq<Seq<char>> {
    r@.map_values(|s: String| s@)
}

impl View for CsvError {
    type V = CsvErrView;

    open spec fn view(&self) -> CsvErrView {
        match self {
            CsvError::NoHeader => CsvErrView::NoHeader,
            CsvError::EmptyHeader => CsvErrView::EmptyHeader,
            CsvError::RowWidth { row, expected, got } => CsvErrView::RowWidth {
                row: row_view(*row),
                expected: *expected as int,
                got: *got as int,
            },
        }
    }
}

/// The text with every carriage return removed, from position `i` on.
pub open spec fn strip_cr_from(l: Seq<char>, i: int) -> Seq<char>
    decreases l.len() - i,
{
    if !(0 <= i && i < l.len()) {
        Seq::empty()
    } else if l[i] == '\r' {
        strip_cr_from(l, i + 1)
    } else {
        seq![l[i]] + strip_cr_from(l, i + 1)
    }
}

/// The text from position `i` on, split on `sep`.  An empty text is one
/// empty segment.
pub open spec fn split_from(s: Seq<char>, i: int, sep: char) -> Seq<Seq<char>>
    decreases s.len() - i,
{
    if !(0 <= i && i <= s.len()) {
        Seq::empty()
    } else {
        let j = find_char(s, i, sep);
        if i <= j && j < s.len() {
            seq![s.subrange(i, j)] + split_from(s, j + 1, sep)
        } else {
            seq![s.subrange(i, s.len() as int)]
        }
    }
}

/// The cells of one line: carriage returns removed, then split on commas.
pub open spec fn line_cells(l: Seq<char>) -> Seq<Seq<char>> {
    split_from(strip_cr_from(l, 0), 0, ',')
}

/// The rows of the nonempty lines from `i` on, each line split into cells.
pub open spec fn rows_from(ls: Seq<Seq<char>>, i: int) -> Seq<Seq<Seq<char>>>
    decreases ls.len() - i,
{
    if !(0 <= i && i < ls.len()) {
        Seq::empty()
    } else if ls[i].len() > 0 {
        seq![line_cells(ls[i])] + rows_from(ls, i + 1)
    } else {
        rows_from(ls, i + 1)
    }
}

/// All rows of a body of comma-separated text.
pub open spec fn csv_rows(text: Seq<char>) -> Seq<Seq<Seq<char>>> {
    rows_from(split_from(text, 0, '\n'), 0)
}

/// The first data row index at or after `d` whose width is not `w`, or -1.
pub open spec fn first_bad_row(rows: Seq<Seq<Seq<char>>>, w: int, d: int) -> int
    decreases rows.len() - d,
{
    if !(0 <= d && d < rows.len()) {
        -1
    } else if rows[d].len() != w {
        d
    } else {
        first_bad_row(rows, w, d + 1)
    }
}

/// The columns of a well-formed row set: the header names each column, and
/// column `i` holds cell `i` of every data row in order.
pub open spec fn csv_columns(rows: Seq<Seq<Seq<char>>>) -> Seq<(Seq<char>, Seq<Seq<char>>)> {
    Seq::new(
        rows[0].len(),
        |i: int| (rows[0][i], Seq::new((rows.len() - 1) as nat, |r: int| rows[r + 1][i])),
    )
}

/// What ingesting a body of comma-separated text yields: a named, equal-width
/// column set, or the first reason it is rejected.
pub open spec fn spec_csv(text: Seq<char>) -> Result<
    Seq<(Seq<char>, Seq<Seq<char>>)>,
    CsvErrView,
> {
    let rows = csv_rows(text);
    if rows.len() == 0 {
        Err(CsvErrView::NoHeader)
    } else if rows[0].len() == 0 {
        Err(CsvErrView::EmptyHeader)
    } else {
        let bad = first_bad_row(rows, rows[0].len() as int, 1);
        if bad >= 0 {
            Err(
                CsvErrView::RowWidth {
                    row: rows[bad],
                    expected: rows[0].len() as int,
                    got: rows[bad].len() as int,
                },
            )
        } else {
            Ok(csv_columns(rows))
        }
    }
}

proof fn lemma_first_bad_row(rows: Seq<Seq<Seq<char>>>, w: int, lo: int, d: int)
    requires
        0 <= lo <= d <= rows.len(),
        forall|m: int| lo <= m < d ==> (#[trigger] rows[m]).len() == w,
        d < rows.len() ==> rows[d].len() != w,
    ensures
        first_bad_row(rows, w, lo) == if d < rows.len() {
            d
        } else {
            -1
        },
    decreases d - lo,
{
    if lo < d {
        lemma_first_bad_row(rows, w, lo + 1, d);
    }
}

/// The views of a sequence of character buffers.
pub open spec fn buffer_views(vs: Seq<Vec<char>>) -> Seq<Seq<char>> {
    vs.map_values(|v: Vec<char>| v@)
}

fn strip_cr_exec(l: &Vec<char>) -> (r: Vec<char>)
    ensures
        r@ == strip_cr_from(l@, 0),
{
    let mut r: Vec<char> = Vec::new();
    let mut k: usize = 0;
    while k < l.len()
        invariant
            k <= l.len(),
            r@ + strip_cr_from(l@, k as int) == strip_cr_from(l@, 0),
        decreases l.len() - k,
    {
        if l[k] != '\r' {
            let ghost r0 = r@;
            r.push(l[k]);
            proof {
                assert(r@ + strip_cr_from(l@, k + 1) =~= r0 + (seq![l@[k as int]] + strip_cr_from(
                    l@,
                    k + 1,
                )));
            }
        }
        k += 1;
    }
    proof {
        assert(r@ + strip_cr_from(l@, l@.len() as int) =~= r@);
    }
    r
}

fn split_rec(chars: &Vec<char>, i: usize, sep: char) -> (r: Vec<Vec<char>>)
    requires
        i <= chars.len(),
    ensures
        buffer_views(r@) == split_from(chars@, i as int, sep),
    decreases chars.len() - i,
{
    let j = crate::text::scan_find(chars, i, sep);
    if j < chars.len() {
        let seg = vec_range(chars, i, j);
        let ghost segv = seg@;
        let mut v: Vec<Vec<char>> = Vec::new();
        v.push(seg);
        let mut rest = split_rec(chars, j + 1, sep);
        let ghost restv = buffer_views(rest@);
        v.append(&mut rest);
        proof {
            assert(buffer_views(v@) =~= seq![segv] + restv);
        }
        v
    } else {
        let seg = vec_range(chars, i, chars.len());
        let ghost segv = seg@;
        let mut v: Vec<Vec<char>> = Vec::new();
        v.push(seg);
        proof {
            assert(buffer_views(v@) =~= seq![segv]);
        }
        v
    }
}

/// Ingests comma-separated text as the named datastore.  On success the
/// datastore's columns are exactly the header names over the data rows'
/// cells; otherwise the first offense (no header, empty header, or a
/// mis-sized row, which the error carries) is reported.
pub fn parse_csv(text: &str, name: &str, path: &str) -> (r: Result<Datastore, CsvError>)
    ensures
        match r {
            Ok(ds) => {
                &&& spec_csv(text@) matches Ok(sc)
                &&& ds.name@ == name@
                &&& ds.path@ == path@
                &&& ds.columns@.len() == sc.len()
                &&& forall|i: int|
                    0 <= i < sc.len() ==> col_name(#[trigger] ds.columns@[i]) == sc[i].0
                        && col_data(ds.columns@[i]) == sc[i].1
            },
            Err(e) => spec_csv(text@) matches Err(ev) && e@ == ev,
        },
{
    let chars = chars_of(text);
    let lines = split_rec(&chars, 0, '\n');
    let ghost lv = buffer_views(lines@);
    let mut rows: Vec<Vec<String>> = Vec::new();
    let mut i: usize = 0;
    while i < lines.len()
        invariant
            i <= lines.len(),
            lv == buffer_views(lines@),
            rows@.map_values(|r: Vec<String>| row_view(r)) + rows_from(lv, i as int) == rows_from(
                lv,
                0,
            ),
        decreases lines.len() - i,
    {
        proof {
            assert(lv[i as int] == lines@[i as int]@);
        }
        if lines[i].len() > 0 {
            let stripped = strip_cr_exec(&lines[i]);
            let cells_c = split_rec(&stripped, 0, ',');
            let mut cells: Vec<String> = Vec::new();
            let mut j: usize = 0;
            while j < cells_c.len()
                invariant
                    j <= cells_c.len(),
                    row_view(cells) == buffer_views(cells_c@).subrange(0, j as int),
                decreases cells_c.len() - j,
            {
                let cell = string_range(&cells_c[j], 0, cells_c[j].len());
                proof {
                    assert(cell@ =~= cells_c@[j as int]@);
                }
                let ghost cellv = cell@;
                let ghost rc0 = row_view(cells);
                cells.push(cell);
                proof {
                    let rc1 = row_view(cells);
                    let bv = buffer_views(cells_c@);
                    assert(rc0 == bv.subrange(0, j as int));
                    assert(rc0.len() == j);
                    assert(cells@.len() == j + 1);
                    assert forall|m: int| 0 <= m < j + 1 implies #[trigger] rc1[m] == bv.subrange(
                        0,
                        j + 1,
                    )[m] by {
                        if m < j {
                            assert(rc0[m] == bv.subrange(0, j as int)[m]);
                            assert(rc1[m] == cells@[m]@);
                            assert(rc0[m] == cells@[m]@);
                        } else {
                            assert(rc1[m] == cellv);
                        }
                    }
                    assert(row_view(cells) =~= buffer_views(cells_c@).subrange(0, j + 1));
                }
                j += 1;
            }
            proof {
                assert(buffer_views(cells_c@).subrange(0, cells_c@.len() as int) =~= buffer_views(
                    cells_c@,
                ));
                assert(row_view(cells) =~= line_cells(lv[i as int]));
            }
            let ghost old_rows = rows@.map_values(|r: Vec<String>| row_view(r));
            rows.push(cells);
            proof {
                assert(rows@.map_values(|r: Vec<String>| row_view(r)) =~= old_rows + seq![
                    line_cells(lv[i as int]),
                ]);
                assert(old_rows + seq![line_cells(lv[i as int])] + rows_from(lv, i + 1) =~= old_rows
                    + (seq![line_cells(lv[i as int])] + rows_from(lv, i + 1)));
            }
        }
        i += 1;
    }
    let ghost rv = rows@.map_values(|r: Vec<String>| row_view(r));
    proof {
        assert(rv + Seq::<Seq<Seq<char>>>::empty() =~= rv);
        assert(rv == csv_rows(text@));
        assert(rv.len() == rows@.len());
    }
    if rows.len() == 0 {
        return Err(CsvError::NoHeader);
    }
    let w = rows[0].len();
    proof {
        assert(rv[0] == row_view(rows@[0]));
    }
    if w == 0 {
        return Err(CsvError::EmptyHeader);
    }
    let mut d: usize = 1;
    while d < rows.len()
        invariant
            1 <= d <= rows.len(),
            rv == rows@.map_values(|r: Vec<String>| row_view(r)),
            rv == csv_rows(text@),
            0 < w,
            w as int == rv[0].len(),
            w == rows@[0]@.len(),
            rows.len() == rv.len(),
            forall|m: int| 1 <= m < d ==> (#[trigger] rv[m]).len() == w,
        decreases rows.len() - d,
    {
        proof {
            assert(rv[d as int] == row_view(rows@[d as int]));
        }
        if rows[d].len() != w {
            let bad = clone_strings(&rows[d]);
            proof {
                lemma_first_bad_row(rv, w as int, 1, d as int);
                assert(row_view(bad) =~= rv[d as int]);
            }
            return Err(CsvError::RowWidth { row: bad, expected: w, got: rows[d].len() });
        }
        d += 1;
    }
    proof {
        lemma_first_bad_row(rv, w as int, 1, rows@.len() as int);
    }
    let ghost sc = csv_columns(rv);
    let mut columns: Vec<Column> = Vec::new();
    let mut c: usize = 0;
    while c < w
        invariant
            c <= w,
            w as int == rv[0].len(),
            w == rows@[0]@.len(),
            rows.len() == rv.len(),
            rows@.len() >= 1,
            rv == rows@.map_values(|r: Vec<String>| row_view(r)),
            forall|m: int| 1 <= m < rv.len() ==> (#[trigger] rv[m]).len() == w,
            sc == csv_columns(rv),
            columns@.len() == c,
            forall|m: int|
                0 <= m < c ==> col_name(#[trigger] columns@[m]) == sc[m].0 && col_data(columns@[m])
                    == sc[m].1,
        decreases w - c,
    {
        let hdr = rows[0][c].clone();
        let mut data: Vec<String> = Vec::new();
        let mut rr: usize = 1;
        while rr < rows.len()
            invariant
                1 <= rr <= rows.len(),
                c < w,
                w == rows@[0]@.len(),
                rows.len() == rv.len(),
                rv == rows@.map_values(|r: Vec<String>| row_view(r)),
                forall|m: int| 1 <= m < rv.len() ==> (#[trigger] rv[m]).len() == w,
                data@.len() == rr - 1,
                forall|m: int| 0 <= m < rr - 1 ==> #[trigger] data@[m] == rows@[m + 1]@[c as int],
            decreases rows.len() - rr,
        {
            proof {
                assert(rv[rr as int] == row_view(rows@[rr as int]));
                assert(rows@[rr as int]@.len() == w);
            }
            data.push(rows[rr][c].clone());
            rr += 1;
        }
        let col = Column { name: hdr, data };
        proof {
            assert(col_data(col) =~= sc[c as int].1) by {
                assert forall|m: int| 0 <= m < col.data@.len() implies #[trigger] col.data.deep_view()[m]
                    == sc[c as int].1[m] by {
                    assert(col.data.deep_view()[m] == col.data@[m]@);
                    assert(rv[m + 1] == row_view(rows@[m + 1]));
                }
            }
            assert(col_name(col) == sc[c as int].0) by {
                assert(rv[0] == row_view(rows@[0]));
            }
        }
        columns.push(col);
        c += 1;
    }
    let ds = Datastore {
        name: String::from_str(name),
        path: String::from_str(path),
        columns,
    };
    Ok(ds)
}

} // verus!
