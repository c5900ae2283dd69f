//! Typed tabular dataset built from a grid of heterogeneous spreadsheet cells.
//!
//! A worksheet arrives as rows of tagged cells (number, text, timestamp or
//! empty).  The first two rows are skipped, the third row names the columns,
//! and the remaining rows are data.  Each column is classified once, by its
//! first classifying cell (a number or timestamp makes a numeric column, a
//! non-empty text makes a text column; a column with no classifying cell
//! defaults to numeric), and every later cell of a conflicting type is
//! recorded as missing rather than dropped or coerced — the row itself is
//! kept.  Cells beyond the width of the header row are ignored.  A header
//! cell that holds no text names its column `"Blended"`.
//!
//! Built this way every column has exactly one entry per data row, so the
//! equal-length table invariant holds by construction and is proved rather
//! than checked at run time.

use vstd::prelude::*;

verus! {

/// One tagged spreadsheet cell.  Numbers and timestamps carry fixed-point
/// values (a timestamp is its serial-date number).
#[derive(Debug, Clone)]
pub enum Cell {
    /// A numeric cell, as a fixed-point value.
    Number(i64),
    /// A text cell.
    Text(String),
    /// A date cell, as its fixed-point serial number.
    Timestamp(i64),
    /// An empty cell.
    Empty,
}

/// One named worksheet: a grid of cells.
#[derive(Debug, Clone)]
pub struct Sheet {
    /// The worksheet name.
    pub name: String,
    /// The grid, row by row.
    pub rows: Vec<Vec<Cell>>,
}

/// The values of one column: numeric or text, each entry optional.
#[derive(Debug, Clone)]
pub enum ColData {
    /// A numeric column of fixed-point values.
    Floats(Vec<Option<i64>>),
    /// A text column.
    Texts(Vec<Option<String>>),
}

/// A named, homogeneously typed column.
#[derive(Debug, Clone)]
pub struct Column {
    /// The column name, from the header row.
    pub name: String,
    /// The column values, one per data row.
    pub data: ColData,
}

/// An ordered set of equally long columns; row `i` across all columns
/// describes one entity.
#[derive(Debug, Clone)]
pub struct Table {
    /// The columns, in header order.
    pub cols: Vec<Column>,
}

/// Errors of the ingestion and screening pipeline.
#[derive(Debug, Clone)]
pub enum AnalysisError {
    /// No worksheet carries the requested name.
    CategoryNotFound,
    /// A required numeric column is absent from the table.
    MissingColumn(String),
    /// A computed amount left the fixed-point range.
    AmountOverflow,
    /// A required value is missing from the selected row.
    MissingValue(String),
    /// No row survives the requested selection.
    EmptySelection,
}

/// Number of entries of a column.
pub open spec fn spec_col_len(c: Column) -> nat {
    match c.data {
        ColData::Floats(v) => v@.len(),
        ColData::Texts(v) => v@.len(),
    }
}

impl Table {
    /// Number of rows: the length of the first column, 0 when there are no
    /// columns.
    pub open spec fn spec_row_count(self) -> nat {
        if self.cols@.len() == 0 {
            0
        } else {
            spec_col_len(self.cols@[0])
        }
    }

    /// All columns share the row count.
    pub open spec fn wf(self) -> bool {
        forall|j: int|
            0 <= j < self.cols@.len() ==> spec_col_len(#[trigger] self.cols@[j])
                == self.spec_row_count()
    }
}

/// Number of rows of a table.
pub fn row_count(t: &Table) -> (r: usize)
    ensures
        r == t.spec_row_count(),
{
    if t.cols.len() == 0 {
        0
    } else {
        match &t.cols[0].data {
            ColData::Floats(v) => v.len(),
            ColData::Texts(v) => v.len(),
        }
    }
}

/// First sheet whose name is `cat`, if any.
pub open spec fn spec_find_sheet(sheets: Seq<Sheet>, cat: Seq<char>) -> Option<int>
    decreases sheets.len(),
{
    if sheets.len() == 0 {
        None
    } else if sheets[0].name@ == cat {
        Some(0)
    } else {
        match spec_find_sheet(sheets.drop_first(), cat) {
            None => None,
            Some(i) => Some(i + 1),
        }
    }
}

/// The name a header cell gives its column: its text, or `"Blended"` when it
/// holds none.
pub open spec fn spec_header_name(c: Cell) -> Seq<char> {
    match c {
        Cell::Text(s) => s@,
        _ => "Blended"@,
    }
}

/// The cell of row `i` at column index `j`; a missing cell reads as empty.
pub open spec fn spec_cell_at(data: Seq<Vec<Cell>>, i: int, j: int) -> Cell {
    if 0 <= i < data.len() && 0 <= j < data[i]@.len() {
        data[i]@[j]
    } else {
        Cell::Empty
    }
}

/// Whether the first classifying cell of column `j`, looking from data row
/// `i` down, makes the column numeric; a column with no classifying cell is
/// numeric.
pub open spec fn spec_col_is_float_from(data: Seq<Vec<Cell>>, j: int, i: int) -> bool
    decreases data.len() - i,
{
    if i < 0 || i >= data.len() {
        true
    } else {
        match spec_cell_at(data, i, j) {
            Cell::Number(_) => true,
            Cell::Timestamp(_) => true,
            Cell::Text(s) => if s@.len() > 0 {
                false
            } else {
                spec_col_is_float_from(data, j, i + 1)
            },
            Cell::Empty => spec_col_is_float_from(data, j, i + 1),
        }
    }
}

/// Whether column `j` of the data grid is numeric.
pub open spec fn spec_col_is_float(data: Seq<Vec<Cell>>, j: int) -> bool {
    spec_col_is_float_from(data, j, 0)
}

/// The numeric value a cell contributes to a numeric column; text and empty
/// cells are missing.
pub open spec fn spec_float_val(c: Cell) -> Option<i64> {
    match c {
        Cell::Number(v) => Some(v),
        Cell::Timestamp(v) => Some(v),
        _ => None,
    }
}

/// Whether `o` is the entry a text column holds for cell `c`: the text when
/// it is non-empty, missing otherwise.
pub open spec fn spec_text_matches(c: Cell, o: Option<String>) -> bool {
    match c {
        Cell::Text(s) => if s@.len() > 0 {
            o matches Some(x) && x@ == s@
        } else {
            o is None
        },
        _ => o is None,
    }
}

/// Whether `c` is the column that header cell `h` and column index `j` of
/// the data grid describe.
pub open spec fn spec_col_matches(c: Column, h: Cell, data: Seq<Vec<Cell>>, j: int) -> bool {
    &&& c.name@ == spec_header_name(h)
    &&& if spec_col_is_float(data, j) {
        &&& c.data matches ColData::Floats(v) && v@.len() == data.len() && (forall|i: int|
            0 <= i < data.len() ==> v@[i] == spec_float_val(spec_cell_at(data, i, j)))
    } else {
        &&& c.data matches ColData::Texts(v) && v@.len() == data.len() && (forall|i: int|
            0 <= i < data.len() ==> spec_text_matches(spec_cell_at(data, i, j), v@[i]))
    }
}

/// Whether `t` is the table built from sheet `s`: one column per header cell
/// of the third row, each filled from the rows below it.  A sheet with fewer
/// than three rows yields a table with no columns.
pub open spec fn spec_built_table(t: Table, s: Sheet) -> bool {
    if s.rows@.len() < 3 {
        t.cols@.len() == 0
    } else {
        let header = s.rows@[2]@;
        let data = s.rows@.skip(3);
        &&& t.cols@.len() == header.len()
        &&& forall|j: int|
            0 <= j < header.len() ==> spec_col_matches(#[trigger] t.cols@[j], header[j], data, j)
    }
}

/// Whether column `j` of the data grid is numeric, decided by its first
/// classifying cell.
#[verifier::loop_isolation(false)]
fn col_is_float(rows: &Vec<Vec<Cell>>, j: usize) -> (b: bool)
    requires
        rows@.len() >= 3,
    ensures
        b == spec_col_is_float(rows@.skip(3), j as int),
{
    let ghost data = rows@.skip(3);
    let n = rows.len();
    let mut i: usize = 3;
    while i < n
        invariant
            3 <= i <= n,
            spec_col_is_float(data, j as int) == spec_col_is_float_from(data, j as int, i - 3),
        decreases n - i,
    {
        let row = &rows[i];
        proof {
            assert(data[i - 3] == rows@[i as int]);
        }
        if j < row.len() {
            match &row[j] {
                Cell::Number(_) => {
                    return true;
                },
                Cell::Timestamp(_) => {
                    return true;
                },
                Cell::Text(s) => {
                    if !s.as_str().is_empty() {
                        return false;
                    }
                },
                Cell::Empty => {},
            }
        }
        i = i + 1;
    }
    true
}

/// Builds the numeric values of column `j` from the data rows.
#[verifier::loop_isolation(false)]
fn build_float_col(rows: &Vec<Vec<Cell>>, j: usize) -> (r: Vec<Option<i64>>)
    requires
        rows@.len() >= 3,
    ensures
        r@.len() == rows@.len() - 3,
        forall|i: int|
            0 <= i < r@.len() ==> r@[i] == spec_float_val(spec_cell_at(rows@.skip(3), i, j as int)),
{
    let ghost data = rows@.skip(3);
    let n = rows.len();
    let mut vals: Vec<Option<i64>> = Vec::new();
    let mut i: usize = 3;
    while i < n
        invariant
            3 <= i <= n,
            vals@.len() == i - 3,
            forall|k: int|
                0 <= k < vals@.len() ==> vals@[k] == spec_float_val(
                    spec_cell_at(data, k, j as int),
                ),
        decreases n - i,
    {
        let row = &rows[i];
        proof {
            assert(data[i - 3] == rows@[i as int]);
        }
        let v: Option<i64> = if j < row.len() {
            match &row[j] {
                Cell::Number(x) => Some(*x),
                Cell::Timestamp(x) => Some(*x),
                _ => None,
            }
        } else {
            None
        };
        vals.push(v);
        i = i + 1;
    }
    vals
}

/// Builds the text values of column `j` from the data rows.
#[verifier::loop_isolation(false)]
fn build_text_col(rows: &Vec<Vec<Cell>>, j: usize) -> (r: Vec<Option<String>>)
    requires
        rows@.len() >= 3,
    ensures
        r@.len() == rows@.len() - 3,
        forall|i: int|
            0 <= i < r@.len() ==> spec_text_matches(
                spec_cell_at(rows@.skip(3), i, j as int),
                r@[i],
            ),
{
    let ghost data = rows@.skip(3);
    let n = rows.len();
    let mut vals: Vec<Option<String>> = Vec::new();
    let mut i: usize = 3;
    while i < n
        invariant
            3 <= i <= n,
            vals@.len() == i - 3,
            forall|k: int|
                0 <= k < vals@.len() ==> spec_text_matches(
                    spec_cell_at(data, k, j as int),
                    vals@[k],
                ),
        decreases n - i,
    {
        let row = &rows[i];
        proof {
            assert(data[i - 3] == rows@[i as int]);
        }
        let v: Option<String> = if j < row.len() {
            match &row[j] {
                Cell::Text(s) => {
                    if !s.as_str().is_empty() {
                        Some(s.clone())
                    } else {
                        None
                    }
                },
                _ => None,
            }
        } else {
            None
        };
        vals.push(v);
        i = i + 1;
    }
    vals
}

/// Loads the worksheet named `category` into a typed table.
///
/// Fails with `CategoryNotFound` exactly when no sheet carries that name
/// (case-sensitive).  On success the table is the one the header row and the
/// data rows describe, its columns provably of equal length.
#[verifier::loop_isolation(false)]
pub fn load_list(sheets: &Vec<Sheet>, category: &str) -> (r: Result<Table, AnalysisError>)
    ensures
        r is Ok <==> spec_find_sheet(sheets@, category@) is Some,
        r matches Err(e) ==> e is CategoryNotFound,
        r matches Ok(t) ==> (spec_find_sheet(sheets@, category@) matches Some(ix)
            && spec_built_table(t, sheets@[ix])),
        r matches Ok(t) ==> t.wf(),
        r matches Ok(t) ==> t.spec_row_count() == (match spec_find_sheet(sheets@, category@) {
            Some(ix) => {
                let s = sheets@[ix];
                if s.rows@.len() < 3 || s.rows@[2]@.len() == 0 {
                    0int
                } else {
                    s.rows@.len() - 3
                }
            },
            None => 0int,
        }),
{
    let cat: String = category.to_owned();
    let si = match find_sheet_idx(sheets, &cat) {
        Some(ix) => ix,
        None => {
            return Err(AnalysisError::CategoryNotFound);
        },
    };
    let sheet = &sheets[si];
    if sheet.rows.len() < 3 {
        let t = Table { cols: Vec::new() };
        return Ok(t);
    }
    let ghost data = sheet.rows@.skip(3);
    let header = &sheet.rows[2];
    let ncols = header.len();
    let mut cols: Vec<Column> = Vec::new();
    let mut j: usize = 0;
    while j < ncols
        invariant
            0 <= j <= ncols,
            cols@.len() == j,
            forall|k: int|
                0 <= k < j ==> spec_col_matches(#[trigger] cols@[k], header@[k], data, k),
            forall|k: int| 0 <= k < j ==> spec_col_len(#[trigger] cols@[k]) == data.len(),
        decreases ncols - j,
    {
        let name: String = match &header[j] {
            Cell::Text(s) => s.clone(),
            _ => "Blended".to_owned(),
        };
        let coldata: ColData = if col_is_float(&sheet.rows, j) {
            ColData::Floats(build_float_col(&sheet.rows, j))
        } else {
            ColData::Texts(build_text_col(&sheet.rows, j))
        };
        cols.push(Column { name, data: coldata });
        j = j + 1;
    }
    let t = Table { cols };
    Ok(t)
}

/// Finds the first sheet named `cat`.
#[verifier::loop_isolation(false)]
fn find_sheet_idx(sheets: &Vec<Sheet>, cat: &String) -> (r: Option<usize>)
    ensures
        r matches Some(ix) ==> ix < sheets@.len() && spec_find_sheet(sheets@, cat@) == Some(
            ix as int,
        ),
        r is None ==> spec_find_sheet(sheets@, cat@) is None,
{
    let n = sheets.len();
    let mut si: usize = 0;
    while si < n
        invariant
            0 <= si <= n,
            forall|k: int| 0 <= k < si ==> spec_find_sheet(#[trigger] sheets@.skip(k), cat@) != Some(0int),
        decreases n - si,
    {
        if sheets[si].name == *cat {
            proof {
                lemma_find_sheet_at(sheets@, cat@, si as int);
            }
            return Some(si);
        }
        proof {
            assert(sheets@.skip(si as int)[0] == sheets@[si as int]);
            lemma_find_sheet_nonneg(sheets@.skip(si as int).drop_first(), cat@);
            assert(spec_find_sheet(sheets@.skip(si as int), cat@) != Some(0int));
        }
        si = si + 1;
    }
    proof {
        lemma_find_sheet_bound(sheets@, cat@, si as int);
    }
    None
}

/// A found index is a valid position in the list.
proof fn lemma_find_sheet_nonneg(sheets: Seq<Sheet>, cat: Seq<char>)
    ensures
        spec_find_sheet(sheets, cat) matches Some(i) ==> 0 <= i < sheets.len(),
    decreases sheets.len(),
{
    if sheets.len() > 0 {
        lemma_find_sheet_nonneg(sheets.drop_first(), cat);
    }
}

/// When the scan has passed the whole list, the name is on no sheet.
proof fn lemma_find_sheet_bound(sheets: Seq<Sheet>, cat: Seq<char>, si: int)
    requires
        si == sheets.len(),
        forall|k: int| 0 <= k < si ==> spec_find_sheet(#[trigger] sheets.skip(k), cat) != Some(0int),
    ensures
        spec_find_sheet(sheets, cat) is None,
{
    lemma_find_sheet_none_rec(sheets, cat, 0);
    assert(sheets.skip(0) =~= sheets);
}

/// Helper: if no suffix starting in `k..len` begins with a match, the search
/// from `k` fails.
proof fn lemma_find_sheet_none_rec(sheets: Seq<Sheet>, cat: Seq<char>, k: int)
    requires
        0 <= k <= sheets.len(),
        forall|m: int|
            k <= m < sheets.len() ==> spec_find_sheet(#[trigger] sheets.skip(m), cat) != Some(0int),
    ensures
        spec_find_sheet(sheets.skip(k), cat) is None,
    decreases sheets.len() - k,
{
    if k < sheets.len() {
        lemma_find_sheet_none_rec(sheets, cat, k + 1);
        assert(sheets.skip(k).drop_first() =~= sheets.skip(k + 1));
        assert(sheets.skip(k)[0] == sheets[k]);
        if sheets[k].name@ == cat {
            assert(spec_find_sheet(sheets.skip(k), cat) == Some(0int));
        }
    }
}

/// A match at `si`, with no earlier suffix matching first, makes `si` the
/// found index.
proof fn lemma_find_sheet_at(sheets: Seq<Sheet>, cat: Seq<char>, si: int)
    requires
        0 <= si < sheets.len(),
        sheets[si].name@ == cat,
        forall|k: int| 0 <= k < si ==> spec_find_sheet(#[trigger] sheets.skip(k), cat) != Some(0int),
    ensures
        spec_find_sheet(sheets, cat) == Some(si),
{
    lemma_find_sheet_at_rec(sheets, cat, si, 0);
    assert(sheets.skip(0) =~= sheets);
}

/// Helper for `lemma_find_sheet_at`, walking the prefix.
proof fn lemma_find_sheet_at_rec(sheets: Seq<Sheet>, cat: Seq<char>, si: int, k: int)
    requires
        0 <= k <= si < sheets.len(),
        sheets[si].name@ == cat,
        forall|m: int| 0 <= m < si ==> spec_find_sheet(#[trigger] sheets.skip(m), cat) != Some(0int),
    ensures
        spec_find_sheet(sheets.skip(k), cat) == Some(si - k),
    decreases si - k,
{
    assert(sheets.skip(k)[0] == sheets[k]);
    assert(sheets.skip(k).drop_first() =~= sheets.skip(k + 1));
    if k == si {
        assert(spec_find_sheet(sheets.skip(k), cat) == Some(0int));
    } else {
        lemma_find_sheet_at_rec(sheets, cat, si, k + 1);
        assert(sheets.skip(k)[0].name@ != cat || spec_find_sheet(sheets.skip(k), cat) == Some(0int));
        if sheets[k].name@ == cat {
            assert(spec_find_sheet(sheets.skip(k), cat) == Some(0int));
            assert(false);
        }
    }
}

} // verus!
