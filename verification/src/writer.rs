//! Write operations: what an update writes, and what it answers.
//!
//! An update only ever sets the values of the cells it targets; formulas
//! and formatting elsewhere in the workbook are left as they are. The
//! application reads the workbook, applies the writes planned here with the
//! spreadsheet writer, and saves it (through LibreOffice for legacy `.xls`
//! files, see [`crate::file_source::is_legacy_xls`]).

use vstd::prelude::*;
use crate::error::SheetsError;
use crate::text;
use crate::text::{str_eq};
use crate::types;
use crate::file_source::{self, FileSource};
use crate::types::{col_index_to_letter, CellCoordinate, UpdateResult};

verus! {

/// A value to put into a cell.
#[derive(Debug, Clone)]
pub enum WriteValue {
    /// Text, set as the cell's raw value (the spreadsheet writer stores
    /// text that reads as a number or a boolean as that type).
    Text(String),
    /// A number, as the bits of an `f64`.
    Number(u64),
    /// A boolean.
    Bool(bool),
}

/// One cell write of a plan.
#[derive(Debug, Clone)]
pub struct CellWrite {
    /// Zero-based column index of the target cell.
    pub column_index: u32,
    /// One-based row of the target cell.
    pub row: u32,
    /// The target cell's coordinate text, e.g. `"B2"`.
    pub cell_ref: String,
    /// The value written.
    pub value: WriteValue,
}

/// What `str::to_lowercase` gives: the Unicode lowercase of a string.
pub uninterp spec fn unicode_lowercase(s: Seq<char>) -> Seq<char>;

/// `str::to_lowercase`.
///
/// Trusted: the result is `unicode_lowercase` of the argument; nothing
/// more is said of Unicode case mapping.
#[verifier::external_body]
fn to_lowercase(s: &str) -> (r: String)
    ensures
        r@ == unicode_lowercase(s@),
{
    s.to_lowercase()
}

/// What setting a value of type `value_type` from the text `value` writes,
/// or the text of the `InvalidCoordinate` error: `"number"` needs text that
/// reads as a number (`number` holds the bits it reads as), `"bool"` needs
/// text whose lowercase is `true` or `false`, and any other type writes the
/// text as it is.
pub open spec fn write_value_outcome(
    value: Seq<char>,
    value_type: Seq<char>,
    number: Option<u64>,
) -> Result<WriteValueView, Seq<char>> {
    if value_type == "number"@ {
        match number {
            Some(bits) => Ok(WriteValueView::Number(bits)),
            None => Err("Cannot parse '"@ + value + "' as a number"@),
        }
    } else if value_type == "bool"@ {
        bool_value_outcome(value, unicode_lowercase(value))
    } else {
        Ok(WriteValueView::Text(value))
    }
}

/// What a `"bool"` write of the text `value`, whose lowercase is `lower`,
/// writes: `true` or `false`, or the text of the `InvalidCoordinate` error.
pub open spec fn bool_value_outcome(value: Seq<char>, lower: Seq<char>) -> Result<
    WriteValueView,
    Seq<char>,
> {
    if lower == "true"@ {
        Ok(WriteValueView::Bool(true))
    } else if lower == "false"@ {
        Ok(WriteValueView::Bool(false))
    } else {
        Err("Cannot parse '"@ + value + "' as a boolean (expected 'true' or 'false')"@)
    }
}

/// Whether a result agrees with a write outcome: the value it names, or an
/// `InvalidCoordinate` error with its text.
pub open spec fn write_value_agrees(
    outcome: Result<WriteValueView, Seq<char>>,
    r: Result<WriteValue, SheetsError>,
) -> bool {
    match outcome {
        Ok(v) => r matches Ok(w) && w@ == v,
        Err(m) => match r {
            Err(e) => types::is_invalid_coordinate(e, m),
            Ok(_) => false,
        },
    }
}

/// The mathematical view of a [`WriteValue`].
pub enum WriteValueView {
    Text(Seq<char>),
    Number(u64),
    Bool(bool),
}

impl View for WriteValue {
    type V = WriteValueView;

    open spec fn view(&self) -> WriteValueView {
        match self {
            WriteValue::Text(s) => WriteValueView::Text(s@),
            WriteValue::Number(n) => WriteValueView::Number(*n),
            WriteValue::Bool(b) => WriteValueView::Bool(*b),
        }
    }
}

/// The boolean that the text `value` writes, given its lowercase `lower`
/// (as `str::to_lowercase` gives it): `true` and `false` are accepted.
pub fn bool_write_value(value: &str, lower: &str) -> (r: Result<WriteValue, SheetsError>)
    ensures
        write_value_agrees(bool_value_outcome(value@, lower@), r),
{
    if str_eq(lower, "true") {
        Ok(WriteValue::Bool(true))
    } else if str_eq(lower, "false") {
        Ok(WriteValue::Bool(false))
    } else {
        let mut m = String::from_str("Cannot parse '");
        m.append(value);
        m.append("' as a boolean (expected 'true' or 'false')");
        Err(SheetsError::InvalidCoordinate(m))
    }
}

/// Set a cell value based on the declared type.
///
/// - `"number"` → the number that `value` reads as (`number` holds the bits
///   of `value.parse::<f64>()`, when it succeeds)
/// - `"bool"` → `true` or `false` by the lowercase of `value`
/// - anything else → the text itself
pub fn cell_write_value(value: &str, value_type: &str, number: Option<u64>) -> (r: Result<
    WriteValue,
    SheetsError,
>)
    ensures
        write_value_agrees(write_value_outcome(value@, value_type@, number), r),
{
    if str_eq(value_type, "number") {
        match number {
            Some(bits) => Ok(WriteValue::Number(bits)),
            None => {
                let mut m = String::from_str("Cannot parse '");
                m.append(value);
                m.append("' as a number");
                Err(SheetsError::InvalidCoordinate(m))
            },
        }
    } else if str_eq(value_type, "bool") {
        let lower = to_lowercase(value);
        bool_write_value(value, lower.as_str())
    } else {
        Ok(WriteValue::Text(String::from_str(value)))
    }
}

/// Checks that the sheet to write exists among `sheet_names` (the names of
/// the workbook's sheets); the error lists them.
pub fn find_sheet(sheet_names: &[String], sheet_name: &str) -> (r: Result<(), SheetsError>)
    ensures
        r is Ok <==> exists|i: int| 0 <= i < sheet_names@.len() && (#[trigger] sheet_names@[i])@ == sheet_name@,
        r matches Err(e) ==> crate::reader::is_sheet_not_found(
            e,
            sheet_name@,
            sheet_names@.map_values(|x: String| x@),
        ),
{
    let mut i: usize = 0;
    while i < sheet_names.len()
        invariant
            i <= sheet_names@.len(),
            forall|j: int| 0 <= j < i ==> (#[trigger] sheet_names@[j])@ != sheet_name@,
        decreases sheet_names.len() - i,
    {
        if str_eq(sheet_names[i].as_str(), sheet_name) {
            return Ok(());
        }
        i = i + 1;
    }
    Err(SheetsError::sheet_not_found(sheet_name, sheet_names))
}

/// The write of `update_cell`: the value into the one cell at `coord`.
pub fn single_write(coord: &CellCoordinate, value: WriteValue) -> (w: CellWrite)
    ensures
        w.column_index == coord.column_index,
        w.row == coord.row,
        w.cell_ref@ == types::coordinate_text(*coord),
        w.value == value,
{
    CellWrite {
        column_index: coord.column_index,
        row: coord.row,
        cell_ref: coord.to_string(),
        value,
    }
}

impl UpdateResult {
    /// The answer of `update_cell`: one cell, one row, one column.
    pub fn for_cell(sheet_name: &str, output_path: &str, cell_ref: &str) -> (u: UpdateResult)
        ensures
            u.updated_count == 1,
            u.sheet_name@ == sheet_name@,
            u.output_path@ == output_path@,
            u.start matches Some(s) && s@ == cell_ref@,
            u.rows == Some(1u32),
            u.columns == Some(1u32),
    {
        UpdateResult {
            updated_count: 1,
            sheet_name: String::from_str(sheet_name),
            output_path: String::from_str(output_path),
            start: Some(String::from_str(cell_ref)),
            rows: Some(1),
            columns: Some(1),
        }
    }
}


/// Whether a list of sheet names holds `name`.
pub open spec fn has_sheet(names: Seq<String>, name: Seq<char>) -> bool {
    exists|i: int| 0 <= i < names.len() && (#[trigger] names[i])@ == name
}

/// What `update_cell` writes once the workbook is read: the sheet must
/// exist (else the error lists the sheets), then the value must suit its
/// type; the one write goes to `coord`.
pub fn plan_cell_update(
    sheet_names: &[String],
    sheet_name: &str,
    coord: &CellCoordinate,
    value: &str,
    value_type: &str,
    number: Option<u64>,
) -> (r: Result<CellWrite, SheetsError>)
    ensures
        !has_sheet(sheet_names@, sheet_name@) ==> match r {
            Err(e) => crate::reader::is_sheet_not_found(
                e,
                sheet_name@,
                sheet_names@.map_values(|x: String| x@),
            ),
            Ok(_) => false,
        },
        has_sheet(sheet_names@, sheet_name@) ==> match write_value_outcome(value@, value_type@, number) {
            Ok(v) => r matches Ok(w) && w.column_index == coord.column_index && w.row == coord.row
                && w.cell_ref@ == types::coordinate_text(*coord) && w.value@ == v,
            Err(m) => match r {
                Err(e) => types::is_invalid_coordinate(e, m),
                Ok(_) => false,
            },
        },
{
    match find_sheet(sheet_names, sheet_name) {
        Ok(()) => {},
        Err(e) => {
            return Err(e);
        },
    }
    match cell_write_value(value, value_type, number) {
        Ok(v) => Ok(single_write(coord, v)),
        Err(e) => Err(e),
    }
}

// ── update_cells ──────────────────────────────

/// The number of values in a block of rows.
pub open spec fn total_cells(data: Seq<Vec<String>>) -> nat
    decreases data.len(),
{
    if data.len() == 0 {
        0
    } else {
        total_cells(data.drop_last()) + data.last()@.len()
    }
}

/// The length of the longest row of a block (zero for no rows).
pub open spec fn max_len(data: Seq<Vec<String>>) -> nat
    decreases data.len(),
{
    if data.len() == 0 {
        0
    } else {
        let m = max_len(data.drop_last());
        if data.last()@.len() > m {
            data.last()@.len()
        } else {
            m
        }
    }
}

/// Whether every cell of a block pasted at zero-based column `start_col`
/// and row `start_row` has a coordinate within 32 bits.
pub open spec fn paste_fits(data: Seq<Vec<String>>, start_col: int, start_row: int) -> bool {
    forall|r: int|
        0 <= r < data.len() && (#[trigger] data[r])@.len() > 0 ==> start_row + r <= u32::MAX
            && start_col + data[r]@.len() - 1 <= u32::MAX
}

/// Whether `w` writes the text `value` into the cell at zero-based
/// `col` and one-based `row`.
pub open spec fn writes_text_at(w: CellWrite, col: int, row: int, value: Seq<char>) -> bool {
    &&& w.column_index == col
    &&& w.row == row
    &&& w.cell_ref@ == types::column_letters(col as nat) + text::decimal(row as nat)
    &&& w.value@ == WriteValueView::Text(value)
}

/// Whether `writes` pastes `data` with its top-left value at `start`:
/// value `c` of row `r` goes to the cell `c` columns right of and `r` rows
/// below `start`.
pub open spec fn is_paste_plan(writes: Seq<Vec<CellWrite>>, data: Seq<Vec<String>>, start_col: int, start_row: int) -> bool {
    &&& writes.len() == data.len()
    &&& forall|r: int|
        0 <= r < writes.len() ==> {
            &&& (#[trigger] writes[r])@.len() == data[r]@.len()
            &&& forall|c: int|
                0 <= c < writes[r]@.len() ==> writes_text_at(
                    #[trigger] writes[r]@[c],
                    start_col + c,
                    start_row + r,
                    data[r]@[c]@,
                )
        }
}

/// The writes that paste `data` (row-major) with its top-left value at
/// `start`. Every value is written as text.
pub fn paste_writes(start: &CellCoordinate, data: &[Vec<String>]) -> (w: Vec<Vec<CellWrite>>)
    requires
        paste_fits(data@, start.column_index as int, start.row as int),
    ensures
        is_paste_plan(w@, data@, start.column_index as int, start.row as int),
{
    let start_col = start.column_index;
    let start_row = start.row;
    let mut writes: Vec<Vec<CellWrite>> = Vec::new();
    let mut r: usize = 0;
    while r < data.len()
        invariant
            r <= data@.len(),
            start_col == start.column_index,
            start_row == start.row,
            paste_fits(data@, start_col as int, start_row as int),
            writes@.len() == r,
            forall|k: int|
                0 <= k < r ==> {
                    &&& (#[trigger] writes@[k])@.len() == data@[k]@.len()
                    &&& forall|c: int|
                        0 <= c < writes@[k]@.len() ==> writes_text_at(
                            #[trigger] writes@[k]@[c],
                            start_col + c,
                            start_row + k,
                            data@[k]@[c]@,
                        )
                },
        decreases data.len() - r,
    {
        let row_data = &data[r];
        let mut line: Vec<CellWrite> = Vec::new();
        let mut c: usize = 0;
        while c < row_data.len()
            invariant
                r < data@.len(),
                row_data == data@[r as int],
                c <= row_data@.len(),
                paste_fits(data@, start_col as int, start_row as int),
                line@.len() == c,
                forall|j: int|
                    0 <= j < c ==> writes_text_at(
                        #[trigger] line@[j],
                        start_col + j,
                        start_row + r,
                        data@[r as int]@[j]@,
                    ),
            decreases row_data.len() - c,
        {
            assert(data@[r as int]@.len() > 0);
            let col = start_col + c as u32;
            let row = start_row + r as u32;
            let coord = CellCoordinate::from_index(col, row);
            let cell_ref = coord.to_string();
            line.push(CellWrite { column_index: col, row, cell_ref, value: WriteValue::Text(row_data[c].clone()) });
            c = c + 1;
        }
        writes.push(line);
        r = r + 1;
    }
    writes
}

/// The number of values in a block, which is the number of cells a paste
/// updates.
pub fn paste_count(data: &[Vec<String>]) -> (n: u32)
    requires
        total_cells(data@) <= u32::MAX,
    ensures
        n == total_cells(data@),
{
    let mut n: u32 = 0;
    let mut r: usize = 0;
    while r < data.len()
        invariant
            r <= data@.len(),
            total_cells(data@) <= u32::MAX,
            n == total_cells(data@.take(r as int)),
        decreases data.len() - r,
    {
        proof {
            assert(data@.take(r + 1).drop_last() =~= data@.take(r as int));
            lemma_total_cells_prefix(data@, r + 1);
        }
        n = n + data[r].len() as u32;
        r = r + 1;
    }
    assert(data@.take(data@.len() as int) =~= data@);
    n
}

/// A prefix of a block holds no more values than the block.
proof fn lemma_total_cells_prefix(data: Seq<Vec<String>>, i: int)
    requires
        0 <= i <= data.len(),
    ensures
        total_cells(data.take(i)) <= total_cells(data),
    decreases data.len() - i,
{
    if i < data.len() {
        lemma_total_cells_prefix(data, i + 1);
        assert(data.take(i + 1).drop_last() =~= data.take(i));
    } else {
        assert(data.take(i) =~= data);
    }
}

/// The rows and columns that a paste of `data` spans: the number of rows,
/// and the length of the longest row.
pub fn paste_shape(data: &[Vec<String>]) -> (shape: (u32, u32))
    requires
        data@.len() <= u32::MAX,
        max_len(data@) <= u32::MAX,
    ensures
        shape.0 == data@.len(),
        shape.1 == max_len(data@),
{
    let mut cols: u32 = 0;
    let mut r: usize = 0;
    while r < data.len()
        invariant
            r <= data@.len(),
            max_len(data@) <= u32::MAX,
            cols == max_len(data@.take(r as int)),
        decreases data.len() - r,
    {
        proof {
            assert(data@.take(r + 1).drop_last() =~= data@.take(r as int));
            lemma_max_len_prefix(data@, r + 1);
            lemma_max_len_bounds(data@.take(r + 1));
        }
        let len = data[r].len();
        if len as u64 > cols as u64 {
            cols = len as u32;
        }
        r = r + 1;
    }
    assert(data@.take(data@.len() as int) =~= data@);
    (data.len() as u32, cols)
}

proof fn lemma_max_len_prefix(data: Seq<Vec<String>>, i: int)
    requires
        0 <= i <= data.len(),
    ensures
        max_len(data.take(i)) <= max_len(data),
    decreases data.len() - i,
{
    if i < data.len() {
        lemma_max_len_prefix(data, i + 1);
        assert(data.take(i + 1).drop_last() =~= data.take(i));
    } else {
        assert(data.take(i) =~= data);
    }
}

/// Every row is at most as long as the longest.
proof fn lemma_max_len_bounds(data: Seq<Vec<String>>)
    ensures
        forall|r: int| 0 <= r < data.len() ==> (#[trigger] data[r])@.len() <= max_len(data),
    decreases data.len(),
{
    if data.len() > 0 {
        lemma_max_len_bounds(data.drop_last());
        assert forall|r: int| 0 <= r < data.len() implies (#[trigger] data[r])@.len() <= max_len(data) by {
            if r < data.len() - 1 {
                assert(data[r] == data.drop_last()[r]);
            }
        }
    }
}

/// What `update_cells` writes once the workbook is read: the sheet must
/// exist (else the error lists the sheets); then every value of `data` is
/// written as text, from `start` on.
pub fn plan_paste(sheet_names: &[String], sheet_name: &str, start: &CellCoordinate, data: &[Vec<String>]) -> (r: Result<
    Vec<Vec<CellWrite>>,
    SheetsError,
>)
    requires
        has_sheet(sheet_names@, sheet_name@) ==> paste_fits(
            data@,
            start.column_index as int,
            start.row as int,
        ),
    ensures
        !has_sheet(sheet_names@, sheet_name@) ==> match r {
            Err(e) => crate::reader::is_sheet_not_found(
                e,
                sheet_name@,
                sheet_names@.map_values(|x: String| x@),
            ),
            Ok(_) => false,
        },
        has_sheet(sheet_names@, sheet_name@) ==> (r matches Ok(w) && is_paste_plan(
            w@,
            data@,
            start.column_index as int,
            start.row as int,
        )),
{
    match find_sheet(sheet_names, sheet_name) {
        Ok(()) => Ok(paste_writes(start, data)),
        Err(e) => Err(e),
    }
}

/// Checks that a paste has values; an empty block is refused.
pub fn require_data(data: &[Vec<String>]) -> (r: Result<(), SheetsError>)
    ensures
        r is Ok <==> data@.len() > 0,
        r matches Err(e) ==> e matches SheetsError::MissingField(m) && m@ == "data must not be empty"@,
{
    if data.len() == 0 {
        return Err(SheetsError::MissingField(String::from_str("data must not be empty")));
    }
    Ok(())
}

impl UpdateResult {
    /// The answer of `update_cells`: the cells written, the destination as
    /// given, and the rows and columns of the block.
    pub fn for_paste(
        updated_count: u32,
        sheet_name: &str,
        output_path: &str,
        destination: &str,
        rows: u32,
        columns: u32,
    ) -> (u: UpdateResult)
        ensures
            u.updated_count == updated_count,
            u.sheet_name@ == sheet_name@,
            u.output_path@ == output_path@,
            u.start matches Some(s) && s@ == destination@,
            u.rows == Some(rows),
            u.columns == Some(columns),
    {
        UpdateResult {
            updated_count,
            sheet_name: String::from_str(sheet_name),
            output_path: String::from_str(output_path),
            start: Some(String::from_str(destination)),
            rows: Some(rows),
            columns: Some(columns),
        }
    }
}

/// Law: a paste writes each cell of its block at most once and nothing
/// outside the block. The block spans the rows of `data` down from
/// `start_row` and the longest row's length right from `start_col`.
pub proof fn law_paste_stays_in_block(
    writes: Seq<Vec<CellWrite>>,
    data: Seq<Vec<String>>,
    start_col: int,
    start_row: int,
)
    requires
        is_paste_plan(writes, data, start_col, start_row),
    ensures
        forall|r: int, c: int|
            0 <= r < writes.len() && 0 <= c < writes[r]@.len() ==> {
                let w = #[trigger] writes[r]@[c];
                &&& start_col <= w.column_index < start_col + max_len(data)
                &&& start_row <= w.row < start_row + data.len()
            },
        forall|r1: int, c1: int, r2: int, c2: int|
            0 <= r1 < writes.len() && 0 <= c1 < writes[r1]@.len() && 0 <= r2 < writes.len() && 0
                <= c2 < writes[r2]@.len() && (r1 != r2 || c1 != c2) ==> {
                let w1 = #[trigger] writes[r1]@[c1];
                let w2 = #[trigger] writes[r2]@[c2];
                w1.column_index != w2.column_index || w1.row != w2.row
            },
{
    lemma_max_len_bounds(data);
    assert forall|r: int, c: int|
        0 <= r < writes.len() && 0 <= c < writes[r]@.len() implies {
        let w = #[trigger] writes[r]@[c];
        &&& start_col <= w.column_index < start_col + max_len(data)
        &&& start_row <= w.row < start_row + data.len()
    } by {
        assert(writes_text_at(writes[r]@[c], start_col + c, start_row + r, data[r]@[c]@));
        assert(data[r]@.len() <= max_len(data));
    }
    assert forall|r1: int, c1: int, r2: int, c2: int|
        0 <= r1 < writes.len() && 0 <= c1 < writes[r1]@.len() && 0 <= r2 < writes.len() && 0 <= c2
            < writes[r2]@.len() && (r1 != r2 || c1 != c2) implies {
        let w1 = #[trigger] writes[r1]@[c1];
        let w2 = #[trigger] writes[r2]@[c2];
        w1.column_index != w2.column_index || w1.row != w2.row
    } by {
        assert(writes_text_at(writes[r1]@[c1], start_col + c1, start_row + r1, data[r1]@[c1]@));
        assert(writes_text_at(writes[r2]@[c2], start_col + c2, start_row + r2, data[r2]@[c2]@));
    }
}


/// Law: the coordinate text of every write of a paste parses back to the
/// cell it targets (for blocks that start at row one or below and stay
/// left of the last 32-bit column, whose letters parsing refuses).
pub proof fn law_paste_refs_parse_back(
    writes: Seq<Vec<CellWrite>>,
    data: Seq<Vec<String>>,
    start_col: int,
    start_row: int,
    r: int,
    c: int,
)
    requires
        is_paste_plan(writes, data, start_col, start_row),
        start_row >= 1,
        0 <= r < writes.len(),
        0 <= c < writes[r]@.len(),
        writes[r]@[c].column_index < u32::MAX,
    ensures
        !types::coordinate_overflows(writes[r]@[c].cell_ref@),
        types::coordinate_outcome(writes[r]@[c].cell_ref@) == Ok::<(Seq<char>, nat, nat), Seq<char>>(
            (
                types::column_letters(writes[r]@[c].column_index as nat),
                writes[r]@[c].column_index as nat,
                writes[r]@[c].row as nat,
            ),
        ),
{
    let w = writes[r]@[c];
    assert(writes_text_at(w, start_col + c, start_row + r, data[r]@[c]@));
    types::law_from_index_round_trip(w.column_index, w.row);
}


/// Law: value `c` of data row `r` is written, as text, into the cell
/// exactly `c` columns right of and `r` rows below the start, whatever the
/// lengths of the other rows; every value of `data` is written.
pub proof fn law_paste_cell_position(
    writes: Seq<Vec<CellWrite>>,
    data: Seq<Vec<String>>,
    start_col: int,
    start_row: int,
)
    requires
        is_paste_plan(writes, data, start_col, start_row),
    ensures
        writes.len() == data.len(),
        forall|r: int| 0 <= r < data.len() ==> (#[trigger] writes[r])@.len() == data[r]@.len(),
        forall|r: int, c: int|
            0 <= r < data.len() && 0 <= c < data[r]@.len() ==> {
                let w = #[trigger] writes[r]@[c];
                &&& w.column_index == start_col + c
                &&& w.row == start_row + r
                &&& w.cell_ref@ == types::column_letters((start_col + c) as nat) + text::decimal(
                    (start_row + r) as nat,
                )
                &&& w.value@ == WriteValueView::Text(data[r]@[c]@)
            },
{
    assert forall|r: int, c: int| 0 <= r < data.len() && 0 <= c < data[r]@.len() implies {
        let w = #[trigger] writes[r]@[c];
        &&& w.column_index == start_col + c
        &&& w.row == start_row + r
        &&& w.cell_ref@ == types::column_letters((start_col + c) as nat) + text::decimal(
            (start_row + r) as nat,
        )
        &&& w.value@ == WriteValueView::Text(data[r]@[c]@)
    } by {
        assert(writes_text_at(writes[r]@[c], start_col + c, start_row + r, data[r]@[c]@));
    }
}

/// Law: where a row of a paste goes depends on that row and the start
/// alone: two pastes from one start whose data agree on row `r` write that
/// row's values to the same cells.
pub proof fn law_paste_row_independent(
    w1: Seq<Vec<CellWrite>>,
    d1: Seq<Vec<String>>,
    w2: Seq<Vec<CellWrite>>,
    d2: Seq<Vec<String>>,
    start_col: int,
    start_row: int,
    r: int,
)
    requires
        is_paste_plan(w1, d1, start_col, start_row),
        is_paste_plan(w2, d2, start_col, start_row),
        0 <= r < d1.len(),
        0 <= r < d2.len(),
        d1[r]@ == d2[r]@,
    ensures
        w1[r]@.len() == w2[r]@.len(),
        forall|c: int|
            0 <= c < w1[r]@.len() ==> (#[trigger] w1[r]@[c]).column_index == w2[r]@[c].column_index
                && w1[r]@[c].row == w2[r]@[c].row && w1[r]@[c].cell_ref@ == w2[r]@[c].cell_ref@,
{
    assert forall|c: int| 0 <= c < w1[r]@.len() implies (#[trigger] w1[r]@[c]).column_index
        == w2[r]@[c].column_index && w1[r]@[c].row == w2[r]@[c].row && w1[r]@[c].cell_ref@
        == w2[r]@[c].cell_ref@ by {
        assert(writes_text_at(w1[r]@[c], start_col + c, start_row + r, d1[r]@[c]@));
        assert(writes_text_at(w2[r]@[c], start_col + c, start_row + r, d2[r]@[c]@));
    }
}

// ── whole updates ─────────────────────────────

/// What an update decides before it reads the workbook: where it writes
/// (`write_target`), then which cell `coordinate` names.
pub fn update_target(source: &FileSource, output_path: Option<&str>, coordinate: &str) -> (r: Result<
    (String, CellCoordinate),
    SheetsError,
>)
    requires
        file_source::write_target_outcome(*source, file_source::opt_str_view(output_path)) is Some
            ==> !types::coordinate_overflows(coordinate@),
    ensures
        match file_source::write_target_outcome(*source, file_source::opt_str_view(output_path)) {
            None => r matches Err(SheetsError::MissingOutputPath),
            Some(p) => match types::coordinate_outcome(coordinate@) {
                Ok(parts) => r matches Ok((o, c)) && o@ == p && types::coordinate_is(c, parts),
                Err(m) => match r {
                    Err(e) => types::is_invalid_coordinate(e, m),
                    Ok(_) => false,
                },
            },
        },
{
    let output = match source.write_target(output_path) {
        Ok(o) => o,
        Err(e) => {
            return Err(e);
        },
    };
    match CellCoordinate::parse(coordinate) {
        Ok(c) => Ok((output, c)),
        Err(e) => Err(e),
    }
}

/// What `update_cell` writes and answers once the workbook is read: the
/// sheet must exist (else the error lists the sheets), then the value must
/// suit its type; the one write goes to `coord`, and the answer reports one
/// cell at `coord` of `sheet_name`, written to `output`.
pub fn update_cell_plan(
    sheet_names: &[String],
    sheet_name: &str,
    coord: &CellCoordinate,
    value: &str,
    value_type: &str,
    number: Option<u64>,
    output: &str,
) -> (r: Result<(CellWrite, UpdateResult), SheetsError>)
    ensures
        !has_sheet(sheet_names@, sheet_name@) ==> match r {
            Err(e) => crate::reader::is_sheet_not_found(
                e,
                sheet_name@,
                sheet_names@.map_values(|x: String| x@),
            ),
            Ok(_) => false,
        },
        has_sheet(sheet_names@, sheet_name@) ==> match write_value_outcome(value@, value_type@, number) {
            Ok(v) => r matches Ok((w, u)) && w.column_index == coord.column_index && w.row == coord.row
                && w.cell_ref@ == types::coordinate_text(*coord) && w.value@ == v
                && u.updated_count == 1 && u.sheet_name@ == sheet_name@ && u.output_path@ == output@
                && (u.start matches Some(st) && st@ == types::coordinate_text(*coord))
                && u.rows == Some(1u32) && u.columns == Some(1u32),
            Err(m) => match r {
                Err(e) => types::is_invalid_coordinate(e, m),
                Ok(_) => false,
            },
        },
{
    let write = match plan_cell_update(sheet_names, sheet_name, coord, value, value_type, number) {
        Ok(w) => w,
        Err(e) => {
            return Err(e);
        },
    };
    let answer = UpdateResult::for_cell(sheet_name, output, write.cell_ref.as_str());
    Ok((write, answer))
}

/// The longest row holds no more values than the whole block.
proof fn lemma_max_len_at_most_total(data: Seq<Vec<String>>)
    ensures
        max_len(data) <= total_cells(data),
    decreases data.len(),
{
    if data.len() > 0 {
        lemma_max_len_at_most_total(data.drop_last());
    }
}

/// What `update_cells` writes and answers once the workbook is read: the
/// sheet must exist (else the error lists the sheets); then every value of
/// `data` is written as text from `start` on, and the answer reports the
/// number of values, the rows and the longest row of the block, the
/// `destination` as given, `sheet_name` and `output`.
pub fn update_cells_plan(
    sheet_names: &[String],
    sheet_name: &str,
    start: &CellCoordinate,
    destination: &str,
    data: &[Vec<String>],
    output: &str,
) -> (r: Result<(Vec<Vec<CellWrite>>, UpdateResult), SheetsError>)
    requires
        has_sheet(sheet_names@, sheet_name@) ==> paste_fits(
            data@,
            start.column_index as int,
            start.row as int,
        ) && total_cells(data@) <= u32::MAX && data@.len() <= u32::MAX,
    ensures
        !has_sheet(sheet_names@, sheet_name@) ==> match r {
            Err(e) => crate::reader::is_sheet_not_found(
                e,
                sheet_name@,
                sheet_names@.map_values(|x: String| x@),
            ),
            Ok(_) => false,
        },
        has_sheet(sheet_names@, sheet_name@) ==> (r matches Ok((w, u)) && is_paste_plan(
            w@,
            data@,
            start.column_index as int,
            start.row as int,
        ) && u.updated_count == total_cells(data@) && u.rows == Some(data@.len() as u32)
            && u.columns == Some(max_len(data@) as u32) && (u.start matches Some(st) && st@
            == destination@) && u.sheet_name@ == sheet_name@ && u.output_path@ == output@),
{
    let writes = match plan_paste(sheet_names, sheet_name, start, data) {
        Ok(w) => w,
        Err(e) => {
            return Err(e);
        },
    };
    proof {
        lemma_max_len_at_most_total(data@);
    }
    let count = paste_count(data);
    let (rows, columns) = paste_shape(data);
    let answer = UpdateResult::for_paste(count, sheet_name, output, destination, rows, columns);
    Ok((writes, answer))
}

} // verus!
