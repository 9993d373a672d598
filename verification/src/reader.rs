//! Read operations: the shaping of workbook contents into tool results.
//!
//! The workbook file is opened by the application with the spreadsheet
//! readers, which hand over what a read looks at as plain values: the
//! sheets with their cells and styles ([`Workbook`]) for the formatting
//! path, and a sheet's value grid ([`ValueGrid`]) for the fast path. This
//! module decides what each tool answers from them.

use vstd::prelude::*;
use crate::error::SheetsError;
use crate::text;
use crate::text::{parse_hex_u32, str_eq, str_eq_ignore_ascii_case};
use crate::types;
use crate::types::{
    argb_to_hex, col_index_to_letter, CellFormat, CellRange, CellValue, CellWithFormat,
    RangeCell, RangeData, RowCount, SheetStructure, WorkbookStructure,
};

verus! {

// ── workbook model ────────────────────────────

/// The font of a cell's style.
#[derive(Debug, Clone)]
pub struct FontStyle {
    /// The font color as an ARGB hex string, e.g. `"FFFF0000"`.
    pub color_argb: String,
    /// Whether the font is bold.
    pub bold: bool,
    /// Whether the font is italic.
    pub italic: bool,
    /// The font size in points, as the bits of an `f64`.
    pub size: u64,
}

/// The border style names of a cell's four sides (empty when a side has
/// no border).
#[derive(Debug, Clone)]
pub struct BorderStyles {
    pub left: String,
    pub right: String,
    pub top: String,
    pub bottom: String,
}

/// The style of a cell, as the spreadsheet reader stores it.
#[derive(Debug, Clone)]
pub struct CellStyle {
    /// The ARGB hex string of the pattern fill's background color, when
    /// the style has a fill with a pattern fill with a background color.
    pub background_argb: Option<String>,
    /// The font, when the style has one.
    pub font: Option<FontStyle>,
    /// The number format code, when the style has a number format.
    pub number_format_code: Option<String>,
    /// The name of the horizontal alignment (`"General"`, `"Center"`, ...),
    /// when the style has an alignment.
    pub horizontal_alignment: Option<String>,
    /// The border styles, when the style has borders.
    pub borders: Option<BorderStyles>,
}

/// A cell that the workbook stores.
#[derive(Debug, Clone)]
pub struct StoredCell {
    /// The cell's value as text.
    pub text: String,
    /// The bits of the `f64` that `text` reads as, when it reads as one
    /// (`str::parse::<f64>`).
    pub number: Option<u64>,
    /// The cell's style.
    pub style: CellStyle,
}

/// One sheet of a workbook with its stored cells.
#[derive(Debug, Clone)]
pub struct Worksheet {
    /// The sheet's name.
    pub name: String,
    /// The highest column (one-based) that holds a cell.
    pub highest_column: u32,
    /// The highest row (one-based) that holds a cell.
    pub highest_row: u32,
    /// `cells[r][c]` is the cell at row `r + 1`, column `c + 1`; positions
    /// past the ends hold no cell.
    pub cells: Vec<Vec<Option<StoredCell>>>,
}

/// A workbook: its sheets in order.
#[derive(Debug, Clone)]
pub struct Workbook {
    pub sheets: Vec<Worksheet>,
}

/// The values of one sheet as the fast reader gives them: `rows[r][c]` is
/// the value at zero-based row `first_row + r`, column `first_col + c`;
/// every other position is empty.
#[derive(Debug, Clone)]
pub struct ValueGrid {
    pub first_row: u32,
    pub first_col: u32,
    pub rows: Vec<Vec<CellValue>>,
}

/// The cell stored at one-based `col` and `row`.
pub open spec fn cell_at(cells: Seq<Vec<Option<StoredCell>>>, col: int, row: int) -> Option<
    StoredCell,
> {
    if 1 <= row <= cells.len() && 1 <= col <= cells[row - 1]@.len() {
        cells[row - 1]@[col - 1]
    } else {
        None
    }
}

/// The value at zero-based `row` and `col` of a grid.
pub open spec fn grid_value(g: ValueGrid, row: int, col: int) -> CellValue {
    let r = row - g.first_row;
    let c = col - g.first_col;
    if 0 <= r < g.rows@.len() && 0 <= c < g.rows@[r]@.len() {
        g.rows@[r]@[c]
    } else {
        CellValue::Empty
    }
}

// ── values and formats ────────────────────────

/// The ARGB number of a hex string, or zero when it is not one
/// (`u32::from_str_radix(s, 16).unwrap_or(0)`).
pub open spec fn argb_value(s: Seq<char>) -> u32 {
    match text::hex_u32(s) {
        Some(v) => v,
        None => 0,
    }
}

/// The `#RRGGBB` text of an ARGB hex string; none for color zero.
pub open spec fn color_text(s: Seq<char>) -> Option<Seq<char>> {
    if argb_value(s) == 0 {
        None
    } else {
        Some(types::argb_hex_text(argb_value(s)))
    }
}

/// Whether `v` is the value of a stored cell: empty text is empty, text
/// that reads as a number is that number, `true`/`false` in any ASCII case
/// are booleans, and any other text is a string.
pub open spec fn value_of_cell(v: CellValue, c: StoredCell) -> bool {
    if c.text@.len() == 0 {
        v is Empty
    } else if c.number is Some {
        v == CellValue::Number(c.number->0)
    } else if text::eq_ignore_ascii_case(c.text@, "true"@) {
        v == CellValue::Bool(true)
    } else if text::eq_ignore_ascii_case(c.text@, "false"@) {
        v == CellValue::Bool(false)
    } else {
        v matches CellValue::String(s) && s@ == c.text@
    }
}

/// Whether `f` is the format that a style shows.
pub open spec fn format_of_style(f: CellFormat, st: CellStyle) -> bool {
    &&& types::opt_view(f.background_color) == match st.background_argb {
        Some(a) => color_text(a@),
        None => None,
    }
    &&& match st.font {
        Some(font) => {
            &&& types::opt_view(f.font_color) == color_text(font.color_argb@)
            &&& f.bold == font.bold
            &&& f.italic == font.italic
            &&& f.font_size == Some(font.size)
        },
        None => f.font_color is None && !f.bold && !f.italic && f.font_size is None,
    }
    &&& types::opt_view(f.number_format) == match st.number_format_code {
        Some(code) => if code@.len() == 0 || code@ == "General"@ {
            None
        } else {
            Some(code@)
        },
        None => None,
    }
    &&& types::opt_view(f.horizontal_alignment) == match st.horizontal_alignment {
        Some(h) => if h@ == "General"@ || h@ == "Start"@ {
            None
        } else {
            Some(h@)
        },
        None => None,
    }
    &&& f.has_border == match st.borders {
        Some(b) => b.left@.len() > 0 || b.right@.len() > 0 || b.top@.len() > 0 || b.bottom@.len()
            > 0,
        None => false,
    }
}

/// Parse an ARGB hex string like "FFC0C0C0" into a u32 (zero when it is
/// not one).
pub fn parse_argb_u32(s: &str) -> (v: u32)
    ensures
        v == argb_value(s@),
{
    match parse_hex_u32(s) {
        Some(v) => v,
        None => 0,
    }
}

/// The `#RRGGBB` text of an ARGB hex string.
fn color_of(s: &String) -> (r: Option<String>)
    ensures
        types::opt_view(r) == color_text(s@),
{
    argb_to_hex(parse_argb_u32(s.as_str()))
}

/// Convert a stored cell (as umya-spreadsheet holds it) to a [`CellValue`].
///
/// Text that reads as a number becomes `Number`, `true`/`false` (any ASCII
/// case) become `Bool`, other text becomes `String`; empty text is `Empty`.
pub fn cell_value_from_umya(cell: &StoredCell) -> (v: CellValue)
    ensures
        value_of_cell(v, *cell),
{
    if cell.text.as_str().is_empty() {
        return CellValue::Empty;
    }
    if let Some(n) = cell.number {
        return CellValue::Number(n);
    }
    if str_eq_ignore_ascii_case(cell.text.as_str(), "true") {
        return CellValue::Bool(true);
    }
    if str_eq_ignore_ascii_case(cell.text.as_str(), "false") {
        return CellValue::Bool(false);
    }
    CellValue::String(cell.text.clone())
}

/// Extract visual formatting from a cell's style: background color, font
/// properties, number format, alignment, and border presence.
pub fn extract_format(style: &CellStyle) -> (f: CellFormat)
    ensures
        format_of_style(f, *style),
{
    let background_color = match &style.background_argb {
        Some(a) => color_of(a),
        None => None,
    };
    let (font_color, bold, italic, font_size) = match &style.font {
        Some(font) => (color_of(&font.color_argb), font.bold, font.italic, Some(font.size)),
        None => (None, false, false, None),
    };
    let number_format = match &style.number_format_code {
        Some(code) => {
            if code.as_str().is_empty() || str_eq(code.as_str(), "General") {
                None
            } else {
                Some(code.clone())
            }
        },
        None => None,
    };
    let horizontal_alignment = match &style.horizontal_alignment {
        Some(h) => {
            if str_eq(h.as_str(), "General") || str_eq(h.as_str(), "Start") {
                None
            } else {
                Some(h.clone())
            }
        },
        None => None,
    };
    let has_border = match &style.borders {
        Some(b) => !b.left.as_str().is_empty() || !b.right.as_str().is_empty()
            || !b.top.as_str().is_empty() || !b.bottom.as_str().is_empty(),
        None => false,
    };
    CellFormat {
        background_color,
        font_color,
        bold,
        italic,
        font_size,
        number_format,
        horizontal_alignment,
        has_border,
    }
}

/// The value and format of the cell at one-based `col` and `row`; an
/// absent cell is empty with no styling.
fn value_and_format(cells: &Vec<Vec<Option<StoredCell>>>, col: u64, row: u64) -> (r: (
    CellValue,
    CellFormat,
))
    ensures
        match cell_at(cells@, col as int, row as int) {
            Some(c) => value_of_cell(r.0, c) && format_of_style(r.1, c.style),
            None => r.0 is Empty && types::is_plain_format(r.1),
        },
{
    if 1 <= row && row <= cells.len() as u64 {
        let line = &cells[(row - 1) as usize];
        if 1 <= col && col <= line.len() as u64 {
            match &line[(col - 1) as usize] {
                Some(c) => {
                    return (cell_value_from_umya(c), extract_format(&c.style));
                },
                None => {},
            }
        }
    }
    (CellValue::Empty, CellFormat::plain())
}


// ── read_structure ────────────────────────────

/// The number of items from `a` to `b` inclusive.
pub open spec fn span(a: int, b: int) -> nat {
    if a <= b {
        (b - a + 1) as nat
    } else {
        0
    }
}

/// The smaller of two numbers.
pub open spec fn min(a: int, b: int) -> int {
    if a <= b {
        a
    } else {
        b
    }
}

/// Whether `c` shows the stored cell at one-based `col` and `row` of a
/// sheet: its coordinate text, its value and its format.
pub open spec fn shows_cell(c: CellWithFormat, cells: Seq<Vec<Option<StoredCell>>>, col: int, row: int) -> bool {
    &&& c.coordinate@ == types::column_letters((col - 1) as nat) + text::decimal(row as nat)
    &&& match cell_at(cells, col, row) {
        Some(sc) => value_of_cell(c.value, sc) && format_of_style(c.format, sc.style),
        None => c.value is Empty && types::is_plain_format(c.format),
    }
}

/// Whether `p` is row `row` of a sheet's preview: one cell for each column
/// up to the highest.
pub open spec fn is_preview_row(p: Seq<CellWithFormat>, ws: Worksheet, row: int) -> bool {
    &&& p.len() == ws.highest_column
    &&& forall|j: int| 0 <= j < p.len() ==> shows_cell(#[trigger] p[j], ws.cells@, j + 1, row)
}

/// Whether `st` describes sheet `ws` with a preview of its first
/// `first_n_rows` rows (no more than it has).
pub open spec fn is_sheet_structure(st: SheetStructure, ws: Worksheet, first_n_rows: u32) -> bool {
    &&& st.name@ == ws.name@
    &&& st.total_columns == ws.highest_column
    &&& st.total_rows == ws.highest_row
    &&& st.preview@.len() == min(first_n_rows as int, ws.highest_row as int)
    &&& forall|i: int| 0 <= i < st.preview@.len() ==> is_preview_row(#[trigger] st.preview@[i]@, ws, i + 1)
}

/// One preview row of a sheet.
fn preview_row(ws: &Worksheet, row: u32) -> (p: Vec<CellWithFormat>)
    requires
        row >= 1,
    ensures
        is_preview_row(p@, *ws, row as int),
{
    let mut cells: Vec<CellWithFormat> = Vec::new();
    let mut col: u64 = 1;
    while col <= ws.highest_column as u64
        invariant
            1 <= col <= ws.highest_column + 1,
            row >= 1,
            cells@.len() == col - 1,
            forall|j: int| 0 <= j < cells@.len() ==> shows_cell(#[trigger] cells@[j], ws.cells@, j + 1, row as int),
        decreases ws.highest_column + 1 - col,
    {
        let mut coordinate = col_index_to_letter((col - 1) as u32);
        let digits = text::decimal_string(row);
        coordinate.append(digits.as_str());
        let (value, format) = value_and_format(&ws.cells, col, row as u64);
        cells.push(CellWithFormat { coordinate, value, format });
        col = col + 1;
    }
    cells
}

/// The structure of one sheet with its first `first_n_rows` rows.
pub fn sheet_structure(ws: &Worksheet, first_n_rows: u32) -> (st: SheetStructure)
    ensures
        is_sheet_structure(st, *ws, first_n_rows),
{
    let last = if first_n_rows <= ws.highest_row {
        first_n_rows
    } else {
        ws.highest_row
    };
    let mut preview: Vec<Vec<CellWithFormat>> = Vec::new();
    let mut row: u64 = 1;
    while row <= last as u64
        invariant
            1 <= row <= last + 1,
            last == min(first_n_rows as int, ws.highest_row as int),
            preview@.len() == row - 1,
            forall|i: int| 0 <= i < preview@.len() ==> is_preview_row(#[trigger] preview@[i]@, *ws, i + 1),
        decreases last + 1 - row,
    {
        preview.push(preview_row(ws, row as u32));
        row = row + 1;
    }
    SheetStructure {
        name: ws.name.clone(),
        total_columns: ws.highest_column,
        total_rows: ws.highest_row,
        preview,
    }
}

/// Returns the workbook structure with the first N rows of each sheet
/// including values and formatting (colors, fonts, borders): one
/// [`SheetStructure`] per sheet, in order.
pub fn read_structure(workbook: &Workbook, first_n_rows: u32) -> (r: WorkbookStructure)
    ensures
        r.sheets@.len() == workbook.sheets@.len(),
        forall|i: int| 0 <= i < r.sheets@.len() ==> is_sheet_structure(#[trigger] r.sheets@[i], workbook.sheets@[i], first_n_rows),
{
    let mut sheets: Vec<SheetStructure> = Vec::new();
    let mut i: usize = 0;
    while i < workbook.sheets.len()
        invariant
            i <= workbook.sheets@.len(),
            sheets@.len() == i,
            forall|k: int| 0 <= k < i ==> is_sheet_structure(#[trigger] sheets@[k], workbook.sheets@[k], first_n_rows),
        decreases workbook.sheets.len() - i,
    {
        sheets.push(sheet_structure(&workbook.sheets[i], first_n_rows));
        i = i + 1;
    }
    WorkbookStructure { sheets }
}


// ── laws of the read results ─────────────────

/// Law: a format shows a border exactly when at least one of the four sides
/// of the style has a border style; each side counts on its own.
pub proof fn law_format_border_any_side(f: CellFormat, st: CellStyle)
    requires
        format_of_style(f, st),
    ensures
        st.borders matches Some(b) && b.left@.len() > 0 ==> f.has_border,
        st.borders matches Some(b) && b.right@.len() > 0 ==> f.has_border,
        st.borders matches Some(b) && b.top@.len() > 0 ==> f.has_border,
        st.borders matches Some(b) && b.bottom@.len() > 0 ==> f.has_border,
        f.has_border ==> (st.borders matches Some(b) && (b.left@.len() > 0 || b.right@.len() > 0
            || b.top@.len() > 0 || b.bottom@.len() > 0)),
{
}

/// Law: the bold and italic flags of a format are those of the style's
/// font (both off without a font).
pub proof fn law_format_font_flags(f: CellFormat, st: CellStyle)
    requires
        format_of_style(f, st),
    ensures
        f.bold == (st.font matches Some(font) && font.bold),
        f.italic == (st.font matches Some(font) && font.italic),
{
}

/// Law: the italic flag of a format depends on the font's italic flag
/// alone: two fonts that agree on italic give formats that agree on it,
/// however their bold flags differ, and likewise for bold.
pub proof fn law_format_flags_independent(f1: CellFormat, st1: CellStyle, f2: CellFormat, st2: CellStyle)
    requires
        format_of_style(f1, st1),
        format_of_style(f2, st2),
        st1.font is Some,
        st2.font is Some,
    ensures
        st1.font->0.italic == st2.font->0.italic ==> f1.italic == f2.italic,
        st1.font->0.bold == st2.font->0.bold ==> f1.bold == f2.bold,
{
}

/// Law: a sheet's preview holds its first `first_n_rows` rows, or all of
/// them when it has fewer; asking for no rows gives no preview.
pub proof fn law_preview_row_count(st: SheetStructure, ws: Worksheet, first_n_rows: u32)
    requires
        is_sheet_structure(st, ws, first_n_rows),
    ensures
        first_n_rows <= ws.highest_row ==> st.preview@.len() == first_n_rows,
        first_n_rows > ws.highest_row ==> st.preview@.len() == ws.highest_row,
        first_n_rows == 0 ==> st.preview@.len() == 0,
        st.preview@.len() <= first_n_rows,
        st.preview@.len() <= st.total_rows,
{
}

/// Law: each cell of a values-only range read holds exactly the value that
/// the grid stores at its position (same variant: an error stays an error),
/// with no format; a position outside the grid reads as empty. The cell at
/// `i`, `j` of the result is `i` rows below and `j` columns right of the
/// range's top-left corner.
pub proof fn law_values_only_cells(
    grid: ValueGrid,
    sheet_name: Seq<char>,
    range_str: Seq<char>,
    d: RangeData,
    i: int,
    j: int,
)
    requires
        is_range_data(Ok(d), sheet_name, range_str, is_value_cell(grid)),
        0 <= i < d.rows@.len(),
        0 <= j < d.rows@[i]@.len(),
    ensures
        types::range_outcome(range_str) is Ok,
        ({
            let start = types::range_outcome(range_str)->Ok_0.1;
            let r = start.2 - 1 + i - grid.first_row;
            let c = start.1 + j - grid.first_col;
            &&& d.rows@[i]@[j].format is None
            &&& if 0 <= r < grid.rows@.len() && 0 <= c < grid.rows@[r]@.len() {
                d.rows@[i]@[j].value == grid.rows@[r]@[c]
            } else {
                d.rows@[i]@[j].value == CellValue::Empty
            }
        }),
{
    let (_, start, end) = types::range_outcome(range_str)->Ok_0;
    assert(is_value_cell(grid)(d.rows@[i]@[j], start.2 + i, start.1 + j));
}

/// Law: the other fields of a format come from the style: the font size
/// is the font's, a number format is kept unless it is empty or `General`,
/// and a horizontal alignment is kept unless it is `General` or `Start`.
pub proof fn law_format_other_fields(f: CellFormat, st: CellStyle)
    requires
        format_of_style(f, st),
    ensures
        f.font_size == (match st.font {
            Some(font) => Some(font.size),
            None => None::<u64>,
        }),
        st.font is None ==> f.font_color is None,
        st.background_argb is None ==> f.background_color is None,
        st.number_format_code is Some && st.number_format_code->0@.len() > 0
            && st.number_format_code->0@ != "General"@ ==> f.number_format is Some
            && f.number_format->0@ == st.number_format_code->0@,
        f.number_format is Some ==> st.number_format_code is Some
            && st.number_format_code->0@.len() > 0 && st.number_format_code->0@ != "General"@,
        st.horizontal_alignment is Some && st.horizontal_alignment->0@ != "General"@
            && st.horizontal_alignment->0@ != "Start"@ ==> f.horizontal_alignment is Some
            && f.horizontal_alignment->0@ == st.horizontal_alignment->0@,
        f.horizontal_alignment is Some ==> st.horizontal_alignment is Some
            && st.horizontal_alignment->0@ != "General"@ && st.horizontal_alignment->0@
            != "Start"@,
{
}

/// Law: the value of a stored cell: empty text is empty, text that reads as
/// a number is that number, `true` and `false` in any ASCII case are
/// booleans, and any other text is a string holding that text.
pub proof fn law_stored_cell_value(v: CellValue, c: StoredCell)
    requires
        value_of_cell(v, c),
    ensures
        c.text@.len() == 0 <==> v is Empty,
        c.text@.len() > 0 && c.number is Some ==> v == CellValue::Number(c.number->0),
        v is String ==> c.number is None,
        c.text@.len() > 0 && c.number is None && text::eq_ignore_ascii_case(c.text@, "true"@)
            ==> v == CellValue::Bool(true),
        c.text@.len() > 0 && c.number is None && text::eq_ignore_ascii_case(c.text@, "false"@)
            ==> v == CellValue::Bool(false),
        v is String ==> v->String_0@ == c.text@,
        !(v is Error),
{
    reveal_strlit("true");
    reveal_strlit("false");
    // no text reads as both `true` and `false`: their lowercase lengths differ
    assert(text::ascii_lower("true"@).len() == 4);
    assert(text::ascii_lower("false"@).len() == 5);
}

/// Law: a range read answers one row for each row from the top to the
/// bottom corner of the range, each with one cell for each column from its
/// left to its right corner, whichever order the corners were written in.
pub proof fn law_range_shape(
    sheet_name: Seq<char>,
    range_str: Seq<char>,
    d: RangeData,
    cell: spec_fn(RangeCell, int, int) -> bool,
)
    requires
        is_range_data(Ok(d), sheet_name, range_str, cell),
    ensures
        types::range_outcome(range_str) is Ok,
        ({
            let (_, start, end) = types::range_outcome(range_str)->Ok_0;
            &&& start.2 <= end.2
            &&& start.1 <= end.1
            &&& d.rows@.len() == end.2 - start.2 + 1
            &&& forall|i: int| 0 <= i < d.rows@.len() ==> (#[trigger] d.rows@[i])@.len() == end.1
                - start.1 + 1
        }),
        d.sheet_name@ == sheet_name,
        d.range@ == range_str,
{
}

/// Law: each cell of a formatted range read shows the cell that the sheet
/// stores at its position, with that cell's value and the format of its
/// style; a position with no stored cell is empty with a plain format.
pub proof fn law_formatted_cells(
    ws: Worksheet,
    sheet_name: Seq<char>,
    range_str: Seq<char>,
    d: RangeData,
    i: int,
    j: int,
)
    requires
        is_range_data(Ok(d), sheet_name, range_str, is_formatted_cell(ws)),
        0 <= i < d.rows@.len(),
        0 <= j < d.rows@[i]@.len(),
    ensures
        types::range_outcome(range_str) is Ok,
        ({
            let start = types::range_outcome(range_str)->Ok_0.1;
            let row = start.2 + i;
            let col = start.1 + j;
            let x = d.rows@[i]@[j];
            &&& x.format is Some
            &&& if 1 <= row <= ws.cells@.len() && 0 <= col < ws.cells@[row - 1]@.len()
                && ws.cells@[row - 1]@[col] is Some {
                let sc = ws.cells@[row - 1]@[col]->0;
                value_of_cell(x.value, sc) && format_of_style(x.format->0, sc.style)
            } else {
                x.value is Empty && types::is_plain_format(x.format->0)
            }
        }),
{
    let (_, start, end) = types::range_outcome(range_str)->Ok_0;
    assert(is_formatted_cell(ws)(d.rows@[i]@[j], start.2 + i, start.1 + j));
}

// ── sheet lookup ──────────────────────────────

/// The names of a workbook's sheets, in order.
pub open spec fn sheet_names_of(sheets: Seq<Worksheet>) -> Seq<Seq<char>> {
    sheets.map_values(|ws: Worksheet| ws.name@)
}

/// Whether `e` is the error for a sheet named `name` that is not among
/// `available`.
pub open spec fn is_sheet_not_found(e: SheetsError, name: Seq<char>, available: Seq<Seq<char>>) -> bool {
    match e {
        SheetsError::SheetNotFound { sheet, available: list } => sheet@ == name
            && list@ == crate::error::available_list(available),
        _ => false,
    }
}

impl Workbook {
    /// The names of the sheets, in order.
    pub fn sheet_names(&self) -> (v: Vec<String>)
        ensures
            v@.map_values(|x: String| x@) == sheet_names_of(self.sheets@),
    {
        let mut v: Vec<String> = Vec::new();
        let mut i: usize = 0;
        while i < self.sheets.len()
            invariant
                i <= self.sheets@.len(),
                v@.len() == i,
                forall|j: int| 0 <= j < i ==> (#[trigger] v@[j])@ == self.sheets@[j].name@,
            decreases self.sheets.len() - i,
        {
            v.push(self.sheets[i].name.clone());
            i = i + 1;
        }
        assert(v@.map_values(|x: String| x@) =~= sheet_names_of(self.sheets@));
        v
    }

    /// The position of the first sheet named `name`; the error lists the
    /// available sheet names when there is none.
    pub fn sheet_by_name(&self, name: &str) -> (r: Result<usize, SheetsError>)
        ensures
            match r {
                Ok(i) => i < self.sheets@.len() && self.sheets@[i as int].name@ == name@
                    && forall|j: int| 0 <= j < i ==> (#[trigger] self.sheets@[j]).name@ != name@,
                Err(e) => (forall|j: int| 0 <= j < self.sheets@.len() ==> (#[trigger] self.sheets@[j]).name@ != name@)
                    && is_sheet_not_found(e, name@, sheet_names_of(self.sheets@)),
            },
    {
        let mut i: usize = 0;
        while i < self.sheets.len()
            invariant
                i <= self.sheets@.len(),
                forall|j: int| 0 <= j < i ==> (#[trigger] self.sheets@[j]).name@ != name@,
            decreases self.sheets.len() - i,
        {
            if str_eq(self.sheets[i].name.as_str(), name) {
                return Ok(i);
            }
            i = i + 1;
        }
        let names = self.sheet_names();
        Err(SheetsError::sheet_not_found(name, names.as_slice()))
    }
}

// ── count_sheet_rows ──────────────────────────

impl RowCount {
    /// The row and column count of a sheet whose used cells end at the
    /// zero-based `(row, column)` position `end`; an empty sheet has none.
    pub fn from_range_end(sheet_name: &str, end: Option<(u32, u32)>) -> (c: RowCount)
        requires
            end matches Some((r, col)) ==> r < u32::MAX && col < u32::MAX,
        ensures
            c.sheet_name@ == sheet_name@,
            match end {
                Some((r, col)) => c.total_rows == r + 1 && c.total_columns == col + 1,
                None => c.total_rows == 0 && c.total_columns == 0,
            },
    {
        let (total_columns, total_rows) = match end {
            Some((r, col)) => (col + 1, r + 1),
            None => (0, 0),
        };
        RowCount { sheet_name: String::from_str(sheet_name), total_rows, total_columns }
    }
}

// ── get_sheet_range ───────────────────────────

/// Whether `rows` holds, row-major, the cells of the range from `start` to
/// `end` (zero-based column, one-based row), each given by `cell(row, col)`
/// being true of it.
pub open spec fn is_range_rows(
    rows: Seq<Vec<RangeCell>>,
    start_col: int,
    start_row: int,
    end_col: int,
    end_row: int,
    cell: spec_fn(RangeCell, int, int) -> bool,
) -> bool {
    &&& rows.len() == span(start_row, end_row)
    &&& forall|i: int| 0 <= i < rows.len() ==> {
        &&& (#[trigger] rows[i])@.len() == span(start_col, end_col)
        &&& forall|j: int| 0 <= j < rows[i]@.len() ==> cell(
            #[trigger] rows[i]@[j],
            start_row + i,
            start_col + j,
        )
    }
}

/// A cell of the fast path: the grid's value and no format.
pub open spec fn is_value_cell(g: ValueGrid) -> spec_fn(RangeCell, int, int) -> bool {
    |c: RangeCell, row: int, col: int| c.value == grid_value(g, row - 1, col) && c.format is None
}

/// A cell of the formatting path: the stored cell's value and format.
pub open spec fn is_formatted_cell(ws: Worksheet) -> spec_fn(RangeCell, int, int) -> bool {
    |c: RangeCell, row: int, col: int|
        match cell_at(ws.cells@, col + 1, row) {
            Some(sc) => value_of_cell(c.value, sc) && (c.format matches Some(f) && format_of_style(
                f,
                sc.style,
            )),
            None => c.value is Empty && (c.format matches Some(f) && types::is_plain_format(f)),
        }
}

/// Whether `r` answers a range read of `range_str` on `sheet_name` whose
/// cells are given by `cell`.
pub open spec fn is_range_data(
    r: Result<RangeData, SheetsError>,
    sheet_name: Seq<char>,
    range_str: Seq<char>,
    cell: spec_fn(RangeCell, int, int) -> bool,
) -> bool {
    match types::range_outcome(range_str) {
        Err(m) => match r {
            Err(e) => types::is_invalid_coordinate(e, m),
            Ok(_) => false,
        },
        Ok((_, start, end)) => match r {
            Ok(d) => d.sheet_name@ == sheet_name && d.range@ == range_str && is_range_rows(
                d.rows@,
                start.1 as int,
                start.2 as int,
                end.1 as int,
                end.2 as int,
                cell,
            ),
            Err(_) => false,
        },
    }
}

/// The value at zero-based `row` and `col` of a grid.
fn grid_value_at(g: &ValueGrid, row: u64, col: u64) -> (v: CellValue)
    ensures
        v == grid_value(*g, row as int, col as int),
{
    if row >= g.first_row as u64 && col >= g.first_col as u64 {
        let r = row - g.first_row as u64;
        let c = col - g.first_col as u64;
        if r < g.rows.len() as u64 {
            let line = &g.rows[r as usize];
            if c < line.len() as u64 {
                return line[c as usize].duplicate();
            }
        }
    }
    CellValue::Empty
}

/// Fast path: the values of a range of a sheet's grid, with no formatting.
/// Cells outside the grid are empty.
pub fn get_range_values_only(grid: &ValueGrid, sheet_name: &str, range_str: &str) -> (r: Result<
    RangeData,
    SheetsError,
>)
    requires
        !types::range_overflows(range_str@),
    ensures
        is_range_data(r, sheet_name@, range_str@, is_value_cell(*grid)),
{
    let parsed = match CellRange::parse(range_str) {
        Ok(p) => p,
        Err(e) => {
            return Err(e);
        },
    };
    let start_row = parsed.start.row as u64;
    let start_col = parsed.start.column_index as u64;
    let end_row = parsed.end.row as u64;
    let end_col = parsed.end.column_index as u64;
    let ghost cell = is_value_cell(*grid);
    let mut rows: Vec<Vec<RangeCell>> = Vec::new();
    let mut row = start_row;
    while row <= end_row
        invariant
            start_row >= 1,
            end_row <= u32::MAX,
            end_col <= u32::MAX,
            start_row <= row,
            row <= end_row + 1 || row == start_row,
            rows@.len() == row - start_row,
            cell == is_value_cell(*grid),
            forall|i: int| 0 <= i < rows@.len() ==> {
                &&& (#[trigger] rows@[i])@.len() == span(start_col as int, end_col as int)
                &&& forall|j: int| 0 <= j < rows@[i]@.len() ==> cell(
                    #[trigger] rows@[i]@[j],
                    start_row + i,
                    start_col + j,
                )
            },
        decreases end_row + 1 - row,
    {
        let mut line: Vec<RangeCell> = Vec::new();
        let mut col = start_col;
        while col <= end_col
            invariant
                start_row <= row <= end_row,
                start_row >= 1,
                end_row <= u32::MAX,
                end_col <= u32::MAX,
                start_col <= col,
                col <= end_col + 1 || col == start_col,
                line@.len() == col - start_col,
                cell == is_value_cell(*grid),
                forall|j: int| 0 <= j < line@.len() ==> cell(#[trigger] line@[j], row as int, start_col + j),
            decreases end_col + 1 - col,
        {
            let value = grid_value_at(grid, row - 1, col);
            line.push(RangeCell { value, format: None });
            col = col + 1;
        }
        rows.push(line);
        row = row + 1;
    }
    Ok(RangeData {
        sheet_name: String::from_str(sheet_name),
        range: String::from_str(range_str),
        rows,
    })
}

/// Slow path: the values and formatting of a range of a sheet. The sheet
/// is looked up first; cells that the sheet does not store are empty with
/// no styling.
pub fn get_range_with_format(workbook: &Workbook, sheet_name: &str, range_str: &str) -> (r: Result<
    RangeData,
    SheetsError,
>)
    requires
        !types::range_overflows(range_str@),
    ensures
        match workbook.sheet_index(sheet_name@) {
            None => match r {
                Err(e) => is_sheet_not_found(e, sheet_name@, sheet_names_of(workbook.sheets@)),
                Ok(_) => false,
            },
            Some(i) => is_range_data(r, sheet_name@, range_str@, is_formatted_cell(workbook.sheets@[i])),
        },
{
    let index = match workbook.sheet_by_name(sheet_name) {
        Ok(i) => i,
        Err(e) => {
            proof {
                workbook.lemma_sheet_index_none(sheet_name@);
            }
            return Err(e);
        },
    };
    proof {
        workbook.lemma_sheet_index_some(sheet_name@, index as int);
    }
    let ws = &workbook.sheets[index];
    let parsed = match CellRange::parse(range_str) {
        Ok(p) => p,
        Err(e) => {
            return Err(e);
        },
    };
    let start_row = parsed.start.row as u64;
    let start_col = parsed.start.column_index as u64;
    let end_row = parsed.end.row as u64;
    let end_col = parsed.end.column_index as u64;
    let ghost cell = is_formatted_cell(*ws);
    let mut rows: Vec<Vec<RangeCell>> = Vec::new();
    let mut row = start_row;
    while row <= end_row
        invariant
            start_row >= 1,
            end_row <= u32::MAX,
            end_col <= u32::MAX,
            start_row <= row,
            row <= end_row + 1 || row == start_row,
            rows@.len() == row - start_row,
            cell == is_formatted_cell(*ws),
            forall|i: int| 0 <= i < rows@.len() ==> {
                &&& (#[trigger] rows@[i])@.len() == span(start_col as int, end_col as int)
                &&& forall|j: int| 0 <= j < rows@[i]@.len() ==> cell(
                    #[trigger] rows@[i]@[j],
                    start_row + i,
                    start_col + j,
                )
            },
        decreases end_row + 1 - row,
    {
        let mut line: Vec<RangeCell> = Vec::new();
        let mut col = start_col;
        while col <= end_col
            invariant
                start_row <= row <= end_row,
                start_row >= 1,
                end_row <= u32::MAX,
                end_col <= u32::MAX,
                start_col <= col,
                col <= end_col + 1 || col == start_col,
                line@.len() == col - start_col,
                cell == is_formatted_cell(*ws),
                forall|j: int| 0 <= j < line@.len() ==> cell(#[trigger] line@[j], row as int, start_col + j),
            decreases end_col + 1 - col,
        {
            let (value, format) = value_and_format(&ws.cells, col + 1, row);
            line.push(RangeCell { value, format: Some(format) });
            col = col + 1;
        }
        rows.push(line);
        row = row + 1;
    }
    Ok(RangeData {
        sheet_name: String::from_str(sheet_name),
        range: String::from_str(range_str),
        rows,
    })
}

/// The position of the first sheet of `sheets` named `name`, if any.
pub open spec fn first_sheet_named(sheets: Seq<Worksheet>, name: Seq<char>) -> Option<int>
    decreases sheets.len(),
{
    if sheets.len() == 0 {
        None
    } else if sheets[0].name@ == name {
        Some(0)
    } else {
        match first_sheet_named(sheets.drop_first(), name) {
            Some(i) => Some(i + 1),
            None => None,
        }
    }
}

/// `first_sheet_named` finds the first sheet with the name, and finds none
/// exactly when no sheet has it.
pub proof fn lemma_first_sheet_named(sheets: Seq<Worksheet>, name: Seq<char>)
    ensures
        match first_sheet_named(sheets, name) {
            None => forall|j: int| 0 <= j < sheets.len() ==> (#[trigger] sheets[j]).name@ != name,
            Some(i) => {
                &&& 0 <= i < sheets.len()
                &&& sheets[i].name@ == name
                &&& forall|j: int| 0 <= j < i ==> (#[trigger] sheets[j]).name@ != name
            },
        },
    decreases sheets.len(),
{
    if sheets.len() > 0 && sheets[0].name@ != name {
        let rest = sheets.drop_first();
        lemma_first_sheet_named(rest, name);
        assert forall|j: int| 1 <= j < sheets.len() implies #[trigger] sheets[j] == rest[j - 1] by {}
    }
}

impl Workbook {
    /// The position of the first sheet named `name`.
    pub open spec fn sheet_index(self, name: Seq<char>) -> Option<int> {
        first_sheet_named(self.sheets@, name)
    }

    proof fn lemma_sheet_index_none(self, name: Seq<char>)
        requires
            forall|j: int| 0 <= j < self.sheets@.len() ==> (#[trigger] self.sheets@[j]).name@ != name,
        ensures
            self.sheet_index(name) is None,
    {
        lemma_first_sheet_named(self.sheets@, name);
    }

    proof fn lemma_sheet_index_some(self, name: Seq<char>, i: int)
        requires
            0 <= i < self.sheets@.len(),
            self.sheets@[i].name@ == name,
            forall|j: int| 0 <= j < i ==> (#[trigger] self.sheets@[j]).name@ != name,
        ensures
            self.sheet_index(name) == Some(i),
    {
        lemma_first_sheet_named(self.sheets@, name);
        if let Some(k) = self.sheet_index(name) {
            if k < i {
                assert(self.sheets@[k].name@ != name);
            }
            if i < k {
                assert(self.sheets@[i].name@ != name);
            }
        }
    }
}

} // verus!
