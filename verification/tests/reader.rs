use sheets_mcp::error::SheetsError;
use sheets_mcp::reader::{
    cell_value_from_umya, extract_format, get_range_values_only, get_range_with_format,
    parse_argb_u32, read_structure, BorderStyles, CellStyle, FontStyle, StoredCell, ValueGrid,
    Workbook, Worksheet,
};
use sheets_mcp::types::{CellValue, RowCount};

fn plain_style() -> CellStyle {
    CellStyle {
        background_argb: None,
        font: None,
        number_format_code: None,
        horizontal_alignment: None,
        borders: None,
    }
}

fn text_cell(text: &str) -> Option<StoredCell> {
    let number = text.parse::<f64>().ok().map(f64::to_bits);
    Some(StoredCell { text: text.to_string(), number, style: plain_style() })
}

/// Name/Score/Grade with three data rows, as the spreadsheet reader gives it.
fn sample_workbook() -> Workbook {
    let rows = vec![
        vec![text_cell("Name"), text_cell("Score"), text_cell("Grade")],
        vec![text_cell("Alice"), text_cell("95"), text_cell("=IF(B2>=90,\"A\",\"B\")")],
        vec![text_cell("Bob"), text_cell("78"), text_cell("=IF(B3>=90,\"A\",\"B\")")],
        vec![text_cell("Charlie"), text_cell("88"), text_cell("=IF(B4>=90,\"A\",\"B\")")],
    ];
    Workbook {
        sheets: vec![Worksheet {
            name: "Sheet1".to_string(),
            highest_column: 3,
            highest_row: 4,
            cells: rows,
        }],
    }
}

fn formatted_workbook() -> Workbook {
    let mut bold = plain_style();
    bold.font = Some(FontStyle {
        color_argb: "FF000000".to_string(),
        bold: true,
        italic: false,
        size: 11.0f64.to_bits(),
    });
    let mut colored = plain_style();
    colored.background_argb = Some("FFFF0000".to_string());
    let mut bordered = plain_style();
    bordered.borders = Some(BorderStyles {
        left: "thin".to_string(),
        right: String::new(),
        top: String::new(),
        bottom: String::new(),
    });
    let cell = |t: &str, s: CellStyle| Some(StoredCell { text: t.to_string(), number: None, style: s });
    Workbook {
        sheets: vec![Worksheet {
            name: "Sheet1".to_string(),
            highest_column: 3,
            highest_row: 2,
            cells: vec![
                vec![cell("Header", bold), cell("Colored", colored), cell("Bordered", bordered)],
                vec![text_cell("Alice"), text_cell("42"), text_cell("Yes")],
            ],
        }],
    }
}

fn sample_grid() -> ValueGrid {
    ValueGrid {
        first_row: 0,
        first_col: 0,
        rows: vec![
            vec![
                CellValue::String("Name".into()),
                CellValue::String("Score".into()),
                CellValue::String("Grade".into()),
            ],
            vec![
                CellValue::String("Alice".into()),
                CellValue::Number(95.0f64.to_bits()),
                CellValue::String("A".into()),
            ],
        ],
    }
}

#[test]
fn read_structure_returns_all_sheets() {
    let result = read_structure(&sample_workbook(), 10);
    assert_eq!(result.sheets.len(), 1);
    let sheet = &result.sheets[0];
    assert_eq!(sheet.name, "Sheet1");
    assert_eq!(sheet.total_columns, 3);
    assert_eq!(sheet.total_rows, 4);
    assert_eq!(sheet.preview.len(), 4);
}

#[test]
fn read_structure_preview_rows() {
    let result = read_structure(&sample_workbook(), 2);
    let sheet = &result.sheets[0];
    assert_eq!(sheet.preview.len(), 2);
    assert_eq!(sheet.preview[0][0].value, CellValue::String("Name".to_string()));
    assert_eq!(sheet.preview[0][1].value, CellValue::String("Score".to_string()));
    assert_eq!(sheet.preview[1][0].value, CellValue::String("Alice".to_string()));
    assert_eq!(sheet.preview[1][1].value, CellValue::Number(95.0f64.to_bits()));
    assert_eq!(sheet.preview[1][2].coordinate, "C2");
}

#[test]
fn read_structure_returns_formatting() {
    let result = read_structure(&formatted_workbook(), 2);
    let sheet = &result.sheets[0];
    assert_eq!(sheet.preview.len(), 2);
    assert!(sheet.preview[0][0].format.bold);
    assert_eq!(sheet.preview[0][0].format.font_color.as_deref(), Some("#000000"));
    assert_eq!(sheet.preview[0][0].format.font_size, Some(11.0f64.to_bits()));
    assert_eq!(sheet.preview[0][1].format.background_color.as_deref(), Some("#FF0000"));
    assert!(sheet.preview[0][2].format.has_border);
}

#[test]
fn read_structure_absent_cells_are_empty() {
    let mut wb = sample_workbook();
    wb.sheets[0].cells[1].truncate(1);
    let result = read_structure(&wb, 3);
    let row = &result.sheets[0].preview[1];
    assert_eq!(row.len(), 3);
    assert_eq!(row[2].value, CellValue::Empty);
    assert!(!row[2].format.bold);
}

#[test]
fn count_from_range_end() {
    let c = RowCount::from_range_end("Sheet1", Some((3, 2)));
    assert_eq!(c.sheet_name, "Sheet1");
    assert_eq!(c.total_rows, 4);
    assert_eq!(c.total_columns, 3);
    let empty = RowCount::from_range_end("Empty", None);
    assert_eq!((empty.total_rows, empty.total_columns), (0, 0));
}

#[test]
fn get_range_values_only_reads_grid() {
    let result = get_range_values_only(&sample_grid(), "Sheet1", "A1:B2").unwrap();
    assert_eq!(result.rows.len(), 2);
    assert_eq!(result.rows[0].len(), 2);
    assert_eq!(result.rows[0][0].value, CellValue::String("Name".to_string()));
    assert_eq!(result.rows[0][1].value, CellValue::String("Score".to_string()));
    assert_eq!(result.rows[1][0].value, CellValue::String("Alice".to_string()));
    assert!(result.rows[0][0].format.is_none());
    assert_eq!(result.range, "A1:B2");
}

#[test]
fn get_range_out_of_bounds_returns_empty() {
    let result = get_range_values_only(&sample_grid(), "Sheet1", "E10:F11").unwrap();
    assert_eq!(result.rows.len(), 2);
    assert_eq!(result.rows[0].len(), 2);
    assert_eq!(result.rows[0][0].value, CellValue::Empty);
}

#[test]
fn get_range_offset_grid_and_reversed_range() {
    let grid = ValueGrid {
        first_row: 4,
        first_col: 2,
        rows: vec![vec![CellValue::Bool(true)]],
    };
    let result = get_range_values_only(&grid, "S", "C5:D5").unwrap();
    assert_eq!(result.rows[0][0].value, CellValue::Bool(true));
    assert_eq!(result.rows[0][1].value, CellValue::Empty);
    // Corners written bottom first read the same block as top first.
    let reversed = get_range_values_only(&grid, "S", "D5:C4").unwrap();
    assert_eq!(reversed.range, "D5:C4");
    assert_eq!(reversed.rows.len(), 2);
    assert_eq!(reversed.rows[0].len(), 2);
    assert_eq!(reversed.rows[0][0].value, CellValue::Empty);
    assert_eq!(reversed.rows[1][0].value, CellValue::Bool(true));
    assert_eq!(reversed.rows[1][1].value, CellValue::Empty);
}

#[test]
fn get_range_bad_range_errors() {
    let result = get_range_values_only(&sample_grid(), "Sheet1", "A1B2");
    assert!(matches!(result, Err(SheetsError::InvalidCoordinate(_))));
}

#[test]
fn get_range_with_format_returns_styles() {
    let result = get_range_with_format(&formatted_workbook(), "Sheet1", "A1:C1").unwrap();
    assert_eq!(result.rows.len(), 1);
    assert_eq!(result.rows[0].len(), 3);
    assert!(result.rows[0][0].format.is_some());
    assert!(result.rows[0][0].format.as_ref().unwrap().bold);
    assert!(result.rows[0][1].format.as_ref().unwrap().background_color.is_some());
    assert!(result.rows[0][2].format.as_ref().unwrap().has_border);
    assert_eq!(result.rows[0][0].value, CellValue::String("Header".to_string()));
}

#[test]
fn get_range_with_format_sheet_not_found() {
    let result = get_range_with_format(&sample_workbook(), "WrongSheet", "A1:A1");
    match result {
        Err(e) => {
            let msg = e.message();
            assert!(msg.contains("Sheet1"), "Error should list available sheets: {msg}");
        }
        Ok(_) => panic!("expected an error"),
    }
}

#[test]
fn sheet_lookup_finds_first_match() {
    let mut wb = sample_workbook();
    let mut second = wb.sheets[0].clone();
    second.name = "Other".to_string();
    wb.sheets.push(second);
    assert_eq!(wb.sheet_by_name("Other").unwrap(), 1);
    assert_eq!(wb.sheet_names(), vec!["Sheet1".to_string(), "Other".to_string()]);
}

#[test]
fn stored_values_convert() {
    let make = |t: &str| StoredCell {
        text: t.to_string(),
        number: t.parse::<f64>().ok().map(f64::to_bits),
        style: plain_style(),
    };
    assert_eq!(cell_value_from_umya(&make("")), CellValue::Empty);
    assert_eq!(cell_value_from_umya(&make("2.5")), CellValue::Number(2.5f64.to_bits()));
    assert_eq!(cell_value_from_umya(&make("TRUE")), CellValue::Bool(true));
    assert_eq!(cell_value_from_umya(&make("False")), CellValue::Bool(false));
    assert_eq!(cell_value_from_umya(&make("yes")), CellValue::String("yes".into()));
}

#[test]
fn formats_filter_defaults() {
    let mut style = plain_style();
    style.number_format_code = Some("General".to_string());
    style.horizontal_alignment = Some("Start".to_string());
    let f = extract_format(&style);
    assert_eq!(f.number_format, None);
    assert_eq!(f.horizontal_alignment, None);
    style.number_format_code = Some("0.00%".to_string());
    style.horizontal_alignment = Some("Center".to_string());
    let f = extract_format(&style);
    assert_eq!(f.number_format.as_deref(), Some("0.00%"));
    assert_eq!(f.horizontal_alignment.as_deref(), Some("Center"));
}

#[test]
fn argb_strings_parse() {
    assert_eq!(parse_argb_u32("FFC0C0C0"), 0xFFC0C0C0);
    assert_eq!(parse_argb_u32("ffc0c0c0"), 0xFFC0C0C0);
    assert_eq!(parse_argb_u32("+1F"), 0x1F);
    assert_eq!(parse_argb_u32(""), 0);
    assert_eq!(parse_argb_u32("+"), 0);
    assert_eq!(parse_argb_u32("XYZ"), 0);
    assert_eq!(parse_argb_u32("1FFFFFFFF"), 0);
}
