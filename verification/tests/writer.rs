use sheets_mcp::error::SheetsError;
use sheets_mcp::types::{CellCoordinate, UpdateResult};
use sheets_mcp::file_source::FileSource;
use sheets_mcp::writer::{
    update_cell_plan, update_cells_plan, update_target,
    bool_write_value, cell_write_value, find_sheet, paste_count, paste_shape, paste_writes, require_data,
    single_write, WriteValue,
};

fn strings(rows: &[&[&str]]) -> Vec<Vec<String>> {
    rows.iter().map(|r| r.iter().map(|s| s.to_string()).collect()).collect()
}

#[test]
fn paste_plan_targets_block() {
    let start = CellCoordinate::parse("B2").unwrap();
    let data = strings(&[&["x", "y"], &["z", "w"]]);
    let writes = paste_writes(&start, &data);
    let refs: Vec<Vec<String>> = writes
        .iter()
        .map(|r| r.iter().map(|w| w.cell_ref.clone()).collect())
        .collect();
    assert_eq!(refs, strings(&[&["B2", "C2"], &["B3", "C3"]]));
    match &writes[1][0].value {
        WriteValue::Text(t) => assert_eq!(t, "z"),
        other => panic!("unexpected {other:?}"),
    }
    assert_eq!(paste_count(&data), 4);
    assert_eq!(paste_shape(&data), (2, 2));
}

#[test]
fn paste_ragged_rows() {
    let start = CellCoordinate::parse("E2").unwrap();
    let data = strings(&[&["X", "100"], &["Y"], &["Z", "300", "!"]]);
    let writes = paste_writes(&start, &data);
    assert_eq!(writes[2][2].cell_ref, "G4");
    assert_eq!((writes[2][2].column_index, writes[2][2].row), (6, 4));
    assert_eq!(paste_count(&data), 6);
    assert_eq!(paste_shape(&data), (3, 3));
}

#[test]
fn paste_requires_data() {
    assert!(matches!(
        require_data(&[]),
        Err(SheetsError::MissingField(m)) if m == "data must not be empty"
    ));
    assert!(require_data(&strings(&[&[]])).is_ok());
}

#[test]
fn write_values_by_type() {
    assert!(matches!(
        cell_write_value("42", "number", Some(42.0f64.to_bits())),
        Ok(WriteValue::Number(b)) if b == 42.0f64.to_bits()
    ));
    assert!(matches!(cell_write_value("TRUE", "bool", None), Ok(WriteValue::Bool(true))));
    assert!(matches!(cell_write_value("false", "bool", None), Ok(WriteValue::Bool(false))));
    assert!(matches!(cell_write_value("Zara", "string", None), Ok(WriteValue::Text(t)) if t == "Zara"));
    assert!(matches!(cell_write_value("7", "other", None), Ok(WriteValue::Text(t)) if t == "7"));
    match cell_write_value("abc", "number", None) {
        Err(SheetsError::InvalidCoordinate(m)) => assert_eq!(m, "Cannot parse 'abc' as a number"),
        other => panic!("unexpected {other:?}"),
    }
    match cell_write_value("yes", "bool", None) {
        Err(SheetsError::InvalidCoordinate(m)) => assert_eq!(
            m,
            "Cannot parse 'yes' as a boolean (expected 'true' or 'false')"
        ),
        other => panic!("unexpected {other:?}"),
    }
}

#[test]
fn sheet_must_exist() {
    let names = vec!["Sheet1".to_string()];
    assert!(find_sheet(&names, "Sheet1").is_ok());
    assert!(matches!(find_sheet(&names, "NonExistent"), Err(SheetsError::SheetNotFound { .. })));
}

#[test]
fn single_cell_update() {
    let coord = CellCoordinate::parse("b5").unwrap();
    let w = single_write(&coord, WriteValue::Bool(true));
    assert_eq!(w.cell_ref, "B5");
    let r = UpdateResult::for_cell("Sheet1", "/tmp/out.xlsx", &w.cell_ref);
    assert_eq!(r.updated_count, 1);
    assert_eq!(r.start.as_deref(), Some("B5"));
    assert_eq!((r.rows, r.columns), (Some(1), Some(1)));
    let p = UpdateResult::for_paste(6, "Sheet1", "/tmp/o.xlsx", "E2", 3, 2);
    assert_eq!(p.start.as_deref(), Some("E2"));
    assert_eq!((p.updated_count, p.rows, p.columns), (6, Some(3), Some(2)));
}

#[test]
fn update_target_order_of_errors() {
    let url = FileSource::Url { url: "https://example.com/a.xlsx".into() };
    // The missing output path comes before the bad coordinate.
    assert!(matches!(update_target(&url, None, "1A"), Err(SheetsError::MissingOutputPath)));
    assert!(matches!(
        update_target(&url, Some("/tmp/o.xlsx"), "1A"),
        Err(SheetsError::InvalidCoordinate(_))
    ));
    let path = FileSource::Path { file_path: "/tmp/in.xlsx".into() };
    let (out, c) = update_target(&path, None, "c3").unwrap();
    assert_eq!(out, "/tmp/in.xlsx");
    assert_eq!((c.column_index, c.row), (2, 3));
}

#[test]
fn whole_update_plans() {
    let names = vec!["Sheet1".to_string()];
    let coord = CellCoordinate::parse("A1").unwrap();
    let (w, r) =
        update_cell_plan(&names, "Sheet1", &coord, "Zara", "string", None, "/tmp/o.xlsx").unwrap();
    assert_eq!(w.cell_ref, "A1");
    assert_eq!(r.start.as_deref(), Some("A1"));
    assert_eq!(r.output_path, "/tmp/o.xlsx");
    // The sheet is looked up before the value is checked.
    assert!(matches!(
        update_cell_plan(&names, "Nope", &coord, "x", "number", None, "/o"),
        Err(SheetsError::SheetNotFound { .. })
    ));
    let start = CellCoordinate::parse("E2").unwrap();
    let data = strings(&[&["X", "100"], &["Y", "200"], &["Z", "300"]]);
    let (writes, res) =
        update_cells_plan(&names, "Sheet1", &start, "E2", &data, "/tmp/o.xlsx").unwrap();
    assert_eq!(writes[2][1].cell_ref, "F4");
    assert_eq!(res.updated_count, 6);
    assert_eq!((res.rows, res.columns), (Some(3), Some(2)));
    assert_eq!(res.start.as_deref(), Some("E2"));
    // An unknown sheet is reported even for a block that would overflow.
    let far = CellCoordinate::from_index(u32::MAX, 1);
    assert!(matches!(
        update_cells_plan(&names, "Nope", &far, "X1", &data, "/o"),
        Err(SheetsError::SheetNotFound { .. })
    ));
}

#[test]
fn bool_from_lowercase_text() {
    assert!(matches!(bool_write_value("TRUE", "true"), Ok(WriteValue::Bool(true))));
    assert!(matches!(bool_write_value("False", "false"), Ok(WriteValue::Bool(false))));
    match bool_write_value("Yes", "yes") {
        Err(SheetsError::InvalidCoordinate(m)) => {
            assert_eq!(m, "Cannot parse 'Yes' as a boolean (expected 'true' or 'false')")
        }
        other => panic!("unexpected {other:?}"),
    }
    // The decision goes by the lowercase text alone.
    assert!(matches!(bool_write_value("whatever", "true"), Ok(WriteValue::Bool(true))));
}

#[test]
fn cell_write_value_bool_goes_through_lowercase() {
    assert!(matches!(cell_write_value("True", "bool", None), Ok(WriteValue::Bool(true))));
    assert!(matches!(cell_write_value("fAlSe", "bool", None), Ok(WriteValue::Bool(false))));
    assert!(matches!(cell_write_value("1", "bool", None), Err(SheetsError::InvalidCoordinate(_))));
}
