use sheets_mcp::error::SheetsError;

#[test]
fn sheet_not_found_lists_names() {
    let names = vec!["Sheet1".to_string(), "Data".to_string()];
    let e = SheetsError::sheet_not_found("Wrong", &names);
    assert_eq!(
        e.message(),
        "Sheet not found: 'Wrong' (available sheets: Sheet1, Data)"
    );
}

#[test]
fn sheet_not_found_without_sheets() {
    let e = SheetsError::sheet_not_found("X", &[]);
    match &e {
        SheetsError::SheetNotFound { sheet, available } => {
            assert_eq!(sheet, "X");
            assert_eq!(available, "(workbook has no sheets)");
        }
        other => panic!("unexpected {other:?}"),
    }
}

#[test]
fn messages_of_every_variant() {
    let cases = vec![
        (SheetsError::FileNotFound("/a.xlsx".into()), "File not found: /a.xlsx"),
        (SheetsError::InvalidCoordinate("bad".into()), "Invalid cell coordinate: bad"),
        (SheetsError::Io("denied".into()), "IO error: denied"),
        (SheetsError::Http("404".into()), "HTTP error: 404"),
        (SheetsError::Spreadsheet("zip".into()), "Spreadsheet error: zip"),
        (SheetsError::MissingOutputPath, "Output path required when source is a URL"),
        (SheetsError::WriteTargetIsDirectory("/tmp".into()), "Write target is a directory: /tmp"),
        (SheetsError::UnsupportedFormat("csv".into()), "Unsupported file format: csv"),
        (SheetsError::MissingField("data".into()), "Missing required field: data"),
        (
            SheetsError::ExternalConversionFailed("timeout".into()),
            "External conversion failed: timeout",
        ),
    ];
    for (e, text) in cases {
        assert_eq!(e.message(), text);
    }
}
