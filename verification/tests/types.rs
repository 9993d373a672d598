use sheets_mcp::types::{
    argb_to_hex, col_index_to_letter, coordinate_overflows_in, range_overflows_in, CellCoordinate,
    CellFormat, CellRange, CellValue,
};
use sheets_mcp::error::SheetsError;

// ── CellCoordinate ──────────────────────

#[test]
fn parse_simple() {
    let c = CellCoordinate::parse("A1").unwrap();
    assert_eq!(c.column, "A");
    assert_eq!(c.column_index, 0);
    assert_eq!(c.row, 1);
}

#[test]
fn parse_z99() {
    let c = CellCoordinate::parse("Z99").unwrap();
    assert_eq!(c.column, "Z");
    assert_eq!(c.column_index, 25);
    assert_eq!(c.row, 99);
}

#[test]
fn parse_double_letter() {
    let c = CellCoordinate::parse("AA1").unwrap();
    assert_eq!(c.column, "AA");
    assert_eq!(c.column_index, 26);
    assert_eq!(c.row, 1);
}

#[test]
fn parse_double_letter_2() {
    let c = CellCoordinate::parse("AB10").unwrap();
    assert_eq!(c.column, "AB");
    assert_eq!(c.column_index, 27);
    assert_eq!(c.row, 10);
}

#[test]
fn round_trip_display() {
    let c = CellCoordinate::parse("AA42").unwrap();
    assert_eq!(c.to_string(), "AA42");
}

#[test]
fn from_index_round_trip() {
    let c = CellCoordinate::from_index(26, 1);
    assert_eq!(c.column, "AA");
    assert_eq!(c.column_index, 26);
    assert_eq!(c.row, 1);
}

#[test]
fn invalid_no_row() {
    assert!(CellCoordinate::parse("A").is_err());
}

#[test]
fn invalid_no_col() {
    assert!(CellCoordinate::parse("1").is_err());
}

#[test]
fn invalid_row_zero() {
    assert!(CellCoordinate::parse("A0").is_err());
}

#[test]
fn col_index_to_letter_basic() {
    assert_eq!(col_index_to_letter(0), "A");
    assert_eq!(col_index_to_letter(25), "Z");
    assert_eq!(col_index_to_letter(26), "AA");
    assert_eq!(col_index_to_letter(27), "AB");
    assert_eq!(col_index_to_letter(51), "AZ");
    assert_eq!(col_index_to_letter(52), "BA");
}

// ── CellRange ──────────────────────────

#[test]
fn parse_range_simple() {
    let r = CellRange::parse("A1:B10").unwrap();
    assert!(r.sheet.is_none());
    assert_eq!(r.start, CellCoordinate::parse("A1").unwrap());
    assert_eq!(r.end, CellCoordinate::parse("B10").unwrap());
}

#[test]
fn parse_range_with_sheet() {
    let r = CellRange::parse("Sheet1!A1:Z100").unwrap();
    assert_eq!(r.sheet.as_deref(), Some("Sheet1"));
    assert_eq!(r.start, CellCoordinate::parse("A1").unwrap());
    assert_eq!(r.end, CellCoordinate::parse("Z100").unwrap());
}

#[test]
fn display_range() {
    let r = CellRange::parse("Sheet1!A1:Z100").unwrap();
    assert_eq!(r.to_string(), "Sheet1!A1:Z100");
}

#[test]
fn display_range_no_sheet() {
    let r = CellRange::parse("A1:B10").unwrap();
    assert_eq!(r.to_string(), "A1:B10");
}

// ── Additional edge-case tests ────────

#[test]
fn parse_zz99() {
    let c = CellCoordinate::parse("ZZ99").unwrap();
    assert_eq!(c.column, "ZZ");
    assert_eq!(c.column_index, 701);
    assert_eq!(c.row, 99);
}

#[test]
fn parse_empty_string_errors() {
    assert!(CellCoordinate::parse("").is_err());
}

#[test]
fn parse_digit_only_errors() {
    assert!(CellCoordinate::parse("1A").is_err());
}

#[test]
fn parse_lowercase_normalizes() {
    let c = CellCoordinate::parse("a1").unwrap();
    assert_eq!(c.column, "A");
}

#[test]
fn from_index_various() {
    let c0 = CellCoordinate::from_index(0, 1);
    assert_eq!(c0.column, "A");
    assert_eq!(c0.column_index, 0);
    assert_eq!(c0.row, 1);

    let c25 = CellCoordinate::from_index(25, 100);
    assert_eq!(c25.column, "Z");
    assert_eq!(c25.column_index, 25);
    assert_eq!(c25.row, 100);

    let c52 = CellCoordinate::from_index(52, 1);
    assert_eq!(c52.column, "BA");
    assert_eq!(c52.column_index, 52);
}

#[test]
fn parse_range_invalid_no_colon() {
    assert!(CellRange::parse("A1B10").is_err());
}

#[test]
fn parse_range_invalid_bad_start() {
    assert!(CellRange::parse("1:B10").is_err());
}

#[test]
fn argb_to_hex_zero_returns_none() {
    assert_eq!(argb_to_hex(0), None);
}

#[test]
fn argb_to_hex_red() {
    assert_eq!(argb_to_hex(0xFF0000), Some("#FF0000".to_string()));
}

#[test]
fn argb_to_hex_strips_alpha() {
    // ARGB = 0xAAFF0000 → should strip alpha AA
    assert_eq!(argb_to_hex(0xAAFF0000), Some("#FF0000".to_string()));
}

#[test]
fn cell_value_empty_eq() {
    assert_eq!(CellValue::Empty, CellValue::Empty);
}

#[test]
fn cell_format_default() {
    let f = CellFormat::default();
    assert!(!f.bold);
    assert!(!f.italic);
    assert!(!f.has_border);
    assert!(f.background_color.is_none());
    assert!(f.font_color.is_none());
}

// ── further cases ─────────────────────

fn invalid_message(r: Result<CellCoordinate, SheetsError>) -> String {
    match r {
        Err(SheetsError::InvalidCoordinate(m)) => m,
        other => panic!("expected InvalidCoordinate, got {other:?}"),
    }
}

#[test]
fn parse_trims_white_space() {
    let c = CellCoordinate::parse("  b7\t").unwrap();
    assert_eq!(c.column, "B");
    assert_eq!(c.column_index, 1);
    assert_eq!(c.row, 7);
}

#[test]
fn parse_error_messages() {
    assert_eq!(invalid_message(CellCoordinate::parse(" A ")), "'A' has no row number");
    assert_eq!(invalid_message(CellCoordinate::parse("12")), "'12' has no column letters");
    assert_eq!(invalid_message(CellCoordinate::parse("A$1")), "Invalid column character: '$'");
    assert_eq!(invalid_message(CellCoordinate::parse("A1x")), "'A1x' has an invalid row number");
    assert_eq!(
        invalid_message(CellCoordinate::parse("A99999999999")),
        "'A99999999999' has an invalid row number"
    );
    assert_eq!(invalid_message(CellCoordinate::parse("A00")), "'A00' row must be >= 1");
}

#[test]
fn parse_leading_zero_row() {
    let c = CellCoordinate::parse("C007").unwrap();
    assert_eq!(c.row, 7);
    assert_eq!(c.to_string(), "C7");
}

#[test]
fn parse_largest_column() {
    // MWLQKWU is the largest column whose letters fit in 32 bits.
    let c = CellCoordinate::parse("MWLQKWU1").unwrap();
    assert_eq!(c.column_index, u32::MAX - 1);
    assert!(!coordinate_overflows_in("MWLQKWU1"));
    assert!(coordinate_overflows_in("MWLQKWV1"));
    assert!(coordinate_overflows_in(" AAAAAAAA1"));
    assert!(!coordinate_overflows_in("$AAAAAAAA1"));
}

#[test]
fn letters_and_index_round_trip() {
    for i in [0u32, 1, 25, 26, 701, 702, 18277, 18278, 1_000_000, u32::MAX - 1] {
        let c = CellCoordinate::from_index(i, 3);
        let back = CellCoordinate::parse(&c.to_string()).unwrap();
        assert_eq!(back, c);
    }
    assert_eq!(col_index_to_letter(u32::MAX), "MWLQKWV");
}

#[test]
fn range_round_trip() {
    for s in ["a1:b2", " Data!c3:D10 ", "!A1:A1", "x:y!B2:C3"] {
        let r = CellRange::parse(s).unwrap();
        let again = CellRange::parse(&r.to_string()).unwrap();
        assert_eq!(again, r);
    }
}

#[test]
fn range_error_messages() {
    match CellRange::parse(" A1B2 ") {
        Err(SheetsError::InvalidCoordinate(m)) => assert_eq!(m, "Range 'A1B2' must contain ':'"),
        other => panic!("unexpected {other:?}"),
    }
    match CellRange::parse("S!A1:B") {
        Err(SheetsError::InvalidCoordinate(m)) => assert_eq!(m, "'B' has no row number"),
        other => panic!("unexpected {other:?}"),
    }
    assert!(range_overflows_in("A1:AAAAAAAA2"));
    assert!(!range_overflows_in("1:AAAAAAAA2"));
}

#[test]
fn argb_to_hex_other_colors() {
    assert_eq!(argb_to_hex(0xFF0A0B0C), Some("#0A0B0C".to_string()));
    assert_eq!(argb_to_hex(0xFF000000), Some("#000000".to_string()));
    assert_eq!(argb_to_hex(0x00ABCDEF), Some("#ABCDEF".to_string()));
}

#[test]
fn parse_trims_unicode_white_space_only() {
    let c = CellCoordinate::parse("\u{a0}D4\u{3000}").unwrap();
    assert_eq!(c.to_string(), "D4");
    match CellCoordinate::parse("\u{200b}A1") {
        Err(SheetsError::InvalidCoordinate(m)) => {
            assert_eq!(m, "Invalid column character: '\u{200b}'")
        }
        other => panic!("unexpected {other:?}"),
    }
}

#[test]
fn column_letters_short_and_ordered() {
    let samples = [0u32, 1, 25, 26, 27, 51, 52, 701, 702, 703, 18277, 18278, 1_000_000, u32::MAX];
    for w in samples.windows(2) {
        let (a, b) = (col_index_to_letter(w[0]), col_index_to_letter(w[1]));
        assert!(a.len() < b.len() || (a.len() == b.len() && a < b), "{a} before {b}");
    }
    for i in samples {
        let l = col_index_to_letter(i);
        assert!(!l.is_empty() && l.len() <= 7);
    }
}

#[test]
fn parse_range_reversed_corners_normalize() {
    let r = CellRange::parse("B10:A1").unwrap();
    assert_eq!(r.start.to_string(), "A1");
    assert_eq!(r.end.to_string(), "B10");
    assert_eq!((r.start.column_index, r.start.row), (0, 1));
    assert_eq!((r.end.column_index, r.end.row), (1, 10));
    assert_eq!(r.to_string(), "A1:B10");

    // Top-right and bottom-left corners name the same block.
    let r = CellRange::parse("S!C2:A7").unwrap();
    assert_eq!(r.sheet.as_deref(), Some("S"));
    assert_eq!(r.start.to_string(), "A2");
    assert_eq!(r.end.to_string(), "C7");
    let r = CellRange::parse("a7:c2").unwrap();
    assert_eq!(r.start.to_string(), "A2");
    assert_eq!(r.end.to_string(), "C7");
    assert_eq!(CellRange::parse("AA3:Z3").unwrap().to_string(), "Z3:AA3");
    assert_eq!(CellRange::parse("B10:A1").unwrap(), CellRange::parse("A1:B10").unwrap());
    assert_eq!(CellRange::parse("A10:B1").unwrap(), CellRange::parse("B1:A10").unwrap());
}

#[test]
fn parse_range_corners_in_order() {
    for s in ["A1:B10", "B10:A1", "Z5:Z5", "ZZ1:A100", "x!D4:B2"] {
        let r = CellRange::parse(s).unwrap();
        assert!(r.start.row <= r.end.row, "{s}");
        assert!(r.start.column_index <= r.end.column_index, "{s}");
    }
}
