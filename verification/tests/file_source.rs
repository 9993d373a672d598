use std::path::PathBuf;

use sheets_mcp::error::SheetsError;
use sheets_mcp::file_source::{
    cache_file_name, cache_file_name_for, cache_name_from, is_legacy_xls, legacy_xls_extension,
    FileSource,
};

#[test]
fn write_target_path_no_output() {
    let src = FileSource::Path {
        file_path: "/tmp/test.xlsx".into(),
    };
    let target = src.write_target(None).unwrap();
    assert_eq!(PathBuf::from(target), PathBuf::from("/tmp/test.xlsx"));
}

#[test]
fn write_target_path_with_output() {
    let src = FileSource::Path {
        file_path: "/tmp/test.xlsx".into(),
    };
    let target = src.write_target(Some("/tmp/out.xlsx")).unwrap();
    assert_eq!(PathBuf::from(target), PathBuf::from("/tmp/out.xlsx"));
}

#[test]
fn write_target_url_with_output() {
    let src = FileSource::Url {
        url: "https://example.com/data.xlsx".into(),
    };
    let target = src.write_target(Some("/tmp/out.xlsx")).unwrap();
    assert_eq!(PathBuf::from(target), PathBuf::from("/tmp/out.xlsx"));
}

#[test]
fn write_target_url_no_output_errors() {
    let src = FileSource::Url {
        url: "https://example.com/data.xlsx".into(),
    };
    let result = src.write_target(None);
    assert!(matches!(result, Err(SheetsError::MissingOutputPath)));
}

#[test]
fn legacy_xls_detection() {
    assert!(is_legacy_xls("/data/report.xls"));
    assert!(is_legacy_xls("/data/REPORT.XLS"));
    assert!(!is_legacy_xls("/data/report.xlsx"));
    assert!(!is_legacy_xls("/data/xls"));
    assert!(!is_legacy_xls("/data/.xls"));
}

#[test]
fn cache_names_keep_extension() {
    assert_eq!(cache_file_name_for(0xabc, "https://example.com/data.xls"), "abc.xls");
    assert_eq!(cache_file_name_for(0, "https://example.com/download"), "0.xlsx");
    assert_eq!(cache_file_name_for(u64::MAX, "a/b.csv"), "ffffffffffffffff.csv");
    let name = cache_file_name("https://example.com/data.xlsx");
    assert!(name.ends_with(".xlsx"));
    assert_eq!(name, cache_file_name("https://example.com/data.xlsx"));
}

#[test]
fn legacy_xls_extension_any_case() {
    assert!(legacy_xls_extension(Some("xls")));
    assert!(legacy_xls_extension(Some("XlS")));
    assert!(!legacy_xls_extension(Some("xlsx")));
    assert!(!legacy_xls_extension(Some("xl")));
    assert!(!legacy_xls_extension(Some("")));
    assert!(!legacy_xls_extension(None));
}

#[test]
fn cache_name_from_hash_and_extension() {
    assert_eq!(cache_name_from(0x1f, Some("xls")), "1f.xls");
    assert_eq!(cache_name_from(0x1f, Some("XLSX")), "1f.XLSX");
    assert_eq!(cache_name_from(10, None), "a.xlsx");
    assert_eq!(cache_name_from(0xdeadbeef, Some("")), "deadbeef.");
}
