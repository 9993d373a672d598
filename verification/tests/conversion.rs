use sheets_mcp::conversion::{soffice_args, soffice_result, ConversionTarget, SofficeOutcome};
use sheets_mcp::error::SheetsError;

fn failure_text(r: Result<(), SheetsError>) -> String {
    match r {
        Err(SheetsError::ExternalConversionFailed(m)) => m,
        other => panic!("unexpected {other:?}"),
    }
}

#[test]
fn soffice_args_for_each_target() {
    let args = soffice_args("/tmp/p", ConversionTarget::Xlsx, "/tmp/out", "/tmp/out/a.xls");
    assert_eq!(
        args,
        vec![
            "--headless",
            "-env:UserInstallation=file:///tmp/p",
            "--convert-to",
            "xlsx",
            "--outdir",
            "/tmp/out",
            "/tmp/out/a.xls",
        ]
    );
    let args = soffice_args("/p", ConversionTarget::Xls, "/o", "/i.xlsx");
    assert_eq!(args[3], "xls:MS Excel 97");
    assert_eq!(args.len(), 7);
}

#[test]
fn conversion_output_names() {
    assert_eq!(ConversionTarget::Xlsx.output_file_name("report"), "report.xlsx");
    assert_eq!(ConversionTarget::Xls.output_file_name("report"), "report.xls");
    assert_eq!(ConversionTarget::Xls.extension(), "xls");
    assert_eq!(ConversionTarget::Xlsx.convert_to(), "xlsx");
    assert_eq!(
        failure_text(Err(ConversionTarget::Xlsx.missing_output_error())),
        "soffice did not produce the expected .xlsx output"
    );
    assert_eq!(
        failure_text(Err(ConversionTarget::Xls.missing_output_error())),
        "soffice did not produce the expected .xls output"
    );
}

#[test]
fn soffice_outcomes_reported() {
    assert!(soffice_result(SofficeOutcome::Exited {
        success: true,
        status: "exit status: 0".to_string(),
        stderr: "noise".to_string(),
    })
    .is_ok());
    assert_eq!(
        failure_text(soffice_result(SofficeOutcome::TimedOut)),
        "LibreOffice (soffice) conversion timed out after 30s"
    );
    assert_eq!(
        failure_text(soffice_result(SofficeOutcome::NotInstalled)),
        "Writing legacy .xls requires LibreOffice (`soffice`) to be installed and on PATH"
    );
    assert_eq!(
        failure_text(soffice_result(SofficeOutcome::SpawnFailed("permission denied".to_string()))),
        "failed to run soffice: permission denied"
    );
    assert_eq!(
        failure_text(soffice_result(SofficeOutcome::Exited {
            success: false,
            status: "exit status: 1".to_string(),
            stderr: "bad file".to_string(),
        })),
        "soffice exited with exit status: 1: bad file"
    );
}

#[test]
fn test_run_soffice_missing_binary_errors_clearly() {
    // A binary that cannot be found is reported as not installed.
    let result = soffice_result(SofficeOutcome::NotInstalled);
    match result {
        Err(SheetsError::ExternalConversionFailed(msg)) => {
            assert!(
                msg.contains("LibreOffice") && msg.contains("PATH"),
                "expected an actionable message, got: {msg}"
            );
        }
        other => panic!("expected ExternalConversionFailed, got: {other:?}"),
    }
}
