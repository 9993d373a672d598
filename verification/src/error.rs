//! The one error type of the library, and its messages.

use vstd::prelude::*;
use crate::text;
use crate::text::join_strings;

verus! {

/// Unified error type for sheets_mcp operations.
///
/// Every fallible operation returns `Result<T, SheetsError>`. At the MCP
/// tool boundary, errors are converted to strings (see
/// [`SheetsError::message`]).
#[derive(Debug)]
pub enum SheetsError {
    /// The specified file does not exist on disk.
    FileNotFound(String),
    /// The specified sheet name was not found in the workbook.
    SheetNotFound {
        /// The requested sheet name.
        sheet: String,
        /// Comma-separated list of available sheet names.
        available: String,
    },
    /// A cell coordinate string could not be parsed.
    InvalidCoordinate(String),
    /// An I/O error occurred (file read/write, directory creation); the
    /// text of the underlying error.
    Io(String),
    /// An HTTP error occurred during URL download; the text of the
    /// underlying error.
    Http(String),
    /// An error from the spreadsheet readers and writers.
    Spreadsheet(String),
    /// Write tools require `output_path` when the source is a URL.
    MissingOutputPath,
    /// The write target path is an existing directory, not a file.
    WriteTargetIsDirectory(String),
    /// The file format is not supported (e.g. `.xls` for writes).
    UnsupportedFormat(String),
    /// A required field is missing from the tool input.
    MissingField(String),
    /// Shelling out to an external tool (e.g. LibreOffice) for format
    /// conversion failed, timed out, or the binary was not found.
    ExternalConversionFailed(String),
}

/// The list of sheet names that a "sheet not found" error shows.
pub open spec fn available_list(names: Seq<Seq<char>>) -> Seq<char> {
    if names.len() == 0 {
        "(workbook has no sheets)"@
    } else {
        text::seq_join(names, ", "@)
    }
}

/// The human-readable text of an error.
pub open spec fn error_text(e: SheetsError) -> Seq<char> {
    match e {
        SheetsError::FileNotFound(p) => "File not found: "@ + p@,
        SheetsError::SheetNotFound { sheet, available } => "Sheet not found: '"@ + sheet@
            + "' (available sheets: "@ + available@ + ")"@,
        SheetsError::InvalidCoordinate(m) => "Invalid cell coordinate: "@ + m@,
        SheetsError::Io(m) => "IO error: "@ + m@,
        SheetsError::Http(m) => "HTTP error: "@ + m@,
        SheetsError::Spreadsheet(m) => "Spreadsheet error: "@ + m@,
        SheetsError::MissingOutputPath => "Output path required when source is a URL"@,
        SheetsError::WriteTargetIsDirectory(p) => "Write target is a directory: "@ + p@,
        SheetsError::UnsupportedFormat(m) => "Unsupported file format: "@ + m@,
        SheetsError::MissingField(m) => "Missing required field: "@ + m@,
        SheetsError::ExternalConversionFailed(m) => "External conversion failed: "@ + m@,
    }
}

fn prefixed(prefix: &str, body: &String) -> (s: String)
    ensures
        s@ == prefix@ + body@,
{
    let mut s = String::from_str(prefix);
    s.append(body.as_str());
    s
}

impl SheetsError {
    /// Build a SheetNotFound error with the list of available sheet names.
    pub fn sheet_not_found(name: &str, available: &[String]) -> (e: Self)
        ensures
            e matches SheetsError::SheetNotFound { sheet, available: list } && sheet@ == name@
                && list@ == available_list(available@.map_values(|x: String| x@)),
    {
        let list = if available.len() == 0 {
            String::from_str("(workbook has no sheets)")
        } else {
            join_strings(available, ", ")
        };
        SheetsError::SheetNotFound { sheet: String::from_str(name), available: list }
    }

    /// The human-readable text of the error, as shown at the tool boundary.
    pub fn message(&self) -> (s: String)
        ensures
            s@ == error_text(*self),
    {
        match self {
            SheetsError::FileNotFound(p) => prefixed("File not found: ", p),
            SheetsError::SheetNotFound { sheet, available } => {
                let mut s = String::from_str("Sheet not found: '");
                s.append(sheet.as_str());
                s.append("' (available sheets: ");
                s.append(available.as_str());
                s.append(")");
                s
            },
            SheetsError::InvalidCoordinate(m) => prefixed("Invalid cell coordinate: ", m),
            SheetsError::Io(m) => prefixed("IO error: ", m),
            SheetsError::Http(m) => prefixed("HTTP error: ", m),
            SheetsError::Spreadsheet(m) => prefixed("Spreadsheet error: ", m),
            SheetsError::MissingOutputPath => String::from_str(
                "Output path required when source is a URL",
            ),
            SheetsError::WriteTargetIsDirectory(p) => prefixed("Write target is a directory: ", p),
            SheetsError::UnsupportedFormat(m) => prefixed("Unsupported file format: ", m),
            SheetsError::MissingField(m) => prefixed("Missing required field: ", m),
            SheetsError::ExternalConversionFailed(m) => prefixed(
                "External conversion failed: ",
                m,
            ),
        }
    }
}

} // verus!
