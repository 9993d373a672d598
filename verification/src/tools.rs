//! The input of the MCP tools.
//!
//! Each tool takes a file source (a local `file_path` or a remote `url`)
//! and its own fields. The application derives their JSON forms and
//! registers the tools with the protocol server.

use vstd::prelude::*;
use crate::file_source::FileSource;

verus! {

/// Arguments for the `read_structure` tool.
#[derive(Debug, Clone)]
pub struct ReadStructureArgs {
    /// File source: either `file_path` or `url`.
    pub source: FileSource,
    /// Number of preview rows per sheet (default: 10).
    pub first_n_rows: u32,
}

/// The number of preview rows per sheet when a request gives none.
pub fn default_first_n_rows() -> (n: u32)
    ensures
        n == 10,
{
    10
}

/// Arguments for the `count_sheet_rows` tool.
#[derive(Debug, Clone)]
pub struct CountSheetRowsArgs {
    /// File source: either `file_path` or `url`.
    pub source: FileSource,
    /// Name of the sheet to query.
    pub sheet_name: String,
}

/// Arguments for the `get_sheet_range` tool.
#[derive(Debug, Clone)]
pub struct GetSheetRangeArgs {
    /// File source: either `file_path` or `url`.
    pub source: FileSource,
    /// Name of the sheet.
    pub sheet_name: String,
    /// Range string (e.g. `"A1:D100"`).
    pub range: String,
    /// If `true`, include cell formatting (slower).
    pub include_format: bool,
}

/// Arguments for the `update_cell` tool.
#[derive(Debug, Clone)]
pub struct UpdateCellArgs {
    /// File source: either `file_path` or `url`.
    pub source: FileSource,
    /// Name of the sheet.
    pub sheet_name: String,
    /// Cell coordinate (e.g. `"B5"`).
    pub coordinate: String,
    /// New value as a string.
    pub value: String,
    /// Value type: `"number"`, `"bool"`, or `"string"`.
    pub value_type: String,
    /// Output path (required when source is a URL).
    pub output_path: Option<String>,
}

/// Arguments for the `update_cells` tool.
#[derive(Debug, Clone)]
pub struct UpdateCellsArgs {
    /// File source: either `file_path` or `url`.
    pub source: FileSource,
    /// Name of the sheet.
    pub sheet_name: String,
    /// Top-left destination cell (e.g. `"B2"`).
    pub destination: String,
    /// 2D array of string values (row-major).
    pub data: Vec<Vec<String>>,
    /// Output path (required when source is a URL).
    pub output_path: Option<String>,
}

} // verus!
