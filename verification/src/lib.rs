//! Verified core of an MCP server that reads and writes Excel workbooks.
//!
//! The library holds the spreadsheet logic: cell coordinates and ranges,
//! the shaping of read results, the planning of cell writes, file-source
//! resolution rules, the handling of format conversions and error
//! messages. File access, the spreadsheet parsers, the conversion process
//! and the protocol server live in the application around it.

pub mod conversion;
pub mod error;
pub mod file_source;
pub mod reader;
pub mod text;
pub mod tools;
pub mod types;
pub mod writer;
