//! Where a tool's workbook comes from and where a modified one goes.
//!
//! Every tool accepts either a local `file_path` or a remote `url`. A local
//! file is written back in place (or to `output_path` when given); a remote
//! one needs `output_path`. Downloads are cached under a file name made of
//! a hash of the URL and the URL's extension.

use std::hash::{Hash, Hasher};
use vstd::prelude::*;
use crate::error::SheetsError;
use crate::text;
use crate::text::{hex_lower_string, str_eq_ignore_ascii_case};

verus! {

/// Either a local file path or a remote URL.
///
/// Used as input for every MCP tool. The two variants are mutually exclusive —
/// provide one or the other, never both.
#[derive(Debug, Clone)]
pub enum FileSource {
    /// A remote URL to download.
    Url { url: String },
    /// A local file path.
    Path { file_path: String },
}

/// What `std::path::Path::extension` gives for a path: the part of the
/// last path component after its last `.`; none when that component has no
/// `.`, or has one only as its first character (as in `.xls`).
pub uninterp spec fn path_extension(path: Seq<char>) -> Option<Seq<char>>;

/// `std::path::Path::extension` of `path`, as a string.
///
/// Trusted: the result is `path_extension` of the text (a path built from
/// a `&str` is valid UTF-8, so the extension always converts back).
#[verifier::external_body]
fn extension_of(path: &str) -> (r: Option<String>)
    ensures
        r matches Some(e) ==> path_extension(path@) == Some(e@),
        r is None ==> path_extension(path@) is None,
{
    match std::path::Path::new(path).extension() {
        Some(e) => match e.to_str() {
            Some(x) => Some(x.to_string()),
            None => None,
        },
        None => None,
    }
}

/// What hashing a string with a fresh
/// `std::collections::hash_map::DefaultHasher` gives. Every hasher made by
/// `DefaultHasher::new` is the same hasher (it is not seeded per process),
/// so the hash depends on the string alone; its algorithm is left open and
/// may differ between Rust releases.
pub uninterp spec fn default_hash(s: Seq<char>) -> u64;

/// Hash of a URL with `std::collections::hash_map::DefaultHasher`.
///
/// Trusted: the result is `default_hash` of the URL's text.
#[verifier::external_body]
fn url_hash(url: &str) -> (h: u64)
    ensures
        h == default_hash(url@),
{
    let mut hasher = std::collections::hash_map::DefaultHasher::new();
    url.hash(&mut hasher);
    hasher.finish()
}

/// Whether a path extension names a legacy Excel 97-2003 workbook: it is
/// `xls` in any ASCII case.
pub open spec fn is_legacy_xls_extension(ext: Option<Seq<char>>) -> bool {
    match ext {
        Some(e) => text::eq_ignore_ascii_case(e, "xls"@),
        None => false,
    }
}

/// Whether a path names a legacy Excel 97-2003 workbook by its extension.
pub open spec fn is_legacy_xls_path(path: Seq<char>) -> bool {
    is_legacy_xls_extension(path_extension(path))
}

/// Whether a path extension (as `std::path::Path::extension` gives it)
/// marks a legacy Excel 97-2003 workbook.
pub fn legacy_xls_extension(ext: Option<&str>) -> (b: bool)
    ensures
        b == is_legacy_xls_extension(opt_str_view(ext)),
{
    match ext {
        Some(e) => str_eq_ignore_ascii_case(e, "xls"),
        None => false,
    }
}

/// Returns true for legacy Excel 97-2003 workbooks (`.xls`).
pub fn is_legacy_xls(path: &str) -> (b: bool)
    ensures
        b == is_legacy_xls_path(path@),
{
    match extension_of(path) {
        Some(ext) => legacy_xls_extension(Some(ext.as_str())),
        None => legacy_xls_extension(None),
    }
}

/// The cache file name made of a URL's hash and its extension: the hash in
/// lowercase hexadecimal, a dot, and the extension (`xlsx` when there is
/// none).
pub open spec fn cache_name_of(hash: u64, ext: Option<Seq<char>>) -> Seq<char> {
    text::hex_lower(hash as nat) + "."@ + match ext {
        Some(e) => e,
        None => "xlsx"@,
    }
}

/// The cache file name for a URL whose hash is `hash`.
pub open spec fn cache_name_text(hash: u64, url: Seq<char>) -> Seq<char> {
    cache_name_of(hash, path_extension(url))
}

/// The cache file name for a URL's hash and its extension (as
/// `std::path::Path::extension` gives it).
pub fn cache_name_from(hash: u64, ext: Option<&str>) -> (s: String)
    ensures
        s@ == cache_name_of(hash, opt_str_view(ext)),
{
    let mut s = hex_lower_string(hash);
    s.append(".");
    match ext {
        Some(e) => s.append(e),
        None => s.append("xlsx"),
    }
    s
}

/// The cache file name for `url` given its hash.
pub fn cache_file_name_for(hash: u64, url: &str) -> (s: String)
    ensures
        s@ == cache_name_text(hash, url@),
{
    match extension_of(url) {
        Some(ext) => cache_name_from(hash, Some(ext.as_str())),
        None => cache_name_from(hash, None),
    }
}

/// The cache file name for `url`: the URL's hash, which tells URLs apart,
/// and its extension, so that the file format can be told from the name.
pub fn cache_file_name(url: &str) -> (s: String)
    ensures
        s@ == cache_name_text(default_hash(url@), url@),
{
    let h = url_hash(url);
    cache_file_name_for(h, url)
}

/// Where a tool writes its result: for a local file, `output_path` when
/// given and the file itself otherwise; for a URL, `output_path`, which is
/// then required.
pub open spec fn write_target_outcome(source: FileSource, output_path: Option<Seq<char>>) -> Option<
    Seq<char>,
> {
    match source {
        FileSource::Path { file_path } => match output_path {
            Some(p) => Some(p),
            None => Some(file_path@),
        },
        FileSource::Url { .. } => output_path,
    }
}

/// The view of an optional string slice.
pub open spec fn opt_str_view(o: Option<&str>) -> Option<Seq<char>> {
    match o {
        Some(s) => Some(s@),
        None => None,
    }
}

impl FileSource {
    /// Determine the write target path.
    /// - `Path` with no `output_path`: write back to the same file.
    /// - `Path` with `output_path`: write to `output_path`.
    /// - `Url` with `output_path`: write to `output_path`.
    /// - `Url` without `output_path`: error.
    pub fn write_target(&self, output_path: Option<&str>) -> (r: Result<String, SheetsError>)
        ensures
            match write_target_outcome(*self, opt_str_view(output_path)) {
                Some(p) => r matches Ok(t) && t@ == p,
                None => r matches Err(SheetsError::MissingOutputPath),
            },
    {
        match self {
            FileSource::Path { file_path } => match output_path {
                Some(p) => Ok(String::from_str(p)),
                None => Ok(file_path.clone()),
            },
            FileSource::Url { .. } => match output_path {
                Some(p) => Ok(String::from_str(p)),
                None => Err(SheetsError::MissingOutputPath),
            },
        }
    }
}

} // verus!
