//! The decisions around a LibreOffice (`soffice`) conversion between the
//! legacy `.xls` format and `.xlsx`: the command line it runs with, the name
//! of the file it leaves, and how each way a run can end is reported.

use vstd::prelude::*;
use crate::error::SheetsError;

verus! {

/// The format a conversion produces.
#[derive(Debug, Clone, Copy)]
pub enum ConversionTarget {
    /// Office Open XML (`.xlsx`).
    Xlsx,
    /// Excel 97-2003 (`.xls`).
    Xls,
}

/// The `--convert-to` argument for a target.
pub open spec fn convert_to_text(t: ConversionTarget) -> Seq<char> {
    match t {
        ConversionTarget::Xlsx => "xlsx"@,
        ConversionTarget::Xls => "xls:MS Excel 97"@,
    }
}

/// The extension of the file a conversion leaves.
pub open spec fn extension_text(t: ConversionTarget) -> Seq<char> {
    match t {
        ConversionTarget::Xlsx => "xlsx"@,
        ConversionTarget::Xls => "xls"@,
    }
}

/// The text of the error for a conversion that left no output file.
pub open spec fn missing_output_text(t: ConversionTarget) -> Seq<char> {
    "soffice did not produce the expected ."@ + extension_text(t) + " output"@
}

impl ConversionTarget {
    /// The `--convert-to` argument: `xlsx`, or `xls:MS Excel 97`.
    pub fn convert_to(&self) -> (s: String)
        ensures
            s@ == convert_to_text(*self),
    {
        match self {
            ConversionTarget::Xlsx => String::from_str("xlsx"),
            ConversionTarget::Xls => String::from_str("xls:MS Excel 97"),
        }
    }

    /// The extension of the converted file: `xlsx` or `xls`.
    pub fn extension(&self) -> (s: String)
        ensures
            s@ == extension_text(*self),
    {
        match self {
            ConversionTarget::Xlsx => String::from_str("xlsx"),
            ConversionTarget::Xls => String::from_str("xls"),
        }
    }

    /// The name of the file that converting a file named `stem` plus an
    /// extension leaves in the output directory: the stem, a dot and the
    /// target's extension.
    pub fn output_file_name(&self, stem: &str) -> (s: String)
        ensures
            s@ == stem@ + "."@ + extension_text(*self),
    {
        let mut s = String::from_str(stem);
        s.append(".");
        let e = self.extension();
        s.append(e.as_str());
        s
    }

    /// The error for a conversion that exited cleanly but left no output
    /// file.
    pub fn missing_output_error(&self) -> (e: SheetsError)
        ensures
            e matches SheetsError::ExternalConversionFailed(m) && m@ == missing_output_text(*self),
    {
        let mut m = String::from_str("soffice did not produce the expected .");
        let e = self.extension();
        m.append(e.as_str());
        m.append(" output");
        SheetsError::ExternalConversionFailed(m)
    }
}

/// The arguments `soffice` runs with: headless, with its own profile
/// directory, converting `input` to the target into `outdir`.
pub open spec fn soffice_args_text(
    profile_dir: Seq<char>,
    target: ConversionTarget,
    outdir: Seq<char>,
    input: Seq<char>,
) -> Seq<Seq<char>> {
    seq![
        "--headless"@,
        "-env:UserInstallation=file://"@ + profile_dir,
        "--convert-to"@,
        convert_to_text(target),
        "--outdir"@,
        outdir,
        input,
    ]
}

/// The command-line arguments for converting `input` to `target` into the
/// directory `outdir`, with the LibreOffice profile kept in `profile_dir`.
pub fn soffice_args(profile_dir: &str, target: ConversionTarget, outdir: &str, input: &str) -> (v:
    Vec<String>)
    ensures
        v@.map_values(|s: String| s@) == soffice_args_text(profile_dir@, target, outdir@, input@),
{
    let mut v: Vec<String> = Vec::new();
    v.push(String::from_str("--headless"));
    let mut profile = String::from_str("-env:UserInstallation=file://");
    profile.append(profile_dir);
    v.push(profile);
    v.push(String::from_str("--convert-to"));
    v.push(target.convert_to());
    v.push(String::from_str("--outdir"));
    v.push(String::from_str(outdir));
    v.push(String::from_str(input));
    assert(v@.map_values(|s: String| s@) =~= soffice_args_text(profile_dir@, target, outdir@, input@));
    v
}

/// How a run of `soffice` ended.
#[derive(Debug, Clone)]
pub enum SofficeOutcome {
    /// It did not finish within the time allowed.
    TimedOut,
    /// The `soffice` program was not found.
    NotInstalled,
    /// It could not be started; the text of the error.
    SpawnFailed(String),
    /// It ran to the end.
    Exited {
        /// Whether its exit status reports success.
        success: bool,
        /// The exit status as text.
        status: String,
        /// What it wrote to standard error.
        stderr: String,
    },
}

/// The text of the `ExternalConversionFailed` error that an outcome is
/// reported as; none for a run that succeeded.
pub open spec fn soffice_failure_text(o: SofficeOutcome) -> Option<Seq<char>> {
    match o {
        SofficeOutcome::TimedOut => Some("LibreOffice (soffice) conversion timed out after 30s"@),
        SofficeOutcome::NotInstalled => Some(
            "Writing legacy .xls requires LibreOffice (`soffice`) to be installed and on PATH"@,
        ),
        SofficeOutcome::SpawnFailed(e) => Some("failed to run soffice: "@ + e@),
        SofficeOutcome::Exited { success, status, stderr } => if success {
            None
        } else {
            Some("soffice exited with "@ + status@ + ": "@ + stderr@)
        },
    }
}

/// What a run of `soffice` amounts to: success only for a run that exited
/// with a success status; otherwise an `ExternalConversionFailed` error that
/// says what went wrong.
pub fn soffice_result(outcome: SofficeOutcome) -> (r: Result<(), SheetsError>)
    ensures
        match soffice_failure_text(outcome) {
            None => r is Ok,
            Some(m) => r matches Err(SheetsError::ExternalConversionFailed(t)) && t@ == m,
        },
{
    match outcome {
        SofficeOutcome::TimedOut => Err(
            SheetsError::ExternalConversionFailed(
                String::from_str("LibreOffice (soffice) conversion timed out after 30s"),
            ),
        ),
        SofficeOutcome::NotInstalled => Err(
            SheetsError::ExternalConversionFailed(
                String::from_str(
                    "Writing legacy .xls requires LibreOffice (`soffice`) to be installed and on PATH",
                ),
            ),
        ),
        SofficeOutcome::SpawnFailed(e) => {
            let mut m = String::from_str("failed to run soffice: ");
            m.append(e.as_str());
            Err(SheetsError::ExternalConversionFailed(m))
        },
        SofficeOutcome::Exited { success, status, stderr } => {
            if success {
                Ok(())
            } else {
                let mut m = String::from_str("soffice exited with ");
                m.append(status.as_str());
                m.append(": ");
                m.append(stderr.as_str());
                Err(SheetsError::ExternalConversionFailed(m))
            }
        },
    }
}

} // verus!
