//! The first version of `lint --check`: it reports, for each file, whether
//! it parses; rules come with the linter proper.

use vstd::prelude::*;

use crate::parser::toplevel::ParseOutput;

verus! {

/// Whether a file parsed.
#[derive(Debug, Clone, Copy, PartialEq, Eq, Structural)]
pub enum LintStatus {
    /// The file parsed; no rules are implemented here.
    RulesNotImplemented,
    /// The file has `count` parser diagnostics.
    ParseDiagnostics { count: usize },
}

/// The outcome for one file.
#[derive(Debug, Clone, PartialEq, Eq)]
pub struct LintFileReport {
    pub path: String,
    pub status: LintStatus,
}

/// The outcome for all files.
#[derive(Debug, Clone, PartialEq, Eq)]
pub struct LintResult {
    pub checked_files: usize,
    pub reports: Vec<LintFileReport>,
}

/// Why the check could not run.
#[derive(Debug, Clone, PartialEq, Eq)]
pub enum LintError {
    MissingPaths,
    NoRFiles,
    NonRFilePath { path: String },
    WalkError { path: String, message: String },
    ReadError { path: String, source: String },
}

/// The report of the file `path`, whose parse gave `parsed`.
pub fn report_for(path: &str, parsed: &ParseOutput) -> (r: LintFileReport)
    ensures
        r.path@ == path@,
        parsed.diagnostics@.len() == 0 ==> r.status is RulesNotImplemented,
        parsed.diagnostics@.len() > 0 ==> r.status == (LintStatus::ParseDiagnostics {
            count: parsed.diagnostics@.len() as usize,
        }),
{
    let count = parsed.diagnostics.len();
    let status = if count == 0 {
        LintStatus::RulesNotImplemented
    } else {
        LintStatus::ParseDiagnostics { count }
    };
    LintFileReport { path: String::from_str(path), status }
}

} // verus!
