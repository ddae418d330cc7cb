//! `format --check`: which files the formatter would change.

use vstd::prelude::*;

use crate::file_discovery::FileDiscoveryError;
use crate::formatter::engine::{FormatError, format_error_text};
use crate::formatter::style::FormatStyle;

verus! {

/// How many files were checked and which of them would change.
#[derive(Debug, Clone, PartialEq, Eq)]
pub struct CheckResult {
    pub checked_files: usize,
    pub changed_files: Vec<String>,
}

/// Why a check could not be completed.
#[allow(inconsistent_fields)]
#[derive(Debug, Clone, PartialEq, Eq)]
pub enum CheckError {
    MissingPaths,
    NoRFiles,
    NonRFilePath { path: String },
    WalkError { path: String, message: String },
    ReadError { path: String, source: String },
    FormatError { path: String, source: FormatError },
}

/// Whether the file `path` with text `content` would change, given what
/// formatting it gave: a formatting error is reported with the path; a file
/// changes when its formatted text differs.
/// What checking the file `path` with text `content` gives, given what
/// formatting gave: a formatting error with the path, or whether the
/// formatted text differs.
pub open spec fn check_outcome(
    path: Seq<char>,
    content: Seq<char>,
    formatted: Result<String, FormatError>,
    r: Result<bool, CheckError>,
) -> bool {
    &&& (formatted is Ok <==> r is Ok)
    &&& (formatted matches Ok(s) ==> r == Ok::<bool, CheckError>(s@ != content))
    &&& (formatted matches Err(e) ==> (r matches Err(CheckError::FormatError { path: p, source })
        && p@ == path && source == e))
}

pub fn check_formatted(path: &str, content: &str, formatted: Result<String, FormatError>) -> (r:
    Result<bool, CheckError>)
    ensures
        check_outcome(path@, content@, formatted, r),
{
    match formatted {
        Ok(s) => {
            let unformatted = String::from_str(content);
            Ok(s != unformatted)
        },
        Err(e) => Err(CheckError::FormatError { path: String::from_str(path), source: e }),
    }
}

/// Whether the file `path` with text `content` would change when formatted
/// with `style`; see [`check_formatted`].
pub fn check_file(path: &str, content: &str, style: FormatStyle) -> (r: Result<bool, CheckError>)
    ensures
        r matches Err(e) ==> (e matches CheckError::FormatError { path: p, .. } && p@ == path@),
        crate::formatter::has_refused_token(content@) ==> r is Err,
        crate::parser::toplevel::blank_input(content@) ==> r == Ok::<bool, CheckError>(
            crate::formatter::engine::format_outcome(content@, seq![]) != content@,
        ),
        forall|toks: Seq<crate::parser::lexer::Token>, a: int|
            crate::parser::lexer::lexes_to(content@, toks)
                && #[trigger] crate::parser::toplevel::lone_name_tokens(toks, a) ==> r == Ok::<
                bool,
                CheckError,
            >(crate::formatter::engine::format_outcome(content@, toks[a].text@) != content@),
        exists|f: Result<String, FormatError>|
            #[trigger] crate::formatter::format_facts(content@, style, f) && check_outcome(
                path@,
                content@,
                f,
                r,
            ),
{
    let formatted = crate::formatter::format_with_style(content, style);
    check_formatted(path, content, formatted)
}

/// The text of a check error.
pub open spec fn check_error_text(e: CheckError) -> Seq<char> {
    match e {
        CheckError::MissingPaths => "--check requires at least one input path (file or directory)"@,
        CheckError::NoRFiles => "no .R files found under the provided input paths"@,
        CheckError::NonRFilePath { path } => "input file "@ + path@
            + " is not an .R file; --check only supports .R files"@,
        CheckError::WalkError { path, message } => "failed while scanning "@ + path@ + ": "@
            + message@,
        CheckError::ReadError { path, source } => "failed to read "@ + path@ + ": "@ + source@,
        CheckError::FormatError { path, source } => "failed to format "@ + path@ + ": "@
            + format_error_text(source),
    }
}

impl CheckError {
    /// The text of the error.
    pub fn to_message(&self) -> (r: String)
        ensures
            r@ == check_error_text(*self),
    {
        match self {
            CheckError::MissingPaths => String::from_str(
                "--check requires at least one input path (file or directory)",
            ),
            CheckError::NoRFiles => String::from_str(
                "no .R files found under the provided input paths",
            ),
            CheckError::NonRFilePath { path } => {
                let mut out = String::from_str("input file ");
                out.append(path.as_str());
                out.append(" is not an .R file; --check only supports .R files");
                out
            },
            CheckError::WalkError { path, message } => {
                let mut out = String::from_str("failed while scanning ");
                out.append(path.as_str());
                out.append(": ");
                out.append(message.as_str());
                out
            },
            CheckError::ReadError { path, source } => {
                let mut out = String::from_str("failed to read ");
                out.append(path.as_str());
                out.append(": ");
                out.append(source.as_str());
                out
            },
            CheckError::FormatError { path, source } => {
                let mut out = String::from_str("failed to format ");
                out.append(path.as_str());
                out.append(": ");
                out.append(source.to_message().as_str());
                out
            },
        }
    }

    /// The check error for a discovery error.
    pub fn from_discovery(value: FileDiscoveryError) -> (r: CheckError)
        ensures
            value matches FileDiscoveryError::NonRFilePath { path } ==> r == (CheckError::NonRFilePath { path }),
            value matches FileDiscoveryError::WalkError { path, message } ==> r == (CheckError::WalkError { path, message }),
    {
        match value {
            FileDiscoveryError::NonRFilePath { path } => CheckError::NonRFilePath { path },
            FileDiscoveryError::WalkError { path, message } => CheckError::WalkError {
                path,
                message,
            },
        }
    }
}


/// The paths whose file would change, in order.
pub open spec fn changed_paths(outcomes: Seq<(String, bool)>) -> Seq<Seq<char>>
    decreases outcomes.len(),
{
    if outcomes.len() == 0 {
        seq![]
    } else {
        let rest = changed_paths(outcomes.drop_last());
        if outcomes.last().1 {
            rest.push(outcomes.last().0@)
        } else {
            rest
        }
    }
}

/// The result of a check, given for each file in order its path and
/// whether formatting would change it.
pub fn summarize_check(outcomes: Vec<(String, bool)>) -> (r: CheckResult)
    ensures
        r.checked_files == outcomes@.len(),
        r.changed_files@.map_values(|p: String| p@) == changed_paths(outcomes@),
{
    let mut changed: Vec<String> = Vec::new();
    let mut i: usize = 0;
    while i < outcomes.len()
        invariant
            i <= outcomes@.len(),
            changed@.map_values(|p: String| p@) == changed_paths(outcomes@.subrange(0, i as int)),
        decreases outcomes@.len() - i,
    {
        proof {
            assert(outcomes@.subrange(0, i + 1).drop_last() =~= outcomes@.subrange(0, i as int));
        }
        if outcomes[i].1 {
            changed.push(outcomes[i].0.clone());
            proof {
                assert(changed@.map_values(|p: String| p@) =~= changed_paths(
                    outcomes@.subrange(0, i + 1),
                ));
            }
        }
        i += 1;
    }
    proof {
        assert(outcomes@.subrange(0, outcomes@.len() as int) =~= outcomes@);
    }
    CheckResult { checked_files: outcomes.len(), changed_files: changed }
}

} // verus!
