//! Formatting for output: the formatted text, checked under `--verify` by
//! formatting it once more, which must give it back unchanged.

use vstd::prelude::*;

use crate::formatter::engine::{FormatError, format_error_text};
use crate::formatter::style::FormatStyle;

verus! {

/// Why no formatted text is written.
#[derive(Debug, Clone, PartialEq, Eq)]
pub enum OutputError {
    /// The input could not be formatted.
    Format(FormatError),
    /// The formatted text could not be formatted again.
    Verification(FormatError),
    /// Formatting the formatted text changed it.
    NotIdempotent,
}

/// The outcome, given how the input was formatted and, when verifying, how
/// the formatted text was formatted again.
pub open spec fn output_outcome(
    formatted: Result<String, FormatError>,
    reformatted: Option<Result<String, FormatError>>,
) -> Result<Seq<char>, OutputError> {
    match formatted {
        Err(e) => Err(OutputError::Format(e)),
        Ok(s) => match reformatted {
            None => Ok(s@),
            Some(Err(e)) => Err(OutputError::Verification(e)),
            Some(Ok(t)) => if t@ == s@ {
                Ok(s@)
            } else {
                Err(OutputError::NotIdempotent)
            },
        },
    }
}

/// The text to write, or why there is none: see [`output_outcome`].
/// `r` is the outcome `o`.
pub open spec fn is_outcome(r: Result<String, OutputError>, o: Result<Seq<char>, OutputError>) -> bool {
    match (r, o) {
        (Ok(s), Ok(t)) => s@ == t,
        (Err(e), Err(f)) => e == f,
        _ => false,
    }
}

/// `f` is what formatting `input` gave, and `g` what formatting that once
/// more gave when `verify` asks for it.
pub open spec fn format_pair(
    input: Seq<char>,
    style: FormatStyle,
    verify: bool,
    f: Result<String, FormatError>,
    g: Option<Result<String, FormatError>>,
) -> bool {
    &&& crate::formatter::format_facts(input, style, f)
    &&& match f {
        Ok(s) => if verify {
            g matches Some(x) && crate::formatter::format_facts(s@, style, x)
        } else {
            g is None
        },
        Err(_) => g is None,
    }
}

pub fn verified_output(
    formatted: Result<String, FormatError>,
    reformatted: Option<Result<String, FormatError>>,
) -> (r: Result<String, OutputError>)
    ensures
        is_outcome(r, output_outcome(formatted, reformatted)),
{
    match formatted {
        Err(e) => Err(OutputError::Format(e)),
        Ok(s) => match reformatted {
            None => Ok(s),
            Some(Err(e)) => Err(OutputError::Verification(e)),
            Some(Ok(t)) => {
                if t == s {
                    Ok(s)
                } else {
                    Err(OutputError::NotIdempotent)
                }
            },
        },
    }
}

/// Format `input` with `style`; with `verify`, format the result once more
/// and refuse it unless that gives it back: see [`verified_output`].
pub fn format_output(input: &str, style: FormatStyle, verify: bool) -> (r: Result<String, OutputError>)
    ensures
        !verify ==> (r is Ok || r matches Err(OutputError::Format(_))),
        r matches Ok(s) ==> crate::formatter::engine::ends_with_newline(input@)
            ==> crate::formatter::engine::ends_with_newline(s@),
        r matches Err(OutputError::Format(FormatError::ParseErrors { count })) ==> count > 0,
        crate::formatter::has_refused_token(input@) ==> r matches Err(OutputError::Format(_)),
        verify ==> (r matches Ok(s) ==> !crate::formatter::has_refused_token(s@)),
        !verify && crate::parser::toplevel::blank_input(input@) ==> (r matches Ok(s) && s@
            == crate::formatter::engine::format_outcome(input@, seq![])),
        exists|f: Result<String, FormatError>, g: Option<Result<String, FormatError>>|
            #[trigger] format_pair(input@, style, verify, f, g) && is_outcome(r, output_outcome(f, g)),
{
    let formatted = crate::formatter::format_with_style(input, style);
    let reformatted = match &formatted {
        Ok(s) => {
            if verify {
                Some(crate::formatter::format_with_style(s.as_str(), style))
            } else {
                None
            }
        },
        Err(_) => None,
    };
    let r = verified_output(formatted, reformatted);
    assert(format_pair(input@, style, verify, formatted, reformatted));
    r
}

/// How the command line reports an output error, for standard input
/// (`None`) or for the file `path`.
pub open spec fn output_error_text(e: OutputError, path: Option<Seq<char>>) -> Seq<char> {
    match path {
        None => match e {
            OutputError::Format(f) => format_error_text(f),
            OutputError::Verification(f) => "formatted output failed verification: "@
                + format_error_text(f),
            OutputError::NotIdempotent => "formatter verification failed (non-idempotent output)"@,
        },
        Some(p) => match e {
            OutputError::Format(f) => "failed to format "@ + p + ": "@ + format_error_text(f),
            OutputError::Verification(f) => "formatted output failed verification for "@ + p
                + ": "@ + format_error_text(f),
            OutputError::NotIdempotent => "formatter verification failed for "@ + p
                + " (non-idempotent output)"@,
        },
    }
}

impl OutputError {
    /// The message for the error; see [`output_error_text`].
    pub fn to_message(&self, path: Option<&str>) -> (r: String)
        ensures
            r@ == output_error_text(
                *self,
                match path {
                    Some(p) => Some(p@),
                    None => None,
                },
            ),
    {
        match path {
            None => match self {
                OutputError::Format(f) => f.to_message(),
                OutputError::Verification(f) => {
                    let mut out = String::from_str("formatted output failed verification: ");
                    out.append(f.to_message().as_str());
                    out
                },
                OutputError::NotIdempotent => String::from_str(
                    "formatter verification failed (non-idempotent output)",
                ),
            },
            Some(p) => match self {
                OutputError::Format(f) => {
                    let mut out = String::from_str("failed to format ");
                    out.append(p);
                    out.append(": ");
                    out.append(f.to_message().as_str());
                    out
                },
                OutputError::Verification(f) => {
                    let mut out = String::from_str("formatted output failed verification for ");
                    out.append(p);
                    out.append(": ");
                    out.append(f.to_message().as_str());
                    out
                },
                OutputError::NotIdempotent => {
                    let mut out = String::from_str("formatter verification failed for ");
                    out.append(p);
                    out.append(" (non-idempotent output)");
                    out
                },
            },
        }
    }
}

} // verus!
