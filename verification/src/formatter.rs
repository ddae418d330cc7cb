//! The formatter: a layout document per construct, resolved against the line
//! width by a Wadler-style printer.

pub mod style;
pub mod ir;
pub mod printer;
pub mod context;
pub mod trivia;
pub mod engine;
pub mod rules;
pub mod check;
pub mod output;

pub use crate::formatter::engine::FormatError;
pub use crate::formatter::style::FormatStyle;

use vstd::prelude::*;

use crate::formatter::engine::{ends_with_newline, lemma_input_tokens_supported, unsupported_kind};
use crate::parser::lexer::{Token, lexes_to};
use crate::parser::tree_builder::leaf_kind;
use crate::parser::toplevel::{ParseOutput, parses_to};
use crate::formatter::engine::format_parsed_facts;

verus! {

/// Some token of `input` is of a kind that the formatter refuses: `@`, a
/// `%op%` operator, the help operator `?`, or a character that no lexical
/// rule takes.
pub open spec fn has_refused_token(input: Seq<char>) -> bool {
    exists|toks: Seq<Token>, k: int|
        lexes_to(input, toks) && 0 <= k < toks.len() && unsupported_kind(
            leaf_kind(#[trigger] toks[k].kind),
        )
}

/// The facts stated of formatting `input` with `style`: those of
/// [`format_parsed_facts`], for a tree that [`parses_to`] allows for
/// `input` (not the layout itself).
pub open spec fn format_facts(input: Seq<char>, style: FormatStyle, r: Result<String, FormatError>) -> bool {
    exists|p: ParseOutput| #[trigger] parses_to(input, p) && format_parsed_facts(input, p, style, r)
}

/// The default style: eighty columns, two spaces per level.
pub open spec fn default_style() -> FormatStyle {
    FormatStyle { line_width: 80, indent_width: 2 }
}

/// Format `input` with `style`; see [`format_parsed`], applied to the parse
/// of `input`. An input with a refused token is never formatted.
pub fn format_with_style(input: &str, style: FormatStyle) -> (r: Result<String, FormatError>)
    ensures
        r matches Ok(s) ==> ends_with_newline(input@) ==> ends_with_newline(s@),
        r matches Err(FormatError::ParseErrors { count }) ==> count > 0,
        has_refused_token(input@) ==> r is Err,
        input@.len() == 0 ==> (r matches Ok(s) && s@.len() == 0),
        crate::parser::toplevel::blank_input(input@) ==> (r matches Ok(s) && s@
            == crate::formatter::engine::format_outcome(input@, seq![])),
        forall|toks: Seq<Token>, a: int|
            lexes_to(input@, toks) && #[trigger] crate::parser::toplevel::lone_name_tokens(toks, a) ==> (
            r matches Ok(s) && s@ == crate::formatter::engine::format_outcome(input@, toks[a].text@)),
        format_facts(input@, style, r),
{
    let parsed = crate::parser::toplevel::parse(input);
    let r = crate::formatter::engine::format_parsed(input, &parsed, style);
    proof {
        if r is Ok && has_refused_token(input@) {
            let (toks, k) = choose|toks: Seq<Token>, k: int|
                lexes_to(input@, toks) && 0 <= k < toks.len() && unsupported_kind(
                    leaf_kind(#[trigger] toks[k].kind),
                );
            lemma_input_tokens_supported(parsed.cst, input@, toks);
            assert(!unsupported_kind(leaf_kind(toks[k].kind)));
        }
    }
    r
}

/// Format `input` with the default style: 80 columns, two-space indents.
pub fn format(input: &str) -> (r: Result<String, FormatError>)
    ensures
        r matches Ok(s) ==> ends_with_newline(input@) ==> ends_with_newline(s@),
        r matches Err(FormatError::ParseErrors { count }) ==> count > 0,
        has_refused_token(input@) ==> r is Err,
        input@.len() == 0 ==> (r matches Ok(s) && s@.len() == 0),
        crate::parser::toplevel::blank_input(input@) ==> (r matches Ok(s) && s@
            == crate::formatter::engine::format_outcome(input@, seq![])),
        forall|toks: Seq<Token>, a: int|
            lexes_to(input@, toks) && #[trigger] crate::parser::toplevel::lone_name_tokens(toks, a) ==> (
            r matches Ok(s) && s@ == crate::formatter::engine::format_outcome(input@, toks[a].text@)),
        format_facts(input@, default_style(), r),
{
    format_with_style(input, FormatStyle::default())
}

} // verus!
