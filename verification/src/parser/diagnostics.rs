//! Parser diagnostics: messages attached to a character range of the input.

use vstd::prelude::*;

use crate::parser::lexer::Token;
use crate::text::{decimal, decimal_string};

verus! {

/// `a` begins with the diagnostics of `b`: reporting only adds.
pub open spec fn extends(a: Seq<ParseDiagnostic>, b: Seq<ParseDiagnostic>) -> bool {
    b.len() <= a.len() && forall|i: int| 0 <= i < b.len() ==> #[trigger] a[i] == b[i]
}

/// The last diagnostic of `diags`, which has more than `old`, reports
/// `message` at token `t`.
pub open spec fn last_reports(diags: Seq<ParseDiagnostic>, old: Seq<ParseDiagnostic>, message: Seq<char>, t: Token) -> bool {
    old.len() < diags.len() && diags.last().message@ == message && diags.last().start == t.start
        && diags.last().end == t.end
}

/// A parse error message with the character range it refers to.
#[derive(Debug, Clone, PartialEq, Eq)]
pub struct ParseDiagnostic {
    pub message: String,
    pub start: usize,
    pub end: usize,
}

pub(crate) fn push_diagnostic(diagnostics: &mut Vec<ParseDiagnostic>, message: &str, start: usize, end: usize)
    ensures
        final(diagnostics)@.len() == old(diagnostics)@.len() + 1,
        final(diagnostics)@.drop_last() == old(diagnostics)@,
        crate::parser::diagnostics::extends(final(diagnostics)@, old(diagnostics)@),
        final(diagnostics)@.last().message@ == message@,
        final(diagnostics)@.last().start == start,
        final(diagnostics)@.last().end == end,
{
    let ghost prev = diagnostics@;
    diagnostics.push(ParseDiagnostic { message: String::from_str(message), start, end });
    proof {
        assert(diagnostics@.drop_last() =~= prev);
    }
}

/// Report `message` at the range of `token`.
pub(crate) fn push_token_diagnostic(diagnostics: &mut Vec<ParseDiagnostic>, message: &str, token: &Token)
    ensures
        final(diagnostics)@.len() == old(diagnostics)@.len() + 1,
        final(diagnostics)@.drop_last() == old(diagnostics)@,
        crate::parser::diagnostics::extends(final(diagnostics)@, old(diagnostics)@),
        final(diagnostics)@.last().message@ == message@,
        final(diagnostics)@.last().start == token.start,
        final(diagnostics)@.last().end == token.end,
{
    push_diagnostic(diagnostics, message, token.start, token.end);
}


/// How the command line reports a diagnostic: `error[start..end]: message`.
pub open spec fn diagnostic_line(d: ParseDiagnostic) -> Seq<char> {
    "error["@ + decimal(d.start as nat) + ".."@ + decimal(d.end as nat) + "]: "@ + d.message@
}

impl ParseDiagnostic {
    /// The line reporting the diagnostic; see [`diagnostic_line`].
    pub fn to_message(&self) -> (r: String)
        ensures
            r@ == diagnostic_line(*self),
    {
        let mut out = String::from_str("error[");
        out.append(decimal_string(self.start as u64).as_str());
        out.append("..");
        out.append(decimal_string(self.end as u64).as_str());
        out.append("]: ");
        out.append(self.message.as_str());
        out
    }
}

} // verus!
