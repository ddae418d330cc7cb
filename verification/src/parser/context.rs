//! A read-only view of the token stream shared by the structural parsers.

use vstd::prelude::*;

use crate::parser::cursor;
use crate::parser::diagnostics::{self, ParseDiagnostic};
use crate::parser::lexer::Token;
use crate::parser::cursor::{is_ws_kind, is_ws_or_nl_kind};

verus! {

pub struct ParserCtx<'a> {
    pub tokens: &'a [Token],
}

impl<'a> ParserCtx<'a> {
    pub(crate) fn new(tokens: &'a [Token]) -> (r: Self)
        ensures
            r.tokens@ == tokens@,
    {
        ParserCtx { tokens }
    }

    /// The token at `i`, if any.
    pub(crate) fn token(&self, i: usize) -> (r: Option<&'a Token>)
        ensures
            i < self.tokens@.len() ==> r == Some(&self.tokens@[i as int]),
            i >= self.tokens@.len() ==> r is None,
    {
        if i < self.tokens.len() {
            Some(&self.tokens[i])
        } else {
            None
        }
    }

    pub(crate) fn tokens(&self) -> (r: &'a [Token])
        ensures
            r@ == self.tokens@,
    {
        self.tokens
    }

    pub(crate) fn skip_ws(&self, i: usize) -> (r: usize)
        requires
            i <= self.tokens@.len(),
        ensures
            i <= r <= self.tokens@.len(),
            forall|k: int| i <= k < r ==> is_ws_kind(#[trigger] self.tokens@[k].kind),
            r < self.tokens@.len() ==> !is_ws_kind(self.tokens@[r as int].kind),
    {
        cursor::skip_ws(self.tokens, i)
    }

    pub(crate) fn skip_ws_and_newlines(&self, i: usize) -> (r: usize)
        requires
            i <= self.tokens@.len(),
        ensures
            i <= r <= self.tokens@.len(),
            forall|k: int| i <= k < r ==> is_ws_or_nl_kind(#[trigger] self.tokens@[k].kind),
            r < self.tokens@.len() ==> !is_ws_or_nl_kind(self.tokens@[r as int].kind),
    {
        cursor::skip_ws_and_newlines(self.tokens, i)
    }
}

pub(crate) fn push_token_diagnostic_ctx(diagnostics_out: &mut Vec<ParseDiagnostic>, message: &str, token: &Token)
    ensures
        final(diagnostics_out)@.len() == old(diagnostics_out)@.len() + 1,
        final(diagnostics_out)@.drop_last() == old(diagnostics_out)@,
        crate::parser::diagnostics::extends(final(diagnostics_out)@, old(diagnostics_out)@),
        final(diagnostics_out)@.last().message@ == message@,
        final(diagnostics_out)@.last().start == token.start,
        final(diagnostics_out)@.last().end == token.end,
{
    diagnostics::push_token_diagnostic(diagnostics_out, message, token);
}

} // verus!
