//! Cursor helpers over the token stream.

use vstd::prelude::*;

use crate::parser::lexer::Token;
use crate::syntax::TokKind;

verus! {

pub open spec fn is_ws_kind(k: TokKind) -> bool {
    k == TokKind::Whitespace
}

pub open spec fn is_ws_or_nl_kind(k: TokKind) -> bool {
    k == TokKind::Whitespace || k == TokKind::Newline
}

/// The first index at or after `i` that is not a whitespace token.
pub(crate) fn skip_ws(tokens: &[Token], i: usize) -> (r: usize)
    requires
        i <= tokens@.len(),
    ensures
        i <= r <= tokens@.len(),
        forall|k: int| i <= k < r ==> is_ws_kind(#[trigger] tokens@[k].kind),
        r < tokens@.len() ==> !is_ws_kind(tokens@[r as int].kind),
{
    let mut j = i;
    while j < tokens.len() && tokens[j].kind == TokKind::Whitespace
        invariant
            i <= j <= tokens@.len(),
            forall|k: int| i <= k < j ==> is_ws_kind(#[trigger] tokens@[k].kind),
        decreases tokens@.len() - j,
    {
        j += 1;
    }
    j
}

/// The first index at or after `i` that is neither whitespace nor a newline.
pub(crate) fn skip_ws_and_newlines(tokens: &[Token], i: usize) -> (r: usize)
    requires
        i <= tokens@.len(),
    ensures
        i <= r <= tokens@.len(),
        forall|k: int| i <= k < r ==> is_ws_or_nl_kind(#[trigger] tokens@[k].kind),
        r < tokens@.len() ==> !is_ws_or_nl_kind(tokens@[r as int].kind),
{
    let mut j = i;
    while j < tokens.len() && (tokens[j].kind == TokKind::Whitespace || tokens[j].kind
        == TokKind::Newline)
        invariant
            i <= j <= tokens@.len(),
            forall|k: int| i <= k < j ==> is_ws_or_nl_kind(#[trigger] tokens@[k].kind),
        decreases tokens@.len() - j,
    {
        j += 1;
    }
    j
}

/// The index just past the end of the line that contains `i` (past its
/// newline token when there is one).
pub(crate) fn consume_to_line_end(tokens: &[Token], i: usize) -> (r: usize)
    requires
        i <= tokens@.len(),
    ensures
        i <= r <= tokens@.len(),
        forall|k: int| i <= k < r - 1 ==> #[trigger] tokens@[k].kind != TokKind::Newline,
        r < tokens@.len() ==> r > i && tokens@[r - 1].kind == TokKind::Newline,
{
    let mut j = i;
    while j < tokens.len() && tokens[j].kind != TokKind::Newline
        invariant
            i <= j <= tokens@.len(),
            forall|k: int| i <= k < j ==> #[trigger] tokens@[k].kind != TokKind::Newline,
        decreases tokens@.len() - j,
    {
        j += 1;
    }
    if j < tokens.len() && tokens[j].kind == TokKind::Newline {
        j += 1;
    }
    j
}

/// The index of the first newline token at or after `start`, or the number
/// of tokens when there is none.
pub(crate) fn find_function_body_recovery(tokens: &[Token], start: usize) -> (r: usize)
    requires
        start <= tokens@.len(),
    ensures
        start <= r <= tokens@.len(),
        forall|k: int| start <= k < r ==> #[trigger] tokens@[k].kind != TokKind::Newline,
        r < tokens@.len() ==> tokens@[r as int].kind == TokKind::Newline,
{
    let mut i = start;
    while i < tokens.len()
        invariant
            start <= i <= tokens@.len(),
            forall|k: int| start <= k < i ==> #[trigger] tokens@[k].kind != TokKind::Newline,
        decreases tokens@.len() - i,
    {
        if tokens[i].kind == TokKind::Newline {
            return i;
        }
        i += 1;
    }
    tokens.len()
}

} // verus!
