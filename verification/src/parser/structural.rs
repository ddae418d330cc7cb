//! Structural forms: `if`, `for`, `while`, `repeat` and function definitions.

use vstd::prelude::*;

use crate::parser::context::{ParserCtx, push_token_diagnostic_ctx as push_token_diagnostic};
use crate::parser::cursor::find_function_body_recovery;
use crate::parser::diagnostics::ParseDiagnostic;
use crate::parser::events::{
    Event, ExprParse, append_events, lemma_range_cat, lemma_range_push, lemma_tok_seq_single,
    parsed, push_range, push_start, push_finish, push_tok, range_seq, tok_seq,
};
use crate::parser::expr::{expr_result, parse_expr, exact};
use crate::parser::lexer::Token;
use crate::parser::recovery::push_empty_error_node;
use crate::syntax::{SyntaxKind, TokKind};

verus! {

broadcast use lemma_range_cat, lemma_range_push, lemma_tok_seq_single;

pub open spec fn is_clause_trivia(k: TokKind) -> bool {
    k == TokKind::Whitespace || k == TokKind::Newline || k == TokKind::Comment
}

fn clause_trivia_at(ctx: &ParserCtx, j: usize) -> (r: bool)
    ensures
        r == (j < ctx.tokens@.len() && is_clause_trivia(ctx.tokens@[j as int].kind)),
{
    match ctx.token(j) {
        Some(t) => t.kind == TokKind::Whitespace || t.kind == TokKind::Newline || t.kind
            == TokKind::Comment,
        None => false,
    }
}

fn skip_clause_trivia(tokens: &[Token], i: usize) -> (r: usize)
    requires
        i <= tokens@.len(),
    ensures
        i <= r <= tokens@.len(),
        forall|k: int| i <= k < r ==> is_clause_trivia(#[trigger] tokens@[k].kind),
        r < tokens@.len() ==> !is_clause_trivia(tokens@[r as int].kind),
{
    let ctx = ParserCtx::new(tokens);
    let mut j = i;
    while j < tokens.len() && clause_trivia_at(&ctx, j)
        invariant
            i <= j <= tokens@.len(),
            ctx.tokens@ == tokens@,
            forall|k: int| i <= k < j ==> is_clause_trivia(#[trigger] tokens@[k].kind),
        decreases tokens@.len() - j,
    {
        j += 1;
    }
    j
}

/// Skip whitespace, newlines and comments inside a `for` clause.
pub(crate) fn skip_for_clause_trivia(tokens: &[Token], i: usize) -> (r: usize)
    requires
        i <= tokens@.len(),
    ensures
        i <= r <= tokens@.len(),
        forall|k: int| i <= k < r ==> is_clause_trivia(#[trigger] tokens@[k].kind),
        r < tokens@.len() ==> !is_clause_trivia(tokens@[r as int].kind),
{
    skip_clause_trivia(tokens, i)
}

/// Skip whitespace, newlines and comments inside a `while` or `if` clause.
pub(crate) fn skip_while_clause_trivia(tokens: &[Token], i: usize) -> (r: usize)
    requires
        i <= tokens@.len(),
    ensures
        i <= r <= tokens@.len(),
        forall|k: int| i <= k < r ==> is_clause_trivia(#[trigger] tokens@[k].kind),
        r < tokens@.len() ==> !is_clause_trivia(tokens@[r as int].kind),
{
    skip_clause_trivia(tokens, i)
}

fn is_kind_at(tokens: &[Token], i: usize, kind: TokKind) -> (r: bool)
    ensures
        r == (i < tokens@.len() && tokens@[i as int].kind == kind),
{
    i < tokens.len() && tokens[i].kind == kind
}

/// After position `from`, skipping tokens of kind `skip`, the next token of
/// `toks` is a `(`, at position `c`.
pub open spec fn lparen_after(toks: Seq<Token>, from: int, c: int, newline_only: bool) -> bool {
    &&& from < c < toks.len()
    &&& toks[c].kind == TokKind::LParen
    &&& forall|k: int|
        from < k < c ==> (if newline_only {
            crate::parser::cursor::is_ws_or_nl_kind(#[trigger] toks[k].kind)
        } else {
            is_clause_trivia(toks[k].kind)
        })
}

/// The first diagnostic added past `old` reports `message` at token `t`.
pub open spec fn first_added(diags: Seq<ParseDiagnostic>, old: Seq<ParseDiagnostic>, message: Seq<char>, t: Token) -> bool {
    old.len() < diags.len() && diags[old.len() as int].message@ == message
        && diags[old.len() as int].start == t.start && diags[old.len() as int].end == t.end
}

/// `if (cond) then [else alt]`, with recovery for each missing piece.
#[verifier::spinoff_prover]
#[verifier::rlimit(100)]
pub(crate) fn parse_if_expr(tokens: &[Token], start: usize, diagnostics: &mut Vec<ParseDiagnostic>) -> (r: Option<ExprParse>)
    requires
        start < tokens@.len(),
    ensures
        forall|c: int| #[trigger] lparen_after(tokens@, start as int, c, true) ==> (r matches Some(p) && p.end > c),
        (forall|c: int| !#[trigger] lparen_after(tokens@, start as int, c, true)) ==> first_added(
            final(diagnostics)@,
            old(diagnostics)@,
            "expected '(' after 'if'"@,
            tokens@[start as int],
        ),
        final(diagnostics)@.len() >= old(diagnostics)@.len(),
        crate::parser::diagnostics::extends(final(diagnostics)@, old(diagnostics)@),
        r is Some,
        r matches Some(p) && p.start == start,
        expr_result(r, start as int, tokens@.len() as int),
    decreases tokens@.len() - start, 3int,
{
    let ctx = ParserCtx::new(tokens);
    let if_tok = &tokens[start];
    let mut events: Vec<Event> = Vec::new();
    push_start(&mut events, SyntaxKind::IF_EXPR);
    push_tok(&mut events, start);
    let mut cursor = start + 1;
    let mut cond_start = ctx.skip_ws_and_newlines(cursor);
    let mut saw_lparen = false;

    let ghost mut d1 = diagnostics@;
    if is_kind_at(tokens, cond_start, TokKind::LParen) {
        assert(lparen_after(tokens@, start as int, cond_start as int, true));
        push_range(&mut events, cursor, cond_start);
        push_tok(&mut events, cond_start);
        cursor = cond_start + 1;
        cond_start = skip_while_clause_trivia(tokens, cursor);
        saw_lparen = true;
    } else {
        push_token_diagnostic(diagnostics, "expected '(' after 'if'", if_tok);
        proof {
            d1 = diagnostics@;
            assert(first_added(d1, old(diagnostics)@, "expected '(' after 'if'"@, tokens@[start as int]));
        }
        push_range(&mut events, cursor, cond_start);
        cursor = cond_start;
    }

    match parse_expr(tokens, cond_start, 0, diagnostics) {
        Some(cond) => {
            push_range(&mut events, cursor, cond.start);
            let cend = cond.end;
            append_events(&mut events, cond.events);
            cursor = cend;
        },
        None => {
            push_token_diagnostic(
                diagnostics,
                "expected condition expression after 'if'",
                if_tok,
            );
            push_range(&mut events, cursor, cond_start);
            push_empty_error_node(&mut events);
            cursor = cond_start;
        },
    }

    if saw_lparen {
        let cond_rparen = ctx.skip_ws_and_newlines(cursor);
        if is_kind_at(tokens, cond_rparen, TokKind::RParen) {
            push_range(&mut events, cursor, cond_rparen);
            push_tok(&mut events, cond_rparen);
            cursor = cond_rparen + 1;
        } else {
            push_token_diagnostic(diagnostics, "expected ')' after if condition", if_tok);
        }
    }

    let then_start = ctx.skip_ws_and_newlines(cursor);
    match parse_expr(tokens, then_start, 0, diagnostics) {
        Some(then_expr) => {
            push_range(&mut events, cursor, then_expr.start);
            let tend = then_expr.end;
            append_events(&mut events, then_expr.events);
            cursor = tend;
        },
        None => {
            push_token_diagnostic(
                diagnostics,
                "expected expression after if condition",
                if_tok,
            );
            let recovery = ctx.skip_ws_and_newlines(cursor);
            push_range(&mut events, cursor, recovery);
            push_empty_error_node(&mut events);
            cursor = recovery;
        },
    }

    let else_idx = ctx.skip_ws(cursor);
    if is_kind_at(tokens, else_idx, TokKind::ElseKw) {
        push_range(&mut events, cursor, else_idx);
        push_tok(&mut events, else_idx);
        cursor = else_idx + 1;
        match parse_expr(tokens, cursor, 0, diagnostics) {
            Some(parsed_else) => {
                push_range(&mut events, cursor, parsed_else.start);
                let eend = parsed_else.end;
                append_events(&mut events, parsed_else.events);
                cursor = eend;
            },
            None => {
                push_token_diagnostic(
                    diagnostics,
                    "expected expression after 'else'",
                    &tokens[else_idx],
                );
                let recovery = ctx.skip_ws(cursor);
                push_range(&mut events, cursor, recovery);
                push_empty_error_node(&mut events);
                cursor = recovery;
            },
        }
    }

    push_finish(&mut events);
    Some(ExprParse { start, end: cursor, events })
}

/// `while (cond) body`.
pub(crate) fn parse_while_expr(tokens: &[Token], start: usize, diagnostics: &mut Vec<ParseDiagnostic>) -> (r: Option<ExprParse>)
    requires
        start < tokens@.len(),
    ensures
        final(diagnostics)@.len() >= old(diagnostics)@.len(),
        crate::parser::diagnostics::extends(final(diagnostics)@, old(diagnostics)@),
        r is Some,
        r matches Some(p) && p.start == start,
        expr_result(r, start as int, tokens@.len() as int),
    decreases tokens@.len() - start, 3int,
{
    let ctx = ParserCtx::new(tokens);
    let while_tok = &tokens[start];
    let mut events: Vec<Event> = Vec::new();
    push_start(&mut events, SyntaxKind::WHILE_EXPR);
    push_tok(&mut events, start);
    let mut cursor = start + 1;
    let mut cond_start = skip_while_clause_trivia(tokens, cursor);
    let mut saw_lparen = false;

    if is_kind_at(tokens, cond_start, TokKind::LParen) {
        push_range(&mut events, cursor, cond_start);
        push_tok(&mut events, cond_start);
        cursor = cond_start + 1;
        cond_start = skip_while_clause_trivia(tokens, cursor);
        saw_lparen = true;
    } else {
        push_token_diagnostic(diagnostics, "expected '(' after 'while'", while_tok);
        push_range(&mut events, cursor, cond_start);
        cursor = cond_start;
    }

    match parse_expr(tokens, cond_start, 0, diagnostics) {
        Some(cond) => {
            push_range(&mut events, cursor, cond.start);
            let cend = cond.end;
            append_events(&mut events, cond.events);
            cursor = cend;
        },
        None => {
            push_token_diagnostic(
                diagnostics,
                "expected condition expression after 'while'",
                while_tok,
            );
            push_range(&mut events, cursor, cond_start);
            push_empty_error_node(&mut events);
            cursor = cond_start;
        },
    }

    if saw_lparen {
        let cond_rparen = skip_while_clause_trivia(tokens, cursor);
        if is_kind_at(tokens, cond_rparen, TokKind::RParen) {
            push_range(&mut events, cursor, cond_rparen);
            push_tok(&mut events, cond_rparen);
            cursor = cond_rparen + 1;
        } else {
            push_token_diagnostic(diagnostics, "expected ')' after while condition", while_tok);
            push_empty_error_node(&mut events);
        }
    }

    let body_start = ctx.skip_ws_and_newlines(cursor);
    match parse_expr(tokens, body_start, 0, diagnostics) {
        Some(body_expr) => {
            push_range(&mut events, cursor, body_expr.start);
            let bend = body_expr.end;
            append_events(&mut events, body_expr.events);
            cursor = bend;
        },
        None => {
            push_token_diagnostic(
                diagnostics,
                "expected expression after while condition",
                while_tok,
            );
            let recovery = ctx.skip_ws_and_newlines(cursor);
            push_range(&mut events, cursor, recovery);
            push_empty_error_node(&mut events);
            cursor = recovery;
        },
    }

    push_finish(&mut events);
    Some(ExprParse { start, end: cursor, events })
}

/// `repeat body`.
pub(crate) fn parse_repeat_expr(tokens: &[Token], start: usize, diagnostics: &mut Vec<ParseDiagnostic>) -> (r: Option<ExprParse>)
    requires
        start < tokens@.len(),
    ensures
        final(diagnostics)@.len() >= old(diagnostics)@.len(),
        crate::parser::diagnostics::extends(final(diagnostics)@, old(diagnostics)@),
        r is Some,
        r matches Some(p) && p.start == start,
        expr_result(r, start as int, tokens@.len() as int),
    decreases tokens@.len() - start, 3int,
{
    let ctx = ParserCtx::new(tokens);
    let repeat_tok = &tokens[start];
    let mut events: Vec<Event> = Vec::new();
    push_start(&mut events, SyntaxKind::REPEAT_EXPR);
    push_tok(&mut events, start);
    let mut cursor = start + 1;

    let body_start = ctx.skip_ws_and_newlines(cursor);
    match parse_expr(tokens, body_start, 0, diagnostics) {
        Some(body_expr) => {
            push_range(&mut events, cursor, body_expr.start);
            let bend = body_expr.end;
            append_events(&mut events, body_expr.events);
            cursor = bend;
        },
        None => {
            push_token_diagnostic(diagnostics, "expected expression after 'repeat'", repeat_tok);
            let recovery = ctx.skip_ws_and_newlines(cursor);
            push_range(&mut events, cursor, recovery);
            push_empty_error_node(&mut events);
            cursor = recovery;
        },
    }

    push_finish(&mut events);
    Some(ExprParse { start, end: cursor, events })
}

/// `for (var in seq) body`.
#[verifier::spinoff_prover]
#[verifier::rlimit(100)]
pub(crate) fn parse_for_expr(tokens: &[Token], start: usize, diagnostics: &mut Vec<ParseDiagnostic>) -> (r: Option<ExprParse>)
    requires
        start < tokens@.len(),
    ensures
        forall|c: int| #[trigger] lparen_after(tokens@, start as int, c, false) ==> (r matches Some(p) && p.end > c),
        (forall|c: int| !#[trigger] lparen_after(tokens@, start as int, c, false)) ==> first_added(
            final(diagnostics)@,
            old(diagnostics)@,
            "expected '(' after 'for'"@,
            tokens@[start as int],
        ),
        final(diagnostics)@.len() >= old(diagnostics)@.len(),
        crate::parser::diagnostics::extends(final(diagnostics)@, old(diagnostics)@),
        r is Some,
        r matches Some(p) && p.start == start,
        expr_result(r, start as int, tokens@.len() as int),
    decreases tokens@.len() - start, 3int,
{
    let ctx = ParserCtx::new(tokens);
    let for_tok = &tokens[start];
    let mut events: Vec<Event> = Vec::new();
    push_start(&mut events, SyntaxKind::FOR_EXPR);
    push_tok(&mut events, start);
    let mut cursor = start + 1;
    let clause_start = skip_for_clause_trivia(tokens, cursor);
    let mut saw_lparen = false;

    let ghost mut d1 = diagnostics@;
    if is_kind_at(tokens, clause_start, TokKind::LParen) {
        assert(lparen_after(tokens@, start as int, clause_start as int, false));
        push_range(&mut events, cursor, clause_start);
        push_tok(&mut events, clause_start);
        cursor = clause_start + 1;
        saw_lparen = true;
    } else {
        push_token_diagnostic(diagnostics, "expected '(' after 'for'", for_tok);
        proof {
            d1 = diagnostics@;
            assert(first_added(d1, old(diagnostics)@, "expected '(' after 'for'"@, tokens@[start as int]));
        }
        push_range(&mut events, cursor, clause_start);
        cursor = clause_start;
    }

    assert(saw_lparen ==> cursor > clause_start);
    assert(!saw_lparen ==> first_added(diagnostics@, old(diagnostics)@, "expected '(' after 'for'"@, tokens@[start as int]));
    let var_start = skip_for_clause_trivia(tokens, cursor);
    if is_kind_at(tokens, var_start, TokKind::Ident) {
        push_range(&mut events, cursor, var_start);
        push_tok(&mut events, var_start);
        cursor = var_start + 1;
    } else {
        push_token_diagnostic(diagnostics, "expected loop variable after '(' in 'for'", for_tok);
        push_range(&mut events, cursor, var_start);
        push_empty_error_node(&mut events);
        cursor = var_start;
    }

    assert(saw_lparen ==> cursor > clause_start);
    assert(!saw_lparen ==> first_added(diagnostics@, old(diagnostics)@, "expected '(' after 'for'"@, tokens@[start as int]));
    let in_idx = skip_for_clause_trivia(tokens, cursor);
    if is_kind_at(tokens, in_idx, TokKind::InKw) {
        push_range(&mut events, cursor, in_idx);
        push_tok(&mut events, in_idx);
        cursor = in_idx + 1;
    } else {
        push_token_diagnostic(diagnostics, "expected 'in' after for variable", for_tok);
        push_range(&mut events, cursor, in_idx);
        push_empty_error_node(&mut events);
        cursor = in_idx;
    }

    assert(saw_lparen ==> cursor > clause_start);
    assert(!saw_lparen ==> first_added(diagnostics@, old(diagnostics)@, "expected '(' after 'for'"@, tokens@[start as int]));
    let seq_start = skip_for_clause_trivia(tokens, cursor);
    match parse_expr(tokens, seq_start, 0, diagnostics) {
        Some(seq_expr) => {
            push_range(&mut events, cursor, seq_expr.start);
            let send = seq_expr.end;
            append_events(&mut events, seq_expr.events);
            cursor = send;
        },
        None => {
            push_token_diagnostic(diagnostics, "expected sequence expression after 'in'", for_tok);
            push_range(&mut events, cursor, seq_start);
            push_empty_error_node(&mut events);
            cursor = seq_start;
        },
    }

    assert(saw_lparen ==> cursor > clause_start);
    assert(!saw_lparen ==> first_added(diagnostics@, old(diagnostics)@, "expected '(' after 'for'"@, tokens@[start as int]));
    if saw_lparen {
        let clause_rparen = skip_for_clause_trivia(tokens, cursor);
        if is_kind_at(tokens, clause_rparen, TokKind::RParen) {
            push_range(&mut events, cursor, clause_rparen);
            push_tok(&mut events, clause_rparen);
            cursor = clause_rparen + 1;
        } else {
            push_token_diagnostic(diagnostics, "expected ')' after for clause", for_tok);
            push_empty_error_node(&mut events);
        }
    }

    assert(saw_lparen ==> cursor > clause_start);
    assert(!saw_lparen ==> first_added(diagnostics@, old(diagnostics)@, "expected '(' after 'for'"@, tokens@[start as int]));
    let body_start = ctx.skip_ws_and_newlines(cursor);
    match parse_expr(tokens, body_start, 0, diagnostics) {
        Some(body_expr) => {
            push_range(&mut events, cursor, body_expr.start);
            let bend = body_expr.end;
            append_events(&mut events, body_expr.events);
            cursor = bend;
        },
        None => {
            push_token_diagnostic(diagnostics, "expected expression after for clause", for_tok);
            let recovery = ctx.skip_ws_and_newlines(cursor);
            push_range(&mut events, cursor, recovery);
            push_empty_error_node(&mut events);
            cursor = recovery;
        },
    }

    assert(saw_lparen ==> cursor > clause_start);
    assert(!saw_lparen ==> first_added(diagnostics@, old(diagnostics)@, "expected '(' after 'for'"@, tokens@[start as int]));
    push_finish(&mut events);
    Some(ExprParse { start, end: cursor, events })
}

/// `function(params) body` and the `\(params) body` shorthand. The parameter
/// list is kept as raw tokens up to the matching `)`.
pub(crate) fn parse_function_expr(tokens: &[Token], start: usize, diagnostics: &mut Vec<ParseDiagnostic>) -> (r: Option<ExprParse>)
    requires
        start < tokens@.len(),
    ensures
        final(diagnostics)@.len() >= old(diagnostics)@.len(),
        crate::parser::diagnostics::extends(final(diagnostics)@, old(diagnostics)@),
        r is Some,
        r matches Some(p) && p.start == start,
        expr_result(r, start as int, tokens@.len() as int),
    decreases tokens@.len() - start, 3int,
{
    let ctx = ParserCtx::new(tokens);
    let len = tokens.len();
    let function_tok = &tokens[start];
    let mut events: Vec<Event> = Vec::new();
    push_start(&mut events, SyntaxKind::FUNCTION_EXPR);
    push_tok(&mut events, start);
    let mut cursor = start + 1;
    let params_lparen = ctx.skip_ws_and_newlines(cursor);
    let function_like = function_tok.kind == TokKind::FunctionKw || function_tok.kind
        == TokKind::LambdaFn;

    if is_kind_at(tokens, params_lparen, TokKind::LParen) {
        push_range(&mut events, cursor, params_lparen);
        push_tok(&mut events, params_lparen);
        cursor = params_lparen + 1;

        let mut i = cursor;
        let mut depth: usize = 1;
        while i < len
            invariant
                cursor <= i <= len,
                cursor >= 1,
                len == tokens@.len(),
                depth >= 1,
                depth <= i - cursor + 1,
            decreases len - i,
        {
            let k = tokens[i].kind;
            if k == TokKind::LParen {
                depth += 1;
            } else if k == TokKind::RParen {
                if depth == 1 {
                    break;
                }
                depth -= 1;
            }
            i += 1;
        }

        if i < len && tokens[i].kind == TokKind::RParen {
            push_range(&mut events, cursor, i);
            push_tok(&mut events, i);
            cursor = i + 1;
        } else {
            push_token_diagnostic(
                diagnostics,
                "expected ')' after function parameters",
                function_tok,
            );
            let recovery = find_function_body_recovery(tokens, cursor);
            push_range(&mut events, cursor, recovery);
            push_empty_error_node(&mut events);
            cursor = recovery;
        }
    } else {
        let message = if function_like {
            "expected '(' after function"
        } else {
            "expected '(' after 'function'"
        };
        push_token_diagnostic(diagnostics, message, function_tok);
        push_range(&mut events, cursor, params_lparen);
        cursor = params_lparen;
    }

    let body_start = ctx.skip_ws_and_newlines(cursor);
    match parse_expr(tokens, body_start, 0, diagnostics) {
        Some(body_expr) => {
            push_range(&mut events, cursor, body_expr.start);
            let bend = body_expr.end;
            append_events(&mut events, body_expr.events);
            cursor = bend;
        },
        None => {
            push_token_diagnostic(
                diagnostics,
                "expected expression after function parameters",
                function_tok,
            );
            let recovery = ctx.skip_ws_and_newlines(cursor);
            push_range(&mut events, cursor, recovery);
            push_empty_error_node(&mut events);
            cursor = recovery;
        },
    }

    push_finish(&mut events);
    Some(ExprParse { start, end: cursor, events })
}

} // verus!
