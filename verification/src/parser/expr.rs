//! Expression parsing: a Pratt parser over the token stream with postfix
//! calls and subsets, producing parser events.

use vstd::prelude::*;

use crate::parser::cursor::{is_ws_kind, is_ws_or_nl_kind, skip_ws, skip_ws_and_newlines};
use crate::parser::diagnostics::{ParseDiagnostic, push_token_diagnostic};
use crate::parser::events::{
    Event, ExprParse, append_events, lemma_range_cat, lemma_range_push, lemma_tok_seq_single, parsed, push_finish, push_range, push_start,
    push_tok, range_seq, tok_seq,
};
use crate::parser::lexer::Token;
use crate::parser::recovery::error_expr_to_line_end;
use crate::parser::structural::{
    parse_for_expr, parse_function_expr, parse_if_expr, parse_repeat_expr, parse_while_expr,
};
use crate::syntax::{SyntaxKind, TokKind};

verus! {

broadcast use lemma_range_cat, lemma_range_push, lemma_tok_seq_single;

/// `p` lists exactly the tokens of its range, in order.
pub open spec fn exact(p: ExprParse) -> bool {
    tok_seq(p.events@) == range_seq(p.start as int, p.end as int)
}

/// What every expression parser promises of a result found at or after
/// `start`: it lies within the tokens, consumes at least one token, and lists
/// exactly the tokens of its range, in order.
pub open spec fn expr_result(r: Option<ExprParse>, start: int, n: int) -> bool {
    r matches Some(p) ==> parsed(p, start, n) && exact(p)
}

/// The tokens that an expression parser may skip before the expression starts.
pub open spec fn skippable(k: TokKind, allow_newline: bool) -> bool {
    if allow_newline {
        is_ws_or_nl_kind(k)
    } else {
        is_ws_kind(k)
    }
}

/// The first position at or after `i` whose token is not skippable.
pub open spec fn skip_end(t: Seq<Token>, i: int, allow_newline: bool) -> int
    decreases t.len() - i,
{
    if 0 <= i < t.len() && skippable(t[i].kind, allow_newline) {
        skip_end(t, i + 1, allow_newline)
    } else {
        i
    }
}

pub proof fn lemma_skip_end(t: Seq<Token>, i: int, r: int, allow_newline: bool)
    requires
        0 <= i <= r <= t.len(),
        forall|k: int| i <= k < r ==> skippable(#[trigger] t[k].kind, allow_newline),
        r < t.len() ==> !skippable(t[r].kind, allow_newline),
    ensures
        skip_end(t, i, allow_newline) == r,
    decreases r - i,
{
    if i < r {
        lemma_skip_end(t, i + 1, r, allow_newline);
    }
}

/// Operators that cannot start an expression: they start an error node.
pub open spec fn prefix_error_kind(kind: TokKind) -> bool {
    match kind {
        TokKind::Star | TokKind::Slash | TokKind::Caret | TokKind::AssignLeft
        | TokKind::SuperAssign | TokKind::AssignRight | TokKind::SuperAssignRight
        | TokKind::AssignEq | TokKind::Walrus | TokKind::Colon | TokKind::Or | TokKind::Or2 | TokKind::And
        | TokKind::And2 | TokKind::Equal2 | TokKind::NotEqual | TokKind::LessThan
        | TokKind::LessThanOrEqual | TokKind::GreaterThan | TokKind::GreaterThanOrEqual
        | TokKind::Tilde | TokKind::Colon2 | TokKind::Colon3 | TokKind::Dollar | TokKind::At
        | TokKind::Semicolon | TokKind::Comma | TokKind::Pipe => true,
        _ => false,
    }
}

/// The tokens at which a prefix expression starts: a unary operator, an
/// atom, `(`, `{`, or an operator that starts an error node.
pub open spec fn starts_prefix(kind: TokKind) -> bool {
    kind == TokKind::Plus || kind == TokKind::Minus || kind == TokKind::Bang || kind
        == TokKind::Question || kind == TokKind::Ident || kind == TokKind::Int || kind == TokKind::Float || kind
        == TokKind::String || kind == TokKind::Comment || kind == TokKind::UserOp || kind
        == TokKind::LParen || kind == TokKind::LBrace || prefix_error_kind(kind)
}

/// The keywords that start a structural expression.
pub open spec fn starts_structural(kind: TokKind) -> bool {
    kind == TokKind::IfKw || kind == TokKind::ForKw || kind == TokKind::WhileKw || kind
        == TokKind::RepeatKw || kind == TokKind::FunctionKw || kind == TokKind::LambdaFn
}

/// An expression starts at the first non-skippable token at or after
/// `start`.
pub open spec fn expr_starts(t: Seq<Token>, start: int, allow_newline: bool) -> bool {
    let i = skip_end(t, start, allow_newline);
    i < t.len() && (starts_structural(t[i].kind) || starts_prefix(t[i].kind))
}

/// An operator that continues an expression.
pub open spec fn continues_op(kind: TokKind) -> bool {
    spec_is_assignment_operator(kind) || spec_infix_binding_power(kind) is Some
}

/// The operator that continues an expression ending at `start`: the next
/// token after spaces when it is one, or, when a line break comes first,
/// the first token after spaces and line breaks when it is one.
pub open spec fn next_op(t: Seq<Token>, start: int) -> Option<int> {
    let j = skip_end(t, start, false);
    if j >= t.len() {
        None
    } else if t[j].kind == TokKind::Newline {
        let m = skip_end(t, start, true);
        if m < t.len() && continues_op(t[m].kind) {
            Some(m)
        } else {
            None
        }
    } else if continues_op(t[j].kind) {
        Some(j)
    } else {
        None
    }
}

/// At `i` stands a name that nothing continues: no call or subset bracket
/// follows it past blanks, and no operator continues the line.
pub open spec fn lone_name_at(t: Seq<Token>, i: int) -> bool {
    &&& 0 <= i < t.len()
    &&& t[i].kind == TokKind::Ident
    &&& ({
        let a = skip_end(t, i + 1, false);
        a >= t.len() || !postfix_opener(t[a].kind)
    })
    &&& next_op(t, i + 1) is None
}

/// The left binding power of the operator kind `k`: 1 for assignments,
/// otherwise that of [`spec_infix_binding_power`].
pub open spec fn op_left_bp(k: TokKind) -> int {
    if spec_is_assignment_operator(k) {
        1
    } else {
        match spec_infix_binding_power(k) {
            Some((l, _)) => l as int,
            None => 0,
        }
    }
}

/// At `i` stands a name that an expression parsed with minimum binding
/// power `min_bp` ends with: no call or subset bracket follows it past
/// blanks, and the operator that would continue the line, if any, binds
/// less tightly than `min_bp`.
pub open spec fn name_stops_at(t: Seq<Token>, i: int, min_bp: int) -> bool {
    &&& 0 <= i < t.len()
    &&& t[i].kind == TokKind::Ident
    &&& ({
        let a = skip_end(t, i + 1, false);
        a >= t.len() || !postfix_opener(t[a].kind)
    })
    &&& match next_op(t, i + 1) {
        None => true,
        Some(m) => op_left_bp(t[m].kind) < min_bp,
    }
}

/// The binding power with which a prefix operator takes its operand: `+`,
/// `-` and `!` bind tightly (130), the help operator `?` loosely (1).
pub open spec fn unary_bp(k: TokKind) -> Option<int> {
    if k == TokKind::Plus || k == TokKind::Minus || k == TokKind::Bang {
        Some(130)
    } else if k == TokKind::Question {
        Some(1)
    } else {
        None
    }
}

/// `r` is the expression made of the single token at `i`, and no
/// diagnostic was added.
pub open spec fn single_token_expr(r: Option<ExprParse>, i: int, diags: Seq<ParseDiagnostic>, old_diags: Seq<ParseDiagnostic>) -> bool {
    r matches Some(p) && p.start == i && p.end == i + 1 && p.events@ == seq![Event::Tok(i as usize)]
        && diags == old_diags
}

/// A token that continues an expression with a call or a subset.
pub open spec fn postfix_opener(kind: TokKind) -> bool {
    kind == TokKind::LParen || kind == TokKind::LBrack || kind == TokKind::LBrack2
}

pub open spec fn skipped_to(tokens: Seq<Token>, start: int, r: Option<ExprParse>, allow_newline: bool) -> bool {
    r matches Some(p) ==> forall|k: int| start <= k < p.start ==> skippable(#[trigger] tokens[k].kind, allow_newline)
}

pub open spec fn spec_is_assignment_operator(kind: TokKind) -> bool {
    kind == TokKind::AssignLeft || kind == TokKind::SuperAssign || kind == TokKind::AssignRight
        || kind == TokKind::SuperAssignRight || kind == TokKind::AssignEq || kind == TokKind::Walrus
}

/// Left and right binding powers of the infix operators.
pub open spec fn spec_infix_binding_power(kind: TokKind) -> Option<(u8, u8)> {
    match kind {
        TokKind::Or | TokKind::Or2 => Some((50, 51)),
        TokKind::And | TokKind::And2 => Some((60, 61)),
        TokKind::Equal2 | TokKind::NotEqual | TokKind::LessThan | TokKind::LessThanOrEqual
        | TokKind::GreaterThan | TokKind::GreaterThanOrEqual => Some((80, 81)),
        TokKind::Plus | TokKind::Minus => Some((90, 91)),
        TokKind::Star | TokKind::Slash => Some((100, 101)),
        TokKind::Pipe | TokKind::UserOp => Some((110, 111)),
        TokKind::Colon => Some((120, 121)),
        TokKind::Tilde => Some((40, 41)),
        TokKind::Question => Some((0, 1)),
        TokKind::Caret => Some((140, 140)),
        TokKind::Colon2 | TokKind::Colon3 | TokKind::Dollar | TokKind::At => Some((150, 151)),
        _ => None,
    }
}

pub(crate) fn is_assignment_operator(kind: TokKind) -> (r: bool)
    ensures
        r == spec_is_assignment_operator(kind),
{
    kind == TokKind::AssignLeft || kind == TokKind::SuperAssign || kind == TokKind::AssignRight
        || kind == TokKind::SuperAssignRight || kind == TokKind::AssignEq || kind == TokKind::Walrus
}

pub(crate) fn infix_binding_power(kind: TokKind) -> (r: Option<(u8, u8)>)
    ensures
        r == spec_infix_binding_power(kind),
{
    match kind {
        TokKind::Or | TokKind::Or2 => Some((50, 51)),
        TokKind::And | TokKind::And2 => Some((60, 61)),
        TokKind::Equal2 | TokKind::NotEqual | TokKind::LessThan | TokKind::LessThanOrEqual
        | TokKind::GreaterThan | TokKind::GreaterThanOrEqual => Some((80, 81)),
        TokKind::Plus | TokKind::Minus => Some((90, 91)),
        TokKind::Star | TokKind::Slash => Some((100, 101)),
        TokKind::Pipe | TokKind::UserOp => Some((110, 111)),
        TokKind::Colon => Some((120, 121)),
        TokKind::Tilde => Some((40, 41)),
        TokKind::Question => Some((0, 1)),
        TokKind::Caret => Some((140, 140)),
        TokKind::Colon2 | TokKind::Colon3 | TokKind::Dollar | TokKind::At => Some((150, 151)),
        _ => None,
    }
}

pub(crate) fn is_infix_operator(kind: TokKind) -> (r: bool)
    ensures
        r == (spec_infix_binding_power(kind) is Some),
{
    infix_binding_power(kind).is_some()
}

/// The operator that continues an expression ending at `start`: the next
/// token after spaces, or, across a line break, the first token of the next
/// lines when it is an assignment or infix operator.
pub(crate) fn next_operator(tokens: &[Token], start: usize) -> (r: Option<usize>)
    requires
        start <= tokens@.len(),
    ensures
        r matches Some(i) ==> start <= i < tokens@.len() && (spec_is_assignment_operator(
            tokens@[i as int].kind,
        ) || spec_infix_binding_power(tokens@[i as int].kind) is Some),
        crate::ast::opt_index(r) == next_op(tokens@, start as int),
{
    let op_idx = skip_ws(tokens, start);
    proof {
        lemma_skip_end(tokens@, start as int, op_idx as int, false);
    }
    if op_idx >= tokens.len() {
        return None;
    }
    let kind = tokens[op_idx].kind;
    if kind == TokKind::Newline {
        let next_idx = skip_ws_and_newlines(tokens, start);
        proof {
            lemma_skip_end(tokens@, start as int, next_idx as int, true);
        }
        if next_idx >= tokens.len() {
            return None;
        }
        let next = tokens[next_idx].kind;
        if is_assignment_operator(next) || is_infix_operator(next) {
            return Some(next_idx);
        }
        return None;
    }
    if is_assignment_operator(kind) || is_infix_operator(kind) {
        return Some(op_idx);
    }
    None
}

/// Parse the expression that starts at or after `start`.
pub(crate) fn parse_expr(tokens: &[Token], start: usize, min_bp: u8, diagnostics: &mut Vec<ParseDiagnostic>) -> (r: Option<ExprParse>)
    requires
        start <= tokens@.len(),
    ensures
        final(diagnostics)@.len() >= old(diagnostics)@.len(),
        crate::parser::diagnostics::extends(final(diagnostics)@, old(diagnostics)@),
        expr_result(r, start as int, tokens@.len() as int),
        skipped_to(tokens@, start as int, r, false),
        r is Some <==> expr_starts(tokens@, start as int, false),
        ({
            let i = skip_end(tokens@, start as int, false);
            lone_name_at(tokens@, i) ==> single_token_expr(r, i, final(diagnostics)@, old(diagnostics)@)
        }),
    decreases tokens@.len() - start, 5int,
{
    parse_expr_with_mode(tokens, start, min_bp, diagnostics, false)
}

fn is_kind_at(tokens: &[Token], i: usize, kind: TokKind) -> (r: bool)
    ensures
        r == (i < tokens@.len() && tokens@[i as int].kind == kind),
{
    i < tokens.len() && tokens[i].kind == kind
}

/// The Pratt loop: a prefix expression, postfix calls and subsets, then infix
/// and assignment operators whose left binding power is at least `min_bp`.
pub(crate) fn parse_expr_with_mode(
    tokens: &[Token],
    start: usize,
    min_bp: u8,
    diagnostics: &mut Vec<ParseDiagnostic>,
    allow_newline_prefix: bool,
) -> (r: Option<ExprParse>)
    requires
        start <= tokens@.len(),
    ensures
        final(diagnostics)@.len() >= old(diagnostics)@.len(),
        crate::parser::diagnostics::extends(final(diagnostics)@, old(diagnostics)@),
        expr_result(r, start as int, tokens@.len() as int),
        skipped_to(tokens@, start as int, r, allow_newline_prefix),
        r is Some <==> expr_starts(tokens@, start as int, allow_newline_prefix),
        ({
            let i = skip_end(tokens@, start as int, allow_newline_prefix);
            lone_name_at(tokens@, i) ==> single_token_expr(r, i, final(diagnostics)@, old(diagnostics)@)
        }),
        ({
            let i = skip_end(tokens@, start as int, allow_newline_prefix);
            name_stops_at(tokens@, i, min_bp as int) ==> single_token_expr(
                r,
                i,
                final(diagnostics)@,
                old(diagnostics)@,
            )
        }),
    decreases tokens@.len() - start, 4int,
{
    let start_non_ws = if allow_newline_prefix {
        skip_ws_and_newlines(tokens, start)
    } else {
        skip_ws(tokens, start)
    };
    proof {
        lemma_skip_end(tokens@, start as int, start_non_ws as int, allow_newline_prefix);
    }
    if is_kind_at(tokens, start_non_ws, TokKind::IfKw) {
        return parse_if_expr(tokens, start_non_ws, diagnostics);
    }
    if is_kind_at(tokens, start_non_ws, TokKind::ForKw) {
        return parse_for_expr(tokens, start_non_ws, diagnostics);
    }
    if is_kind_at(tokens, start_non_ws, TokKind::WhileKw) {
        return parse_while_expr(tokens, start_non_ws, diagnostics);
    }
    if is_kind_at(tokens, start_non_ws, TokKind::RepeatKw) {
        return parse_repeat_expr(tokens, start_non_ws, diagnostics);
    }
    if is_kind_at(tokens, start_non_ws, TokKind::FunctionKw) || is_kind_at(
        tokens,
        start_non_ws,
        TokKind::LambdaFn,
    ) {
        return parse_function_expr(tokens, start_non_ws, diagnostics);
    }

    let ghost d0 = diagnostics@.len();
    let ghost i0 = skip_end(tokens@, start as int, allow_newline_prefix);
    let ghost lone = lone_name_at(tokens@, i0) || name_stops_at(tokens@, i0, min_bp as int);
    let mut lhs = match parse_prefix(tokens, start, diagnostics, allow_newline_prefix) {
        Some(p) => p,
        None => return None,
    };

    loop
        invariant
            start <= tokens@.len(),
            parsed(lhs, start as int, tokens@.len() as int),
            forall|k: int| start <= k < lhs.start ==> skippable(#[trigger] tokens@[k].kind, allow_newline_prefix),
            diagnostics@.len() >= d0,
            crate::parser::diagnostics::extends(diagnostics@, old(diagnostics)@),
            exact(lhs),
            d0 == old(diagnostics)@.len(),
            expr_starts(tokens@, start as int, allow_newline_prefix),
            i0 == skip_end(tokens@, start as int, allow_newline_prefix),
            lone == (lone_name_at(tokens@, i0) || name_stops_at(tokens@, i0, min_bp as int)),
            lone ==> single_token_expr(Some(lhs), i0, diagnostics@, old(diagnostics)@),
        decreases tokens@.len() - lhs.end,
    {
        lhs = parse_postfix_chain(tokens, lhs, diagnostics);

        let op_idx = match next_operator(tokens, lhs.end) {
            Some(i) => i,
            None => break,
        };
        let op_kind = tokens[op_idx].kind;

        if is_assignment_operator(op_kind) {
            let l_bp: u8 = 1;
            let r_bp: u8 = 1;
            if l_bp < min_bp {
                break;
            }
            let rhs_start = op_idx + 1;
            let rhs_allow_newline = op_kind == TokKind::Pipe || op_kind == TokKind::UserOp;
            match parse_expr_with_mode(tokens, rhs_start, r_bp, diagnostics, rhs_allow_newline) {
                None => {
                    push_token_diagnostic(
                        diagnostics,
                        "expected assignment right-hand side",
                        &tokens[op_idx],
                    );
                    return Some(error_expr_to_line_end(tokens, lhs.start, rhs_start));
                },
                Some(rhs) => {
                    lhs = build_assignment_expr(lhs, op_idx, rhs);
                    continue ;
                },
            }
        }
        let (l_bp, r_bp) = match infix_binding_power(op_kind) {
            Some(bp) => bp,
            None => break,
        };
        if l_bp < min_bp {
            break;
        }

        let rhs_start = op_idx + 1;
        let rhs_allow_newline = op_kind == TokKind::Pipe || op_kind == TokKind::UserOp;
        match parse_expr_with_mode(tokens, rhs_start, r_bp, diagnostics, rhs_allow_newline) {
            None => {
                push_token_diagnostic(
                    diagnostics,
                    "expected right-hand side for binary operator",
                    &tokens[op_idx],
                );
                return Some(error_expr_to_line_end(tokens, lhs.start, rhs_start));
            },
            Some(rhs) => {
                lhs = build_binary_expr(lhs, op_idx, rhs);
            },
        }
    }

    Some(lhs)
}

fn is_prefix_operator_error(kind: TokKind) -> (r: bool)
    ensures
        r == prefix_error_kind(kind),
{
    match kind {
        TokKind::Star | TokKind::Slash | TokKind::Caret | TokKind::AssignLeft
        | TokKind::SuperAssign | TokKind::AssignRight | TokKind::SuperAssignRight
        | TokKind::AssignEq | TokKind::Walrus | TokKind::Colon | TokKind::Or | TokKind::Or2 | TokKind::And
        | TokKind::And2 | TokKind::Equal2 | TokKind::NotEqual | TokKind::LessThan
        | TokKind::LessThanOrEqual | TokKind::GreaterThan | TokKind::GreaterThanOrEqual
        | TokKind::Tilde | TokKind::Colon2 | TokKind::Colon3 | TokKind::Dollar | TokKind::At
        | TokKind::Semicolon | TokKind::Comma | TokKind::Pipe => true,
        _ => false,
    }
}

/// A prefix expression: unary operators, atoms, parentheses and blocks.
fn parse_prefix(
    tokens: &[Token],
    start: usize,
    diagnostics: &mut Vec<ParseDiagnostic>,
    allow_newline_prefix: bool,
) -> (r: Option<ExprParse>)
    requires
        start <= tokens@.len(),
    ensures
        final(diagnostics)@.len() >= old(diagnostics)@.len(),
        crate::parser::diagnostics::extends(final(diagnostics)@, old(diagnostics)@),
        expr_result(r, start as int, tokens@.len() as int),
        skipped_to(tokens@, start as int, r, allow_newline_prefix),
        r is Some <==> ({
            let i = skip_end(tokens@, start as int, allow_newline_prefix);
            i < tokens@.len() && starts_prefix(tokens@[i].kind)
        }),
        ({
            let i = skip_end(tokens@, start as int, allow_newline_prefix);
            i < tokens@.len() && tokens@[i].kind == TokKind::Ident ==> single_token_expr(
                r,
                i,
                final(diagnostics)@,
                old(diagnostics)@,
            )
        }),
        ({
            let i = skip_end(tokens@, start as int, allow_newline_prefix);
            let j = skip_end(tokens@, i + 1, true);
            (i < tokens@.len() && unary_bp(tokens@[i].kind) is Some && name_stops_at(
                tokens@,
                j,
                unary_bp(tokens@[i].kind)->Some_0,
            )) ==> (r matches Some(p) && p.start == i && p.end == j + 1 && final(diagnostics)@
                == old(diagnostics)@)
        }),
    decreases tokens@.len() - start, 3int,
{
    let i = if allow_newline_prefix {
        skip_ws_and_newlines(tokens, start)
    } else {
        skip_ws(tokens, start)
    };
    proof {
        lemma_skip_end(tokens@, start as int, i as int, allow_newline_prefix);
    }
    if i >= tokens.len() {
        return None;
    }
    let kind = tokens[i].kind;
    match kind {
        TokKind::Plus | TokKind::Minus | TokKind::Bang | TokKind::Question => {
            let operand_start = i + 1;
            let operand_bp: u8 = if kind == TokKind::Question {
                1
            } else {
                130
            };
            match parse_expr_with_mode(tokens, operand_start, operand_bp, diagnostics, true) {
                None => {
                    push_token_diagnostic(
                        diagnostics,
                        "expected operand for unary operator",
                        &tokens[i],
                    );
                    Some(error_expr_to_line_end(tokens, i, operand_start))
                },
                Some(operand) => {
                    let ghost d1 = diagnostics@.len();
                    let mut events: Vec<Event> = Vec::new();
                    push_start(&mut events, SyntaxKind::UNARY_EXPR);
                    push_tok(&mut events, i);
                    push_range(&mut events, i + 1, operand.start);
                    let oend = operand.end;
                    append_events(&mut events, operand.events);
                    push_finish(&mut events);
                    proof {
                        assert(tok_seq(Seq::<Event>::empty()).push(i as int) =~= range_seq(
                            i as int,
                            i + 1,
                        ));
                    }
                    Some(ExprParse { start: i, end: oend, events })
                },
            }
        },
        TokKind::Ident | TokKind::Int | TokKind::Float | TokKind::String | TokKind::Comment
        | TokKind::UserOp => {
            let mut events: Vec<Event> = Vec::new();
            push_tok(&mut events, i);
            proof {
                assert(tok_seq(Seq::<Event>::empty()).push(i as int) =~= range_seq(
                    i as int,
                    i + 1,
                ));
            }
            Some(ExprParse { start: i, end: i + 1, events })
        },
        TokKind::LParen => {
            let inner_start = i + 1;
            let mut expr_start = inner_start;
            while expr_start < tokens.len() && (tokens[expr_start].kind == TokKind::Whitespace
                || tokens[expr_start].kind == TokKind::Newline || tokens[expr_start].kind
                == TokKind::Comment)
                invariant
                    inner_start <= expr_start <= tokens@.len(),
                decreases tokens@.len() - expr_start,
            {
                expr_start += 1;
            }
            let inner = match parse_expr_with_mode(tokens, expr_start, 0, diagnostics, true) {
                Some(p) => p,
                None => {
                    push_token_diagnostic(diagnostics, "expected expression after '('", &tokens[i]);
                    return Some(error_expr_to_line_end(tokens, i, inner_start));
                },
            };
            let close_idx = skip_ws_and_newlines(tokens, inner.end);
            let closed = is_kind_at(tokens, close_idx, TokKind::RParen);
            if !closed {
                push_token_diagnostic(diagnostics, "expected ')'", &tokens[i]);
            }
            let mut events: Vec<Event> = Vec::new();
            push_start(&mut events, SyntaxKind::PAREN_EXPR);
            push_tok(&mut events, i);
            push_range(&mut events, inner_start, inner.start);
            let iend = inner.end;
            append_events(&mut events, inner.events);
            push_range(&mut events, iend, close_idx);
            proof {
                assert(tok_seq(Seq::<Event>::empty()).push(i as int) =~= range_seq(
                    i as int,
                    i + 1,
                ));
            }
            if !closed {
                push_finish(&mut events);
                return Some(ExprParse { start: i, end: close_idx, events });
            }
            push_tok(&mut events, close_idx);
            push_finish(&mut events);
            proof {
                assert(range_seq(i as int, close_idx as int).push(close_idx as int) =~= range_seq(
                    i as int,
                    close_idx + 1,
                ));
            }
            Some(ExprParse { start: i, end: close_idx + 1, events })
        },
        TokKind::LBrace => parse_block_expr(tokens, i, diagnostics),
        _ => {
            if is_prefix_operator_error(kind) {
                push_token_diagnostic(
                    diagnostics,
                    "unexpected operator at expression start",
                    &tokens[i],
                );
                Some(error_expr_to_line_end(tokens, i, i + 1))
            } else {
                None
            }
        },
    }
}

/// A `{ ... }` block of newline- or semicolon-separated expressions.
fn parse_block_expr(tokens: &[Token], start: usize, diagnostics: &mut Vec<ParseDiagnostic>) -> (r: Option<ExprParse>)
    requires
        start < tokens@.len(),
    ensures
        final(diagnostics)@.len() >= old(diagnostics)@.len(),
        crate::parser::diagnostics::extends(final(diagnostics)@, old(diagnostics)@),
        expr_result(r, start as int, tokens@.len() as int),
        r matches Some(p) && p.start == start,
    decreases tokens@.len() - start, 2int,
{
    let ghost d0 = diagnostics@.len();
    let len = tokens.len();
    let mut i = start + 1;
    let mut events: Vec<Event> = Vec::new();
    push_start(&mut events, SyntaxKind::BLOCK_EXPR);
    push_tok(&mut events, start);
    proof {
        assert(tok_seq(Seq::<Event>::empty()).push(start as int) =~= range_seq(
            start as int,
            start + 1,
        ));
    }
    loop
        invariant
            start < i <= len,
            len == tokens@.len(),
            diagnostics@.len() >= d0,
            crate::parser::diagnostics::extends(diagnostics@, old(diagnostics)@),
            d0 == old(diagnostics)@.len(),
            tok_seq(events@) == range_seq(start as int, i as int),
        decreases len - i,
    {
        let next = skip_ws(tokens, i);
        if next >= len {
            push_token_diagnostic(diagnostics, "expected '}' to close block", &tokens[start]);
            push_range(&mut events, i, len);
            push_finish(&mut events);
            return Some(ExprParse { start, end: len, events });
        }
        let kind = tokens[next].kind;
        if kind == TokKind::RBrace {
            push_range(&mut events, i, next);
            push_tok(&mut events, next);
            push_finish(&mut events);
            proof {
                assert(range_seq(start as int, next as int).push(next as int) =~= range_seq(
                    start as int,
                    next + 1,
                ));
            }
            return Some(ExprParse { start, end: next + 1, events });
        }
        if kind == TokKind::Newline || kind == TokKind::Semicolon {
            push_range(&mut events, i, next + 1);
            i = next + 1;
            continue ;
        }
        match parse_expr(tokens, i, 0, diagnostics) {
            Some(expr) => {
                push_range(&mut events, i, expr.start);
                let eend = expr.end;
                append_events(&mut events, expr.events);
                i = eend;
            },
            None => {
                push_tok(&mut events, i);
                proof {
                    assert(range_seq(start as int, i as int).push(i as int) =~= range_seq(
                        start as int,
                        i + 1,
                    ));
                }
                i += 1;
            },
        }
    }
}

/// Calls `f(...)`, subsets `x[...]` and `x[[...]]` following an expression.
fn parse_postfix_chain(tokens: &[Token], first: ExprParse, diagnostics: &mut Vec<ParseDiagnostic>) -> (r: ExprParse)
    requires
        parsed(first, 0, tokens@.len() as int),
    ensures
        final(diagnostics)@.len() >= old(diagnostics)@.len(),
        crate::parser::diagnostics::extends(final(diagnostics)@, old(diagnostics)@),
        parsed(r, first.start as int, tokens@.len() as int),
        r.start == first.start,
        r.end >= first.end,
        exact(first) ==> exact(r),
        ({
            let a = skip_end(tokens@, r.end as int, false);
            a >= tokens@.len() || !postfix_opener(tokens@[a].kind)
        }),
        ({
            let a = skip_end(tokens@, first.end as int, false);
            a >= tokens@.len() || !postfix_opener(tokens@[a].kind)
        }) ==> r == first && final(diagnostics)@ == old(diagnostics)@,
    decreases tokens@.len() - first.end, 3int,
{
    let ghost d0 = diagnostics@.len();
    let ghost lhs0 = first;
    let mut lhs = first;
    loop
        invariant
            parsed(lhs, lhs0.start as int, tokens@.len() as int),
            lhs0 == first,
            lhs.start == lhs0.start,
            lhs.end >= lhs0.end,
            diagnostics@.len() >= d0,
            crate::parser::diagnostics::extends(diagnostics@, old(diagnostics)@),
            d0 == old(diagnostics)@.len(),
            exact(lhs0) ==> exact(lhs),
            ({
                let a = skip_end(tokens@, lhs0.end as int, false);
                a >= tokens@.len() || !postfix_opener(tokens@[a].kind)
            }) ==> lhs == lhs0 && diagnostics@ == old(diagnostics)@,
        ensures
            ({
                let a = skip_end(tokens@, lhs.end as int, false);
                a >= tokens@.len() || !postfix_opener(tokens@[a].kind)
            }),
            ({
                let a = skip_end(tokens@, lhs0.end as int, false);
                a >= tokens@.len() || !postfix_opener(tokens@[a].kind)
            }) ==> lhs == lhs0 && diagnostics@ == old(diagnostics)@,
        decreases tokens@.len() - lhs.end,
    {
        let after_lhs = skip_ws(tokens, lhs.end);
        proof {
            lemma_skip_end(tokens@, lhs.end as int, after_lhs as int, false);
        }
        if after_lhs >= tokens.len() {
            break;
        }
        let kind = tokens[after_lhs].kind;
        if kind == TokKind::LParen {
            lhs = parse_call_expr(tokens, lhs, after_lhs, diagnostics);
        } else if kind == TokKind::LBrack {
            lhs = parse_subset_expr(tokens, lhs, after_lhs, diagnostics);
        } else if kind == TokKind::LBrack2 {
            lhs = parse_subset2_expr(tokens, lhs, after_lhs, diagnostics);
        } else {
            break;
        }
    }
    lhs
}

/// A node of kind `kind` around `lhs`, the operator at `op_idx` and `rhs`.
pub(crate) fn build_binary_like_expr(kind: SyntaxKind, lhs: ExprParse, op_idx: usize, rhs: ExprParse) -> (r: ExprParse)
    requires
        lhs.start < lhs.end <= op_idx < rhs.start < rhs.end,
    ensures
        r.start == lhs.start,
        r.end == rhs.end,
        exact(lhs) && exact(rhs) ==> exact(r),
{
    let ghost l = lhs;
    let ghost rr = rhs;
    let mut events: Vec<Event> = Vec::new();
    push_start(&mut events, kind);
    append_events(&mut events, lhs.events);
    push_range(&mut events, lhs.end, op_idx);
    push_tok(&mut events, op_idx);
    push_range(&mut events, op_idx + 1, rhs.start);
    append_events(&mut events, rhs.events);
    push_finish(&mut events);
    proof {
        if exact(l) && exact(rr) {
            assert(tok_seq(Seq::<Event>::empty()) + range_seq(l.start as int, l.end as int)
                =~= range_seq(l.start as int, l.end as int));
            assert(range_seq(l.start as int, op_idx as int).push(op_idx as int) =~= range_seq(
                l.start as int,
                op_idx + 1,
            ));
        }
    }
    ExprParse { start: lhs.start, end: rhs.end, events }
}

pub(crate) fn build_binary_expr(lhs: ExprParse, op_idx: usize, rhs: ExprParse) -> (r: ExprParse)
    requires
        lhs.start < lhs.end <= op_idx < rhs.start < rhs.end,
    ensures
        r.start == lhs.start,
        r.end == rhs.end,
        exact(lhs) && exact(rhs) ==> exact(r),
{
    build_binary_like_expr(SyntaxKind::BINARY_EXPR, lhs, op_idx, rhs)
}

pub(crate) fn build_assignment_expr(lhs: ExprParse, op_idx: usize, rhs: ExprParse) -> (r: ExprParse)
    requires
        lhs.start < lhs.end <= op_idx < rhs.start < rhs.end,
    ensures
        r.start == lhs.start,
        r.end == rhs.end,
        exact(lhs) && exact(rhs) ==> exact(r),
{
    build_binary_like_expr(SyntaxKind::ASSIGNMENT_EXPR, lhs, op_idx, rhs)
}

/// Whether the tokens at `i` read `ident =` (a named argument; `==` does not count).
pub(crate) fn is_named_arg(tokens: &[Token], i: usize) -> (r: bool)
    ensures
        r == (i < tokens@.len() && tokens@[i as int].kind == TokKind::Ident && skip_end(
            tokens@,
            i + 1,
            false,
        ) < tokens@.len() && tokens@[skip_end(tokens@, i + 1, false)].kind == TokKind::AssignEq),
        r ==> i < tokens@.len() && tokens@[i as int].kind == TokKind::Ident,
        r ==> exists|next: int|
            i + 1 <= next < tokens@.len() && #[trigger] tokens@[next].kind == TokKind::AssignEq
                && forall|k: int| i + 1 <= k < next ==> is_ws_kind(#[trigger] tokens@[k].kind),
{
    if i >= tokens.len() || tokens[i].kind != TokKind::Ident {
        return false;
    }
    let next = skip_ws(tokens, i + 1);
    proof {
        lemma_skip_end(tokens@, i + 1, next as int, false);
    }
    is_kind_at(tokens, next, TokKind::AssignEq)
}

/// Whether a newline token occurs in `start..end`.
pub(crate) fn has_newline(tokens: &[Token], start: usize, end: usize) -> (r: bool)
    requires
        start <= end <= tokens@.len(),
    ensures
        r == exists|k: int| start <= k < end && #[trigger] tokens@[k].kind == TokKind::Newline,
{
    let mut k = start;
    while k < end
        invariant
            start <= k <= end,
            end <= tokens@.len(),
            forall|m: int| start <= m < k ==> #[trigger] tokens@[m].kind != TokKind::Newline,
        decreases end - k,
    {
        if tokens[k].kind == TokKind::Newline {
            return true;
        }
        k += 1;
    }
    false
}

/// A call: the callee, `(`, a comma-separated argument list (named arguments
/// `name = value` included) and `)`.
fn parse_call_expr(
    tokens: &[Token],
    callee: ExprParse,
    lparen_idx: usize,
    diagnostics: &mut Vec<ParseDiagnostic>,
) -> (r: ExprParse)
    requires
        parsed(callee, 0, tokens@.len() as int),
        callee.end <= lparen_idx < tokens@.len(),
    ensures
        final(diagnostics)@.len() >= old(diagnostics)@.len(),
        crate::parser::diagnostics::extends(final(diagnostics)@, old(diagnostics)@),
        parsed(r, callee.start as int, tokens@.len() as int),
        r.start == callee.start,
        r.end > lparen_idx,
        exact(callee) ==> exact(r),
        (r.end - 1 > lparen_idx && tokens@[r.end - 1].kind == TokKind::RParen)
            || crate::parser::diagnostics::last_reports(
            final(diagnostics)@,
            old(diagnostics)@,
            "expected ')' to close function call"@,
            tokens@[lparen_idx as int],
        ),
        forall|rp: int|
            #[trigger] simple_arg_list(tokens@, lparen_idx as int, rp) ==> r.end == rp + 1
                && final(diagnostics)@ == old(diagnostics)@,
    decreases tokens@.len() - lparen_idx, 2int,
{
    let ghost simple = exists|rp: int| #[trigger] simple_arg_list(tokens@, lparen_idx as int, rp);
    let ghost rp: int = if simple {
        choose|rp: int| #[trigger] simple_arg_list(tokens@, lparen_idx as int, rp)
    } else {
        0
    };
    let ghost mut last_name: int = 0;
    let ghost d0 = diagnostics@.len();
    let ghost c = callee;
    let len = tokens.len();
    let cstart = callee.start;
    let cend = callee.end;
    let mut events: Vec<Event> = Vec::new();
    push_start(&mut events, SyntaxKind::CALL_EXPR);
    append_events(&mut events, callee.events);
    push_range(&mut events, cend, lparen_idx);
    push_tok(&mut events, lparen_idx);
    push_start(&mut events, SyntaxKind::ARG_LIST);
    let mut i = lparen_idx + 1;
    let ghost ok0 = exact(c);
    proof {
        if ok0 {
            assert(tok_seq(Seq::<Event>::empty()) + range_seq(c.start as int, c.end as int)
                =~= range_seq(c.start as int, c.end as int));
            assert(range_seq(c.start as int, lparen_idx as int).push(lparen_idx as int)
                =~= range_seq(c.start as int, lparen_idx + 1));
        }
    }
    let mut expect_delimiter = false;
    loop
        invariant
            lparen_idx < i <= len,
            len == tokens@.len(),
            cstart == c.start,
            c.start < c.end <= lparen_idx,
            diagnostics@.len() >= d0,
            crate::parser::diagnostics::extends(diagnostics@, old(diagnostics)@),
            d0 == old(diagnostics)@.len(),
            ok0 ==> tok_seq(events@) == range_seq(
                cstart as int,
                i as int,
            ),
            simple ==> simple_arg_list(tokens@, lparen_idx as int, rp) && i <= rp
                && diagnostics@ == old(diagnostics)@,
            simple && expect_delimiter ==> lparen_idx < last_name < i && tokens@[last_name].kind
                == TokKind::Ident && tokens@[i as int].kind != TokKind::Comma && !is_ws_or_nl_kind(
                tokens@[i as int].kind,
            ) && forall|c: int| last_name < c < i ==> #[trigger] tokens@[c].kind != TokKind::Comma,
        ensures
            simple ==> i == rp && diagnostics@ == old(diagnostics)@,
        decreases len - i,
    {
        let next_i = skip_ws_and_newlines(tokens, i);
        let had_newline_gap = has_newline(tokens, i, next_i);
        push_range(&mut events, i, next_i);
        i = next_i;

        if i >= len || tokens[i].kind == TokKind::RParen {
            break;
        }
        proof {
            if simple && expect_delimiter {
                assert(tokens@[i as int].kind == TokKind::Ident);
                lemma_names_separated(tokens@, lparen_idx as int, rp, last_name, i as int);
                let cc = choose|c: int| last_name < c < i && #[trigger] comma_at(tokens@, c);
                assert(tokens@[cc].kind != TokKind::Comma);
            }
        }
        if expect_delimiter && !had_newline_gap {
            push_token_diagnostic(diagnostics, "expected ',' between arguments", &tokens[i]);
        }
        if tokens[i].kind == TokKind::Comma {
            push_start(&mut events, SyntaxKind::ARG);
            push_finish(&mut events);
            push_tok(&mut events, i);
            proof {
                assert(range_seq(cstart as int, i as int).push(i as int) =~= range_seq(
                    cstart as int,
                    i + 1,
                ));
            }
            i += 1;
            expect_delimiter = false;
            continue ;
        }

        push_start(&mut events, SyntaxKind::ARG);
        if is_named_arg(tokens, i) {
            push_tok(&mut events, i);
            let eq_idx = skip_ws(tokens, i + 1);
            push_range(&mut events, i + 1, eq_idx);
            proof {
                assert(range_seq(cstart as int, i as int).push(i as int) =~= range_seq(
                    cstart as int,
                    i + 1,
                ));
            }
            proof {
                let next = choose|next: int|
                    i + 1 <= next < tokens@.len() && #[trigger] tokens@[next].kind
                        == TokKind::AssignEq && forall|k: int|
                        i + 1 <= k < next ==> is_ws_kind(#[trigger] tokens@[k].kind);
                if eq_idx < next {
                    assert(is_ws_kind(tokens@[eq_idx as int].kind));
                } else if eq_idx > next {
                    assert(is_ws_kind(tokens@[next].kind));
                }
            }
            push_tok(&mut events, eq_idx);
            proof {
                assert(range_seq(cstart as int, eq_idx as int).push(eq_idx as int) =~= range_seq(
                    cstart as int,
                    eq_idx + 1,
                ));
            }
            let val_start = eq_idx + 1;
            match parse_expr(tokens, val_start, 0, diagnostics) {
                Some(val) => {
                    push_range(&mut events, val_start, val.start);
                    let vend = val.end;
                    append_events(&mut events, val.events);
                    i = vend;
                },
                None => {
                    i = val_start;
                },
            }
        } else {
            proof {
                if simple {
                    assert(tokens@[i as int].kind == TokKind::Ident);
                    lemma_simple_arg_name(tokens@, lparen_idx as int, rp, i as int);
                    last_name = i as int;
                }
            }
            match parse_expr(tokens, i, 0, diagnostics) {
                Some(arg) => {
                    push_range(&mut events, i, arg.start);
                    let aend = arg.end;
                    append_events(&mut events, arg.events);
                    i = aend;
                },
                None => {
                    push_tok(&mut events, i);
                    proof {
                        assert(range_seq(cstart as int, i as int).push(i as int) =~= range_seq(
                            cstart as int,
                            i + 1,
                        ));
                    }
                    i += 1;
                },
            }
        }
        push_finish(&mut events);
        expect_delimiter = true;

        let next_i = skip_ws_and_newlines(tokens, i);
        push_range(&mut events, i, next_i);
        i = next_i;
        if i < len && tokens[i].kind == TokKind::Comma {
            push_tok(&mut events, i);
            proof {
                assert(range_seq(cstart as int, i as int).push(i as int) =~= range_seq(
                    cstart as int,
                    i + 1,
                ));
            }
            i += 1;
            expect_delimiter = false;
        }
    }

    push_finish(&mut events);
    let next_i = skip_ws_and_newlines(tokens, i);
    push_range(&mut events, i, next_i);
    i = next_i;

    if i < len && tokens[i].kind == TokKind::RParen {
        push_tok(&mut events, i);
        proof {
            assert(range_seq(cstart as int, i as int).push(i as int) =~= range_seq(
                cstart as int,
                i + 1,
            ));
        }
        i += 1;
    } else {
        push_token_diagnostic(
            diagnostics,
            "expected ')' to close function call",
            &tokens[lparen_idx],
        );
    }
    push_finish(&mut events);
    proof {
        assert forall|rp2: int| #[trigger] simple_arg_list(tokens@, lparen_idx as int, rp2) implies i == rp2 + 1
            && diagnostics@ == old(diagnostics)@ by {
            if rp2 < rp {
                assert(simple_arg_kind(tokens@[rp2].kind));
            } else if rp2 > rp {
                assert(simple_arg_kind(tokens@[rp].kind));
            }
        }
    }
    ExprParse { start: cstart, end: i, events }
}

/// A token of a simple argument list: a name, a comma or blanks.
pub open spec fn simple_arg_kind(k: TokKind) -> bool {
    k == TokKind::Ident || k == TokKind::Comma || k == TokKind::Whitespace
}

/// The tokens strictly between `(` at `l` and `)` at `rp` are names,
/// commas and blanks, with a comma between any two names.
pub open spec fn simple_arg_list(t: Seq<Token>, l: int, rp: int) -> bool {
    &&& 0 <= l < rp < t.len()
    &&& t[rp].kind == TokKind::RParen
    &&& forall|k: int| l < k < rp ==> simple_arg_kind(#[trigger] t[k].kind)
    &&& names_separated(t, l, rp)
}

/// Between any two names strictly between `l` and `rp` stands a comma.
#[verifier::opaque]
pub open spec fn names_separated(t: Seq<Token>, l: int, rp: int) -> bool {
    forall|a: int, b: int|
        #![trigger name_at(t, a), name_at(t, b)]
        l < a < b < rp && name_at(t, a) && name_at(t, b) ==> exists|c: int|
            a < c < b && #[trigger] comma_at(t, c)
}

/// Token `a` of `t` is a name.
pub open spec fn name_at(t: Seq<Token>, a: int) -> bool {
    t[a].kind == TokKind::Ident
}

/// Token `c` of `t` is a comma.
pub open spec fn comma_at(t: Seq<Token>, c: int) -> bool {
    t[c].kind == TokKind::Comma
}

proof fn lemma_names_separated(t: Seq<Token>, l: int, rp: int, a: int, b: int)
    requires
        names_separated(t, l, rp),
        l < a < b < rp,
        t[a].kind == TokKind::Ident,
        t[b].kind == TokKind::Ident,
    ensures
        exists|c: int| a < c < b && #[trigger] comma_at(t, c),
{
    reveal(names_separated);
    assert(name_at(t, a) && name_at(t, b));
}

/// In a simple argument list, a name is not a named argument and stands
/// alone.
proof fn lemma_simple_arg_name(t: Seq<Token>, l: int, rp: int, i: int)
    requires
        simple_arg_list(t, l, rp),
        l < i < rp,
        t[i].kind == TokKind::Ident,
    ensures
        lone_name_at(t, i),
        skip_end(t, i, false) == i,
        !(skip_end(t, i + 1, false) < t.len() && t[skip_end(t, i + 1, false)].kind == TokKind::AssignEq),
{
    lemma_skip_end_to(t, i + 1, rp);
    let j = skip_end(t, i + 1, false);
    assert(t[j].kind != TokKind::Newline);
}

/// Skipping blanks from `i` in a simple argument list stops at or before
/// its `)`, on a name, a comma or the `)`.
proof fn lemma_skip_end_to(t: Seq<Token>, i: int, rp: int)
    requires
        0 <= i <= rp < t.len(),
        t[rp].kind == TokKind::RParen,
        forall|k: int| i <= k < rp ==> simple_arg_kind(#[trigger] t[k].kind),
    ensures
        i <= skip_end(t, i, false) <= rp,
        t[skip_end(t, i, false)].kind == TokKind::Ident || t[skip_end(t, i, false)].kind
            == TokKind::Comma || t[skip_end(t, i, false)].kind == TokKind::RParen,
    decreases rp - i,
{
    if i < rp && t[i].kind == TokKind::Whitespace {
        lemma_skip_end_to(t, i + 1, rp);
    }
}

/// A single-bracket subset `target[...]`.
fn parse_subset_expr(
    tokens: &[Token],
    target: ExprParse,
    lbrack_idx: usize,
    diagnostics: &mut Vec<ParseDiagnostic>,
) -> (r: ExprParse)
    requires
        parsed(target, 0, tokens@.len() as int),
        target.end <= lbrack_idx < tokens@.len(),
    ensures
        final(diagnostics)@.len() >= old(diagnostics)@.len(),
        crate::parser::diagnostics::extends(final(diagnostics)@, old(diagnostics)@),
        parsed(r, target.start as int, tokens@.len() as int),
        r.start == target.start,
        r.end > lbrack_idx,
        exact(target) ==> exact(r),
    decreases tokens@.len() - lbrack_idx, 2int,
{
    parse_bracket_expr(tokens, target, lbrack_idx, TokKind::RBrack, SyntaxKind::SUBSET_EXPR, diagnostics)
}

/// A double-bracket subset `target[[...]]`.
fn parse_subset2_expr(
    tokens: &[Token],
    target: ExprParse,
    lbrack2_idx: usize,
    diagnostics: &mut Vec<ParseDiagnostic>,
) -> (r: ExprParse)
    requires
        parsed(target, 0, tokens@.len() as int),
        target.end <= lbrack2_idx < tokens@.len(),
    ensures
        final(diagnostics)@.len() >= old(diagnostics)@.len(),
        crate::parser::diagnostics::extends(final(diagnostics)@, old(diagnostics)@),
        parsed(r, target.start as int, tokens@.len() as int),
        r.start == target.start,
        r.end > lbrack2_idx,
        exact(target) ==> exact(r),
    decreases tokens@.len() - lbrack2_idx, 2int,
{
    parse_bracket_expr(tokens, target, lbrack2_idx, TokKind::RBrack2, SyntaxKind::SUBSET2_EXPR, diagnostics)
}

/// A subset `target[...]` / `target[[...]]`: comma-separated arguments up to
/// the matching close bracket `close_kind`.
fn parse_bracket_expr(
    tokens: &[Token],
    target: ExprParse,
    open_idx: usize,
    close_kind: TokKind,
    node_kind: SyntaxKind,
    diagnostics: &mut Vec<ParseDiagnostic>,
) -> (r: ExprParse)
    requires
        parsed(target, 0, tokens@.len() as int),
        target.end <= open_idx < tokens@.len(),
    ensures
        final(diagnostics)@.len() >= old(diagnostics)@.len(),
        crate::parser::diagnostics::extends(final(diagnostics)@, old(diagnostics)@),
        parsed(r, target.start as int, tokens@.len() as int),
        r.start == target.start,
        r.end > open_idx,
        exact(target) ==> exact(r),
    decreases tokens@.len() - open_idx, 1int,
{
    let ghost d0 = diagnostics@.len();
    let ghost c = target;
    let len = tokens.len();
    let tstart = target.start;
    let tend = target.end;
    let mut events: Vec<Event> = Vec::new();
    push_start(&mut events, node_kind);
    append_events(&mut events, target.events);
    push_range(&mut events, tend, open_idx);
    push_tok(&mut events, open_idx);
    push_start(&mut events, SyntaxKind::ARG_LIST);
    let mut i = open_idx + 1;
    let ghost ok0 = exact(c);
    proof {
        if ok0 {
            assert(tok_seq(Seq::<Event>::empty()) + range_seq(c.start as int, c.end as int)
                =~= range_seq(c.start as int, c.end as int));
            assert(range_seq(c.start as int, open_idx as int).push(open_idx as int)
                =~= range_seq(c.start as int, open_idx + 1));
        }
    }
    let mut expect_delimiter = false;
    loop
        invariant
            open_idx < i <= len,
            len == tokens@.len(),
            tstart == c.start,
            c.start < c.end <= open_idx,
            diagnostics@.len() >= d0,
            crate::parser::diagnostics::extends(diagnostics@, old(diagnostics)@),
            d0 == old(diagnostics)@.len(),
            ok0 ==> tok_seq(events@) == range_seq(
                tstart as int,
                i as int,
            ),
        decreases len - i,
    {
        let next_i = skip_ws_and_newlines(tokens, i);
        let had_newline_gap = has_newline(tokens, i, next_i);
        push_range(&mut events, i, next_i);
        i = next_i;

        if i >= len || tokens[i].kind == close_kind {
            break;
        }
        if expect_delimiter && !had_newline_gap {
            push_token_diagnostic(diagnostics, "expected ',' between subset arguments", &tokens[i]);
        }
        if tokens[i].kind == TokKind::Comma {
            push_start(&mut events, SyntaxKind::ARG);
            push_finish(&mut events);
            push_tok(&mut events, i);
            proof {
                assert(range_seq(tstart as int, i as int).push(i as int) =~= range_seq(
                    tstart as int,
                    i + 1,
                ));
            }
            i += 1;
            expect_delimiter = false;
            continue ;
        }

        push_start(&mut events, SyntaxKind::ARG);
        match parse_expr(tokens, i, 0, diagnostics) {
            Some(arg) => {
                push_range(&mut events, i, arg.start);
                let aend = arg.end;
                append_events(&mut events, arg.events);
                i = aend;
            },
            None => {
                push_tok(&mut events, i);
                proof {
                    assert(range_seq(tstart as int, i as int).push(i as int) =~= range_seq(
                        tstart as int,
                        i + 1,
                    ));
                }
                i += 1;
            },
        }
        push_finish(&mut events);
        expect_delimiter = true;

        let next_i = skip_ws_and_newlines(tokens, i);
        push_range(&mut events, i, next_i);
        i = next_i;
        if i < len && tokens[i].kind == TokKind::Comma {
            push_tok(&mut events, i);
            proof {
                assert(range_seq(tstart as int, i as int).push(i as int) =~= range_seq(
                    tstart as int,
                    i + 1,
                ));
            }
            i += 1;
            expect_delimiter = false;
        }
    }

    push_finish(&mut events);
    let next_i = skip_ws_and_newlines(tokens, i);
    push_range(&mut events, i, next_i);
    i = next_i;

    if i < len && tokens[i].kind == close_kind {
        push_tok(&mut events, i);
        proof {
            assert(range_seq(tstart as int, i as int).push(i as int) =~= range_seq(
                tstart as int,
                i + 1,
            ));
        }
        i += 1;
    } else {
        push_token_diagnostic(
            diagnostics,
            "expected closing bracket in subset expression",
            &tokens[open_idx],
        );
    }
    push_finish(&mut events);
    ExprParse { start: tstart, end: i, events }
}

} // verus!
