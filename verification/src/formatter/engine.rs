//! The formatter's entry points and its core: the error type, the check of
//! supported tokens, and the layout of lines, blocks and single expressions.

use vstd::prelude::*;

use crate::ast::{elem_kind, element_kind, is_token_kind, is_token_of};
use crate::formatter::ir::Ir;
use crate::formatter::printer::{Printer, rendered};
use crate::formatter::style::FormatStyle;
use crate::formatter::trivia::{
    comment_only, is_comment_only_line, is_trivia, lines_within, split_lines, trivia_kind,
};
use crate::formatter::rules::control_flow::{
    braces_doc, broken_comment_docs, ir_for_expr, ir_if_expr, ir_repeat_expr, ir_while_expr,
    starts_with_loop,
};
use crate::formatter::rules::expressions::{
    ir_assignment_expr, ir_binary_expr, ir_paren_expr, ir_unary_expr,
};
use crate::formatter::rules::arguments::{ir_call_expr, ir_subset_expr};
use crate::formatter::rules::functions::ir_function_expr;
use crate::parser::lexer::{Token, law_lexing_is_determined, lexes_to};
use crate::parser::toplevel::{ParseOutput, parse, token_leaves};
use crate::parser::tree_builder::leaf_kind;
use crate::syntax::{
    SyntaxElement, SyntaxKind, SyntaxNode, SyntaxToken, children_leaves, element_leaves,
    element_string, element_text, node_leaves,
};
use crate::text::{decimal, decimal_string};

verus! {

/// Why the formatter declined an input.
#[derive(Debug, Clone, PartialEq, Eq)]
pub enum FormatError {
    /// The input has parser diagnostics.
    ParseErrors { count: usize },
    /// The input holds a token or construct the formatter does not handle.
    UnsupportedConstruct { kind: SyntaxKind, snippet: String },
    /// The input's shape is not one the formatter can lay out unambiguously.
    AmbiguousConstruct { context: &'static str, snippet: String },
}

/// The name of a syntax kind, as written in the source.
pub open spec fn kind_label(k: SyntaxKind) -> Seq<char> {
    match k {
        SyntaxKind::ROOT => "ROOT"@,
        SyntaxKind::BINARY_EXPR => "BINARY_EXPR"@,
        SyntaxKind::ASSIGNMENT_EXPR => "ASSIGNMENT_EXPR"@,
        SyntaxKind::UNARY_EXPR => "UNARY_EXPR"@,
        SyntaxKind::PAREN_EXPR => "PAREN_EXPR"@,
        SyntaxKind::CALL_EXPR => "CALL_EXPR"@,
        SyntaxKind::ARG_LIST => "ARG_LIST"@,
        SyntaxKind::ARG => "ARG"@,
        SyntaxKind::SUBSET_EXPR => "SUBSET_EXPR"@,
        SyntaxKind::SUBSET2_EXPR => "SUBSET2_EXPR"@,
        SyntaxKind::IF_EXPR => "IF_EXPR"@,
        SyntaxKind::FOR_EXPR => "FOR_EXPR"@,
        SyntaxKind::WHILE_EXPR => "WHILE_EXPR"@,
        SyntaxKind::REPEAT_EXPR => "REPEAT_EXPR"@,
        SyntaxKind::FUNCTION_EXPR => "FUNCTION_EXPR"@,
        SyntaxKind::BLOCK_EXPR => "BLOCK_EXPR"@,
        SyntaxKind::IDENT => "IDENT"@,
        SyntaxKind::INT => "INT"@,
        SyntaxKind::FLOAT => "FLOAT"@,
        SyntaxKind::STRING => "STRING"@,
        SyntaxKind::COMMENT => "COMMENT"@,
        SyntaxKind::TILDE => "TILDE"@,
        SyntaxKind::QUESTION => "QUESTION"@,
        SyntaxKind::USER_OP => "USER_OP"@,
        SyntaxKind::LBRACK => "LBRACK"@,
        SyntaxKind::RBRACK => "RBRACK"@,
        SyntaxKind::LBRACK2 => "LBRACK2"@,
        SyntaxKind::RBRACK2 => "RBRACK2"@,
        SyntaxKind::PLUS => "PLUS"@,
        SyntaxKind::MINUS => "MINUS"@,
        SyntaxKind::STAR => "STAR"@,
        SyntaxKind::SLASH => "SLASH"@,
        SyntaxKind::CARET => "CARET"@,
        SyntaxKind::PIPE => "PIPE"@,
        SyntaxKind::COLON => "COLON"@,
        SyntaxKind::COLON2 => "COLON2"@,
        SyntaxKind::COLON3 => "COLON3"@,
        SyntaxKind::DOLLAR => "DOLLAR"@,
        SyntaxKind::AT => "AT"@,
        SyntaxKind::SEMICOLON => "SEMICOLON"@,
        SyntaxKind::COMMA => "COMMA"@,
        SyntaxKind::OR => "OR"@,
        SyntaxKind::OR2 => "OR2"@,
        SyntaxKind::AND => "AND"@,
        SyntaxKind::AND2 => "AND2"@,
        SyntaxKind::EQUAL2 => "EQUAL2"@,
        SyntaxKind::NOT_EQUAL => "NOT_EQUAL"@,
        SyntaxKind::BANG => "BANG"@,
        SyntaxKind::LESS_THAN => "LESS_THAN"@,
        SyntaxKind::LESS_THAN_OR_EQUAL => "LESS_THAN_OR_EQUAL"@,
        SyntaxKind::GREATER_THAN => "GREATER_THAN"@,
        SyntaxKind::GREATER_THAN_OR_EQUAL => "GREATER_THAN_OR_EQUAL"@,
        SyntaxKind::LPAREN => "LPAREN"@,
        SyntaxKind::RPAREN => "RPAREN"@,
        SyntaxKind::IF_KW => "IF_KW"@,
        SyntaxKind::ELSE_KW => "ELSE_KW"@,
        SyntaxKind::FOR_KW => "FOR_KW"@,
        SyntaxKind::WHILE_KW => "WHILE_KW"@,
        SyntaxKind::REPEAT_KW => "REPEAT_KW"@,
        SyntaxKind::FUNCTION_KW => "FUNCTION_KW"@,
        SyntaxKind::LAMBDA_FN => "LAMBDA_FN"@,
        SyntaxKind::IN_KW => "IN_KW"@,
        SyntaxKind::LBRACE => "LBRACE"@,
        SyntaxKind::RBRACE => "RBRACE"@,
        SyntaxKind::WHITESPACE => "WHITESPACE"@,
        SyntaxKind::NEWLINE => "NEWLINE"@,
        SyntaxKind::ASSIGN_LEFT => "ASSIGN_LEFT"@,
        SyntaxKind::WALRUS => "WALRUS"@,
        SyntaxKind::SUPER_ASSIGN => "SUPER_ASSIGN"@,
        SyntaxKind::ASSIGN_RIGHT => "ASSIGN_RIGHT"@,
        SyntaxKind::SUPER_ASSIGN_RIGHT => "SUPER_ASSIGN_RIGHT"@,
        SyntaxKind::ASSIGN_EQ => "ASSIGN_EQ"@,
        SyntaxKind::ERROR => "ERROR"@,
    }
}

/// The name of a syntax kind.
pub fn kind_name(k: SyntaxKind) -> (r: &'static str)
    ensures
        r@ == kind_label(k),
{
    match k {
        SyntaxKind::ROOT => "ROOT",
        SyntaxKind::BINARY_EXPR => "BINARY_EXPR",
        SyntaxKind::ASSIGNMENT_EXPR => "ASSIGNMENT_EXPR",
        SyntaxKind::UNARY_EXPR => "UNARY_EXPR",
        SyntaxKind::PAREN_EXPR => "PAREN_EXPR",
        SyntaxKind::CALL_EXPR => "CALL_EXPR",
        SyntaxKind::ARG_LIST => "ARG_LIST",
        SyntaxKind::ARG => "ARG",
        SyntaxKind::SUBSET_EXPR => "SUBSET_EXPR",
        SyntaxKind::SUBSET2_EXPR => "SUBSET2_EXPR",
        SyntaxKind::IF_EXPR => "IF_EXPR",
        SyntaxKind::FOR_EXPR => "FOR_EXPR",
        SyntaxKind::WHILE_EXPR => "WHILE_EXPR",
        SyntaxKind::REPEAT_EXPR => "REPEAT_EXPR",
        SyntaxKind::FUNCTION_EXPR => "FUNCTION_EXPR",
        SyntaxKind::BLOCK_EXPR => "BLOCK_EXPR",
        SyntaxKind::IDENT => "IDENT",
        SyntaxKind::INT => "INT",
        SyntaxKind::FLOAT => "FLOAT",
        SyntaxKind::STRING => "STRING",
        SyntaxKind::COMMENT => "COMMENT",
        SyntaxKind::TILDE => "TILDE",
        SyntaxKind::QUESTION => "QUESTION",
        SyntaxKind::USER_OP => "USER_OP",
        SyntaxKind::LBRACK => "LBRACK",
        SyntaxKind::RBRACK => "RBRACK",
        SyntaxKind::LBRACK2 => "LBRACK2",
        SyntaxKind::RBRACK2 => "RBRACK2",
        SyntaxKind::PLUS => "PLUS",
        SyntaxKind::MINUS => "MINUS",
        SyntaxKind::STAR => "STAR",
        SyntaxKind::SLASH => "SLASH",
        SyntaxKind::CARET => "CARET",
        SyntaxKind::PIPE => "PIPE",
        SyntaxKind::COLON => "COLON",
        SyntaxKind::COLON2 => "COLON2",
        SyntaxKind::COLON3 => "COLON3",
        SyntaxKind::DOLLAR => "DOLLAR",
        SyntaxKind::AT => "AT",
        SyntaxKind::SEMICOLON => "SEMICOLON",
        SyntaxKind::COMMA => "COMMA",
        SyntaxKind::OR => "OR",
        SyntaxKind::OR2 => "OR2",
        SyntaxKind::AND => "AND",
        SyntaxKind::AND2 => "AND2",
        SyntaxKind::EQUAL2 => "EQUAL2",
        SyntaxKind::NOT_EQUAL => "NOT_EQUAL",
        SyntaxKind::BANG => "BANG",
        SyntaxKind::LESS_THAN => "LESS_THAN",
        SyntaxKind::LESS_THAN_OR_EQUAL => "LESS_THAN_OR_EQUAL",
        SyntaxKind::GREATER_THAN => "GREATER_THAN",
        SyntaxKind::GREATER_THAN_OR_EQUAL => "GREATER_THAN_OR_EQUAL",
        SyntaxKind::LPAREN => "LPAREN",
        SyntaxKind::RPAREN => "RPAREN",
        SyntaxKind::IF_KW => "IF_KW",
        SyntaxKind::ELSE_KW => "ELSE_KW",
        SyntaxKind::FOR_KW => "FOR_KW",
        SyntaxKind::WHILE_KW => "WHILE_KW",
        SyntaxKind::REPEAT_KW => "REPEAT_KW",
        SyntaxKind::FUNCTION_KW => "FUNCTION_KW",
        SyntaxKind::LAMBDA_FN => "LAMBDA_FN",
        SyntaxKind::IN_KW => "IN_KW",
        SyntaxKind::LBRACE => "LBRACE",
        SyntaxKind::RBRACE => "RBRACE",
        SyntaxKind::WHITESPACE => "WHITESPACE",
        SyntaxKind::NEWLINE => "NEWLINE",
        SyntaxKind::ASSIGN_LEFT => "ASSIGN_LEFT",
        SyntaxKind::WALRUS => "WALRUS",
        SyntaxKind::SUPER_ASSIGN => "SUPER_ASSIGN",
        SyntaxKind::ASSIGN_RIGHT => "ASSIGN_RIGHT",
        SyntaxKind::SUPER_ASSIGN_RIGHT => "SUPER_ASSIGN_RIGHT",
        SyntaxKind::ASSIGN_EQ => "ASSIGN_EQ",
        SyntaxKind::ERROR => "ERROR",
    }
}

/// What `format!("{:?}", s)` writes for the string `s`: it in double quotes,
/// with Rust's escapes.
pub uninterp spec fn debug_escaped(s: Seq<char>) -> Seq<char>;

/// Calls `<str as Debug>::fmt` through `format!`; trusted to depend on `s`
/// alone and to give `debug_escaped(s@)`.
#[verifier::external_body]
fn debug_quoted(s: &str) -> (r: String)
    ensures
        r@ == debug_escaped(s@),
{
    format!("{s:?}")
}

/// The message of a formatting error, as the command line prints it.
pub open spec fn format_error_text(e: FormatError) -> Seq<char> {
    match e {
        FormatError::ParseErrors { count } => "input contains "@ + decimal(count as nat)
            + " parser diagnostic(s); formatter only supports parseable input"@,
        FormatError::UnsupportedConstruct { kind, snippet } => "unsupported construct for formatter: "@
            + kind_label(kind) + " near "@ + debug_escaped(snippet@),
        FormatError::AmbiguousConstruct { context, snippet } => "ambiguous construct for formatter ("@
            + context@ + "): "@ + debug_escaped(snippet@),
    }
}

impl FormatError {
    /// The message of the error.
    pub fn to_message(&self) -> (r: String)
        ensures
            r@ == format_error_text(*self),
    {
        match self {
            FormatError::ParseErrors { count } => {
                let mut out = String::from_str("input contains ");
                let n = decimal_string(*count as u64);
                out.append(n.as_str());
                out.append(" parser diagnostic(s); formatter only supports parseable input");
                out
            },
            FormatError::UnsupportedConstruct { kind, snippet } => {
                let mut out = String::from_str("unsupported construct for formatter: ");
                out.append(kind_name(*kind));
                out.append(" near ");
                let q = debug_quoted(snippet.as_str());
                out.append(q.as_str());
                out
            },
            FormatError::AmbiguousConstruct { context, snippet } => {
                let mut out = String::from_str("ambiguous construct for formatter (");
                out.append(context);
                out.append("): ");
                let q = debug_quoted(snippet.as_str());
                out.append(q.as_str());
                out
            },
        }
    }
}


/// The error, if any, is not about parser diagnostics.
pub open spec fn not_parse_error<T>(r: Result<T, FormatError>) -> bool {
    !(r matches Err(FormatError::ParseErrors { .. }))
}

/// The tokens the formatter refuses wherever they occur: `@`, lexer errors,
/// user-defined `%op%` operators and the help operator `?`.
pub open spec fn unsupported_kind(k: SyntaxKind) -> bool {
    k == SyntaxKind::AT || k == SyntaxKind::USER_OP || k == SyntaxKind::ERROR || k
        == SyntaxKind::QUESTION
}

/// The first refused token of `e`, in source order.
pub open spec fn first_unsupported(e: SyntaxElement) -> Option<SyntaxToken>
    decreases e,
{
    match e {
        SyntaxElement::Token(t) => if unsupported_kind(t.kind) {
            Some(t)
        } else {
            None
        },
        SyntaxElement::Node(n) => first_unsupported_in(n.children@),
    }
}

/// The first refused token among `cs`, in source order.
pub open spec fn first_unsupported_in(cs: Seq<SyntaxElement>) -> Option<SyntaxToken>
    decreases cs,
{
    if cs.len() == 0 {
        None
    } else {
        match first_unsupported_in(cs.subrange(0, cs.len() - 1)) {
            Some(t) => Some(t),
            None => first_unsupported(cs[cs.len() - 1]),
        }
    }
}

pub proof fn lemma_first_unsupported_found(cs: Seq<SyntaxElement>, n: int)
    requires
        0 <= n <= cs.len(),
        first_unsupported_in(cs.subrange(0, n)) is Some,
    ensures
        first_unsupported_in(cs) == first_unsupported_in(cs.subrange(0, n)),
    decreases cs.len() - n,
{
    if n < cs.len() {
        assert(cs.subrange(0, n + 1).subrange(0, n) =~= cs.subrange(0, n));
        lemma_first_unsupported_found(cs, n + 1);
    } else {
        assert(cs.subrange(0, n) =~= cs);
    }
}

/// No leaf among `ls` is of a refused kind.
pub open spec fn all_supported(ls: Seq<(SyntaxKind, Seq<char>)>) -> bool {
    forall|j: int| 0 <= j < ls.len() ==> !unsupported_kind(#[trigger] ls[j].0)
}

proof fn lemma_all_supported_append(a: Seq<(SyntaxKind, Seq<char>)>, b: Seq<(SyntaxKind, Seq<char>)>)
    ensures
        all_supported(a + b) <==> all_supported(a) && all_supported(b),
{
    if all_supported(a + b) {
        assert forall|j: int| 0 <= j < a.len() implies !unsupported_kind(#[trigger] a[j].0) by {
            assert((a + b)[j] == a[j]);
        }
        assert forall|j: int| 0 <= j < b.len() implies !unsupported_kind(#[trigger] b[j].0) by {
            assert((a + b)[a.len() + j] == b[j]);
        }
    }
    if all_supported(a) && all_supported(b) {
        assert forall|j: int| 0 <= j < (a + b).len() implies !unsupported_kind(
            #[trigger] (a + b)[j].0,
        ) by {
            if j < a.len() {
                assert((a + b)[j] == a[j]);
            } else {
                assert((a + b)[j] == b[j - a.len()]);
            }
        }
    }
}

/// An element has no refused token exactly when none of its leaves is of a
/// refused kind.
pub proof fn lemma_first_unsupported_leaves(e: SyntaxElement)
    ensures
        first_unsupported(e) is None <==> all_supported(element_leaves(e)),
    decreases e,
{
    match e {
        SyntaxElement::Token(t) => {
            let ls = element_leaves(e);
            assert(ls[0].0 == t.kind);
        },
        SyntaxElement::Node(n) => lemma_first_unsupported_leaves_in(n.children@),
    }
}

pub proof fn lemma_first_unsupported_leaves_in(cs: Seq<SyntaxElement>)
    ensures
        first_unsupported_in(cs) is None <==> all_supported(children_leaves(cs)),
    decreases cs,
{
    if cs.len() > 0 {
        let p = cs.subrange(0, cs.len() - 1);
        lemma_first_unsupported_leaves_in(p);
        lemma_first_unsupported_leaves(cs[cs.len() - 1]);
        lemma_all_supported_append(children_leaves(p), element_leaves(cs[cs.len() - 1]));
    }
}

/// The leaf made from the `k`-th token is the `k`-th leaf.
proof fn lemma_token_leaves_index(toks: Seq<Token>, k: int)
    requires
        0 <= k < toks.len(),
    ensures
        token_leaves(toks).len() == toks.len(),
        token_leaves(toks)[k] == (leaf_kind(toks[k].kind), toks[k].text@),
    decreases toks.len(),
{
    lemma_token_leaves_len(toks);
    if k < toks.len() - 1 {
        lemma_token_leaves_index(toks.drop_last(), k);
        assert(toks.drop_last()[k] == toks[k]);
    }
}

proof fn lemma_token_leaves_len(toks: Seq<Token>)
    ensures
        token_leaves(toks).len() == toks.len(),
    decreases toks.len(),
{
    if toks.len() > 0 {
        lemma_token_leaves_len(toks.drop_last());
    }
}

/// When the tree of `input` has no refused token, no token of `input` is of
/// a refused kind.
pub proof fn lemma_input_tokens_supported(cst: SyntaxNode, input: Seq<char>, toks: Seq<Token>)
    requires
        first_unsupported_in(cst.children@) is None,
        exists|t: Seq<Token>|
            #![trigger token_leaves(t)]
            lexes_to(input, t) && node_leaves(cst) == token_leaves(t),
        lexes_to(input, toks),
    ensures
        forall|k: int| 0 <= k < toks.len() ==> !unsupported_kind(leaf_kind(#[trigger] toks[k].kind)),
{
    let t0 = choose|t: Seq<Token>|
        #![trigger token_leaves(t)]
        lexes_to(input, t) && node_leaves(cst) == token_leaves(t);
    lemma_first_unsupported_leaves_in(cst.children@);
    law_lexing_is_determined(t0, toks, input);
    assert forall|k: int| 0 <= k < toks.len() implies !unsupported_kind(
        leaf_kind(#[trigger] toks[k].kind),
    ) by {
        lemma_token_leaves_index(t0, k);
        assert(token_leaves(t0)[k].0 == leaf_kind(t0[k].kind));
    }
}

/// `r` reports the refused token `t`.
pub open spec fn reports_token(r: Result<(), FormatError>, t: SyntaxToken) -> bool {
    r matches Err(FormatError::UnsupportedConstruct { kind, snippet }) && kind == t.kind
        && snippet@ == t.text@
}

/// The tokens refused in the first pass (`late` false): `@` and lexer
/// errors; in the second pass (`late` true): `%op%` operators and `?`.
pub open spec fn refused_in_pass(k: SyntaxKind, late: bool) -> bool {
    if late {
        k == SyntaxKind::USER_OP || k == SyntaxKind::QUESTION
    } else {
        k == SyntaxKind::AT || k == SyntaxKind::ERROR
    }
}

/// The first token of `e` refused in the pass `late`, in source order.
pub open spec fn first_refused(e: SyntaxElement, late: bool) -> Option<SyntaxToken>
    decreases e,
{
    match e {
        SyntaxElement::Token(t) => if refused_in_pass(t.kind, late) {
            Some(t)
        } else {
            None
        },
        SyntaxElement::Node(n) => first_refused_in(n.children@, late),
    }
}

/// The first token among `cs` refused in the pass `late`, in source order.
pub open spec fn first_refused_in(cs: Seq<SyntaxElement>, late: bool) -> Option<SyntaxToken>
    decreases cs,
{
    if cs.len() == 0 {
        None
    } else {
        match first_refused_in(cs.subrange(0, cs.len() - 1), late) {
            Some(t) => Some(t),
            None => first_refused(cs[cs.len() - 1], late),
        }
    }
}

/// The refused token that is reported among `cs`: the first `@` or lexer
/// error, else the first `%op%` or `?`.
pub open spec fn reported_refusal(cs: Seq<SyntaxElement>) -> Option<SyntaxToken> {
    match first_refused_in(cs, false) {
        Some(t) => Some(t),
        None => first_refused_in(cs, true),
    }
}

/// No token is refused exactly when neither pass refuses one.
pub proof fn lemma_refused_passes(e: SyntaxElement)
    ensures
        first_unsupported(e) is None <==> (first_refused(e, false) is None && first_refused(e, true) is None),
    decreases e,
{
    if let SyntaxElement::Node(n) = e {
        lemma_refused_passes_in(n.children@);
    }
}

pub proof fn lemma_refused_passes_in(cs: Seq<SyntaxElement>)
    ensures
        first_unsupported_in(cs) is None <==> (first_refused_in(cs, false) is None && first_refused_in(cs, true)
            is None),
    decreases cs,
{
    if cs.len() > 0 {
        lemma_refused_passes_in(cs.subrange(0, cs.len() - 1));
        lemma_refused_passes(cs[cs.len() - 1]);
    }
}

pub proof fn lemma_first_refused_found(cs: Seq<SyntaxElement>, n: int, late: bool)
    requires
        0 <= n <= cs.len(),
        first_refused_in(cs.subrange(0, n), late) is Some,
    ensures
        first_refused_in(cs, late) == first_refused_in(cs.subrange(0, n), late),
    decreases cs.len() - n,
{
    if n < cs.len() {
        assert(cs.subrange(0, n + 1).subrange(0, n) =~= cs.subrange(0, n));
        lemma_first_refused_found(cs, n + 1, late);
    } else {
        assert(cs.subrange(0, n) =~= cs);
    }
}

fn check_element(e: &SyntaxElement, late: bool) -> (r: Result<(), FormatError>)
    ensures
        not_parse_error(r),
        r is Ok <==> first_refused(*e, late) is None,
        first_refused(*e, late) matches Some(t) ==> reports_token(r, t),
    decreases e,
{
    match e {
        SyntaxElement::Token(t) => {
            let refused = if late {
                t.kind == SyntaxKind::USER_OP || t.kind == SyntaxKind::QUESTION
            } else {
                t.kind == SyntaxKind::AT || t.kind == SyntaxKind::ERROR
            };
            if refused {
                Err(FormatError::UnsupportedConstruct { kind: t.kind, snippet: t.text.clone() })
            } else {
                Ok(())
            }
        },
        SyntaxElement::Node(n) => check_children(n, late),
    }
}

fn check_children(n: &SyntaxNode, late: bool) -> (r: Result<(), FormatError>)
    ensures
        not_parse_error(r),
        r is Ok <==> first_refused_in(n.children@, late) is None,
        first_refused_in(n.children@, late) matches Some(t) ==> reports_token(r, t),
    decreases n,
{
    let mut i: usize = 0;
    proof {
        assert(n.children@.subrange(0, 0).len() == 0);
    }
    while i < n.children.len()
        invariant
            i <= n.children@.len(),
            first_refused_in(n.children@.subrange(0, i as int), late) is None,
        decreases n.children@.len() - i,
    {
        proof {
            crate::syntax::lemma_child_text_len(n.children@, i as int);
        }
        assert(decreases_to!(n => n.children@[i as int]));
        let r = check_element(&n.children[i], late);
        proof {
            assert(n.children@.subrange(0, i + 1).subrange(0, i as int) =~= n.children@.subrange(
                0,
                i as int,
            ));
        }
        if r.is_err() {
            proof {
                lemma_first_refused_found(n.children@, i + 1, late);
            }
            return r;
        }
        i += 1;
    }
    proof {
        assert(n.children@.subrange(0, n.children@.len() as int) =~= n.children@);
    }
    Ok(())
}

/// Refuse the tree if it holds a token the formatter does not handle: the
/// first `@` or lexer error is reported, and only when there is none, the
/// first `%op%` operator or `?`.
pub fn validate_supported_tokens(root: &SyntaxNode) -> (r: Result<(), FormatError>)
    ensures
        not_parse_error(r),
        r is Ok <==> first_unsupported_in(root.children@) is None,
        reported_refusal(root.children@) matches Some(t) ==> reports_token(r, t),
{
    proof {
        lemma_refused_passes_in(root.children@);
    }
    check_children(root, false)?;
    check_children(root, true)
}

/// The texts of children `a` and `b` of `parent`, one after the other.
pub(crate) fn snippet_of(parent: &SyntaxNode, a: usize, b: usize) -> (r: String)
    requires
        a < parent.children@.len(),
        b < parent.children@.len(),
    ensures
        r@ == element_text(parent.children@[a as int]) + element_text(parent.children@[b as int]),
{
    let mut s = element_string(&parent.children[a]);
    let t = element_string(&parent.children[b]);
    s.append(t.as_str());
    s
}

/// The texts of children `lo..hi` of `parent`.
pub(crate) fn range_text(parent: &SyntaxNode, lo: usize, hi: usize) -> (r: String)
    requires
        lo <= hi <= parent.children@.len(),
    ensures
        r@ == crate::syntax::children_text(parent.children@.subrange(lo as int, hi as int)),
{
    let mut s = String::new();
    let mut k = lo;
    proof {
        assert(parent.children@.subrange(lo as int, lo as int).len() == 0);
    }
    while k < hi
        invariant
            lo <= k <= hi <= parent.children@.len(),
            s@ == crate::syntax::children_text(parent.children@.subrange(lo as int, k as int)),
        decreases hi - k,
    {
        let t = element_string(&parent.children[k]);
        proof {
            crate::syntax::lemma_children_text_push(
                parent.children@.subrange(lo as int, k as int),
                parent.children@[k as int],
            );
            assert(parent.children@.subrange(lo as int, k as int).push(parent.children@[k as int])
                =~= parent.children@.subrange(lo as int, k + 1));
        }
        s.append(t.as_str());
        k += 1;
    }
    s
}

/// Child `e` counts as significant: it is not trivia, nor, with `skip`, a
/// comment.
pub open spec fn keeps(e: SyntaxElement, skip: bool) -> bool {
    !trivia_kind(elem_kind(e)) && !(skip && crate::ast::is_token_of(e, SyntaxKind::COMMENT))
}

/// The indices of the significant children among `cs[lo..hi]`, in order.
pub open spec fn sig_seq(cs: Seq<SyntaxElement>, lo: int, hi: int, skip: bool) -> Seq<usize>
    decreases hi - lo,
{
    if hi <= lo {
        seq![]
    } else if keeps(cs[hi - 1], skip) {
        sig_seq(cs, lo, hi - 1, skip).push((hi - 1) as usize)
    } else {
        sig_seq(cs, lo, hi - 1, skip)
    }
}

/// The indices of the children in `lo..hi` that are not trivia (and, with
/// `skip_comments`, not comments either), in order.
pub(crate) fn significant_indices(parent: &SyntaxNode, lo: usize, hi: usize, skip_comments: bool) -> (r:
    Vec<usize>)
    requires
        lo <= hi <= parent.children@.len(),
    ensures
        forall|j: int| 0 <= j < r@.len() ==> lo <= #[trigger] r@[j] < hi,
        forall|j: int|
            0 <= j < r@.len() ==> !trivia_kind(#[trigger] elem_kind(parent.children@[r@[j] as int])),
        forall|j: int, t: int| 0 <= j < t < r@.len() ==> r@[j] < r@[t],
        r@ == sig_seq(parent.children@, lo as int, hi as int, skip_comments),
{
    let mut out: Vec<usize> = Vec::new();
    let mut k = lo;
    while k < hi
        invariant
            lo <= k <= hi <= parent.children@.len(),
            out@ == sig_seq(parent.children@, lo as int, k as int, skip_comments),
            forall|j: int| 0 <= j < out@.len() ==> lo <= #[trigger] out@[j] < k,
            forall|j: int|
                0 <= j < out@.len() ==> !trivia_kind(
                    #[trigger] elem_kind(parent.children@[out@[j] as int]),
                ),
            forall|j: int, t: int| 0 <= j < t < out@.len() ==> out@[j] < out@[t],
        decreases hi - k,
    {
        let kind = element_kind(&parent.children[k]);
        if !is_trivia(kind) && !(skip_comments && is_token_kind(
            &parent.children[k],
            SyntaxKind::COMMENT,
        )) {
            out.push(k);
        }
        k += 1;
    }
    out
}

/// Every significant child in `lo..hi` is listed by `sig_seq`.
pub proof fn lemma_sig_seq_contains(cs: Seq<SyntaxElement>, lo: int, hi: int, skip: bool, j: int)
    requires
        lo <= j < hi,
        keeps(cs[j], skip),
    ensures
        sig_seq(cs, lo, hi, skip).contains(j as usize),
    decreases hi - lo,
{
    if j == hi - 1 {
        assert(sig_seq(cs, lo, hi, skip).last() == j as usize);
    } else {
        lemma_sig_seq_contains(cs, lo, hi - 1, skip, j);
        let p = sig_seq(cs, lo, hi - 1, skip);
        let k = choose|k: int| 0 <= k < p.len() && p[k] == j as usize;
        if keeps(cs[hi - 1], skip) {
            assert(p.push((hi - 1) as usize)[k] == j as usize);
        }
    }
}

/// The layout of a single token standing as an expression: names, numbers,
/// strings and `!`; any other token is unsupported.
pub(crate) fn ir_atom_token(t: &SyntaxToken) -> (r: Result<Ir, FormatError>)
    ensures
        not_parse_error(r),
        r matches Ok(ir) ==> ir@ == crate::formatter::ir::Doc::Text(t.text@),
        r is Ok <==> (t.kind == SyntaxKind::IDENT || t.kind == SyntaxKind::INT || t.kind
            == SyntaxKind::FLOAT || t.kind == SyntaxKind::STRING || t.kind == SyntaxKind::BANG),
        r matches Err(e) ==> (e matches FormatError::UnsupportedConstruct { kind, snippet } && kind
            == t.kind && snippet@ == t.text@),
{
    match t.kind {
        SyntaxKind::IDENT | SyntaxKind::INT | SyntaxKind::FLOAT | SyntaxKind::STRING
        | SyntaxKind::BANG => Ok(Ir::text_string(t.text.clone())),
        _ => Err(FormatError::UnsupportedConstruct { kind: t.kind, snippet: t.text.clone() }),
    }
}

/// The tokens that stand as an expression on their own.
pub open spec fn atom_kind(k: SyntaxKind) -> bool {
    k == SyntaxKind::IDENT || k == SyntaxKind::INT || k == SyntaxKind::FLOAT || k
        == SyntaxKind::STRING || k == SyntaxKind::BANG
}

/// What laying out the token `t` as an expression gives: its text for an
/// atom, otherwise an unsupported construct naming the token.
pub open spec fn atom_result(t: SyntaxToken, r: Result<Ir, FormatError>) -> bool {
    &&& (r is Ok <==> atom_kind(t.kind))
    &&& (r matches Ok(ir) ==> ir@ == crate::formatter::ir::Doc::Text(t.text@))
    &&& (r matches Err(e) ==> (e matches FormatError::UnsupportedConstruct { kind, snippet } && kind
        == t.kind && snippet@ == t.text@))
}

/// The expression node kinds that have a layout.
pub open spec fn expr_node_kind(k: SyntaxKind) -> bool {
    k == SyntaxKind::ASSIGNMENT_EXPR || k == SyntaxKind::UNARY_EXPR || k == SyntaxKind::BINARY_EXPR
        || k == SyntaxKind::PAREN_EXPR || k == SyntaxKind::BLOCK_EXPR || k == SyntaxKind::IF_EXPR
        || k == SyntaxKind::FOR_EXPR || k == SyntaxKind::WHILE_EXPR || k == SyntaxKind::REPEAT_EXPR
        || k == SyntaxKind::CALL_EXPR || k == SyntaxKind::SUBSET_EXPR || k
        == SyntaxKind::SUBSET2_EXPR || k == SyntaxKind::FUNCTION_EXPR
}

/// A node of a kind without layout is refused, naming its kind and text.
pub open spec fn refused_node(n: SyntaxNode, r: Result<Ir, FormatError>) -> bool {
    !expr_node_kind(n.kind) ==> (r matches Err(FormatError::UnsupportedConstruct { kind, snippet })
        && kind == n.kind && snippet@ == crate::syntax::node_text(n))
}

/// The layout of one element standing as an expression.
pub(crate) fn ir_element(e: &SyntaxElement) -> (r: Result<Ir, FormatError>)
    ensures
        not_parse_error(r),
        *e matches SyntaxElement::Token(t) ==> atom_result(t, r),
        *e matches SyntaxElement::Node(n) ==> refused_node(n, r),
    decreases crate::syntax::element_text(*e).len(), e, 0int,
{
    match e {
        SyntaxElement::Node(n) => ir_expr_node(n),
        SyntaxElement::Token(t) => ir_atom_token(t),
    }
}

/// The layout of an expression node, by kind; other kinds are unsupported.
pub(crate) fn ir_expr_node(n: &SyntaxNode) -> (r: Result<Ir, FormatError>)
    ensures
        not_parse_error(r),
        refused_node(*n, r),
    decreases crate::syntax::node_text(*n).len(), n, 9int,
{
    match n.kind {
        SyntaxKind::ASSIGNMENT_EXPR => ir_assignment_expr(n),
        SyntaxKind::UNARY_EXPR => ir_unary_expr(n),
        SyntaxKind::BINARY_EXPR => ir_binary_expr(n),
        SyntaxKind::PAREN_EXPR => ir_paren_expr(n),
        SyntaxKind::BLOCK_EXPR => {
            let none: Vec<String> = Vec::new();
            ir_block_expr(n, &none)
        },
        SyntaxKind::IF_EXPR => ir_if_expr(n),
        SyntaxKind::FOR_EXPR => ir_for_expr(n),
        SyntaxKind::WHILE_EXPR => ir_while_expr(n),
        SyntaxKind::REPEAT_EXPR => ir_repeat_expr(n),
        SyntaxKind::CALL_EXPR => ir_call_expr(n),
        SyntaxKind::SUBSET_EXPR | SyntaxKind::SUBSET2_EXPR => ir_subset_expr(n),
        SyntaxKind::FUNCTION_EXPR => ir_function_expr(n),
        _ => Err(FormatError::UnsupportedConstruct { kind: n.kind, snippet: n.text() }),
    }
}

/// The layout of the one expression among children `lo..hi`; anything but
/// exactly one significant element is ambiguous.
/// Laying out children `lo..hi` of `cs` as one expression: anything but
/// exactly one significant child is ambiguous (reported with `context` and
/// the text of the range); a lone token lays out as an atom, a lone node of
/// a kind without layout is refused.
pub open spec fn segment_result(
    cs: Seq<SyntaxElement>,
    lo: int,
    hi: int,
    context: &'static str,
    r: Result<Ir, FormatError>,
) -> bool {
    let sig = sig_seq(cs, lo, hi, false);
    &&& sig.len() != 1 ==> (r matches Err(FormatError::AmbiguousConstruct { context: c, snippet })
        && c == context && snippet@ == crate::syntax::children_text(cs.subrange(lo, hi)))
    &&& sig.len() == 1 ==> (cs[sig[0] as int] matches SyntaxElement::Token(t) ==> atom_result(t, r))
    &&& sig.len() == 1 ==> (cs[sig[0] as int] matches SyntaxElement::Node(m) ==> refused_node(m, r))
}

pub(crate) fn ir_expr_segment(parent: &SyntaxNode, lo: usize, hi: usize, context: &'static str) -> (r:
    Result<Ir, FormatError>)
    requires
        lo <= hi <= parent.children@.len(),
    ensures
        not_parse_error(r),
        segment_result(parent.children@, lo as int, hi as int, context, r),
    decreases crate::syntax::node_text(*parent).len(), parent, 5int,
{
    let sig = significant_indices(parent, lo, hi, false);
    if sig.len() != 1 {
        return Err(
            FormatError::AmbiguousConstruct { context, snippet: range_text(parent, lo, hi) },
        );
    }
    let k = sig[0];
    proof {
        crate::syntax::lemma_child_text_len(parent.children@, k as int);
    }
    assert(decreases_to!(parent => parent.children@[k as int]));
    ir_element(&parent.children[k])
}

/// Like [`ir_expr_segment`], but the expression may be followed by one
/// comment, kept after it on the same line.
/// The comment token that ends the significant children `sig` of `cs`
/// when they are exactly an expression and that comment.
pub open spec fn trailing_comment(cs: Seq<SyntaxElement>, sig: Seq<usize>) -> Option<SyntaxToken> {
    if sig.len() == 2 && (cs[sig[1] as int] matches SyntaxElement::Token(t) && t.kind
        == SyntaxKind::COMMENT) {
        Some(cs[sig[1] as int]->Token_0)
    } else {
        None
    }
}

/// The layout of an expression `d` followed by the comment `c` on its line.
pub open spec fn with_comment_doc(d: crate::formatter::ir::Doc, c: SyntaxToken) -> crate::formatter::ir::Doc {
    crate::formatter::ir::concat_doc(
        seq![d, crate::formatter::ir::Doc::Text(" "@), crate::formatter::ir::Doc::Text(c.text@)],
    )
}

/// An expression followed by a comment: a token expression lays out as an
/// atom, and the result is the expression, a space and the comment.
pub open spec fn commented_result(cs: Seq<SyntaxElement>, e: int, c: SyntaxToken, r: Result<Ir, FormatError>) -> bool {
    &&& (cs[e] matches SyntaxElement::Token(t) ==> (r is Ok <==> atom_kind(t.kind)))
    &&& (cs[e] matches SyntaxElement::Node(m) ==> (!expr_node_kind(m.kind) ==> r is Err))
    &&& (r matches Ok(ir) ==> exists|d: crate::formatter::ir::Doc| ir@ == with_comment_doc(d, c))
}

pub(crate) fn ir_expr_with_optional_comment(
    parent: &SyntaxNode,
    lo: usize,
    hi: usize,
    context: &'static str,
) -> (r: Result<Ir, FormatError>)
    requires
        lo <= hi <= parent.children@.len(),
    ensures
        not_parse_error(r),
        ({
            let sig = sig_seq(parent.children@, lo as int, hi as int, false);
            match trailing_comment(parent.children@, sig) {
                Some(c) => commented_result(parent.children@, sig[0] as int, c, r),
                None => segment_result(parent.children@, lo as int, hi as int, context, r),
            }
        }),
    decreases crate::syntax::node_text(*parent).len(), parent, 6int,
{
    let sig = significant_indices(parent, lo, hi, false);
    if sig.len() == 2 {
        let c = sig[1];
        if let SyntaxElement::Token(tok) = &parent.children[c] {
            if tok.kind == SyntaxKind::COMMENT {
                let k = sig[0];
                proof {
                    crate::syntax::lemma_child_text_len(parent.children@, k as int);
                }
                assert(decreases_to!(parent => parent.children@[k as int]));
                let expr = ir_element(&parent.children[k])?;
                let ghost ge = expr;
                let mut items: Vec<Ir> = Vec::new();
                items.push(expr);
                items.push(Ir::text(" "));
                items.push(Ir::text_string(tok.text.clone()));
                proof {
                    crate::formatter::ir::lemma_irs_view_eq(
                        items@,
                        seq![
                            ge@,
                            crate::formatter::ir::Doc::Text(" "@),
                            crate::formatter::ir::Doc::Text(tok.text@),
                        ],
                    );
                }
                let res = Ir::concat(items);
                assert(res@ == with_comment_doc(ge@, *tok));
                return Ok(res);
            }
        }
    }
    ir_expr_segment(parent, lo, hi, context)
}

/// The entries of `line` whose children of `cs` are not trivia, in order.
pub open spec fn line_sig(cs: Seq<SyntaxElement>, line: Seq<usize>) -> Seq<usize>
    decreases line.len(),
{
    if line.len() == 0 {
        seq![]
    } else {
        let p = line_sig(cs, line.drop_last());
        if trivia_kind(elem_kind(cs[line.last() as int])) {
            p
        } else {
            p.push(line.last())
        }
    }
}

/// The layout of one source line (indices into `parent`'s children): an
/// expression, optionally followed by a comment, or a lone comment. An empty
/// line lays out as nothing.
pub(crate) fn ir_line(parent: &SyntaxNode, line: &Vec<usize>) -> (r: Result<Ir, FormatError>)
    requires
        forall|j: int| 0 <= j < line@.len() ==> #[trigger] line@[j] < parent.children@.len(),
    ensures
        not_parse_error(r),
        ({
            let cs = parent.children@;
            let sig = line_sig(cs, line@);
            &&& sig.len() == 0 ==> (r matches Ok(ir) && ir@ == crate::formatter::ir::Doc::Nil)
            &&& sig.len() == 1 ==> match cs[sig[0] as int] {
                SyntaxElement::Token(t) => if t.kind == SyntaxKind::COMMENT {
                    r matches Ok(ir) && ir@ == crate::formatter::ir::Doc::Text(t.text@)
                } else {
                    atom_result(t, r)
                },
                SyntaxElement::Node(m) => refused_node(m, r),
            }
            &&& trailing_comment(cs, sig) matches Some(c) ==> commented_result(cs, sig[0] as int, c, r)
            &&& (sig.len() >= 2 && trailing_comment(cs, sig) is None) ==> (r matches Err(
                FormatError::AmbiguousConstruct { context, .. },
            ) && context@ == "line expression"@)
        }),
    decreases crate::syntax::node_text(*parent).len(), parent, 5int,
{
    let mut sig: Vec<usize> = Vec::new();
    let mut j: usize = 0;
    while j < line.len()
        invariant
            j <= line@.len(),
            sig@ == line_sig(parent.children@, line@.subrange(0, j as int)),
            forall|t: int| 0 <= t < line@.len() ==> #[trigger] line@[t] < parent.children@.len(),
            forall|t: int| 0 <= t < sig@.len() ==> #[trigger] sig@[t] < parent.children@.len(),
        decreases line@.len() - j,
    {
        let k = line[j];
        proof {
            assert(line@.subrange(0, j + 1).drop_last() =~= line@.subrange(0, j as int));
        }
        if !is_trivia(element_kind(&parent.children[k])) {
            sig.push(k);
        }
        j += 1;
    }
    proof {
        assert(line@.subrange(0, line@.len() as int) =~= line@);
    }
    if sig.len() == 0 {
        return Ok(Ir::nil());
    }
    if sig.len() == 1 {
        let k = sig[0];
        if let SyntaxElement::Token(tok) = &parent.children[k] {
            if tok.kind == SyntaxKind::COMMENT {
                return Ok(Ir::text_string(tok.text.clone()));
            }
        }
        proof {
            crate::syntax::lemma_child_text_len(parent.children@, k as int);
        }
        assert(decreases_to!(parent => parent.children@[k as int]));
        return ir_element(&parent.children[k]);
    }
    if sig.len() == 2 {
        let c = sig[1];
        if let SyntaxElement::Token(tok) = &parent.children[c] {
            if tok.kind == SyntaxKind::COMMENT {
                let k = sig[0];
                proof {
                    crate::syntax::lemma_child_text_len(parent.children@, k as int);
                }
                assert(decreases_to!(parent => parent.children@[k as int]));
                let expr = ir_element(&parent.children[k])?;
                let ghost ge = expr;
                let mut items: Vec<Ir> = Vec::new();
                items.push(expr);
                items.push(Ir::text(" "));
                items.push(Ir::text_string(tok.text.clone()));
                proof {
                    crate::formatter::ir::lemma_irs_view_eq(
                        items@,
                        seq![
                            ge@,
                            crate::formatter::ir::Doc::Text(" "@),
                            crate::formatter::ir::Doc::Text(tok.text@),
                        ],
                    );
                }
                let res = Ir::concat(items);
                assert(res@ == with_comment_doc(ge@, *tok));
                return Ok(res);
            }
        }
    }
    let a = sig[0];
    let b = sig[sig.len() - 1];
    Err(
        FormatError::AmbiguousConstruct {
            context: "line expression",
            snippet: snippet_of(parent, a, b),
        },
    )
}

/// Each document of `ds` after a line break.
pub open spec fn hard_lines(ds: Seq<crate::formatter::ir::Doc>) -> Seq<crate::formatter::ir::Doc>
    decreases ds.len(),
{
    if ds.len() == 0 {
        seq![]
    } else {
        hard_lines(ds.drop_last()) + seq![crate::formatter::ir::Doc::HardLine, ds.last()]
    }
}

/// A braced body: `{}` when there is nothing inside, otherwise the
/// comments and then `lines` documents, each on its own line one level in.
pub open spec fn braced_body(
    ir: crate::formatter::ir::Doc,
    comments: Seq<String>,
    lines: int,
) -> bool {
    if lines == 0 && comments.len() == 0 {
        ir == crate::formatter::ir::Doc::Text("{}"@)
    } else {
        exists|ds: Seq<crate::formatter::ir::Doc>|
            ds.len() == lines && ir == braces_doc(broken_comment_docs(comments) + hard_lines(ds))
    }
}

/// `{`, then the prefixed comments and the body's lines, each on its own
/// line one level in, then `}`; `{}` when there is nothing inside.
pub(crate) fn ir_block_expr(n: &SyntaxNode, prefixed_comments: &Vec<String>) -> (r: Result<
    Ir,
    FormatError,
>)
    ensures
        not_parse_error(r),
        (forall|j: int|
            0 <= j < n.children@.len() ==> !crate::ast::is_token_of(
                #[trigger] n.children@[j],
                SyntaxKind::LBRACE,
            )) ==> (r matches Err(FormatError::AmbiguousConstruct { context, snippet })
            && context@ == "missing '{' in block"@ && snippet@ == crate::syntax::node_text(*n)),
        r matches Ok(ir) ==> exists|lines: int| lines >= 0 && braced_body(ir@, prefixed_comments@, lines),
    decreases crate::syntax::node_text(*n).len(), n, 8int,
{
    let len = n.children.len();
    let mut open: Option<usize> = None;
    let mut close: Option<usize> = None;
    let mut k: usize = 0;
    while k < len
        invariant
            len == n.children@.len(),
            k <= len,
            open matches Some(o) ==> o < len,
            close matches Some(c) ==> c < len,
            open is None ==> forall|j: int|
                0 <= j < k ==> !crate::ast::is_token_of(#[trigger] n.children@[j], SyntaxKind::LBRACE),
            open matches Some(o) ==> crate::ast::is_token_of(n.children@[o as int], SyntaxKind::LBRACE),
        decreases len - k,
    {
        if is_token_kind(&n.children[k], SyntaxKind::LBRACE) && open.is_none() {
            open = Some(k);
        }
        if is_token_kind(&n.children[k], SyntaxKind::RBRACE) {
            close = Some(k);
        }
        k += 1;
    }
    let open_idx = match open {
        Some(o) => o,
        None => {
            return Err(
                FormatError::AmbiguousConstruct {
                    context: "missing '{' in block",
                    snippet: n.text(),
                },
            );
        },
    };
    let close_idx = match close {
        Some(c) => c,
        None => {
            return Err(
                FormatError::AmbiguousConstruct {
                    context: "missing '}' in block",
                    snippet: n.text(),
                },
            );
        },
    };
    if close_idx <= open_idx {
        return Err(
            FormatError::AmbiguousConstruct { context: "invalid block bounds", snippet: n.text() },
        );
    }
    let lines = split_lines(n, open_idx + 1, close_idx, "block body")?;
    braced_lines(n, &lines, prefixed_comments)
}

/// `{` and `}` around comment lines and source lines of `parent`.
pub(crate) fn braced_lines(parent: &SyntaxNode, lines: &Vec<Vec<usize>>, comments: &Vec<String>) -> (r:
    Result<Ir, FormatError>)
    requires
        lines_within(lines@, 0, parent.children@.len() as int),
    ensures
        not_parse_error(r),
        r matches Ok(ir) ==> braced_body(ir@, comments@, lines@.len() as int),
        lines@.len() == 0 && comments@.len() == 0 ==> r is Ok,
    decreases crate::syntax::node_text(*parent).len(), parent, 7int,
{
    if lines.len() == 0 && comments.len() == 0 {
        return Ok(Ir::text("{}"));
    }
    let mut body: Vec<Ir> = Vec::new();
    let mut c: usize = 0;
    while c < comments.len()
        invariant
            c <= comments@.len(),
            crate::formatter::ir::irs_view(body@) == broken_comment_docs(
                comments@.subrange(0, c as int),
            ),
        decreases comments@.len() - c,
    {
        let ghost before = body@;
        body.push(Ir::hard_line());
        body.push(Ir::text_string(comments[c].clone()));
        proof {
            crate::formatter::ir::lemma_irs_view_push(before, body@[before.len() as int]);
            crate::formatter::ir::lemma_irs_view_push(before.push(body@[before.len() as int]), body@[before.len() as int + 1]);
            assert(body@ =~= before.push(body@[before.len() as int]).push(body@[before.len() as int + 1]));
            assert(comments@.subrange(0, c + 1).drop_last() =~= comments@.subrange(0, c as int));
            assert(broken_comment_docs(comments@.subrange(0, c + 1)) =~= broken_comment_docs(
                comments@.subrange(0, c as int),
            ) + seq![crate::formatter::ir::Doc::HardLine, crate::formatter::ir::Doc::Text(comments@[c as int]@)]);
        }
        c += 1;
    }
    proof {
        assert(comments@.subrange(0, comments@.len() as int) =~= comments@);
    }
    let ghost mut ds: Seq<crate::formatter::ir::Doc> = seq![];
    let mut i: usize = 0;
    while i < lines.len()
        invariant
            i <= lines@.len(),
            lines_within(lines@, 0, parent.children@.len() as int),
            ds.len() == i,
            crate::formatter::ir::irs_view(body@) == broken_comment_docs(comments@) + hard_lines(ds),
        decreases lines@.len() - i,
    {
        proof {
            assert forall|j: int| 0 <= j < lines@[i as int]@.len() implies #[trigger] lines@[i as int]@[j]
                < parent.children@.len() by {
                assert(0 <= lines@[i as int]@[j] < parent.children@.len());
            }
        }
        let line = ir_line(parent, &lines[i])?;
        let ghost before = body@;
        let ghost gl = line;
        body.push(Ir::hard_line());
        body.push(line);
        proof {
            crate::formatter::ir::lemma_irs_view_push(before, body@[before.len() as int]);
            crate::formatter::ir::lemma_irs_view_push(before.push(body@[before.len() as int]), gl);
            assert(body@ =~= before.push(body@[before.len() as int]).push(gl));
            let nds = ds.push(gl@);
            assert(nds.drop_last() =~= ds);
            assert(hard_lines(nds) =~= hard_lines(ds) + seq![crate::formatter::ir::Doc::HardLine, gl@]);
            ds = nds;
        }
        i += 1;
    }
    let ghost gb = body@;
    let mut items: Vec<Ir> = Vec::new();
    items.push(Ir::text("{"));
    items.push(Ir::indent(Ir::concat(body)));
    items.push(Ir::hard_line());
    items.push(Ir::text("}"));
    proof {
        crate::formatter::ir::lemma_irs_view_eq(
            items@,
            seq![
                crate::formatter::ir::Doc::Text("{"@),
                crate::formatter::ir::Doc::Indent(Box::new(crate::formatter::ir::concat_doc(crate::formatter::ir::irs_view(gb)))),
                crate::formatter::ir::Doc::HardLine,
                crate::formatter::ir::Doc::Text("}"@),
            ],
        );
        let res_doc = braces_doc(broken_comment_docs(comments@) + hard_lines(ds));
        assert(res_doc == braces_doc(broken_comment_docs(comments@) + hard_lines(ds)));
    }
    Ok(Ir::concat(items))
}

/// The layout of a whole file: its lines, one after another, with blank
/// lines kept; a blank line is added between two lone comment lines and a
/// loop that follows them. A loop whose body stands on a later line (after
/// comment lines only) takes that line as its body.
pub(crate) fn format_root(root: &SyntaxNode) -> (r: Result<Ir, FormatError>)
    ensures
        not_parse_error(r),
        crate::formatter::trivia::line_items(root.children@, 0, root.children@.len() as int).len()
            == 0 ==> (r matches Ok(ir) && ir@ == crate::formatter::ir::Doc::Nil),
        lone_token_root(*root) matches Some(t) ==> (if t.kind == SyntaxKind::COMMENT {
            r matches Ok(ir) && ir@ == crate::formatter::ir::Doc::Text(t.text@)
        } else {
            atom_result(t, r)
        }),
        atom_items(root.children@) ==> (r matches Ok(ir) ==> exists|lines: Seq<Vec<usize>>|
            crate::formatter::trivia::flatten(lines) == crate::formatter::trivia::line_items(
                root.children@,
                0,
                root.children@.len() as int,
            ) && ir@ == crate::formatter::ir::concat_doc(#[trigger] atom_root_docs(root.children@, lines))),
{
    let lines = split_lines(root, 0, root.children.len(), "root")?;
    let ghost lone = lone_token_root(*root);
    let ghost atoms = atom_items(root.children@);
    let ghost cs = root.children@;
    proof {
        assert(lines@.subrange(0, 0) =~= Seq::<Vec<usize>>::empty());
    }
    let mut items: Vec<Ir> = Vec::new();
    let mut idx: usize = 0;
    while idx < lines.len()
        invariant
            idx <= lines@.len(),
            lines_within(lines@, 0, root.children@.len() as int),
            crate::formatter::trivia::line_items(root.children@, 0, root.children@.len() as int).len()
                == 0 ==> lines@.len() == 0,
            lines@.len() == 0 ==> items@.len() == 0,
            lone == lone_token_root(*root),
            root.children@.len() <= usize::MAX,
            lone is Some ==> lines@.len() == 1 && lines@[0]@ == crate::formatter::trivia::line_items(
                root.children@,
                0,
                root.children@.len() as int,
            ),
            lone is Some && idx == 0 ==> items@.len() == 0,
            lone matches Some(t) ==> (idx > 0 ==> items@.len() == 1 && crate::formatter::ir::ir_view(items@[0])
                == crate::formatter::ir::Doc::Text(t.text@) && (t.kind == SyntaxKind::COMMENT
                || atom_kind(t.kind))),
            atoms == atom_items(root.children@),
            cs == root.children@,
            forall|i: int| 0 <= i < lines@.len() ==> #[trigger] crate::formatter::trivia::line_shaped(cs, lines@[i]@),
            forall|i: int| 0 <= i < lines@.len() ==> #[trigger] lines@[i]@.len() <= 2,
            crate::formatter::trivia::flatten(lines@) == crate::formatter::trivia::line_items(
                cs,
                0,
                cs.len() as int,
            ),
            atoms ==> crate::formatter::ir::irs_view(items@) == atom_root_docs(cs, lines@.subrange(0, idx as int)),
        decreases lines@.len() - idx,
    {
        let ghost i0 = idx as int;
        let ghost items0 = items@;
        proof {
            if atoms {
                lemma_atom_line(cs, lines@[i0]@);
                if i0 >= 1 {
                    lemma_atom_line(cs, lines@[i0 - 1]@);
                }
            }
        }
        if idx > 0 {
            let hl = Ir::hard_line();
            let ghost before_hl = items@;
            items.push(hl);
            proof {
                crate::formatter::ir::lemma_irs_view_push(before_hl, hl);
            }
            if should_insert_comment_for_gap(root, &lines, idx) {
                items.push(Ir::hard_line());
            }
        }
        proof {
            assert forall|j: int| 0 <= j < lines@[idx as int]@.len() implies #[trigger] lines@[idx as int]@[j]
                < root.children@.len() by {
                assert(0 <= lines@[idx as int]@[j] < root.children@.len());
            }
        }
        match crate::formatter::rules::control_flow::ir_loop_with_external_body(root, &lines, idx)? {
            Some((merged, used)) => {
                items.push(merged);
                idx += used + 1;
            },
            None => {
                proof {
                    if lone is Some {
                        let l = lines@[idx as int]@;
                        crate::formatter::trivia::lemma_line_items_kept(
                            root.children@,
                            0,
                            root.children@.len() as int,
                        );
                        let li = crate::formatter::trivia::line_items(
                            root.children@,
                            0,
                            root.children@.len() as int,
                        );
                        assert(l == li);
                        assert(l.len() == 1);
                        assert(!crate::formatter::trivia::separator(root.children@[li[0] as int]));
                        assert(!trivia_kind(elem_kind(root.children@[l[0] as int])));
                        assert(l.drop_last() =~= Seq::<usize>::empty());
                        assert(line_sig(root.children@, l.drop_last()) =~= Seq::<usize>::empty());
                        assert(line_sig(root.children@, l) =~= seq![l[0]]);
                    }
                }
                let line = ir_line(root, &lines[idx])?;
                let ghost items1 = items@;
                items.push(line);
                idx += 1;
                proof {
                    if atoms {
                        let l = lines@[i0]@;
                        crate::formatter::ir::lemma_irs_view_push(items1, line);
                        if l.len() == 1 {
                            assert(l.drop_last() =~= Seq::<usize>::empty());
                            assert(line_sig(cs, l.drop_last()) =~= Seq::<usize>::empty());
                            assert(line_sig(cs, l) =~= seq![l[0]]);
                        }
                        assert(line@ == atom_line_doc(cs, l));
                        assert(lines@.subrange(0, idx as int).drop_last() =~= lines@.subrange(0, i0));
                        assert(crate::formatter::ir::irs_view(items@) =~= atom_root_docs(
                            cs,
                            lines@.subrange(0, idx as int),
                        ));
                    }
                }
            },
        }
    }
    proof {
        if lone is Some {
            let d = crate::formatter::ir::ir_view(items@[0]);
            crate::formatter::ir::lemma_irs_view_eq(items@, seq![d]);
            assert(seq![d].drop_last() =~= Seq::<crate::formatter::ir::Doc>::empty());
            assert(crate::formatter::ir::non_nil(Seq::<crate::formatter::ir::Doc>::empty()).len() == 0);
            assert(crate::formatter::ir::non_nil(seq![d]) =~= seq![d]);
        }
        if crate::formatter::trivia::line_items(root.children@, 0, root.children@.len() as int).len() == 0 {
            assert(items@.len() == 0);
            assert(crate::formatter::ir::irs_view(items@) =~= Seq::<crate::formatter::ir::Doc>::empty());
            assert(non_nil_empty_helper(crate::formatter::ir::irs_view(items@)));
        }
    }
    proof {
        if atoms {
            assert(lines@.subrange(0, lines@.len() as int) =~= lines@);
        }
    }
    Ok(Ir::concat(items))
}

/// A line of atom children is empty or one token, not a comment, not a
/// loop.
proof fn lemma_atom_line(cs: Seq<SyntaxElement>, line: Seq<usize>)
    requires
        atom_items(cs),
        crate::formatter::trivia::line_shaped(cs, line),
        line.len() <= 2,
        forall|j: int| 0 <= j < line.len() ==> #[trigger] line[j] < cs.len(),
    ensures
        line.len() <= 1,
        line.len() == 1 ==> (cs[line[0] as int] matches SyntaxElement::Token(t) && atom_kind(t.kind)),
{
    if line.len() >= 1 {
        assert(!crate::formatter::trivia::separator(cs[line[0] as int]));
    }
    if line.len() >= 2 {
        assert(!crate::formatter::trivia::separator(cs[line[1] as int]));
    }
}

/// Every child of `cs` that is not a separator is a name, number, string
/// or `!` token.
pub open spec fn atom_items(cs: Seq<SyntaxElement>) -> bool {
    forall|j: int|
        0 <= j < cs.len() && !crate::formatter::trivia::separator(#[trigger] cs[j]) ==> (cs[j] matches SyntaxElement::Token(t)
            && atom_kind(t.kind))
}

/// The layout of a line of atom children: nothing for an empty line, else
/// the text of its token.
pub open spec fn atom_line_doc(cs: Seq<SyntaxElement>, line: Seq<usize>) -> crate::formatter::ir::Doc {
    if line.len() == 0 {
        crate::formatter::ir::Doc::Nil
    } else {
        crate::formatter::ir::Doc::Text(cs[line[0] as int]->Token_0.text@)
    }
}

/// The layouts of `lines` of atom children, a line break between each two.
pub open spec fn atom_root_docs(cs: Seq<SyntaxElement>, lines: Seq<Vec<usize>>) -> Seq<crate::formatter::ir::Doc>
    decreases lines.len(),
{
    if lines.len() == 0 {
        seq![]
    } else {
        atom_root_docs(cs, lines.drop_last()) + (if lines.len() > 1 {
            seq![crate::formatter::ir::Doc::HardLine]
        } else {
            Seq::<crate::formatter::ir::Doc>::empty()
        }) + seq![atom_line_doc(cs, lines.last()@)]
    }
}

/// The one token of `root`, when its children hold one token and
/// otherwise only separators.
pub open spec fn lone_token_root(root: SyntaxNode) -> Option<SyntaxToken> {
    let items = crate::formatter::trivia::line_items(root.children@, 0, root.children@.len() as int);
    if items.len() == 1 && root.children@[items[0] as int] is Token {
        Some(root.children@[items[0] as int]->Token_0)
    } else {
        None
    }
}

/// The empty sequence keeps no document.
pub open spec fn non_nil_empty_helper(s: Seq<crate::formatter::ir::Doc>) -> bool {
    s.len() == 0 ==> crate::formatter::ir::non_nil(s).len() == 0
}

/// Two lone comment lines (not three) right before a loop with at most one
/// comment at its head get a blank line between them and the loop.
fn should_insert_comment_for_gap(root: &SyntaxNode, lines: &Vec<Vec<usize>>, idx: usize) -> (b:
    bool)
    requires
        idx < lines@.len(),
        lines_within(lines@, 0, root.children@.len() as int),
    ensures
        b == (idx >= 2 && comment_only(*root, lines@[idx - 1]@) && comment_only(
            *root,
            lines@[idx - 2]@,
        ) && !(idx >= 3 && comment_only(*root, lines@[idx - 3]@)) && starts_with_loop(
            *root,
            lines@[idx as int]@,
        ) && crate::formatter::rules::control_flow::line_head_comments(
            *root,
            lines@[idx as int]@,
        ) <= 1),
{
    if idx < 2 || !is_comment_only_line(root, &lines[idx - 1]) || !is_comment_only_line(
        root,
        &lines[idx - 2],
    ) {
        return false;
    }
    if idx >= 3 && is_comment_only_line(root, &lines[idx - 3]) {
        return false;
    }
    crate::formatter::rules::control_flow::line_starts_with_loop(root, &lines[idx])
        && crate::formatter::rules::control_flow::line_head_comment_count(root, &lines[idx]) <= 1
}

/// `text` ends with a newline.
pub open spec fn ends_with_newline(text: Seq<char>) -> bool {
    text.len() > 0 && text.last() == '\n'
}

fn ends_in_newline(s: &str) -> (b: bool)
    ensures
        b == ends_with_newline(s@),
{
    let n = s.unicode_len();
    n > 0 && s.get_char(n - 1) == '\n'
}

/// The text that formatting `input` gives when its layout printed as
/// `printed`: a final newline of the input is kept.
pub open spec fn format_outcome(input: Seq<char>, printed: Seq<char>) -> Seq<char> {
    if ends_with_newline(input) && !ends_with_newline(printed) {
        printed.push('\n')
    } else {
        printed
    }
}

/// Every element of `cs` is a blank, a newline or a semicolon.
pub open spec fn all_separators(cs: Seq<SyntaxElement>) -> bool {
    forall|j: int| 0 <= j < cs.len() ==> crate::formatter::trivia::separator(#[trigger] cs[j])
}

/// Separators hold no refused token.
pub proof fn lemma_separators_supported(cs: Seq<SyntaxElement>)
    requires
        all_separators(cs),
    ensures
        first_unsupported_in(cs) is None,
    decreases cs.len(),
{
    if cs.len() > 0 {
        let p = cs.subrange(0, cs.len() - 1);
        assert(all_separators(p)) by {
            assert forall|j: int| 0 <= j < p.len() implies crate::formatter::trivia::separator(
                #[trigger] p[j],
            ) by {
                assert(p[j] == cs[j]);
            }
        }
        lemma_separators_supported(p);
        assert(crate::formatter::trivia::separator(cs[cs.len() - 1]));
        let last = cs[cs.len() - 1];
        assert(last is Token);
        assert(!unsupported_kind(last->Token_0.kind));
        assert(first_unsupported(last) is None);
    }
}

/// Separators make no line items.
pub proof fn lemma_separators_no_items(cs: Seq<SyntaxElement>, lo: int, hi: int)
    requires
        all_separators(cs),
        0 <= lo,
        hi <= cs.len(),
    ensures
        crate::formatter::trivia::line_items(cs, lo, hi).len() == 0,
    decreases hi - lo,
{
    if hi > lo {
        assert(crate::formatter::trivia::separator(cs[hi - 1]));
        lemma_separators_no_items(cs, lo, hi - 1);
    }
}

/// Of children that are separators but for a name at `q`, the name is the
/// one line item, and nothing is refused.
pub proof fn lemma_lone_name_items(cs: Seq<SyntaxElement>, q: int, hi: int)
    requires
        crate::parser::toplevel::lone_name_child(cs, q),
        0 <= hi <= cs.len(),
    ensures
        crate::formatter::trivia::line_items(cs, 0, hi) == (if q < hi {
            seq![q as usize]
        } else {
            Seq::<usize>::empty()
        }),
        first_unsupported_in(cs.subrange(0, hi)) is None,
    decreases hi,
{
    if hi > 0 {
        lemma_lone_name_items(cs, q, hi - 1);
        assert(cs.subrange(0, hi).subrange(0, hi - 1) =~= cs.subrange(0, hi - 1));
        let last = cs[hi - 1];
        assert(cs.subrange(0, hi)[hi - 1] == last);
        if hi - 1 == q {
            assert(!crate::formatter::trivia::separator(last));
            assert(Seq::<usize>::empty().push(q as usize) =~= seq![q as usize]);
        } else {
            assert(crate::formatter::trivia::separator(last));
        }
        assert(last is Token);
        assert(!unsupported_kind(last->Token_0.kind));
        assert(first_unsupported(last) is None);
    } else {
        assert(cs.subrange(0, 0) =~= Seq::<SyntaxElement>::empty());
    }
}

/// The facts stated of formatting `input`, whose parse is `parsed`, with
/// `style` (not the layout itself): parse diagnostics are refused with
/// their count; otherwise the reported refused token; a text that comes out
/// is the printing of some document, with the input's final newline kept;
/// a tree of separators gives the empty text, and one lone name gives it.
pub open spec fn format_parsed_facts(
    input: Seq<char>,
    parsed: ParseOutput,
    style: FormatStyle,
    r: Result<String, FormatError>,
) -> bool {
    &&& (parsed.diagnostics@.len() > 0 <==> r matches Err(FormatError::ParseErrors { .. }))
    &&& (r matches Err(FormatError::ParseErrors { count }) ==> count == parsed.diagnostics@.len())
    &&& parsed.diagnostics@.len() == 0 ==> (reported_refusal(parsed.cst.children@) matches Some(
        t,
    ) ==> reports_token(
        match r {
            Ok(_) => Ok(()),
            Err(e) => Err(e),
        },
        t,
    ))
    &&& r is Ok ==> first_unsupported_in(parsed.cst.children@) is None
    &&& (r matches Ok(s) ==> exists|d: crate::formatter::ir::Doc|
        s@ == format_outcome(input, rendered(d, 0, 0, style.line_width as int, style.indent_width as int)))
    &&& (parsed.diagnostics@.len() == 0 && all_separators(parsed.cst.children@) ==> (r matches Ok(s)
        && s@ == format_outcome(input, seq![])))
    &&& forall|q: int|
        #[trigger] crate::parser::toplevel::lone_name_child(parsed.cst.children@, q)
            && parsed.diagnostics@.len() == 0 ==> (r matches Ok(s) && s@ == format_outcome(
            input,
            parsed.cst.children@[q]->Token_0.text@,
        ))
}

/// Format `input`, whose parse is `parsed`, with `style`. Parser
/// diagnostics are refused first, then refused tokens (see
/// [`reported_refusal`]); otherwise the tree is laid out and printed, and a
/// final newline of the input is kept.
pub fn format_parsed(input: &str, parsed: &ParseOutput, style: FormatStyle) -> (r: Result<
    String,
    FormatError,
>)
    ensures
        format_parsed_facts(input@, *parsed, style, r),
        parsed.diagnostics@.len() > 0 <==> r matches Err(FormatError::ParseErrors { .. }),
        r matches Err(FormatError::ParseErrors { count }) ==> count == parsed.diagnostics@.len(),
        parsed.diagnostics@.len() == 0 ==> (reported_refusal(parsed.cst.children@) matches Some(
            t,
        ) ==> reports_token(
            match r {
                Ok(_) => Ok(()),
                Err(e) => Err(e),
            },
            t,
        )),
        r is Ok ==> first_unsupported_in(parsed.cst.children@) is None,
        r matches Ok(s) ==> exists|d: crate::formatter::ir::Doc|
            s@ == format_outcome(input@, rendered(d, 0, 0, style.line_width as int, style.indent_width as int)),
        parsed.diagnostics@.len() == 0 && all_separators(parsed.cst.children@) ==> (r matches Ok(s)
            && s@ == format_outcome(input@, seq![])),
{
    if parsed.diagnostics.len() > 0 {
        return Err(FormatError::ParseErrors { count: parsed.diagnostics.len() });
    }
    let clen = parsed.cst.children.len();
    let ghost cs = parsed.cst.children@;
    let ghost lone = exists|q: int| #[trigger] crate::parser::toplevel::lone_name_child(cs, q);
    let ghost lq: int = if lone {
        choose|q: int| #[trigger] crate::parser::toplevel::lone_name_child(cs, q)
    } else {
        0
    };
    proof {
        if all_separators(parsed.cst.children@) {
            lemma_separators_supported(parsed.cst.children@);
            lemma_separators_no_items(parsed.cst.children@, 0, parsed.cst.children@.len() as int);
        }
        if lone {
            lemma_lone_name_items(cs, lq, cs.len() as int);
            assert(cs.subrange(0, cs.len() as int) =~= cs);
            assert(clen == cs.len());
            assert((lq as usize) as int == lq);
            assert(lone_token_root(parsed.cst) == Some(cs[lq]->Token_0));
        }
    }
    validate_supported_tokens(&parsed.cst)?;
    let doc = format_root(&parsed.cst)?;
    let printer = Printer::new(style);
    let mut formatted = printer.print(&doc);
    let ghost printed = formatted@;
    proof {
        if lone {
            assert(doc@ == crate::formatter::ir::Doc::Text(cs[lq]->Token_0.text@));
            assert(printed =~= cs[lq]->Token_0.text@);
        }
    }
    if ends_in_newline(input) && !ends_in_newline(formatted.as_str()) {
        proof {
            reveal_strlit("\n");
        }
        formatted.append("\n");
        proof {
            assert(printed + "\n"@ =~= printed.push('\n'));
        }
    }
    proof {
        assert forall|q: int|
            #[trigger] crate::parser::toplevel::lone_name_child(cs, q) implies formatted@
                == format_outcome(input@, cs[q]->Token_0.text@) by {
            if q != lq {
                assert(crate::formatter::trivia::separator(cs[q]));
            }
        }
    }
    Ok(formatted)
}

} // verus!
