//! Layout of function definitions `function(params) body` and `\(params)
//! body`: the parameters stay on the line when the definition fits and
//! otherwise take one line each; a one-statement body is written bare when
//! everything fits.

use vstd::prelude::*;

use crate::ast::{find_token_from, first_token_from, is_token_kind, matching_rparen};
use crate::formatter::engine::{
    FormatError, ir_block_expr, ir_element, ir_line, range_text, significant_indices,
};
use crate::formatter::rules::arguments::{node_has_comment, prepend_comment_lines};
use crate::formatter::ir::{Doc, Ir, concat_doc, irs_view, lemma_irs_view_eq, lemma_irs_view_push};
use crate::formatter::rules::arguments::{comments_at, prepend_doc};
use crate::ast::accessors::first_code_from;
use crate::syntax::element_text;
use crate::formatter::trivia::{is_trivia, split_lines, trivia_kind};
use crate::syntax::{SyntaxElement, SyntaxKind, SyntaxNode};

verus! {

/// The texts of the comment tokens among `indices` (children of `n`).
fn comment_texts(n: &SyntaxNode, indices: &Vec<usize>) -> (r: Vec<String>)
    requires
        forall|j: int| 0 <= j < indices@.len() ==> #[trigger] indices@[j] < n.children@.len(),
    ensures
        r@.map_values(|s: String| s@) == comments_at(
            n.children@,
            indices@,
            0,
            indices@.len() as int,
        ),
{
    let mut out: Vec<String> = Vec::new();
    let mut j: usize = 0;
    while j < indices.len()
        invariant
            j <= indices@.len(),
            forall|t: int| 0 <= t < indices@.len() ==> #[trigger] indices@[t] < n.children@.len(),
            out@.map_values(|s: String| s@) == comments_at(n.children@, indices@, 0, j as int),
        decreases indices@.len() - j,
    {
        if let SyntaxElement::Token(tok) = &n.children[indices[j]] {
            if tok.kind == SyntaxKind::COMMENT {
                out.push(tok.text.clone());
                proof {
                    assert(out@.map_values(|s: String| s@) =~= comments_at(
                        n.children@,
                        indices@,
                        0,
                        j as int,
                    ).push(tok.text@));
                }
            }
        }
        j += 1;
    }
    out
}

/// An opening bracket token.
pub open spec fn opens(e: SyntaxElement) -> bool {
    crate::ast::is_token_of(e, SyntaxKind::LPAREN) || crate::ast::is_token_of(e, SyntaxKind::LBRACE)
        || crate::ast::is_token_of(e, SyntaxKind::LBRACK) || crate::ast::is_token_of(
        e,
        SyntaxKind::LBRACK2,
    )
}

/// A closing bracket token.
pub open spec fn closes(e: SyntaxElement) -> bool {
    crate::ast::is_token_of(e, SyntaxKind::RPAREN) || crate::ast::is_token_of(e, SyntaxKind::RBRACE)
        || crate::ast::is_token_of(e, SyntaxKind::RBRACK) || crate::ast::is_token_of(
        e,
        SyntaxKind::RBRACK2,
    )
}

/// The bracket depth before child `sig[j]` (an unmatched closer counts as
/// nothing).
pub open spec fn depth_at(cs: Seq<SyntaxElement>, sig: Seq<usize>, j: int) -> nat
    decreases j,
{
    if j <= 0 {
        0
    } else {
        let d = depth_at(cs, sig, j - 1);
        let e = cs[sig[j - 1] as int];
        if opens(e) {
            d + 1
        } else if closes(e) {
            if d > 0 {
                (d - 1) as nat
            } else {
                0
            }
        } else {
            d
        }
    }
}

/// The positions in `sig[..j]` of the commas at depth zero, in order.
pub open spec fn commas_upto(cs: Seq<SyntaxElement>, sig: Seq<usize>, j: int) -> Seq<usize>
    decreases j,
{
    if j <= 0 {
        seq![]
    } else {
        let prev = commas_upto(cs, sig, j - 1);
        let e = cs[sig[j - 1] as int];
        if !opens(e) && !closes(e) && depth_at(cs, sig, j - 1) == 0 && crate::ast::is_token_of(
            e,
            SyntaxKind::COMMA,
        ) {
            prev.push((j - 1) as usize)
        } else {
            prev
        }
    }
}

/// The texts of children `sig[lo..hi]` of `cs`, one after another.
pub open spec fn joined_texts(cs: Seq<SyntaxElement>, sig: Seq<usize>, lo: int, hi: int) -> Seq<
    char,
>
    decreases hi - lo,
{
    if hi <= lo {
        seq![]
    } else {
        joined_texts(cs, sig, lo, hi - 1) + element_text(cs[sig[hi - 1] as int])
    }
}

/// The position of the first `kind` token among children `sig[from..to]`.
pub open spec fn first_sig_token(
    cs: Seq<SyntaxElement>,
    sig: Seq<usize>,
    from: int,
    to: int,
    kind: SyntaxKind,
) -> Option<int>
    decreases to - from,
{
    if from >= to {
        None
    } else if crate::ast::is_token_of(cs[sig[from] as int], kind) {
        Some(from)
    } else {
        first_sig_token(cs, sig, from + 1, to, kind)
    }
}

/// The parameter `sig[from..to]` has a default `{ { ... } ... }`.
pub open spec fn nested_brace_default(cs: Seq<SyntaxElement>, sig: Seq<usize>, from: int, to: int) -> bool {
    match first_sig_token(cs, sig, from, to, SyntaxKind::ASSIGN_EQ) {
        Some(j) => to - (j + 1) >= 4 && crate::ast::is_token_of(cs[sig[j + 1] as int], SyntaxKind::LBRACE)
            && crate::ast::is_token_of(cs[sig[j + 2] as int], SyntaxKind::LBRACE)
            && crate::ast::is_token_of(cs[sig[to - 1] as int], SyntaxKind::RBRACE),
        None => false,
    }
}

/// The positions in `sig` of the commas that separate parameters (those
/// outside any bracket).
fn top_level_commas(n: &SyntaxNode, sig: &Vec<usize>) -> (r: Vec<usize>)
    requires
        forall|j: int| 0 <= j < sig@.len() ==> #[trigger] sig@[j] < n.children@.len(),
    ensures
        forall|j: int| 0 <= j < r@.len() ==> #[trigger] r@[j] < sig@.len(),
        forall|j: int, t: int| 0 <= j < t < r@.len() ==> r@[j] < r@[t],
        r@ == commas_upto(n.children@, sig@, sig@.len() as int),
{
    let mut out: Vec<usize> = Vec::new();
    let mut depth: usize = 0;
    let mut j: usize = 0;
    while j < sig.len()
        invariant
            j <= sig@.len(),
            depth <= j,
            depth == depth_at(n.children@, sig@, j as int),
            out@ == commas_upto(n.children@, sig@, j as int),
            forall|t: int| 0 <= t < sig@.len() ==> #[trigger] sig@[t] < n.children@.len(),
            forall|t: int| 0 <= t < out@.len() ==> #[trigger] out@[t] < j,
            forall|a: int, t: int| 0 <= a < t < out@.len() ==> out@[a] < out@[t],
        decreases sig@.len() - j,
    {
        let e = &n.children[sig[j]];
        if is_token_kind(e, SyntaxKind::LPAREN) || is_token_kind(e, SyntaxKind::LBRACE)
            || is_token_kind(e, SyntaxKind::LBRACK) || is_token_kind(e, SyntaxKind::LBRACK2) {
            depth += 1;
        } else if is_token_kind(e, SyntaxKind::RPAREN) || is_token_kind(e, SyntaxKind::RBRACE)
            || is_token_kind(e, SyntaxKind::RBRACK) || is_token_kind(e, SyntaxKind::RBRACK2) {
            if depth > 0 {
                depth -= 1;
            }
        } else if depth == 0 && is_token_kind(e, SyntaxKind::COMMA) {
            out.push(j);
        }
        j += 1;
    }
    out
}

/// The texts of the children `sig[lo..hi]` of `n`, one after another.
fn joined_text(n: &SyntaxNode, sig: &Vec<usize>, lo: usize, hi: usize) -> (r: String)
    requires
        lo <= hi <= sig@.len(),
        forall|j: int| 0 <= j < sig@.len() ==> #[trigger] sig@[j] < n.children@.len(),
    ensures
        r@ == joined_texts(n.children@, sig@, lo as int, hi as int),
{
    let mut out = String::new();
    let mut j = lo;
    while j < hi
        invariant
            lo <= j <= hi <= sig@.len(),
            forall|t: int| 0 <= t < sig@.len() ==> #[trigger] sig@[t] < n.children@.len(),
            out@ == joined_texts(n.children@, sig@, lo as int, j as int),
        decreases hi - j,
    {
        let piece = crate::syntax::element_string(&n.children[sig[j]]);
        out.append(piece.as_str());
        j += 1;
    }
    out
}

/// The one expression that `snippet`, parsed anew, spells. The parser
/// keeps a parameter list as plain tokens, so a default of several tokens
/// is parsed again on its own; `snippet` is built from tokens of `n` and is
/// shorter than `n`'s text.
fn reparse_single(n: &SyntaxNode, snippet: String, context: &'static str) -> (r: Result<
    Ir,
    FormatError,
>)
    ensures
        crate::formatter::engine::not_parse_error(r),
        snippet@.len() >= crate::syntax::node_text(*n).len() ==> (r matches Err(
            FormatError::AmbiguousConstruct { context: c, snippet: t },
        ) && c == context && t@ == snippet@),
    decreases crate::syntax::node_text(*n).len(), n, 2int,
{
    let whole = n.text();
    if crate::parser::lexer::chars_of(snippet.as_str()).len() >= crate::parser::lexer::chars_of(
        whole.as_str(),
    ).len() {
        return Err(FormatError::AmbiguousConstruct { context, snippet });
    }
    let parsed = crate::parser::toplevel::parse(snippet.as_str());
    if parsed.diagnostics.len() > 0 {
        return Err(FormatError::AmbiguousConstruct { context, snippet });
    }
    let root = &parsed.cst;
    let sig = significant_indices(root, 0, root.children.len(), false);
    if sig.len() != 1 {
        return Err(FormatError::AmbiguousConstruct { context, snippet });
    }
    let k = sig[0];
    proof {
        crate::syntax::lemma_child_text_len(root.children@, k as int);
    }
    ir_element(&root.children[k])
}

/// A brace default around the expression `d`, one level in, with the
/// braces on lines of their own.
pub open spec fn brace_default_doc(d: Doc) -> Doc {
    concat_doc(
        seq![
            Doc::Text("{"@),
            Doc::Indent(Box::new(concat_doc(seq![Doc::HardLine, d]))),
            Doc::HardLine,
            Doc::Text("}"@),
        ],
    )
}

/// A default `{ ... }` written as tokens: `{}` when empty, otherwise the
/// one expression inside, parsed anew, one level in between braces on lines
/// of their own.
fn ir_brace_token_default(n: &SyntaxNode, sig: &Vec<usize>, lo: usize, hi: usize) -> (r: Result<
    Ir,
    FormatError,
>)
    requires
        lo + 2 <= hi <= sig@.len(),
        forall|j: int| 0 <= j < sig@.len() ==> #[trigger] sig@[j] < n.children@.len(),
    ensures
        crate::formatter::engine::not_parse_error(r),
        hi - lo == 2 ==> (r matches Ok(ir) && ir@ == Doc::Text("{}"@)),
        hi - lo > 2 ==> (r matches Ok(ir) ==> exists|d: Doc| ir@ == brace_default_doc(d)),
    decreases crate::syntax::node_text(*n).len(), n, 3int,
{
    if hi - lo == 2 {
        return Ok(Ir::text("{}"));
    }
    let snippet = joined_text(n, sig, lo + 1, hi - 1);
    let inner = reparse_single(n, snippet, "function parameter brace default")?;
    let ghost gi = inner;
    let mut body: Vec<Ir> = Vec::new();
    body.push(Ir::hard_line());
    body.push(inner);
    proof {
        lemma_irs_view_eq(body@, seq![Doc::HardLine, gi@]);
    }
    let mut items: Vec<Ir> = Vec::new();
    items.push(Ir::text("{"));
    items.push(Ir::indent(Ir::concat(body)));
    items.push(Ir::hard_line());
    items.push(Ir::text("}"));
    proof {
        lemma_irs_view_eq(
            items@,
            seq![
                Doc::Text("{"@),
                Doc::Indent(Box::new(concat_doc(seq![Doc::HardLine, gi@]))),
                Doc::HardLine,
                Doc::Text("}"@),
            ],
        );
    }
    let res = Ir::concat(items);
    assert(res@ == brace_default_doc(gi@));
    Ok(res)
}

/// The default `sig[lo..hi]` of a parameter: a brace default, one element
/// laid out as an expression, or several tokens parsed anew as one
/// expression.
fn ir_function_param_default(n: &SyntaxNode, sig: &Vec<usize>, lo: usize, hi: usize) -> (r: Result<
    Ir,
    FormatError,
>)
    requires
        lo <= hi <= sig@.len(),
        forall|j: int| 0 <= j < sig@.len() ==> #[trigger] sig@[j] < n.children@.len(),
    ensures
        crate::formatter::engine::not_parse_error(r),
        ({
            let cs = n.children@;
            let braced = hi - lo >= 2 && crate::ast::is_token_of(cs[sig@[lo as int] as int], SyntaxKind::LBRACE)
                && crate::ast::is_token_of(cs[sig@[hi - 1] as int], SyntaxKind::RBRACE);
            &&& (braced && hi - lo == 2) ==> (r matches Ok(ir) && ir@ == Doc::Text("{}"@))
            &&& (braced && hi - lo > 2) ==> (r matches Ok(ir) ==> exists|d: Doc| ir@ == brace_default_doc(d))
            &&& (!braced && hi - lo == 1) ==> match cs[sig@[lo as int] as int] {
                SyntaxElement::Token(t) => crate::formatter::engine::atom_result(t, r),
                SyntaxElement::Node(m) => crate::formatter::engine::refused_node(m, r),
            }
        }),
    decreases crate::syntax::node_text(*n).len(), n, 4int,
{
    if hi - lo >= 2 && is_token_kind(&n.children[sig[lo]], SyntaxKind::LBRACE) && is_token_kind(
        &n.children[sig[hi - 1]],
        SyntaxKind::RBRACE,
    ) {
        return ir_brace_token_default(n, sig, lo, hi);
    }
    if hi - lo == 1 {
        let d = sig[lo];
        proof {
            crate::syntax::lemma_child_text_len(n.children@, d as int);
        }
        assert(decreases_to!(n => n.children@[d as int]));
        return ir_element(&n.children[d]);
    }
    let snippet = joined_text(n, sig, lo, hi);
    reparse_single(n, snippet, "function parameter default")
}

/// The significant children `sig[from..to]` of `n`, read as one parameter:
/// a name, or `name = default`.
fn ir_function_parameter(n: &SyntaxNode, sig: &Vec<usize>, from: usize, to: usize) -> (r: Result<
    Ir,
    FormatError,
>)
    requires
        from < to <= sig@.len(),
        forall|j: int| 0 <= j < sig@.len() ==> #[trigger] sig@[j] < n.children@.len(),
        forall|j: int, t: int| 0 <= j < t < sig@.len() ==> sig@[j] < sig@[t],
    ensures
        crate::formatter::engine::not_parse_error(r),
        ({
            let cs = n.children@;
            match first_sig_token(cs, sig@, from as int, to as int, SyntaxKind::ASSIGN_EQ) {
                None => if to - from != 1 {
                    r matches Err(FormatError::AmbiguousConstruct { context, snippet })
                        && context@ == "function parameter"@ && snippet@ == joined_texts(
                        cs,
                        sig@,
                        from as int,
                        to as int,
                    )
                } else {
                    match cs[sig@[from as int] as int] {
                        SyntaxElement::Token(t) => crate::formatter::engine::atom_result(t, r),
                        SyntaxElement::Node(m) => crate::formatter::engine::refused_node(m, r),
                    }
                },
                Some(e) => if e - from != 1 {
                    r matches Err(FormatError::AmbiguousConstruct { context, snippet })
                        && context@ == "function parameter name"@ && snippet@ == joined_texts(
                        cs,
                        sig@,
                        from as int,
                        e,
                    )
                } else {
                    r matches Ok(ir) ==> exists|a: Doc, b: Doc|
                        ir@ == concat_doc(seq![a, Doc::Text(" = "@), b])
                },
            }
        }),
    decreases crate::syntax::node_text(*n).len(), n, 5int,
{
    let mut eq: Option<usize> = None;
    let mut j = from;
    while j < to
        invariant
            from <= j <= to <= sig@.len(),
            eq matches Some(e) ==> from <= e < j,
            eq is None ==> first_sig_token(n.children@, sig@, from as int, to as int, SyntaxKind::ASSIGN_EQ)
                == first_sig_token(n.children@, sig@, j as int, to as int, SyntaxKind::ASSIGN_EQ),
            eq matches Some(e) ==> first_sig_token(n.children@, sig@, from as int, to as int, SyntaxKind::ASSIGN_EQ)
                == Some(e as int),
            forall|t: int| 0 <= t < sig@.len() ==> #[trigger] sig@[t] < n.children@.len(),
        decreases to - j,
    {
        if eq.is_none() && is_token_kind(&n.children[sig[j]], SyntaxKind::ASSIGN_EQ) {
            eq = Some(j);
        }
        j += 1;
    }
    match eq {
        None => {
            if to - from != 1 {
                return Err(
                    FormatError::AmbiguousConstruct {
                        context: "function parameter",
                        snippet: joined_text(n, sig, from, to),
                    },
                );
            }
            let k = sig[from];
            proof {
                crate::syntax::lemma_child_text_len(n.children@, k as int);
            }
            assert(decreases_to!(n => n.children@[k as int]));
            ir_element(&n.children[k])
        },
        Some(e) => {
            if e - from != 1 {
                return Err(
                    FormatError::AmbiguousConstruct {
                        context: "function parameter name",
                        snippet: joined_text(n, sig, from, e),
                    },
                );
            }
            let k = sig[from];
            proof {
                crate::syntax::lemma_child_text_len(n.children@, k as int);
            }
            assert(decreases_to!(n => n.children@[k as int]));
            let name = ir_element(&n.children[k])?;
            let value = ir_function_param_default(n, sig, e + 1, to)?;
            let ghost (ga, gb) = (name, value);
            let mut items: Vec<Ir> = Vec::new();
            items.push(name);
            items.push(Ir::text(" = "));
            items.push(value);
            proof {
                lemma_irs_view_eq(items@, seq![ga@, Doc::Text(" = "@), gb@]);
            }
            Ok(Ir::concat(items))
        },
    }
}

/// A parameter whose default is `{ { ... } ... }`: a brace default that
/// opens with a second brace.
fn param_has_nested_brace_default(n: &SyntaxNode, sig: &Vec<usize>, from: usize, to: usize) -> (b: bool)
    requires
        from <= to <= sig@.len(),
        forall|j: int| 0 <= j < sig@.len() ==> #[trigger] sig@[j] < n.children@.len(),
    ensures
        b == nested_brace_default(n.children@, sig@, from as int, to as int),
{
    let mut j = from;
    while j < to
        invariant
            from <= j <= to <= sig@.len(),
            forall|t: int| 0 <= t < sig@.len() ==> #[trigger] sig@[t] < n.children@.len(),
            first_sig_token(n.children@, sig@, from as int, to as int, SyntaxKind::ASSIGN_EQ)
                == first_sig_token(n.children@, sig@, j as int, to as int, SyntaxKind::ASSIGN_EQ),
        decreases to - j,
    {
        if is_token_kind(&n.children[sig[j]], SyntaxKind::ASSIGN_EQ) {
            let rest = to - (j + 1);
            return rest >= 4 && is_token_kind(&n.children[sig[j + 1]], SyntaxKind::LBRACE)
                && is_token_kind(&n.children[sig[j + 2]], SyntaxKind::LBRACE) && is_token_kind(
                &n.children[sig[to - 1]],
                SyntaxKind::RBRACE,
            );
        }
        j += 1;
    }
    false
}

/// One line per child `sig[start..end]`: its text, with a comma after the
/// last when `comma`.
pub open spec fn param_line_docs(
    cs: Seq<SyntaxElement>,
    sig: Seq<usize>,
    start: int,
    end: int,
    comma: bool,
) -> Seq<Doc>
    decreases end - start,
{
    if end <= start {
        seq![]
    } else {
        param_line_docs(cs, sig, start, end - 1, false) + seq![
            Doc::Text(
                element_text(cs[sig[end - 1] as int]) + if comma {
                    ","@
                } else {
                    seq![]
                },
            ),
        ]
    }
}

/// Lays out the parameter `sig[start..end]` after those already in `body`:
/// a separator unless it is the first, a soft line, then the parameter.
/// Answers whether its default is a nested brace.
fn push_param(
    n: &SyntaxNode,
    sig: &Vec<usize>,
    start: usize,
    end: usize,
    first: bool,
    last: bool,
    body: &mut Vec<Ir>,
) -> (r: Result<bool, FormatError>)
    requires
        start <= end <= sig@.len(),
        forall|j: int| 0 <= j < sig@.len() ==> #[trigger] sig@[j] < n.children@.len(),
        forall|j: int, t: int| 0 <= j < t < sig@.len() ==> sig@[j] < sig@[t],
    ensures
        crate::formatter::engine::not_parse_error(r),
        end == start ==> r is Err,
        end == start ==> (r matches Err(FormatError::AmbiguousConstruct { context, snippet })
            && context@ == (if last {
            "trailing comma in function parameters"@
        } else {
            "empty function parameter"@
        }) && snippet@ == crate::syntax::node_text(*n)),
        (end == start + 1 && first_sig_token(
            n.children@,
            sig@,
            start as int,
            end as int,
            SyntaxKind::ASSIGN_EQ,
        ) is None && (n.children@[sig@[start as int] as int] matches SyntaxElement::Token(t)
            && crate::formatter::engine::atom_kind(t.kind))) ==> r is Ok,
        r is Err ==> final(body)@ == old(body)@,
        r matches Ok(b) ==> b == nested_brace_default(n.children@, sig@, start as int, end as int)
            && exists|p: Ir|
            irs_view(final(body)@) == irs_view(old(body)@) + if first {
                seq![Doc::SoftLine, p@]
            } else {
                seq![
                    Doc::IfBreak {
                        flat: Box::new(Doc::Text(", "@)),
                        broken: Box::new(Doc::Text(","@)),
                    },
                    Doc::SoftLine,
                    p@,
                ]
            },
    decreases crate::syntax::node_text(*n).len(), n, 6int,
{
    if end == start {
        let context = if last {
            "trailing comma in function parameters"
        } else {
            "empty function parameter"
        };
        return Err(FormatError::AmbiguousConstruct { context, snippet: n.text() });
    }
    let nested = param_has_nested_brace_default(n, sig, start, end);
    let param = ir_function_parameter(n, sig, start, end)?;
    let ghost b0 = body@;
    let ghost gp = param;
    if !first {
        let sep = Ir::if_break(Ir::text(", "), Ir::text(","));
        let ghost bb = body@;
        body.push(sep);
        proof {
            lemma_irs_view_push(bb, sep);
        }
    }
    let ghost b1 = body@;
    let sl = Ir::soft_line();
    body.push(sl);
    proof {
        lemma_irs_view_push(b1, sl);
    }
    let ghost b2 = body@;
    body.push(param);
    proof {
        lemma_irs_view_push(b2, gp);
        if first {
            assert(irs_view(body@) =~= irs_view(b0) + seq![Doc::SoftLine, gp@]);
        } else {
            assert(irs_view(body@) =~= irs_view(b0) + seq![
                Doc::IfBreak {
                    flat: Box::new(Doc::Text(", "@)),
                    broken: Box::new(Doc::Text(","@)),
                },
                Doc::SoftLine,
                gp@,
            ]);
        }
    }
    Ok(nested)
}

/// `(`, the parameter documents `ds` one level in, a soft line and `)`.
pub open spec fn params_doc(ds: Seq<Doc>) -> Doc {
    concat_doc(
        seq![
            Doc::Text("("@),
            Doc::Indent(Box::new(concat_doc(ds))),
            Doc::SoftLine,
            Doc::Text(")"@),
        ],
    )
}

/// The parameter list `(a, b = 1)`, without a group of its own: the group
/// around the whole definition decides whether it breaks, one parameter per
/// line. A nested brace default always breaks it.
/// The significant children `sig` of `cs` are names separated by commas:
/// a name at each even position, a comma at each odd one, a name last.
pub open spec fn name_params(cs: Seq<SyntaxElement>, sig: Seq<usize>) -> bool {
    &&& sig.len() % 2 == 1
    &&& forall|j: int|
        0 <= j < sig.len() ==> (if j % 2 == 0 {
            crate::ast::is_token_of(#[trigger] cs[sig[j] as int], SyntaxKind::IDENT)
        } else {
            crate::ast::is_token_of(cs[sig[j] as int], SyntaxKind::COMMA)
        })
}

/// Among names separated by commas, the top-level commas are the odd
/// positions, and no bracket is open.
proof fn lemma_name_params_commas(cs: Seq<SyntaxElement>, sig: Seq<usize>, j: int)
    requires
        name_params(cs, sig),
        0 <= j <= sig.len() <= usize::MAX,
    ensures
        depth_at(cs, sig, j) == 0,
        commas_upto(cs, sig, j).len() == j / 2,
        forall|c: int| 0 <= c < j / 2 ==> #[trigger] commas_upto(cs, sig, j)[c] == 2 * c + 1,
    decreases j,
{
    if j > 0 {
        lemma_name_params_commas(cs, sig, j - 1);
        let e = cs[sig[j - 1] as int];
        let prev = commas_upto(cs, sig, j - 1);
        if (j - 1) % 2 == 0 {
            assert(crate::ast::is_token_of(e, SyntaxKind::IDENT));
            assert(j / 2 == (j - 1) / 2);
            assert(commas_upto(cs, sig, j) == prev);
        } else {
            assert(crate::ast::is_token_of(e, SyntaxKind::COMMA));
            assert(j / 2 == (j - 1) / 2 + 1);
            assert(j - 1 == 2 * ((j - 1) / 2) + 1);
            assert(commas_upto(cs, sig, j) == prev.push((j - 1) as usize));
            assert forall|c: int| 0 <= c < j / 2 implies #[trigger] commas_upto(cs, sig, j)[c] == 2 * c + 1 by {
                if c < (j - 1) / 2 {
                    assert(prev[c] == 2 * c + 1);
                }
            }
        }
    }
}

fn ir_function_params(n: &SyntaxNode, lparen: usize, rparen: usize) -> (r: Result<Ir, FormatError>)
    requires
        lparen < rparen <= n.children@.len(),
    ensures
        crate::formatter::engine::not_parse_error(r),
        name_params(n.children@, crate::formatter::engine::sig_seq(n.children@, lparen + 1, rparen as int, false))
            ==> r is Ok,
        crate::formatter::engine::sig_seq(n.children@, lparen + 1, rparen as int, false).len() == 0
            ==> (r matches Ok(ir) && ir@ == Doc::Text("()"@)),
        r matches Ok(ir) ==> ir@ == Doc::Text("()"@) || exists|ds: Seq<Doc>|
            ir@ == params_doc(ds) || ir@ == (Doc::Group {
                inner: Box::new(params_doc(ds)),
                expand: true,
                hug: false,
            }),
    decreases crate::syntax::node_text(*n).len(), n, 7int,
{
    let sig = significant_indices(n, lparen + 1, rparen, false);
    if sig.len() == 0 {
        return Ok(Ir::text("()"));
    }
    let commas = top_level_commas(n, &sig);
    let ghost named = name_params(n.children@, sig@);
    proof {
        if named {
            lemma_name_params_commas(n.children@, sig@, sig@.len() as int);
        }
    }
    let mut body: Vec<Ir> = Vec::new();
    let mut start: usize = 0;
    let mut nested = false;
    let mut c: usize = 0;
    while c < commas.len()
        invariant
            c <= commas@.len(),
            start <= sig@.len(),
            c < commas@.len() ==> start <= commas@[c as int],
            forall|j: int| 0 <= j < commas@.len() ==> #[trigger] commas@[j] < sig@.len(),
            forall|j: int, t: int| 0 <= j < t < commas@.len() ==> commas@[j] < commas@[t],
            forall|j: int| 0 <= j < sig@.len() ==> #[trigger] sig@[j] < n.children@.len(),
            forall|a: int, t: int| 0 <= a < t < sig@.len() ==> sig@[a] < sig@[t],
            sig@ == crate::formatter::engine::sig_seq(n.children@, lparen + 1, rparen as int, false),
            sig@.len() > 0,
            named == name_params(n.children@, sig@),
            named ==> start == 2 * c && commas@.len() == sig@.len() / 2 && forall|q: int|
                0 <= q < commas@.len() ==> #[trigger] commas@[q] == 2 * q + 1,
        decreases commas@.len() - c,
    {
        let end = commas[c];
        assert(end < sig.len());
        proof {
            if named {
                assert(crate::ast::is_token_of(n.children@[sig@[start as int] as int], SyntaxKind::IDENT));
                assert(end == start + 1);
                assert(first_sig_token(n.children@, sig@, start + 1, start + 1, SyntaxKind::ASSIGN_EQ) is None);
                assert(first_sig_token(n.children@, sig@, start as int, start + 1, SyntaxKind::ASSIGN_EQ) is None);
            }
        }
        if push_param(n, &sig, start, end, c == 0, false, &mut body)? {
            nested = true;
        }
        proof {
            if c + 1 < commas@.len() {
                assert(commas@[c as int] < commas@[c + 1]);
            }
        }
        start = end + 1;
        c += 1;
    }
    proof {
        if named {
            assert(start as int == sig@.len() - 1);
            assert(crate::ast::is_token_of(n.children@[sig@[start as int] as int], SyntaxKind::IDENT));
            assert(first_sig_token(n.children@, sig@, start + 1, start + 1, SyntaxKind::ASSIGN_EQ) is None);
            assert(first_sig_token(n.children@, sig@, start as int, start + 1, SyntaxKind::ASSIGN_EQ) is None);
        }
    }
    if push_param(n, &sig, start, sig.len(), c == 0, true, &mut body)? {
        nested = true;
    }
    let ghost gb = body@;
    let mut items: Vec<Ir> = Vec::new();
    items.push(Ir::text("("));
    items.push(Ir::indent(Ir::concat(body)));
    items.push(Ir::soft_line());
    items.push(Ir::text(")"));
    proof {
        lemma_irs_view_eq(
            items@,
            seq![
                Doc::Text("("@),
                Doc::Indent(Box::new(concat_doc(irs_view(gb)))),
                Doc::SoftLine,
                Doc::Text(")"@),
            ],
        );
    }
    let inner = Ir::concat(items);
    assert(inner@ == params_doc(irs_view(gb)));
    if nested {
        Ok(Ir::group_expanded(inner))
    } else {
        Ok(inner)
    }
}

/// The text of each significant child in `sig[start..end]`, one line each,
/// a comma after the last when `comma`.
fn push_param_lines(
    n: &SyntaxNode,
    sig: &Vec<usize>,
    start: usize,
    end: usize,
    comma: bool,
    lines: &mut Vec<Ir>,
)
    requires
        start <= end <= sig@.len(),
        forall|j: int| 0 <= j < sig@.len() ==> #[trigger] sig@[j] < n.children@.len(),
    ensures
        irs_view(final(lines)@) == irs_view(old(lines)@) + param_line_docs(
            n.children@,
            sig@,
            start as int,
            end as int,
            comma,
        ),
{
    let ghost l0 = lines@;
    let mut j = start;
    while j < end
        invariant
            start <= j <= end <= sig@.len(),
            forall|t: int| 0 <= t < sig@.len() ==> #[trigger] sig@[t] < n.children@.len(),
            irs_view(lines@) == irs_view(l0) + param_line_docs(
                n.children@,
                sig@,
                start as int,
                j as int,
                comma && j == end,
            ),
        decreases end - j,
    {
        let mut text = crate::syntax::element_string(&n.children[sig[j]]);
        if comma && j + 1 == end {
            text.append(",");
        }
        let ghost before = lines@;
        let t = Ir::text_string(text);
        lines.push(t);
        proof {
            lemma_irs_view_push(before, t);
            reveal_strlit(",");
            if j + 1 == end {
                assert(param_line_docs(n.children@, sig@, start as int, j + 1, comma)
                    =~= param_line_docs(n.children@, sig@, start as int, j as int, false) + seq![t@]);
            } else {
                assert(param_line_docs(n.children@, sig@, start as int, j + 1, false)
                    =~= param_line_docs(n.children@, sig@, start as int, j as int, false) + seq![t@]);
            }
        }
        j += 1;
    }
}

/// The lines of the parameters before the `c`-th top-level comma, each
/// ending in its comma, and where the next parameter starts.
pub open spec fn comment_param_lines(
    cs: Seq<SyntaxElement>,
    sig: Seq<usize>,
    commas: Seq<usize>,
    c: int,
) -> (Seq<Doc>, int)
    decreases c,
{
    if c <= 0 {
        (seq![], 0)
    } else {
        let (ls, start) = comment_param_lines(cs, sig, commas, c - 1);
        let end = commas[c - 1] as int;
        (
            if start <= end {
                ls + param_line_docs(cs, sig, start, end, true)
            } else {
                ls
            },
            end + 1,
        )
    }
}

/// The layout of a parameter list `(lparen..rparen)` of `cs` with
/// comments: every parameter's text line by line, always broken.
pub open spec fn commented_params_doc(cs: Seq<SyntaxElement>, lparen: int, rparen: int) -> Doc {
    let sig = crate::formatter::engine::sig_seq(cs, lparen + 1, rparen, false);
    if sig.len() == 0 {
        Doc::Text("()"@)
    } else {
        let commas = commas_upto(cs, sig, sig.len() as int);
        let (ls, st) = comment_param_lines(cs, sig, commas, commas.len() as int);
        let lines = ls + param_line_docs(cs, sig, st, sig.len() as int, false);
        concat_doc(
            seq![
                Doc::Text("("@),
                Doc::Indent(
                    Box::new(
                        concat_doc(
                            seq![
                                Doc::HardLine,
                                concat_doc(crate::formatter::ir::interleave(Doc::HardLine, lines)),
                            ],
                        ),
                    ),
                ),
                Doc::HardLine,
                Doc::Text(")"@),
            ],
        )
    }
}

/// With a comment among the parameters, each parameter's text is kept line
/// by line, one line each, a comma after every parameter but the last; the
/// list is always broken.
fn ir_function_params_with_comments(n: &SyntaxNode, lparen: usize, rparen: usize) -> (r: Ir)
    requires
        lparen < rparen <= n.children@.len(),
    ensures
        r@ == commented_params_doc(n.children@, lparen as int, rparen as int),
{
    let sig = significant_indices(n, lparen + 1, rparen, false);
    if sig.len() == 0 {
        return Ir::text("()");
    }
    let commas = top_level_commas(n, &sig);
    let mut lines: Vec<Ir> = Vec::new();
    let mut start: usize = 0;
    let mut c: usize = 0;
    while c < commas.len()
        invariant
            c <= commas@.len(),
            start <= sig@.len(),
            forall|j: int| 0 <= j < commas@.len() ==> #[trigger] commas@[j] < sig@.len(),
            forall|j: int| 0 <= j < sig@.len() ==> #[trigger] sig@[j] < n.children@.len(),
            irs_view(lines@) == comment_param_lines(n.children@, sig@, commas@, c as int).0,
            start as int == comment_param_lines(n.children@, sig@, commas@, c as int).1,
        decreases commas@.len() - c,
    {
        let end = commas[c];
        assert(end < sig.len());
        if start <= end {
            push_param_lines(n, &sig, start, end, true, &mut lines);
        }
        start = end + 1;
        c += 1;
    }
    push_param_lines(n, &sig, start, sig.len(), false, &mut lines);
    let ghost gl = lines@;
    let mut inner: Vec<Ir> = Vec::new();
    inner.push(Ir::hard_line());
    inner.push(Ir::join(Ir::hard_line(), lines));
    let mut items: Vec<Ir> = Vec::new();
    items.push(Ir::text("("));
    items.push(Ir::indent(Ir::concat(inner)));
    items.push(Ir::hard_line());
    items.push(Ir::text(")"));
    proof {
        let lines_doc = irs_view(gl);
        lemma_irs_view_eq(inner@, seq![Doc::HardLine, concat_doc(crate::formatter::ir::interleave(Doc::HardLine, lines_doc))]);
        lemma_irs_view_eq(
            items@,
            seq![
                Doc::Text("("@),
                Doc::Indent(Box::new(concat_doc(seq![Doc::HardLine, concat_doc(crate::formatter::ir::interleave(Doc::HardLine, lines_doc))]))),
                Doc::HardLine,
                Doc::Text(")"@),
            ],
        );
    }
    Ir::concat(items)
}

/// `head(params) body` as a hug group: the parameters stay on the line as
/// long as everything up to the body's opening brace fits.
pub open spec fn braced_hug_doc(head: Doc, params: Doc, block: Doc) -> Doc {
    Doc::Group {
        inner: Box::new(concat_doc(seq![head, params, Doc::Text(" "@), block])),
        expand: false,
        hug: true,
    }
}

fn function_braced_hug(head: Ir, params: Ir, block: Ir) -> (r: Ir)
    ensures
        r@ == braced_hug_doc(head@, params@, block@),
{
    let ghost (gh, gp, gb) = (head, params, block);
    let mut items: Vec<Ir> = Vec::new();
    items.push(head);
    items.push(params);
    items.push(Ir::text(" "));
    items.push(block);
    proof {
        lemma_irs_view_eq(items@, seq![gh@, gp@, Doc::Text(" "@), gb@]);
    }
    Ir::group_hug(Ir::concat(items))
}

/// The bare body `head(params) stmt` when it fits on the line, otherwise the
/// braced form.
fn function_body_choice(head: Ir, params: Ir, bare_body: Ir, braced_body: Ir) -> (r: Ir)
    ensures
        r@ == (Doc::Group {
            inner: Box::new(
                Doc::IfBreak {
                    flat: Box::new(
                        concat_doc(seq![head@, params@, Doc::Text(" "@), bare_body@]),
                    ),
                    broken: Box::new(braced_hug_doc(head@, params@, braced_body@)),
                },
            ),
            expand: false,
            hug: false,
        }),
{
    let ghost gb = bare_body;
    let mut flat: Vec<Ir> = Vec::new();
    flat.push(head.duplicate());
    flat.push(params.duplicate());
    flat.push(Ir::text(" "));
    flat.push(bare_body);
    proof {
        lemma_irs_view_eq(flat@, seq![head@, params@, Doc::Text(" "@), gb@]);
    }
    Ir::group(Ir::if_break(Ir::concat(flat), function_braced_hug(head, params, braced_body)))
}

/// Each comment of `cs` as a forced verbatim after a line break.
pub open spec fn forced_comment_docs(cs: Seq<String>) -> Seq<Doc>
    decreases cs.len(),
{
    if cs.len() == 0 {
        seq![]
    } else {
        forced_comment_docs(cs.drop_last()) + seq![
            Doc::HardLine,
            Doc::Verbatim { text: cs.last()@, force_break: true },
        ]
    }
}

/// `{`, comment lines, the body, then `}`.
fn brace_wrap_body_with_comments(body: Ir, comments: &Vec<String>) -> (r: Ir)
    ensures
        r@ == concat_doc(
            seq![
                Doc::Text("{"@),
                Doc::Indent(
                    Box::new(
                        concat_doc(forced_comment_docs(comments@) + seq![Doc::HardLine, body@]),
                    ),
                ),
                Doc::HardLine,
                Doc::Text("}"@),
            ],
        ),
{
    let ghost gb = body;
    let mut inner: Vec<Ir> = Vec::new();
    let mut c: usize = 0;
    while c < comments.len()
        invariant
            c <= comments@.len(),
            irs_view(inner@) == forced_comment_docs(comments@.subrange(0, c as int)),
        decreases comments@.len() - c,
    {
        let ghost before = inner@;
        inner.push(Ir::hard_line());
        inner.push(Ir::verbatim_forced(comments[c].as_str()));
        proof {
            lemma_irs_view_push(before, inner@[before.len() as int]);
            lemma_irs_view_push(before.push(inner@[before.len() as int]), inner@[before.len() as int + 1]);
            assert(inner@ =~= before.push(inner@[before.len() as int]).push(inner@[before.len() as int + 1]));
            assert(comments@.subrange(0, c + 1).drop_last() =~= comments@.subrange(0, c as int));
            assert(forced_comment_docs(comments@.subrange(0, c + 1)) =~= forced_comment_docs(
                comments@.subrange(0, c as int),
            ) + seq![Doc::HardLine, Doc::Verbatim { text: comments@[c as int]@, force_break: true }]);
        }
        c += 1;
    }
    let ghost b0 = inner@;
    inner.push(Ir::hard_line());
    inner.push(body);
    proof {
        lemma_irs_view_push(b0, inner@[b0.len() as int]);
        lemma_irs_view_push(b0.push(inner@[b0.len() as int]), gb);
        assert(inner@ =~= b0.push(inner@[b0.len() as int]).push(gb));
        assert(comments@.subrange(0, comments@.len() as int) =~= comments@);
        assert(irs_view(inner@) =~= forced_comment_docs(comments@) + seq![Doc::HardLine, gb@]);
    }
    let mut items: Vec<Ir> = Vec::new();
    items.push(Ir::text("{"));
    items.push(Ir::indent(Ir::concat(inner)));
    items.push(Ir::hard_line());
    items.push(Ir::text("}"));
    proof {
        lemma_irs_view_eq(
            items@,
            seq![
                Doc::Text("{"@),
                Doc::Indent(
                    Box::new(concat_doc(forced_comment_docs(comments@) + seq![Doc::HardLine, gb@])),
                ),
                Doc::HardLine,
                Doc::Text("}"@),
            ],
        );
    }
    Ir::concat(items)
}

/// The last token of kind `k` among `cs[0..hi]`.
pub open spec fn last_token_before(cs: Seq<SyntaxElement>, hi: int, k: SyntaxKind) -> Option<int>
    decreases hi,
{
    if hi <= 0 {
        None
    } else if crate::ast::is_token_of(cs[hi - 1], k) {
        Some(hi - 1)
    } else {
        last_token_before(cs, hi - 1, k)
    }
}

/// The lone token of a comment-free block whose content between its first
/// `{` and its last `}` is one name, number or string.
pub open spec fn lone_atom_block(block: SyntaxNode) -> Option<crate::syntax::SyntaxToken> {
    let cs = block.children@;
    if !crate::formatter::rules::arguments::any_comment(cs) && first_token_from(cs, 0, SyntaxKind::LBRACE) is Some
        && last_token_before(cs, cs.len() as int, SyntaxKind::RBRACE) is Some {
        let o = first_token_from(cs, 0, SyntaxKind::LBRACE)->Some_0;
        let c = last_token_before(cs, cs.len() as int, SyntaxKind::RBRACE)->Some_0;
        let items = crate::formatter::trivia::line_items(cs, o + 1, c);
        if o < c && items.len() == 1 && cs[items[0] as int] is Token
            && crate::formatter::engine::atom_kind(cs[items[0] as int]->Token_0.kind) {
            Some(cs[items[0] as int]->Token_0)
        } else {
            None
        }
    } else {
        None
    }
}

/// The one statement of a comment-free block body, when it has exactly one.
fn try_flatten_function_block(block: &SyntaxNode) -> (r: Result<Option<Ir>, FormatError>)
    ensures
        crate::formatter::engine::not_parse_error(r),
        crate::formatter::rules::arguments::any_comment(block.children@) ==> r matches Ok(None),
        lone_atom_block(*block) matches Some(t) ==> (r matches Ok(Some(ir)) && ir@ == Doc::Text(
            t.text@,
        )),
    decreases crate::syntax::node_text(*block).len(), block, 7int,
{
    let ghost lone = lone_atom_block(*block);
    let ghost cs = block.children@;
    if node_has_comment(block) {
        return Ok(None);
    }
    let len = block.children.len();
    let mut open: Option<usize> = None;
    let mut close: Option<usize> = None;
    let mut k: usize = 0;
    while k < len
        invariant
            len == block.children@.len(),
            k <= len,
            open matches Some(o) ==> o < len,
            close matches Some(c) ==> c < len,
            cs == block.children@,
            open is None ==> forall|j: int| 0 <= j < k ==> !crate::ast::is_token_of(#[trigger] cs[j], SyntaxKind::LBRACE),
            open matches Some(o) ==> o < k && crate::ast::is_token_of(cs[o as int], SyntaxKind::LBRACE)
                && forall|j: int| 0 <= j < o ==> !crate::ast::is_token_of(#[trigger] cs[j], SyntaxKind::LBRACE),
            crate::ast::opt_index(close) == last_token_before(cs, k as int, SyntaxKind::RBRACE),
        decreases len - k,
    {
        if is_token_kind(&block.children[k], SyntaxKind::LBRACE) && open.is_none() {
            open = Some(k);
        }
        if is_token_kind(&block.children[k], SyntaxKind::RBRACE) {
            close = Some(k);
        }
        k += 1;
    }
    proof {
        crate::ast::lemma_first_token_from(cs, 0, SyntaxKind::LBRACE);
        if open is None {
            if let Some(i) = first_token_from(cs, 0, SyntaxKind::LBRACE) {
                assert(!crate::ast::is_token_of(cs[i], SyntaxKind::LBRACE));
            }
        }
    }
    let (o, c) = match (open, close) {
        (Some(o), Some(c)) => (o, c),
        _ => {
            return Ok(None);
        },
    };
    proof {
        crate::ast::lemma_first_token_from(cs, 0, SyntaxKind::LBRACE);
        if let Some(i) = first_token_from(cs, 0, SyntaxKind::LBRACE) {
            if i < o {
                assert(!crate::ast::is_token_of(cs[i], SyntaxKind::LBRACE));
            }
            if i > o {
                assert(!crate::ast::is_token_of(cs[o as int], SyntaxKind::LBRACE));
            }
        } else {
            assert(!crate::ast::is_token_of(cs[o as int], SyntaxKind::LBRACE));
        }
        assert(first_token_from(cs, 0, SyntaxKind::LBRACE) == Some(o as int));
    }
    if c <= o {
        return Ok(None);
    }
    let lines = split_lines(block, o + 1, c, "function body block")?;
    let mut stmt: Option<Ir> = None;
    let mut i: usize = 0;
    while i < lines.len()
        invariant
            i <= lines@.len(),
            crate::formatter::trivia::lines_within(lines@, (o + 1) as int, c as int),
            !crate::formatter::rules::arguments::any_comment(block.children@),
            c < block.children@.len(),
            cs == block.children@,
            lone == lone_atom_block(*block),
            lone is Some ==> first_token_from(cs, 0, SyntaxKind::LBRACE) == Some(o as int)
                && last_token_before(cs, cs.len() as int, SyntaxKind::RBRACE) == Some(c as int),
            lone is Some ==> lines@.len() == 1 && lines@[0]@ == crate::formatter::trivia::line_items(
                cs,
                o + 1,
                c as int,
            ),
            lone is Some && i == 0 ==> stmt is None,
            lone matches Some(t) ==> (i > 0 ==> (stmt matches Some(x) && x@ == Doc::Text(t.text@))),
        decreases lines@.len() - i,
    {
        proof {
            assert forall|j: int| 0 <= j < lines@[i as int]@.len() implies #[trigger] lines@[i as int]@[j]
                < block.children@.len() by {
                assert(lines@[i as int]@[j] < c);
            }
        }
        proof {
            if lone is Some {
                let l = lines@[i as int]@;
                let li = crate::formatter::trivia::line_items(cs, o + 1, c as int);
                crate::formatter::trivia::lemma_line_items_kept(cs, o + 1, c as int);
                assert(l == li);
                assert(!crate::formatter::trivia::separator(cs[li[0] as int]));
                assert(l.drop_last() =~= Seq::<usize>::empty());
                assert(crate::formatter::engine::line_sig(cs, l.drop_last()) =~= Seq::<usize>::empty());
                assert(crate::formatter::engine::line_sig(cs, l) =~= seq![l[0]]);
            }
        }
        let ir = ir_line(block, &lines[i])?;
        let is_nil = match &ir {
            Ir::Nil => true,
            _ => false,
        };
        if !is_nil {
            if stmt.is_some() {
                return Ok(None);
            }
            stmt = Some(ir);
        }
        i += 1;
    }
    Ok(stmt)
}

/// The keyword of a definition with children `cs`: the first `function`,
/// or else the first lambda backslash.
pub open spec fn fn_keyword(cs: Seq<SyntaxElement>) -> Option<int> {
    match first_token_from(cs, 0, SyntaxKind::FUNCTION_KW) {
        Some(k) => Some(k),
        None => first_token_from(cs, 0, SyntaxKind::LAMBDA_FN),
    }
}

/// A bare body `body` that may be braced as `braced`: flat it is `head
/// params body`, broken the braced body hugs the parameters.
pub open spec fn choice_doc(head: Doc, params: Doc, bare: Doc, braced: Doc) -> Doc {
    Doc::Group {
        inner: Box::new(
            Doc::IfBreak {
                flat: Box::new(concat_doc(seq![head, params, Doc::Text(" "@), bare])),
                broken: Box::new(braced_hug_doc(head, params, braced)),
            },
        ),
        expand: false,
        hug: false,
    }
}

/// `body` in braces, on a line of its own one level in.
pub open spec fn brace_wrapped(body: Doc) -> Doc {
    concat_doc(
        seq![
            Doc::Text("{"@),
            Doc::Indent(Box::new(concat_doc(forced_comment_docs(Seq::<String>::empty()) + seq![Doc::HardLine, body]))),
            Doc::HardLine,
            Doc::Text("}"@),
        ],
    )
}

/// The three shapes of a definition after keyword `head`: a body that may
/// stay bare or be braced, a braced body hugging the parameters, or a bare
/// body that breaks by itself after the grouped parameters.
pub open spec fn function_core(core: Doc, head: Seq<char>) -> bool {
    exists|p: Doc, a: Doc, b: Doc| #[trigger] core_shape(core, head, p, a, b)
}

/// `core` is one of the three shapes of a definition after keyword `head`,
/// with parameters `p`, bare body `a` and braced body `b`.
pub open spec fn core_shape(core: Doc, head: Seq<char>, p: Doc, a: Doc, b: Doc) -> bool {
    core == choice_doc(Doc::Text(head), p, a, b) || core == braced_hug_doc(Doc::Text(head), p, b)
        || core == concat_doc(
        seq![
            Doc::Text(head),
            Doc::Group { inner: Box::new(p), expand: false, hug: false },
            Doc::Text(" "@),
            a,
        ],
    )
}

/// Some child of `cs` at the positions `s` is a comment.
pub open spec fn sig_comment(cs: Seq<SyntaxElement>, s: Seq<usize>) -> bool {
    exists|j: int| 0 <= j < s.len() && #[trigger] crate::ast::is_token_of(cs[s[j] as int], SyntaxKind::COMMENT)
}

/// `p` lays out the parameters between `(` at `l` and `)` at `rp`: with a
/// comment among them, the commented layout; with none of them, `()`;
/// otherwise `()` or a group of the parameters, flat or expanded.
pub open spec fn params_shape(cs: Seq<SyntaxElement>, l: int, rp: int, p: Doc) -> bool {
    let s = crate::formatter::engine::sig_seq(cs, l + 1, rp, false);
    if sig_comment(cs, s) {
        p == commented_params_doc(cs, l, rp)
    } else if s.len() == 0 {
        p == Doc::Text("()"@)
    } else {
        p == Doc::Text("()"@) || exists|ds: Seq<Doc>|
            p == #[trigger] params_doc(ds) || p == (Doc::Group {
                inner: Box::new(params_doc(ds)),
                expand: true,
                hug: false,
            })
    }
}

/// `body` in braces one level in, after the comments `cms`, each on a
/// line of its own.
pub open spec fn brace_with(cms: Seq<String>, body: Doc) -> Doc {
    concat_doc(
        seq![
            Doc::Text("{"@),
            Doc::Indent(Box::new(concat_doc(forced_comment_docs(cms) + seq![Doc::HardLine, body]))),
            Doc::HardLine,
            Doc::Text("}"@),
        ],
    )
}

/// The body of a definition: the first child from `from` on that is a node
/// or a token other than a comment or trivia, or the end.
pub open spec fn body_pos(cs: Seq<SyntaxElement>, from: int) -> int
    decreases cs.len() - from,
{
    if from < 0 || from >= cs.len() {
        cs.len() as int
    } else if cs[from] matches SyntaxElement::Token(t) && (t.kind == SyntaxKind::COMMENT || trivia_kind(
        t.kind,
    )) {
        body_pos(cs, from + 1)
    } else {
        from
    }
}

/// `a` and `b` lay out the body child `e`, bare and braced: a token is its
/// text, braced after the comments before it; a block is a braced body.
pub open spec fn body_shape(e: SyntaxElement, a: Doc, b: Doc) -> bool {
    match e {
        SyntaxElement::Token(t) => a == Doc::Text(t.text@) && exists|cms: Seq<String>|
            b == #[trigger] brace_with(cms, a),
        SyntaxElement::Node(m) => m.kind == SyntaxKind::BLOCK_EXPR ==> exists|cms: Seq<String>, lines: int|
            #[trigger] crate::formatter::engine::braced_body(b, cms, lines),
    }
}

/// The layout `ir` of the definition `cs`, with keyword at `k`, `(` at `l`
/// and `)` at `rp`: its leading comments, then one of the three shapes over
/// the parameters' layout and the body's.
pub open spec fn function_layout(ir: Doc, cs: Seq<SyntaxElement>, k: int, l: int, rp: int) -> bool {
    exists|lead: Seq<String>, core: Doc, p: Doc, a: Doc, b: Doc|
        #![trigger prepend_doc(lead, core), core_shape(core, crate::syntax::element_text(cs[k]), p, a, b)]
        lead.map_values(|x: String| x@) == head_comments(cs, k, l) && ir == prepend_doc(lead, core)
            && core_shape(core, crate::syntax::element_text(cs[k]), p, a, b) && params_shape(cs, l, rp, p)
            && body_shape(cs[body_pos(cs, rp + 1)], a, b)
}

/// The comments between the keyword at `k` and `(` at `l`.
pub open spec fn head_comments(cs: Seq<SyntaxElement>, k: int, l: int) -> Seq<Seq<char>> {
    let s = crate::formatter::engine::sig_seq(cs, k + 1, l, false);
    comments_at(cs, s, 0, s.len() as int)
}

/// `n` is `function() x` (or its lambda form), without comments, with a name, number
/// or string `x` as its body: its keyword and its body.
pub open spec fn simple_function(n: SyntaxNode) -> Option<(int, crate::syntax::SyntaxToken)> {
    atom_function(n, false)
}

/// `n` is `function(p) x` (or its lambda form), without comments, with a
/// name, number or string `x` as its body and no parameters, or, with
/// `names_ok`, parameters that are names separated by commas: its keyword
/// and its body.
pub open spec fn atom_function(n: SyntaxNode, names_ok: bool) -> Option<(int, crate::syntax::SyntaxToken)> {
    let cs = n.children@;
    match fn_keyword(cs) {
        Some(k) => match first_token_from(cs, k + 1, SyntaxKind::LPAREN) {
            Some(l) => match crate::ast::closing_paren_from(cs, l, 0) {
                Some(rp) => match first_code_from(cs, rp + 1) {
                    Some(b) => if crate::formatter::engine::sig_seq(cs, k + 1, l, false).len() == 0
                        && (crate::formatter::engine::sig_seq(cs, l + 1, rp, false).len() == 0 || (names_ok
                        && name_params(cs, crate::formatter::engine::sig_seq(cs, l + 1, rp, false))))
                        && (forall|j: int| rp < j < b ==> #[trigger] cs[j] is Token && trivia_kind(cs[j]->Token_0.kind))
                        && cs[b] is Token && crate::formatter::engine::atom_kind(cs[b]->Token_0.kind) {
                        Some((k, cs[b]->Token_0))
                    } else {
                        None
                    },
                    None => None,
                },
                None => None,
            },
            None => None,
        },
        None => None,
    }
}

/// `function(params) body` or `\(params) body`. Comments before `(` move
/// above the definition; a comment among the parameters keeps them broken,
/// one per line; comments between `)` and the body move into the body. A
/// block body with one statement and no comments is written bare when the
/// whole definition fits on the line; otherwise the body is braced and the
/// parameters hug its opening brace.
pub(crate) fn ir_function_expr(n: &SyntaxNode) -> (r: Result<Ir, FormatError>)
    ensures
        crate::formatter::engine::not_parse_error(r),
        (crate::ast::first_token_from(n.children@, 0, SyntaxKind::FUNCTION_KW) is None
            && crate::ast::first_token_from(n.children@, 0, SyntaxKind::LAMBDA_FN) is None) ==> (
        r matches Err(FormatError::AmbiguousConstruct { context, snippet }) && context@
            == "missing 'function' keyword"@ && snippet@ == crate::syntax::node_text(*n)),
        fn_keyword(n.children@) matches Some(k) ==> (first_token_from(n.children@, k + 1, SyntaxKind::LPAREN)
            is None ==> (r matches Err(FormatError::AmbiguousConstruct { context, snippet }) && context@
            == "missing '(' in function expression"@ && snippet@ == crate::syntax::node_text(*n))),
        r matches Ok(ir) ==> (fn_keyword(n.children@) matches Some(k) && first_token_from(
            n.children@,
            k + 1,
            SyntaxKind::LPAREN,
        ) matches Some(l) && exists|lead: Seq<String>, core: Doc|
            lead.map_values(|x: String| x@) == head_comments(n.children@, k, l) && ir@
                == #[trigger] prepend_doc(lead, core) && function_core(
                core,
                crate::syntax::element_text(n.children@[k]),
            )),
        r matches Ok(ir) ==> (fn_keyword(n.children@) matches Some(k) && first_token_from(
            n.children@,
            k + 1,
            SyntaxKind::LPAREN,
        ) matches Some(l) && crate::ast::closing_paren_from(n.children@, l, 0) matches Some(rp)
            && body_pos(n.children@, rp + 1) < n.children@.len() && function_layout(
            ir@,
            n.children@,
            k,
            l,
            rp,
        )),
        simple_function(*n) matches Some((k, t)) ==> (r matches Ok(ir) && ir@ == choice_doc(
            Doc::Text(crate::syntax::element_text(n.children@[k])),
            Doc::Text("()"@),
            Doc::Text(t.text@),
            brace_wrapped(Doc::Text(t.text@)),
        )),
        atom_function(*n, true) is Some ==> r is Ok,
    decreases crate::syntax::node_text(*n).len(), n, 8int,
{
    let ghost simple = atom_function(*n, true);
    let ghost simple0 = simple_function(*n);
    let elements = n.children.as_slice();
    let len = elements.len();
    let kw = match find_token_from(elements, 0, SyntaxKind::FUNCTION_KW) {
        Some(k) => Some(k),
        None => find_token_from(elements, 0, SyntaxKind::LAMBDA_FN),
    };
    let kw_idx = match kw {
        Some(k) => k,
        None => {
            return Err(
                FormatError::AmbiguousConstruct {
                    context: "missing 'function' keyword",
                    snippet: n.text(),
                },
            );
        },
    };
    proof {
        crate::ast::lemma_first_token_from(elements@, 0, SyntaxKind::FUNCTION_KW);
        crate::ast::lemma_first_token_from(elements@, 0, SyntaxKind::LAMBDA_FN);
    }
    let lparen = match find_token_from(elements, kw_idx + 1, SyntaxKind::LPAREN) {
        Some(l) => l,
        None => {
            return Err(
                FormatError::AmbiguousConstruct {
                    context: "missing '(' in function expression",
                    snippet: n.text(),
                },
            );
        },
    };
    proof {
        crate::ast::lemma_first_token_from(elements@, kw_idx + 1, SyntaxKind::LPAREN);
    }
    let rparen = match matching_rparen(elements, lparen) {
        Some(r) => r,
        None => {
            return Err(
                FormatError::AmbiguousConstruct {
                    context: "missing ')' in function expression",
                    snippet: n.text(),
                },
            );
        },
    };
    proof {
        crate::ast::lemma_closing_after(elements@, lparen as int, 0);
    }
    let head = crate::syntax::element_string(&n.children[kw_idx]);
    let before_params = if kw_idx + 1 < lparen {
        significant_indices(n, kw_idx + 1, lparen, false)
    } else {
        Vec::new()
    };
    let leading = comment_texts(n, &before_params);
    proof {
        assert(before_params@ == crate::formatter::engine::sig_seq(
            n.children@,
            kw_idx + 1,
            lparen as int,
            false,
        ));
        assert(leading@.map_values(|x: String| x@).len() == leading@.len());
        assert(leading@.map_values(|x: String| x@) == head_comments(n.children@, kw_idx as int, lparen as int));
    }
    let param_sig = significant_indices(n, lparen + 1, rparen, false);
    let mut param_has_comment = false;
    let mut j: usize = 0;
    while j < param_sig.len()
        invariant
            j <= param_sig@.len(),
            forall|t: int| 0 <= t < param_sig@.len() ==> #[trigger] param_sig@[t] < n.children@.len(),
            param_sig@.len() == 0 ==> !param_has_comment,
            param_has_comment == exists|q: int|
                0 <= q < j && #[trigger] crate::ast::is_token_of(n.children@[param_sig@[q] as int], SyntaxKind::COMMENT),
        decreases param_sig@.len() - j,
    {
        if is_token_kind(&n.children[param_sig[j]], SyntaxKind::COMMENT) {
            param_has_comment = true;
        }
        j += 1;
    }
    let params = if param_has_comment {
        ir_function_params_with_comments(n, lparen, rparen)
    } else {
        ir_function_params(n, lparen, rparen)?
    };
    proof {
        let s = crate::formatter::engine::sig_seq(n.children@, lparen + 1, rparen as int, false);
        assert(param_sig@ == s);
        if sig_comment(n.children@, s) {
            let q = choose|q: int|
                0 <= q < s.len() && #[trigger] crate::ast::is_token_of(n.children@[s[q] as int], SyntaxKind::COMMENT);
            assert(crate::ast::is_token_of(n.children@[param_sig@[q] as int], SyntaxKind::COMMENT));
        }
        assert(params_shape(n.children@, lparen as int, rparen as int, params@));
    }
    let mut body_comments: Vec<String> = Vec::new();
    let mut body_idx: Option<usize> = None;
    let mut k = rparen + 1;
    proof {
        crate::ast::accessors::lemma_first_code_at_least(n.children@, rparen + 1);
        if simple is Some {
            assert(kw_idx as int == fn_keyword(n.children@)->Some_0);
            assert(leading@.len() == 0);
        }
    }
    let ghost b0: int = match first_code_from(n.children@, rparen + 1) {
        Some(x) => x,
        None => 0,
    };
    while k < len
        invariant
            rparen < k <= len,
            len == n.children@.len(),
            body_idx matches Some(b) ==> b < len,
            simple == atom_function(*n, true),
            simple0 == simple_function(*n),
            simple0 is Some ==> simple is Some,
            simple is Some ==> Some(b0) == first_code_from(n.children@, rparen + 1) && rparen < b0 < len,
            simple is Some ==> (forall|j: int| rparen < j < b0 ==> #[trigger] n.children@[j] is Token
                && trivia_kind(n.children@[j]->Token_0.kind)),
            simple is Some ==> n.children@[b0] is Token && crate::formatter::engine::atom_kind(
                n.children@[b0]->Token_0.kind,
            ),
            simple is Some ==> body_comments@.len() == 0,
            simple is Some ==> (body_idx is None ==> k <= b0),
            simple is Some ==> (body_idx is Some ==> body_idx == Some(b0 as usize)),
            body_idx is None ==> body_pos(n.children@, rparen + 1) == body_pos(n.children@, k as int),
            body_idx matches Some(b) ==> b == body_pos(n.children@, rparen + 1),
        decreases len - k,
    {
        if body_idx.is_none() {
            let e = &n.children[k];
            if let SyntaxElement::Token(tok) = e {
                if tok.kind == SyntaxKind::COMMENT {
                    body_comments.push(tok.text.clone());
                } else if !is_trivia(tok.kind) {
                    body_idx = Some(k);
                }
            } else {
                body_idx = Some(k);
            }
        }
        k += 1;
    }
    let b = match body_idx {
        Some(b) => b,
        None => {
            return Err(
                FormatError::AmbiguousConstruct {
                    context: "missing function body expression",
                    snippet: n.text(),
                },
            );
        },
    };
    let ghost hs = head@;
    let head_ir = Ir::text_string(head);
    let no_comments = !param_has_comment && body_comments.len() == 0;
    proof {
        crate::syntax::lemma_child_text_len(n.children@, b as int);
    }
    assert(decreases_to!(n => n.children@[b as int]));
    let ghost gp = params@;
    let ghost mut wa = Doc::Nil;
    let ghost mut wb = Doc::Nil;
    let core = match &n.children[b] {
        SyntaxElement::Node(block) if block.kind == SyntaxKind::BLOCK_EXPR => {
            let block_ir = ir_block_expr(block, &body_comments)?;
            let flat = if no_comments {
                try_flatten_function_block(block)?
            } else {
                None
            };
            let ghost gk = block_ir@;
            match flat {
                Some(stmt) => {
                    let ghost gs = stmt@;
                    let c = function_body_choice(head_ir, params, stmt, block_ir);
                    assert(core_shape(c@, hs, gp, gs, gk));
                    proof {
                        wa = gs;
                        wb = gk;
                    }
                    c
                },
                None => {
                    let c = function_braced_hug(head_ir, params, block_ir);
                    assert(core_shape(c@, hs, gp, gk, gk));
                    proof {
                        wa = gk;
                        wb = gk;
                    }
                    c
                },
            }
        },
        _ => {
            let body_ir = ir_element(&n.children[b])?;
            let ghost ga = body_ir@;
            if body_ir.contains_forced_break() && body_comments.len() == 0 {
                let mut items: Vec<Ir> = Vec::new();
                items.push(head_ir);
                items.push(Ir::group(params));
                items.push(Ir::text(" "));
                items.push(body_ir);
                proof {
                    lemma_irs_view_eq(
                        items@,
                        seq![
                            Doc::Text(hs),
                            Doc::Group { inner: Box::new(gp), expand: false, hug: false },
                            Doc::Text(" "@),
                            ga,
                        ],
                    );
                }
                let c = Ir::concat(items);
                assert(core_shape(c@, hs, gp, ga, brace_with(Seq::<String>::empty(), ga)));
                proof {
                    wa = ga;
                    wb = brace_with(Seq::<String>::empty(), ga);
                }
                c
            } else if no_comments {
                let braced = brace_wrap_body_with_comments(body_ir.duplicate(), &body_comments);
                let ghost gb = braced@;
                let c = function_body_choice(head_ir, params, body_ir, braced);
                assert(core_shape(c@, hs, gp, ga, gb));
                proof {
                    wa = ga;
                    wb = gb;
                    assert(gb == brace_with(body_comments@, ga));
                }
                c
            } else {
                let braced = brace_wrap_body_with_comments(body_ir, &body_comments);
                let ghost gb = braced@;
                let c = function_braced_hug(head_ir, params, braced);
                assert(core_shape(c@, hs, gp, ga, gb));
                proof {
                    wa = ga;
                    wb = gb;
                    assert(gb == brace_with(body_comments@, ga));
                }
                c
            }
        },
    };
    let ghost gc = core@;
    proof {
        if simple is Some {
            assert(b as int == b0);
            assert(leading@.len() == 0);
            assert(hs == crate::syntax::element_text(n.children@[fn_keyword(n.children@)->Some_0]));
        }
    }
    let res = prepend_comment_lines(&leading, core);
    assert(res@ == prepend_doc(leading@, gc));
    proof {
        assert(core_shape(gc, hs, gp, wa, wb));
        assert(body_shape(n.children@[b as int], wa, wb));
        assert(function_layout(res@, n.children@, kw_idx as int, lparen as int, rparen as int));
    }
    Ok(res)
}

} // verus!
