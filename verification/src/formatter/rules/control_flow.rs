//! Layout of control flow: `if`, `for`, `while` and `repeat`.

use vstd::prelude::*;

use crate::ast::{
    clause_of, elem_kind, find_token_from, first_token_from, is_token_kind, is_token_of,
    matching_rparen,
};
use crate::formatter::engine::{
    FormatError, ir_block_expr, ir_element, ir_expr_segment, range_text, significant_indices,
};
use crate::ast::accessors::{comment_tokens, comments_before_code, first_code_from};
use crate::formatter::ir::{Doc, Ir, concat_doc, irs_view, lemma_irs_view_eq, lemma_irs_view_push};
use crate::syntax::SyntaxToken;
use crate::formatter::trivia::{is_comment_only_line, is_trivia, lines_within, trivia_kind};
use crate::formatter::engine::braced_body;
use crate::syntax::{SyntaxElement, SyntaxKind, SyntaxNode};

verus! {

/// `kind` is a loop.
pub open spec fn loop_kind(k: SyntaxKind) -> bool {
    k == SyntaxKind::FOR_EXPR || k == SyntaxKind::WHILE_EXPR || k == SyntaxKind::REPEAT_EXPR
}

/// The line (indices into `parent`'s children) is a loop, optionally
/// followed by a comment.
pub open spec fn starts_with_loop(parent: SyntaxNode, line: Seq<usize>) -> bool {
    &&& 1 <= line.len() <= 2
    &&& forall|j: int| 0 <= j < line.len() ==> #[trigger] line[j] < parent.children@.len()
    &&& parent.children@[line[0] as int] matches SyntaxElement::Node(node) && loop_kind(node.kind)
    &&& line.len() == 2 ==> is_token_of(parent.children@[line[1] as int], SyntaxKind::COMMENT)
}

/// Whether `line` is a loop, optionally followed by a comment.
pub(crate) fn line_starts_with_loop(parent: &SyntaxNode, line: &Vec<usize>) -> (b: bool)
    ensures
        b == starts_with_loop(*parent, line@),
{
    if line.len() == 0 || line.len() > 2 || line[0] >= parent.children.len() {
        return false;
    }
    if line.len() == 2 && line[1] >= parent.children.len() {
        return false;
    }
    let first_is_loop = match &parent.children[line[0]] {
        SyntaxElement::Node(node) => node.kind == SyntaxKind::FOR_EXPR || node.kind
            == SyntaxKind::WHILE_EXPR || node.kind == SyntaxKind::REPEAT_EXPR,
        SyntaxElement::Token(_) => false,
    };
    if !first_is_loop {
        return false;
    }
    line.len() == 1 || is_token_kind(&parent.children[line[1]], SyntaxKind::COMMENT)
}

/// The texts of the tokens `ts`.
pub open spec fn token_texts(ts: Seq<SyntaxToken>) -> Seq<Seq<char>> {
    ts.map_values(|t: SyntaxToken| t.text@)
}

/// The texts of the comment tokens among children `lo..hi` of `n`.
fn comments_between(n: &SyntaxNode, lo: usize, hi: usize) -> (r: Vec<String>)
    requires
        lo <= hi <= n.children@.len(),
    ensures
        r@.map_values(|s: String| s@) == token_texts(
            comment_tokens(n.children@.subrange(lo as int, hi as int)),
        ),
{
    let mut out: Vec<String> = Vec::new();
    let mut k = lo;
    while k < hi
        invariant
            lo <= k <= hi <= n.children@.len(),
            out@.map_values(|s: String| s@) == token_texts(
                comment_tokens(n.children@.subrange(lo as int, k as int)),
            ),
        decreases hi - k,
    {
        proof {
            assert(n.children@.subrange(lo as int, k + 1).drop_last() =~= n.children@.subrange(
                lo as int,
                k as int,
            ));
            assert(n.children@.subrange(lo as int, k + 1).last() == n.children@[k as int]);
        }
        let ghost prev = out@;
        let ghost ct = comment_tokens(n.children@.subrange(lo as int, k as int));
        if let SyntaxElement::Token(tok) = &n.children[k] {
            if tok.kind == SyntaxKind::COMMENT {
                let t = tok.text.clone();
                out.push(t);
                proof {
                    assert(comment_tokens(n.children@.subrange(lo as int, k + 1)) == ct.push(*tok));
                    assert(token_texts(ct.push(*tok)) =~= token_texts(ct).push(tok.text@));
                    assert(out@.map_values(|s: String| s@) =~= prev.map_values(|s: String| s@).push(
                        tok.text@,
                    ));
                }
            }
        }
        k += 1;
    }
    out
}

/// After child `from` of `n`: the comments that come before the body, and
/// the index of the body (the first child that is neither trivia nor a
/// comment).
fn comments_then_body(n: &SyntaxNode, from: usize) -> (r: (Vec<String>, Option<usize>))
    requires
        from <= n.children@.len(),
    ensures
        r.1 matches Some(b) ==> from <= b < n.children@.len(),
        crate::ast::opt_index(r.1) == first_code_from(n.children@, from as int),
        r.0@.map_values(|s: String| s@) == token_texts(comments_before_code(n.children@, from as int)),
{
    let mut comments: Vec<String> = Vec::new();
    let mut k = from;
    while k < n.children.len()
        invariant
            from <= k <= n.children@.len(),
            first_code_from(n.children@, from as int) == first_code_from(n.children@, k as int),
            comments@.map_values(|s: String| s@) == token_texts(
                comment_tokens(n.children@.subrange(from as int, k as int)),
            ),
        decreases n.children@.len() - k,
    {
        let e = &n.children[k];
        proof {
            assert(n.children@.subrange(from as int, k + 1).drop_last() =~= n.children@.subrange(
                from as int,
                k as int,
            ));
            assert(n.children@.subrange(from as int, k + 1).last() == n.children@[k as int]);
        }
        if is_trivia(crate::ast::element_kind(e)) {
            proof {
                assert(comments@.map_values(|s: String| s@) =~= token_texts(
                    comment_tokens(n.children@.subrange(from as int, k + 1)),
                ));
            }
            k += 1;
            continue ;
        }
        if let SyntaxElement::Token(tok) = e {
            if tok.kind == SyntaxKind::COMMENT {
                let ghost prev = comments@;
                let ghost ct = comment_tokens(n.children@.subrange(from as int, k as int));
                let t = tok.text.clone();
                comments.push(t);
                proof {
                    assert(comment_tokens(n.children@.subrange(from as int, k + 1)) == ct.push(*tok));
                    assert(token_texts(ct.push(*tok)) =~= token_texts(ct).push(tok.text@));
                    assert(comments@.map_values(|s: String| s@) =~= prev.map_values(|s: String| s@).push(
                        tok.text@,
                    ));
                }
                k += 1;
                continue ;
            }
        }
        return (comments, Some(k));
    }
    (comments, None)
}

/// `ir` is the layout of a loop body `body` (if any) with the comments
/// `comments` that preceded it: `{}` or braces around the comments when
/// there is no body; a block's own braced layout; braces around the
/// comments and any other body.
pub open spec fn loop_body_doc(ir: Doc, comments: Seq<String>, body: Option<SyntaxElement>) -> bool {
    match body {
        None => ir == if comments.len() == 0 {
            Doc::Text("{}"@)
        } else {
            braces_doc(broken_comment_docs(comments))
        },
        Some(e) => if e matches SyntaxElement::Node(m) && m.kind == SyntaxKind::BLOCK_EXPR {
            exists|lines: int| lines >= 0 && crate::formatter::engine::braced_body(ir, comments, lines)
        } else {
            exists|d: Doc| ir == braces_doc(broken_comment_docs(comments) + seq![Doc::HardLine, d])
        },
    }
}

/// The element at `o`, if any.
pub open spec fn opt_elem(cs: Seq<SyntaxElement>, o: Option<int>) -> Option<SyntaxElement> {
    match o {
        Some(b) => Some(cs[b]),
        None => None,
    }
}

/// `d` lays out the body found from child `from` of `cs` on: the comments
/// `cm` that come first, then the first element that is neither trivia nor
/// a comment, if any.
pub open spec fn loop_body_part(d: Doc, cs: Seq<SyntaxElement>, cm: Seq<String>, from: int) -> bool {
    &&& cm.map_values(|s: String| s@) == token_texts(comments_before_code(cs, from))
    &&& loop_body_doc(d, cm, opt_elem(cs, first_code_from(cs, from)))
}

/// A loop laid out as the comment lines `lead`, then its header `h`, a
/// space and the body `d` found after child `c` (the end of its clause).
pub open spec fn loop_layout(
    ir: Doc,
    cs: Seq<SyntaxElement>,
    lead: Seq<String>,
    h: Doc,
    d: Doc,
    cm: Seq<String>,
    c: int,
) -> bool {
    &&& ir == concat_doc(leading_comment_docs(lead).push(concat_doc(seq![h, Doc::Text(" "@), d])))
    &&& loop_body_part(d, cs, cm, c + 1)
}

/// The body of a loop: a block keeps its shape, with the comments that
/// preceded it moved inside; any other body is wrapped in braces, after
/// those comments.
fn ir_loop_body(body: &SyntaxElement, comments: &Vec<String>) -> (r: Result<Ir, FormatError>)
    ensures
        crate::formatter::engine::not_parse_error(r),
        r matches Ok(ir) ==> loop_body_doc(ir@, comments@, Some(*body)),
        *body matches SyntaxElement::Token(t) ==> (r is Ok <==> crate::formatter::engine::atom_kind(
            t.kind,
        )),
    decreases crate::syntax::element_text(*body).len(), body, 1int,
{
    if let SyntaxElement::Node(node) = body {
        if node.kind == SyntaxKind::BLOCK_EXPR {
            return ir_block_expr(node, comments);
        }
    }
    let expr = ir_element(body)?;
    let ghost ge = expr;
    let mut inner = comment_lines(comments);
    let ghost i0 = inner@;
    inner.push(Ir::hard_line());
    inner.push(expr);
    proof {
        lemma_irs_view_push(i0, inner@[i0.len() as int]);
        lemma_irs_view_push(i0.push(inner@[i0.len() as int]), ge);
        assert(inner@ =~= i0.push(inner@[i0.len() as int]).push(ge));
        assert(irs_view(inner@) =~= broken_comment_docs(comments@) + seq![Doc::HardLine, ge@]);
    }
    Ok(braces(inner))
}

/// Each comment of `cs` after a line break.
pub open spec fn broken_comment_docs(cs: Seq<String>) -> Seq<Doc>
    decreases cs.len(),
{
    if cs.len() == 0 {
        seq![]
    } else {
        broken_comment_docs(cs.drop_last()) + seq![Doc::HardLine, Doc::Text(cs.last()@)]
    }
}

/// Each comment of `cs` followed by a line break.
pub open spec fn leading_comment_docs(cs: Seq<String>) -> Seq<Doc>
    decreases cs.len(),
{
    if cs.len() == 0 {
        seq![]
    } else {
        leading_comment_docs(cs.drop_last()) + seq![Doc::Text(cs.last()@), Doc::HardLine]
    }
}

/// `{`, the documents `inner` one level in, a line break and `}`.
pub open spec fn braces_doc(inner: Seq<Doc>) -> Doc {
    concat_doc(
        seq![
            Doc::Text("{"@),
            Doc::Indent(Box::new(concat_doc(inner))),
            Doc::HardLine,
            Doc::Text("}"@),
        ],
    )
}

/// Each comment on a line of its own.
fn comment_lines(comments: &Vec<String>) -> (r: Vec<Ir>)
    ensures
        irs_view(r@) == broken_comment_docs(comments@),
{
    let mut inner: Vec<Ir> = Vec::new();
    let mut c: usize = 0;
    while c < comments.len()
        invariant
            c <= comments@.len(),
            irs_view(inner@) == broken_comment_docs(comments@.subrange(0, c as int)),
        decreases comments@.len() - c,
    {
        let ghost before = inner@;
        inner.push(Ir::hard_line());
        inner.push(Ir::text_string(comments[c].clone()));
        proof {
            lemma_irs_view_push(before, inner@[before.len() as int]);
            lemma_irs_view_push(before.push(inner@[before.len() as int]), inner@[before.len() as int + 1]);
            assert(inner@ =~= before.push(inner@[before.len() as int]).push(inner@[before.len() as int + 1]));
            assert(comments@.subrange(0, c + 1).drop_last() =~= comments@.subrange(0, c as int));
            assert(broken_comment_docs(comments@.subrange(0, c + 1)) =~= broken_comment_docs(
                comments@.subrange(0, c as int),
            ) + seq![Doc::HardLine, Doc::Text(comments@[c as int]@)]);
        }
        c += 1;
    }
    proof {
        assert(comments@.subrange(0, comments@.len() as int) =~= comments@);
    }
    inner
}

/// The body of a loop that has none: `{}`, or braces around the comments
/// that followed its header.
fn ir_empty_loop_body(comments: &Vec<String>) -> (r: Ir)
    ensures
        r@ == if comments@.len() == 0 {
            Doc::Text("{}"@)
        } else {
            braces_doc(broken_comment_docs(comments@))
        },
{
    if comments.len() == 0 {
        return Ir::text("{}");
    }
    braces(comment_lines(comments))
}

/// The body of a loop `n` at child `body`, if it has one.
fn loop_body_ir(n: &SyntaxNode, body: Option<usize>, comments: &Vec<String>) -> (r: Result<
    Ir,
    FormatError,
>)
    requires
        body matches Some(b) ==> b < n.children@.len(),
    ensures
        crate::formatter::engine::not_parse_error(r),
        body is None ==> r is Ok,
        r matches Ok(ir) ==> loop_body_doc(
            ir@,
            comments@,
            match body {
                Some(b) => Some(n.children@[b as int]),
                None => None,
            },
        ),
    decreases crate::syntax::node_text(*n).len(), n, 7int,
{
    match body {
        Some(b) => {
            proof {
                crate::syntax::lemma_child_text_len(n.children@, b as int);
            }
            assert(decreases_to!(n => n.children@[b as int]));
            ir_loop_body(&n.children[b], comments)
        },
        None => Ok(ir_empty_loop_body(comments)),
    }
}

/// `{`, the lines one level in, then `}` on its own line.
fn braces(inner: Vec<Ir>) -> (r: Ir)
    ensures
        r@ == braces_doc(irs_view(inner@)),
{
    let ghost gi = inner@;
    let mut items: Vec<Ir> = Vec::new();
    items.push(Ir::text("{"));
    items.push(Ir::indent(Ir::concat(inner)));
    items.push(Ir::hard_line());
    items.push(Ir::text("}"));
    proof {
        lemma_irs_view_eq(
            items@,
            seq![
                Doc::Text("{"@),
                Doc::Indent(Box::new(concat_doc(irs_view(gi)))),
                Doc::HardLine,
                Doc::Text("}"@),
            ],
        );
    }
    Ir::concat(items)
}

/// `if (cond) then`, with ` else other` when there is an `else`.
pub(crate) fn ir_if_expr(n: &SyntaxNode) -> (r: Result<Ir, FormatError>)
    ensures
        crate::formatter::engine::not_parse_error(r),
        first_token_from(n.children@, 0, SyntaxKind::IF_KW) is None ==> (r matches Err(
            FormatError::AmbiguousConstruct { context, snippet },
        ) && context@ == "missing 'if' keyword"@ && snippet@ == crate::syntax::node_text(*n)),
        r matches Ok(ir) ==> exists|c: Doc, t: Doc, e: Doc|
            ir@ == concat_doc(
                if first_token_from(n.children@, 0, SyntaxKind::ELSE_KW) is Some {
                    seq![Doc::Text("if ("@), c, Doc::Text(") "@), t, Doc::Text(" else "@), e]
                } else {
                    seq![Doc::Text("if ("@), c, Doc::Text(") "@), t]
                },
            ),
        r matches Ok(ir) ==> if_layout(n.children@, ir@),
    decreases crate::syntax::node_text(*n).len(), n, 8int,
{
    let elements = n.children.as_slice();
    let len = elements.len();
    if find_token_from(elements, 0, SyntaxKind::IF_KW).is_none() {
        return Err(
            FormatError::AmbiguousConstruct { context: "missing 'if' keyword", snippet: n.text() },
        );
    }
    let lparen = match find_token_from(elements, 0, SyntaxKind::LPAREN) {
        Some(l) => l,
        None => {
            return Err(
                FormatError::AmbiguousConstruct {
                    context: "missing '(' after if",
                    snippet: n.text(),
                },
            );
        },
    };
    proof {
        crate::ast::lemma_first_token_from(elements@, 0, SyntaxKind::LPAREN);
    }
    let rparen = match find_token_from(elements, lparen + 1, SyntaxKind::RPAREN) {
        Some(r) => r,
        None => {
            return Err(
                FormatError::AmbiguousConstruct {
                    context: "missing ')' after if condition",
                    snippet: n.text(),
                },
            );
        },
    };
    proof {
        crate::ast::lemma_first_token_from(elements@, lparen + 1, SyntaxKind::RPAREN);
    }
    let then_end = match find_token_from(elements, rparen + 1, SyntaxKind::ELSE_KW) {
        Some(e) => e,
        None => len,
    };
    proof {
        crate::ast::lemma_first_token_from(elements@, rparen + 1, SyntaxKind::ELSE_KW);
    }
    let condition = ir_expr_segment(n, lparen + 1, rparen, "if condition")?;
    let then_expr = ir_expr_segment(n, rparen + 1, then_end, "if then branch")?;
    let ghost (gc, gt) = (condition, then_expr);
    assert(crate::formatter::rules::expressions::operand_doc(n.children@, lparen + 1, rparen as int, gc@));
    assert(crate::formatter::rules::expressions::operand_doc(n.children@, rparen + 1, then_end as int, gt@));
    let mut items: Vec<Ir> = Vec::new();
    items.push(Ir::text("if ("));
    items.push(condition);
    items.push(Ir::text(") "));
    items.push(then_expr);
    let else_idx = find_token_from(elements, 0, SyntaxKind::ELSE_KW);
    proof {
        crate::ast::lemma_first_token_from(elements@, 0, SyntaxKind::ELSE_KW);
    }
    if let Some(e) = else_idx {
        let else_expr = ir_expr_segment(n, e + 1, len, "if else branch")?;
        let ghost ge = else_expr;
        assert(crate::formatter::rules::expressions::operand_doc(n.children@, e + 1, len as int, ge@));
        items.push(Ir::text(" else "));
        items.push(else_expr);
        proof {
            lemma_irs_view_eq(
                items@,
                seq![Doc::Text("if ("@), gc@, Doc::Text(") "@), gt@, Doc::Text(" else "@), ge@],
            );
        }
        let res = Ir::concat(items);
        assert(res@ == concat_doc(
            seq![Doc::Text("if ("@), gc@, Doc::Text(") "@), gt@, Doc::Text(" else "@), ge@],
        ));
        assert(if_doc(gc@, gt@, Some(ge@)) == res@);
        return Ok(res);
    }
    proof {
        lemma_irs_view_eq(items@, seq![Doc::Text("if ("@), gc@, Doc::Text(") "@), gt@]);
    }
    let res = Ir::concat(items);
    assert(res@ == concat_doc(seq![Doc::Text("if ("@), gc@, Doc::Text(") "@), gt@]));
    assert(if_doc(gc@, gt@, None) == res@);
    Ok(res)
}

/// `if (c) t`, and ` else e` when there is an else branch.
pub open spec fn if_doc(c: Doc, t: Doc, e: Option<Doc>) -> Doc {
    match e {
        Some(x) => concat_doc(seq![Doc::Text("if ("@), c, Doc::Text(") "@), t, Doc::Text(" else "@), x]),
        None => concat_doc(seq![Doc::Text("if ("@), c, Doc::Text(") "@), t]),
    }
}

/// `d` lays out the `if` with children `cs`: the condition between its
/// first `(` and the `)` after it, the branch up to the first `else` after
/// that, and the branch after the first `else`.
pub open spec fn if_layout(cs: Seq<SyntaxElement>, d: Doc) -> bool {
    first_token_from(cs, 0, SyntaxKind::LPAREN) matches Some(l) && first_token_from(cs, l + 1, SyntaxKind::RPAREN)
        matches Some(rp) && ({
        let te = match first_token_from(cs, rp + 1, SyntaxKind::ELSE_KW) {
            Some(x) => x,
            None => cs.len() as int,
        };
        exists|c: Doc, t: Doc, e: Option<Doc>|
            #[trigger] if_doc(c, t, e) == d && crate::formatter::rules::expressions::operand_doc(cs, l + 1, rp, c)
                && crate::formatter::rules::expressions::operand_doc(cs, rp + 1, te, t) && match first_token_from(
                cs,
                0,
                SyntaxKind::ELSE_KW,
            ) {
                Some(x) => e matches Some(ed) && crate::formatter::rules::expressions::operand_doc(
                    cs,
                    x + 1,
                    cs.len() as int,
                    ed,
                ),
                None => e is None,
            }
    })
}

/// An `if` whose condition and branches are each one name, number, string
/// or `!` reads, laid out flat, as `if (`, the condition, `) `, the branch
/// taken, and ` else ` with the other branch when there is one: formatting
/// keeps the condition and the branches in their places.
pub proof fn law_if_parts_order(cs: Seq<SyntaxElement>, d: Doc)
    requires
        if_layout(cs, d),
        first_token_from(cs, 0, SyntaxKind::LPAREN) matches Some(l) && first_token_from(cs, l + 1, SyntaxKind::RPAREN)
            matches Some(rp) && crate::formatter::rules::expressions::atom_operand(cs, l + 1, rp) is Some
            && crate::formatter::rules::expressions::atom_operand(
            cs,
            rp + 1,
            match first_token_from(cs, rp + 1, SyntaxKind::ELSE_KW) {
                Some(x) => x,
                None => cs.len() as int,
            },
        ) is Some,
        first_token_from(cs, 0, SyntaxKind::ELSE_KW) matches Some(x)
            ==> crate::formatter::rules::expressions::atom_operand(cs, x + 1, cs.len() as int) is Some,
    ensures
        ({
            let l = first_token_from(cs, 0, SyntaxKind::LPAREN)->Some_0;
            let rp = first_token_from(cs, l + 1, SyntaxKind::RPAREN)->Some_0;
            let te = match first_token_from(cs, rp + 1, SyntaxKind::ELSE_KW) {
                Some(x) => x,
                None => cs.len() as int,
            };
            let head = "if ("@ + crate::formatter::rules::expressions::atom_operand(cs, l + 1, rp)->Some_0.text@
                + ") "@ + crate::formatter::rules::expressions::atom_operand(cs, rp + 1, te)->Some_0.text@;
            crate::formatter::printer::flat_text(d) == match first_token_from(cs, 0, SyntaxKind::ELSE_KW) {
                Some(x) => head + " else "@ + crate::formatter::rules::expressions::atom_operand(
                    cs,
                    x + 1,
                    cs.len() as int,
                )->Some_0.text@,
                None => head,
            }
        }),
{
    let l = first_token_from(cs, 0, SyntaxKind::LPAREN)->Some_0;
    let rp = first_token_from(cs, l + 1, SyntaxKind::RPAREN)->Some_0;
    let te = match first_token_from(cs, rp + 1, SyntaxKind::ELSE_KW) {
        Some(x) => x,
        None => cs.len() as int,
    };
    let (c, t, e) = choose|c: Doc, t: Doc, e: Option<Doc>|
        #[trigger] if_doc(c, t, e) == d && crate::formatter::rules::expressions::operand_doc(cs, l + 1, rp, c)
            && crate::formatter::rules::expressions::operand_doc(cs, rp + 1, te, t) && match first_token_from(
            cs,
            0,
            SyntaxKind::ELSE_KW,
        ) {
            Some(x) => e matches Some(ed) && crate::formatter::rules::expressions::operand_doc(
                cs,
                x + 1,
                cs.len() as int,
                ed,
            ),
            None => e is None,
        };
    let p0 = Seq::<Doc>::empty();
    let p1 = p0.push(Doc::Text("if ("@));
    let p2 = p1.push(c);
    let p3 = p2.push(Doc::Text(") "@));
    let p4 = p3.push(t);
    crate::formatter::rules::expressions::lemma_flat_texts_push(p0, Doc::Text("if ("@));
    crate::formatter::rules::expressions::lemma_flat_texts_push(p1, c);
    crate::formatter::rules::expressions::lemma_flat_texts_push(p2, Doc::Text(") "@));
    crate::formatter::rules::expressions::lemma_flat_texts_push(p3, t);
    assert(Seq::<char>::empty() + "if ("@ =~= "if ("@);
    match e {
        Some(x) => {
            let p5 = p4.push(Doc::Text(" else "@));
            let p6 = p5.push(x);
            crate::formatter::rules::expressions::lemma_flat_texts_push(p4, Doc::Text(" else "@));
            crate::formatter::rules::expressions::lemma_flat_texts_push(p5, x);
            assert(p6 =~= seq![Doc::Text("if ("@), c, Doc::Text(") "@), t, Doc::Text(" else "@), x]);
            crate::formatter::rules::expressions::lemma_flat_concat(p6);
        },
        None => {
            assert(p4 =~= seq![Doc::Text("if ("@), c, Doc::Text(") "@), t]);
            crate::formatter::rules::expressions::lemma_flat_concat(p4);
        },
    }
}

/// The `(` after `keyword` and the `)` that closes it.
fn clause_bounds(n: &SyntaxNode, keyword: SyntaxKind) -> (r: Option<(usize, usize)>)
    ensures
        r matches Some((l, c)) ==> l < c < n.children@.len() && c < usize::MAX,
        crate::ast::opt_pair(r) == crate::ast::clause_of(*n, keyword),
{
    let elements = n.children.as_slice();
    let kw = find_token_from(elements, 0, keyword)?;
    proof {
        crate::ast::lemma_first_token_from(elements@, 0, keyword);
    }
    let lparen = find_token_from(elements, kw + 1, SyntaxKind::LPAREN)?;
    proof {
        crate::ast::lemma_first_token_from(elements@, kw + 1, SyntaxKind::LPAREN);
    }
    let rparen = matching_rparen(elements, lparen)?;
    proof {
        crate::ast::lemma_closing_after(elements@, lparen as int, 0);
    }
    Some((lparen, rparen))
}

/// The single significant, non-comment element among `sig[from..to]`.
fn single_of(n: &SyntaxNode, sig: &Vec<usize>, from: usize, to: usize, context: &'static str) -> (r:
    Result<usize, FormatError>)
    requires
        from <= to <= sig@.len(),
        forall|j: int| 0 <= j < sig@.len() ==> #[trigger] sig@[j] < n.children@.len(),
    ensures
        crate::formatter::engine::not_parse_error(r),
        r matches Ok(k) ==> k < n.children@.len(),
{
    if to - from != 1 {
        let mut snippet = String::new();
        let mut j = from;
        while j < to
            invariant
                from <= j <= to <= sig@.len(),
                forall|t: int| 0 <= t < sig@.len() ==> #[trigger] sig@[t] < n.children@.len(),
            decreases to - j,
        {
            let t = crate::syntax::element_string(&n.children[sig[j]]);
            snippet.append(t.as_str());
            j += 1;
        }
        return Err(FormatError::AmbiguousConstruct { context, snippet });
    }
    Ok(sig[from])
}

/// Comment lines that came before the header, then `header body`.
fn ir_with_leading_comments(leading: &Vec<String>, rest: Vec<Ir>) -> (r: Ir)
    ensures
        r@ == concat_doc(leading_comment_docs(leading@).push(concat_doc(irs_view(rest@)))),
{
    let mut items: Vec<Ir> = Vec::new();
    let mut c: usize = 0;
    while c < leading.len()
        invariant
            c <= leading@.len(),
            irs_view(items@) == leading_comment_docs(leading@.subrange(0, c as int)),
        decreases leading@.len() - c,
    {
        let ghost before = items@;
        items.push(Ir::text_string(leading[c].clone()));
        items.push(Ir::hard_line());
        proof {
            lemma_irs_view_push(before, items@[before.len() as int]);
            lemma_irs_view_push(before.push(items@[before.len() as int]), items@[before.len() as int + 1]);
            assert(items@ =~= before.push(items@[before.len() as int]).push(items@[before.len() as int + 1]));
            assert(leading@.subrange(0, c + 1).drop_last() =~= leading@.subrange(0, c as int));
            assert(leading_comment_docs(leading@.subrange(0, c + 1)) =~= leading_comment_docs(
                leading@.subrange(0, c as int),
            ) + seq![Doc::Text(leading@[c as int]@), Doc::HardLine]);
        }
        c += 1;
    }
    let ghost before = items@;
    let tail = Ir::concat(rest);
    items.push(tail);
    proof {
        lemma_irs_view_push(before, tail);
        assert(leading@.subrange(0, leading@.len() as int) =~= leading@);
    }
    Ir::concat(items)
}

/// The header `for (var in seq)` of a loop, the comments inside its clause
/// (which go on lines of their own before the loop), and where its clause
/// closes.
fn for_header(n: &SyntaxNode) -> (r: Result<(Vec<String>, Ir, usize), FormatError>)
    ensures
        crate::formatter::engine::not_parse_error(r),
        first_token_from(n.children@, 0, SyntaxKind::FOR_KW) is None ==> (r matches Err(
            FormatError::AmbiguousConstruct { context, snippet },
        ) && context@ == "invalid for expression structure"@ && snippet@ == crate::syntax::node_text(*n)),
        r matches Ok((_, _, c)) ==> c < n.children@.len() && c < usize::MAX,
    decreases crate::syntax::node_text(*n).len(), n, 7int,
{
    let elements = n.children.as_slice();
    let for_idx = match find_token_from(elements, 0, SyntaxKind::FOR_KW) {
        Some(f) => f,
        None => {
            return Err(
                FormatError::AmbiguousConstruct {
                    context: "invalid for expression structure",
                    snippet: n.text(),
                },
            );
        },
    };
    proof {
        crate::ast::lemma_first_token_from(elements@, 0, SyntaxKind::FOR_KW);
    }
    let (lparen, rparen) = match clause_bounds(n, SyntaxKind::FOR_KW) {
        Some(b) => b,
        None => {
            return Err(
                FormatError::AmbiguousConstruct {
                    context: "invalid for expression structure",
                    snippet: n.text(),
                },
            );
        },
    };
    let sig = significant_indices(n, lparen + 1, rparen, true);
    let mut in_pos: Option<usize> = None;
    let mut j: usize = 0;
    while j < sig.len()
        invariant
            j <= sig@.len(),
            forall|t: int| 0 <= t < sig@.len() ==> #[trigger] sig@[t] < n.children@.len(),
            in_pos matches Some(p) ==> p < sig@.len(),
        decreases sig@.len() - j,
    {
        if in_pos.is_none() && is_token_kind(&n.children[sig[j]], SyntaxKind::IN_KW) {
            in_pos = Some(j);
        }
        j += 1;
    }
    let p = match in_pos {
        Some(p) => p,
        None => {
            return Err(
                FormatError::AmbiguousConstruct {
                    context: "invalid for expression structure",
                    snippet: n.text(),
                },
            );
        },
    };
    let leading = if for_idx < rparen {
        comments_between(n, for_idx + 1, rparen)
    } else {
        Vec::new()
    };
    let var_idx = single_of(n, &sig, 0, p, "for loop variable")?;
    let seq_idx = single_of(n, &sig, p + 1, sig.len(), "for loop sequence")?;
    proof {
        crate::syntax::lemma_child_text_len(n.children@, var_idx as int);
    }
    assert(decreases_to!(n => n.children@[var_idx as int]));
    let var = ir_element(&n.children[var_idx])?;
    proof {
        crate::syntax::lemma_child_text_len(n.children@, seq_idx as int);
    }
    assert(decreases_to!(n => n.children@[seq_idx as int]));
    let seq = ir_element(&n.children[seq_idx])?;
    let mut header: Vec<Ir> = Vec::new();
    header.push(Ir::text("for ("));
    header.push(var);
    header.push(Ir::text(" in "));
    header.push(seq);
    header.push(Ir::text(")"));
    Ok((leading, Ir::concat(header), rparen))
}

/// `for (var in seq) body`; comments inside the clause are moved to lines of
/// their own before the loop, comments between the clause and the body into
/// the body.
pub(crate) fn ir_for_expr(n: &SyntaxNode) -> (r: Result<Ir, FormatError>)
    ensures
        crate::formatter::engine::not_parse_error(r),
        first_token_from(n.children@, 0, SyntaxKind::FOR_KW) is None ==> (r matches Err(
            FormatError::AmbiguousConstruct { context, snippet },
        ) && context@ == "invalid for expression structure"@ && snippet@ == crate::syntax::node_text(*n)),
        r matches Ok(ir) ==> exists|lead: Seq<String>, h: Doc, d: Doc, cm: Seq<String>, c: int|
            loop_layout(ir@, n.children@, lead, h, d, cm, c),
    decreases crate::syntax::node_text(*n).len(), n, 8int,
{
    let (leading, header, rparen) = for_header(n)?;
    let (comments, body) = comments_then_body(n, rparen + 1);
    let body_ir = loop_body_ir(n, body, &comments)?;
    let ghost (gh, gd) = (header, body_ir);
    let mut rest: Vec<Ir> = Vec::new();
    rest.push(header);
    rest.push(Ir::text(" "));
    rest.push(body_ir);
    proof {
        lemma_irs_view_eq(rest@, seq![gh@, Doc::Text(" "@), gd@]);
    }
    let res = ir_with_leading_comments(&leading, rest);
    assert(loop_layout(res@, n.children@, leading@, gh@, gd@, comments@, rparen as int));
    Ok(res)
}


/// The header `while (cond)` of a loop, as a group that puts the condition
/// on a line of its own, one level in, when it does not fit; the comments
/// inside its clause; and where its clause closes.
fn while_header(n: &SyntaxNode) -> (r: Result<(Vec<String>, Ir, usize), FormatError>)
    ensures
        crate::formatter::engine::not_parse_error(r),
        first_token_from(n.children@, 0, SyntaxKind::WHILE_KW) is None ==> (r matches Err(
            FormatError::AmbiguousConstruct { context, snippet },
        ) && context@ == "invalid while expression structure"@ && snippet@ == crate::syntax::node_text(*n)),
        r matches Ok((_, _, c)) ==> c < n.children@.len() && c < usize::MAX,
    decreases crate::syntax::node_text(*n).len(), n, 7int,
{
    let elements = n.children.as_slice();
    let while_idx = match find_token_from(elements, 0, SyntaxKind::WHILE_KW) {
        Some(w) => w,
        None => {
            return Err(
                FormatError::AmbiguousConstruct {
                    context: "invalid while expression structure",
                    snippet: n.text(),
                },
            );
        },
    };
    proof {
        crate::ast::lemma_first_token_from(elements@, 0, SyntaxKind::WHILE_KW);
    }
    let (lparen, rparen) = match clause_bounds(n, SyntaxKind::WHILE_KW) {
        Some(b) => b,
        None => {
            return Err(
                FormatError::AmbiguousConstruct {
                    context: "invalid while expression structure",
                    snippet: n.text(),
                },
            );
        },
    };
    let sig = significant_indices(n, lparen + 1, rparen, true);
    let leading = if while_idx < rparen {
        comments_between(n, while_idx + 1, rparen)
    } else {
        Vec::new()
    };
    let cond_idx = single_of(n, &sig, 0, sig.len(), "while loop condition")?;
    proof {
        crate::syntax::lemma_child_text_len(n.children@, cond_idx as int);
    }
    assert(decreases_to!(n => n.children@[cond_idx as int]));
    let condition = ir_element(&n.children[cond_idx])?;
    let mut cond_items: Vec<Ir> = Vec::new();
    cond_items.push(Ir::soft_line());
    cond_items.push(condition);
    let mut header: Vec<Ir> = Vec::new();
    header.push(Ir::text("while ("));
    header.push(Ir::indent(Ir::concat(cond_items)));
    header.push(Ir::soft_line());
    header.push(Ir::text(")"));
    Ok((leading, Ir::group(Ir::concat(header)), rparen))
}

/// `while (cond) body`; when the header does not fit, the condition moves to
/// a line of its own, one level in.
pub(crate) fn ir_while_expr(n: &SyntaxNode) -> (r: Result<Ir, FormatError>)
    ensures
        crate::formatter::engine::not_parse_error(r),
        first_token_from(n.children@, 0, SyntaxKind::WHILE_KW) is None ==> (r matches Err(
            FormatError::AmbiguousConstruct { context, snippet },
        ) && context@ == "invalid while expression structure"@ && snippet@ == crate::syntax::node_text(*n)),
        r matches Ok(ir) ==> exists|lead: Seq<String>, h: Doc, d: Doc, cm: Seq<String>, c: int|
            loop_layout(ir@, n.children@, lead, h, d, cm, c),
    decreases crate::syntax::node_text(*n).len(), n, 8int,
{
    let (leading, header, rparen) = while_header(n)?;
    let (comments, body) = comments_then_body(n, rparen + 1);
    let body_ir = loop_body_ir(n, body, &comments)?;
    let ghost (gh, gd) = (header, body_ir);
    let mut rest: Vec<Ir> = Vec::new();
    rest.push(header);
    rest.push(Ir::text(" "));
    rest.push(body_ir);
    proof {
        lemma_irs_view_eq(rest@, seq![gh@, Doc::Text(" "@), gd@]);
    }
    let res = ir_with_leading_comments(&leading, rest);
    assert(loop_layout(res@, n.children@, leading@, gh@, gd@, comments@, rparen as int));
    Ok(res)
}


/// `repeat body`, with comments after the keyword moved into the body.
pub(crate) fn ir_repeat_expr(n: &SyntaxNode) -> (r: Result<Ir, FormatError>)
    ensures
        crate::formatter::engine::not_parse_error(r),
        first_token_from(n.children@, 0, SyntaxKind::REPEAT_KW) is None ==> (r matches Err(
            FormatError::AmbiguousConstruct { context, snippet },
        ) && context@ == "missing 'repeat' keyword"@ && snippet@ == crate::syntax::node_text(*n)),
        r matches Ok(ir) ==> (first_token_from(n.children@, 0, SyntaxKind::REPEAT_KW) matches Some(
            k,
        ) && exists|d: Doc, cm: Seq<String>|
            ir@ == concat_doc(seq![Doc::Text("repeat "@), d]) && #[trigger] loop_body_part(
                d,
                n.children@,
                cm,
                k + 1,
            )),
    decreases crate::syntax::node_text(*n).len(), n, 8int,
{
    let elements = n.children.as_slice();
    let repeat_idx = match find_token_from(elements, 0, SyntaxKind::REPEAT_KW) {
        Some(k) => k,
        None => {
            return Err(
                FormatError::AmbiguousConstruct {
                    context: "missing 'repeat' keyword",
                    snippet: n.text(),
                },
            );
        },
    };
    proof {
        crate::ast::lemma_first_token_from(elements@, 0, SyntaxKind::REPEAT_KW);
    }
    let (comments, body) = comments_then_body(n, repeat_idx + 1);
    let body_ir = loop_body_ir(n, body, &comments)?;
    let ghost gd = body_ir;
    let mut items: Vec<Ir> = Vec::new();
    items.push(Ir::text("repeat "));
    items.push(body_ir);
    proof {
        lemma_irs_view_eq(items@, seq![Doc::Text("repeat "@), gd@]);
    }
    let res = Ir::concat(items);
    assert(res@ == concat_doc(seq![Doc::Text("repeat "@), gd@]) && loop_body_part(
        gd@,
        n.children@,
        comments@,
        repeat_idx + 1,
    ));
    Ok(res)
}


/// The number of comments among `cs[lo..hi]`.
pub open spec fn comment_count(cs: Seq<SyntaxElement>, lo: int, hi: int) -> nat
    decreases hi - lo,
{
    if hi <= lo {
        0
    } else {
        comment_count(cs, lo, hi - 1) + if is_token_of(cs[hi - 1], SyntaxKind::COMMENT) {
            1nat
        } else {
            0nat
        }
    }
}

/// The comments from `from` on, up to the first element that is neither
/// trivia nor a comment.
pub open spec fn comment_run(cs: Seq<SyntaxElement>, from: int) -> nat
    decreases cs.len() - from,
{
    if from < 0 || from >= cs.len() {
        0
    } else if is_token_of(cs[from], SyntaxKind::COMMENT) {
        1 + comment_run(cs, from + 1)
    } else if trivia_kind(elem_kind(cs[from])) {
        comment_run(cs, from + 1)
    } else {
        0
    }
}

/// The comments at the head of a loop: for `for` and `while`, those from
/// the keyword to the `)` closing the clause; for `repeat`, those between
/// the keyword and the body.
pub open spec fn head_comments(node: SyntaxNode) -> nat {
    let cs = node.children@;
    if node.kind == SyntaxKind::REPEAT_EXPR {
        match first_token_from(cs, 0, SyntaxKind::REPEAT_KW) {
            Some(k) => comment_run(cs, k + 1),
            None => 0,
        }
    } else {
        let kw = if node.kind == SyntaxKind::FOR_EXPR {
            SyntaxKind::FOR_KW
        } else {
            SyntaxKind::WHILE_KW
        };
        match (first_token_from(cs, 0, kw), clause_of(node, kw)) {
            (Some(k), Some((_, c))) => comment_count(cs, k + 1, c),
            _ => 0,
        }
    }
}

/// The head comments of the loop that starts `line`, if it does.
pub open spec fn line_head_comments(parent: SyntaxNode, line: Seq<usize>) -> nat {
    if line.len() > 0 && line[0] < parent.children@.len() {
        match parent.children@[line[0] as int] {
            SyntaxElement::Node(node) => head_comments(node),
            SyntaxElement::Token(_) => 0,
        }
    } else {
        0
    }
}

fn count_comments(n: &SyntaxNode, lo: usize, hi: usize) -> (c: usize)
    requires
        lo <= hi <= n.children@.len(),
    ensures
        c == comment_count(n.children@, lo as int, hi as int),
{
    let mut c: usize = 0;
    let mut k = lo;
    while k < hi
        invariant
            lo <= k <= hi <= n.children@.len(),
            c == comment_count(n.children@, lo as int, k as int),
            c <= k - lo,
        decreases hi - k,
    {
        if is_token_kind(&n.children[k], SyntaxKind::COMMENT) {
            c += 1;
        }
        k += 1;
    }
    c
}

fn count_comment_run(n: &SyntaxNode, from: usize) -> (c: usize)
    requires
        from <= n.children@.len(),
    ensures
        c == comment_run(n.children@, from as int),
{
    let len = n.children.len();
    let mut c: usize = 0;
    let mut j = from;
    while j < len
        invariant
            from <= j <= len == n.children@.len(),
            comment_run(n.children@, from as int) == c + comment_run(n.children@, j as int),
            c <= j - from,
        decreases len - j,
    {
        let e = &n.children[j];
        if is_token_kind(e, SyntaxKind::COMMENT) {
            c += 1;
        } else if !is_trivia(crate::ast::element_kind(e)) {
            return c;
        }
        j += 1;
    }
    c
}

/// The number of comments at the head of `node`; see [`head_comments`].
fn head_comment_count(node: &SyntaxNode) -> (c: usize)
    ensures
        c == head_comments(*node),
{
    let elements = node.children.as_slice();
    if node.kind == SyntaxKind::REPEAT_EXPR {
        proof {
            crate::ast::lemma_first_token_from(elements@, 0, SyntaxKind::REPEAT_KW);
        }
        return match find_token_from(elements, 0, SyntaxKind::REPEAT_KW) {
            Some(k) => count_comment_run(node, k + 1),
            None => 0,
        };
    }
    let kw = if node.kind == SyntaxKind::FOR_EXPR {
        SyntaxKind::FOR_KW
    } else {
        SyntaxKind::WHILE_KW
    };
    proof {
        crate::ast::lemma_first_token_from(elements@, 0, kw);
    }
    match (find_token_from(elements, 0, kw), clause_bounds(node, kw)) {
        (Some(k), Some((_, c))) => {
            if k + 1 <= c {
                count_comments(node, k + 1, c)
            } else {
                0
            }
        },
        _ => 0,
    }
}

/// The number of head comments of the loop that starts `line`; see
/// [`line_head_comments`].
pub(crate) fn line_head_comment_count(parent: &SyntaxNode, line: &Vec<usize>) -> (c: usize)
    ensures
        c == line_head_comments(*parent, line@),
{
    if line.len() == 0 || line[0] >= parent.children.len() {
        return 0;
    }
    match &parent.children[line[0]] {
        SyntaxElement::Node(node) => head_comment_count(node),
        SyntaxElement::Token(_) => 0,
    }
}

/// The first of `lines` from `from` on that is not a lone comment, or the
/// end of `lines`.
pub open spec fn after_comment_lines(root: SyntaxNode, lines: Seq<Vec<usize>>, from: int) -> int
    decreases lines.len() - from,
{
    if from >= lines.len() {
        lines.len() as int
    } else if crate::formatter::trivia::comment_only(root, lines[from]@) {
        after_comment_lines(root, lines, from + 1)
    } else {
        from
    }
}

/// Line `idx` of `lines` is a `repeat` without a body, and the first line
/// after it that is not a lone comment is one name, number or string.
pub open spec fn bodiless_repeat_then_atom(root: SyntaxNode, lines: Seq<Vec<usize>>, idx: int) -> bool {
    let c = after_comment_lines(root, lines, idx + 1);
    &&& starts_with_loop(root, lines[idx]@)
    &&& root.children@[lines[idx]@[0] as int] matches SyntaxElement::Node(m)
    &&& m.kind == SyntaxKind::REPEAT_EXPR
    &&& first_token_from(m.children@, 0, SyntaxKind::REPEAT_KW) matches Some(k)
    &&& first_code_from(m.children@, k + 1) is None
    &&& c < lines.len()
    &&& lines[c]@.len() == 1
    &&& root.children@[lines[c]@[0] as int] matches SyntaxElement::Token(t)
    &&& crate::formatter::engine::atom_kind(t.kind)
}

/// A loop alone on line `idx` of `root` (perhaps followed by a comment)
/// whose header is followed by nothing but comments: the next line that is
/// not a comment, when it holds one expression, is its body, and the
/// comment lines in between move into the body. The loop's layout and the
/// number of lines after `idx` that it takes.
pub(crate) fn ir_loop_with_external_body(root: &SyntaxNode, lines: &Vec<Vec<usize>>, idx: usize) -> (r:
    Result<Option<(Ir, usize)>, FormatError>)
    requires
        idx < lines.len(),
        lines_within(lines@, 0, root.children@.len() as int),
    ensures
        crate::formatter::engine::not_parse_error(r),
        r matches Ok(Some((_, used))) ==> 1 <= used && idx + used < lines@.len(),
        !starts_with_loop(*root, lines@[idx as int]@) ==> r matches Ok(None),
        r matches Ok(Some((_, used))) ==> (forall|j: int|
            idx < j < idx + used ==> crate::formatter::trivia::comment_only(
                *root,
                #[trigger] lines@[j]@,
            )) && lines@[idx + used]@.len() == 1,
        r matches Ok(Some((_, used))) ==> idx + used == after_comment_lines(
            *root,
            lines@,
            idx + 1,
        ),
        bodiless_repeat_then_atom(*root, lines@, idx as int) ==> r matches Ok(Some(_)),
{
    let line = &lines[idx];
    if !line_starts_with_loop(root, line) {
        return Ok(None);
    }
    let node = match &root.children[line[0]] {
        SyntaxElement::Node(node) => node,
        SyntaxElement::Token(_) => {
            return Ok(None);
        },
    };
    let (leading, header, after) = if node.kind == SyntaxKind::REPEAT_EXPR {
        let elements = node.children.as_slice();
        proof {
            crate::ast::lemma_first_token_from(elements@, 0, SyntaxKind::REPEAT_KW);
        }
        match find_token_from(elements, 0, SyntaxKind::REPEAT_KW) {
            Some(k) => (Vec::new(), Ir::text("repeat"), k + 1),
            None => {
                return Err(
                    FormatError::AmbiguousConstruct {
                        context: "missing 'repeat' keyword",
                        snippet: node.text(),
                    },
                );
            },
        }
    } else if node.kind == SyntaxKind::FOR_EXPR {
        let (l, h, c) = for_header(node)?;
        (l, h, c + 1)
    } else {
        let (l, h, c) = while_header(node)?;
        (l, h, c + 1)
    };
    let (mut comments, body) = comments_then_body(node, after);
    if body.is_some() {
        return Ok(None);
    }
    let mut cursor = idx + 1;
    while cursor < lines.len() && is_comment_only_line(root, &lines[cursor])
        invariant
            idx < cursor <= lines@.len(),
            lines_within(lines@, 0, root.children@.len() as int),
            forall|j: int|
                idx < j < cursor ==> crate::formatter::trivia::comment_only(
                    *root,
                    #[trigger] lines@[j]@,
                ),
            after_comment_lines(*root, lines@, cursor as int) == after_comment_lines(
                *root,
                lines@,
                idx + 1,
            ),
        decreases lines@.len() - cursor,
    {
        if let SyntaxElement::Token(tok) = &root.children[lines[cursor][0]] {
            comments.push(tok.text.clone());
        }
        cursor += 1;
    }
    if cursor >= lines.len() || lines[cursor].len() != 1 {
        return Ok(None);
    }
    proof {
        assert(0 <= lines@[cursor as int]@[0] < root.children@.len());
    }
    let body_ir = ir_loop_body(&root.children[lines[cursor][0]], &comments)?;
    let mut rest: Vec<Ir> = Vec::new();
    rest.push(header);
    rest.push(Ir::text(" "));
    rest.push(body_ir);
    if line.len() == 2 {
        if let SyntaxElement::Token(tok) = &root.children[line[1]] {
            rest.push(Ir::text(" "));
            rest.push(Ir::text_string(tok.text.clone()));
        }
    }
    Ok(Some((ir_with_leading_comments(&leading, rest), cursor - idx)))
}

} // verus!
