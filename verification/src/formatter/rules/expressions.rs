//! Layout of operator expressions: assignment, unary and binary operators,
//! and parentheses.

use vstd::prelude::*;

use crate::ast::is_token_kind;
use crate::formatter::engine::{
    FormatError, ir_element, ir_expr_segment, ir_expr_with_optional_comment, range_text,
    significant_indices,
};
use crate::formatter::ir::{Doc, Ir, concat_doc, lemma_irs_view_eq};
use crate::syntax::{SyntaxElement, SyntaxKind, SyntaxNode};

verus! {

/// The operators an expression node is split at.
#[derive(Clone, Copy, PartialEq, Eq, Structural)]
pub enum OpClass {
    Assignment,
    Unary,
    Binary,
}

/// The token kinds of each operator class.
pub open spec fn in_op_class(class: OpClass, k: SyntaxKind) -> bool {
    if class == OpClass::Assignment {
        k == SyntaxKind::ASSIGN_LEFT || k == SyntaxKind::SUPER_ASSIGN || k
            == SyntaxKind::ASSIGN_RIGHT || k == SyntaxKind::SUPER_ASSIGN_RIGHT || k
            == SyntaxKind::ASSIGN_EQ || k == SyntaxKind::WALRUS
    } else if class == OpClass::Unary {
        k == SyntaxKind::PLUS || k == SyntaxKind::MINUS || k == SyntaxKind::BANG
    } else {
        k == SyntaxKind::PLUS || k == SyntaxKind::MINUS || k == SyntaxKind::STAR || k
            == SyntaxKind::SLASH || k == SyntaxKind::CARET || k == SyntaxKind::PIPE || k
            == SyntaxKind::COLON || k == SyntaxKind::OR || k == SyntaxKind::OR2 || k
            == SyntaxKind::AND || k == SyntaxKind::AND2 || k == SyntaxKind::EQUAL2 || k
            == SyntaxKind::NOT_EQUAL || k == SyntaxKind::LESS_THAN || k
            == SyntaxKind::LESS_THAN_OR_EQUAL || k == SyntaxKind::GREATER_THAN || k
            == SyntaxKind::GREATER_THAN_OR_EQUAL || k == SyntaxKind::TILDE || k
            == SyntaxKind::USER_OP || k == SyntaxKind::COLON2 || k == SyntaxKind::COLON3 || k
            == SyntaxKind::DOLLAR
    }
}

fn is_op_of_class(class: OpClass, k: SyntaxKind) -> (b: bool)
    ensures
        b == in_op_class(class, k),
{
    if class == OpClass::Assignment {
        k == SyntaxKind::ASSIGN_LEFT || k == SyntaxKind::SUPER_ASSIGN || k
            == SyntaxKind::ASSIGN_RIGHT || k == SyntaxKind::SUPER_ASSIGN_RIGHT || k
            == SyntaxKind::ASSIGN_EQ || k == SyntaxKind::WALRUS
    } else if class == OpClass::Unary {
        k == SyntaxKind::PLUS || k == SyntaxKind::MINUS || k == SyntaxKind::BANG
    } else {
        k == SyntaxKind::PLUS || k == SyntaxKind::MINUS || k == SyntaxKind::STAR || k
            == SyntaxKind::SLASH || k == SyntaxKind::CARET || k == SyntaxKind::PIPE || k
            == SyntaxKind::COLON || k == SyntaxKind::OR || k == SyntaxKind::OR2 || k
            == SyntaxKind::AND || k == SyntaxKind::AND2 || k == SyntaxKind::EQUAL2 || k
            == SyntaxKind::NOT_EQUAL || k == SyntaxKind::LESS_THAN || k
            == SyntaxKind::LESS_THAN_OR_EQUAL || k == SyntaxKind::GREATER_THAN || k
            == SyntaxKind::GREATER_THAN_OR_EQUAL || k == SyntaxKind::TILDE || k
            == SyntaxKind::USER_OP || k == SyntaxKind::COLON2 || k == SyntaxKind::COLON3 || k
            == SyntaxKind::DOLLAR
    }
}

/// The index of the first operator token of class `class` among
/// `cs[from..]`.
pub open spec fn first_op_from(cs: Seq<SyntaxElement>, class: OpClass, from: int) -> Option<int>
    decreases cs.len() - from,
{
    if from < 0 || from >= cs.len() {
        None
    } else if cs[from] matches SyntaxElement::Token(tok) && in_op_class(class, tok.kind) {
        Some(from)
    } else {
        first_op_from(cs, class, from + 1)
    }
}

/// The text of the first operator token of class `class` among `cs`.
pub open spec fn first_op_text(cs: Seq<SyntaxElement>, class: OpClass) -> Seq<char> {
    match first_op_from(cs, class, 0) {
        Some(i) => crate::syntax::element_text(cs[i]),
        None => seq![],
    }
}

/// The first operator token of class `class` among `n`'s children: its
/// index, kind and text.
fn find_operator(n: &SyntaxNode, class: OpClass) -> (r: Option<(usize, SyntaxKind, String)>)
    ensures
        r matches Some((i, k, t)) ==> i < n.children@.len() && (n.children@[i as int] matches SyntaxElement::Token(
            tok,
        ) && tok.kind == k && tok.text@ == t@) && in_op_class(class, k),
        r is None ==> forall|j: int|
            0 <= j < n.children@.len() ==> !(#[trigger] n.children@[j] matches SyntaxElement::Token(
                tok,
            ) && in_op_class(class, tok.kind)),
        first_op_from(n.children@, class, 0) == match r {
            Some((i, _, _)) => Some(i as int),
            None => None::<int>,
        },
{
    let mut i: usize = 0;
    while i < n.children.len()
        invariant
            i <= n.children@.len(),
            first_op_from(n.children@, class, 0) == first_op_from(n.children@, class, i as int),
            forall|j: int|
                0 <= j < i ==> !(#[trigger] n.children@[j] matches SyntaxElement::Token(tok)
                    && in_op_class(class, tok.kind)),
        decreases n.children@.len() - i,
    {
        if let SyntaxElement::Token(tok) = &n.children[i] {
            if is_op_of_class(class, tok.kind) {
                return Some((i, tok.kind, tok.text.clone()));
            }
        }
        i += 1;
    }
    None
}

/// ` op ` around the text of the operator.
fn spaced(op: &String) -> (r: String)
    ensures
        r@ == " "@ + op@ + " "@,
{
    let mut s = String::from_str(" ");
    s.append(op.as_str());
    s.append(" ");
    s
}

/// Unary operators stick to their operand.
pub(crate) fn ir_unary_expr(n: &SyntaxNode) -> (r: Result<Ir, FormatError>)
    ensures
        crate::formatter::engine::not_parse_error(r),
        first_op_from(n.children@, OpClass::Unary, 0) is None ==> (r matches Err(
            FormatError::AmbiguousConstruct { context, snippet },
        ) && context@ == "unary operator not found"@ && snippet@ == crate::syntax::node_text(*n)),
        r matches Ok(ir) ==> exists|d: Doc|
            ir@ == concat_doc(seq![Doc::Text(first_op_text(n.children@, OpClass::Unary)), d]),
        r matches Ok(ir) ==> (first_op_from(n.children@, OpClass::Unary, 0) matches Some(i) && exists|d: Doc|
            #[trigger] unary_doc(first_op_text(n.children@, OpClass::Unary), d) == ir@ && operand_doc(
                n.children@,
                i + 1,
                n.children@.len() as int,
                d,
            )),
    decreases crate::syntax::node_text(*n).len(), n, 8int,
{
    let (op_idx, _kind, op) = match find_operator(n, OpClass::Unary) {
        Some(found) => found,
        None => {
            return Err(
                FormatError::AmbiguousConstruct {
                    context: "unary operator not found",
                    snippet: n.text(),
                },
            );
        },
    };
    let len = n.children.len();
    let rhs = ir_expr_segment(n, op_idx + 1, len, "unary operand")?;
    let ghost gr = rhs;
    let mut items: Vec<Ir> = Vec::new();
    items.push(Ir::text_string(op));
    items.push(rhs);
    proof {
        lemma_irs_view_eq(items@, seq![Doc::Text(first_op_text(n.children@, OpClass::Unary)), gr@]);
    }
    assert(operand_doc(n.children@, op_idx + 1, n.children@.len() as int, gr@));
    let res = Ir::concat(items);
    assert(unary_doc(first_op_text(n.children@, OpClass::Unary), gr@) == res@);
    Ok(res)
}

/// The operator `op` right before its operand `d`.
pub open spec fn unary_doc(op: Seq<char>, d: Doc) -> Doc {
    concat_doc(seq![Doc::Text(op), d])
}

/// Assignment puts single spaces around its operator; any wrapping comes
/// from the operands.
pub(crate) fn ir_assignment_expr(n: &SyntaxNode) -> (r: Result<Ir, FormatError>)
    ensures
        crate::formatter::engine::not_parse_error(r),
        first_op_from(n.children@, OpClass::Assignment, 0) is None ==> (r matches Err(
            FormatError::AmbiguousConstruct { context, snippet },
        ) && context@ == "assignment operator not found"@ && snippet@ == crate::syntax::node_text(
            *n,
        )),
        r matches Ok(ir) ==> exists|a: Doc, b: Doc|
            ir@ == concat_doc(
                seq![
                    a,
                    Doc::Text(" "@ + first_op_text(n.children@, OpClass::Assignment) + " "@),
                    b,
                ],
            ),
        r matches Ok(ir) ==> assignment_layout(n.children@, ir@),
    decreases crate::syntax::node_text(*n).len(), n, 8int,
{
    let (op_idx, _kind, op) = match find_operator(n, OpClass::Assignment) {
        Some(found) => found,
        None => {
            return Err(
                FormatError::AmbiguousConstruct {
                    context: "assignment operator not found",
                    snippet: n.text(),
                },
            );
        },
    };
    let lhs = ir_expr_segment(n, 0, op_idx, "assignment lhs")?;
    let len = n.children.len();
    let rhs = ir_expr_segment(n, op_idx + 1, len, "assignment rhs")?;
    let ghost (gl, gr) = (lhs, rhs);
    assert(operand_doc(n.children@, 0, op_idx as int, gl@));
    assert(operand_doc(n.children@, op_idx + 1, n.children@.len() as int, gr@));
    let ghost o = first_op_text(n.children@, OpClass::Assignment);
    let mut items: Vec<Ir> = Vec::new();
    items.push(lhs);
    items.push(Ir::text_string(spaced(&op)));
    items.push(rhs);
    proof {
        lemma_irs_view_eq(
            items@,
            seq![
                gl@,
                Doc::Text(" "@ + first_op_text(n.children@, OpClass::Assignment) + " "@),
                gr@,
            ],
        );
    }
    let res = Ir::concat(items);
    assert(assignment_doc(gl@, o, gr@) == res@);
    Ok(res)
}

/// `d` lays out the assignment with children `cs`: the children before its
/// first assignment operator, the operator spaced, then the children after
/// it.
pub open spec fn assignment_layout(cs: Seq<SyntaxElement>, d: Doc) -> bool {
    first_op_from(cs, OpClass::Assignment, 0) matches Some(i) && exists|a: Doc, b: Doc|
        #[trigger] assignment_doc(a, first_op_text(cs, OpClass::Assignment), b) == d && operand_doc(cs, 0, i, a)
            && operand_doc(cs, i + 1, cs.len() as int, b)
}

/// `lhs op rhs`, the operator spaced.
pub open spec fn assignment_doc(lhs: Doc, op: Seq<char>, rhs: Doc) -> Doc {
    concat_doc(seq![lhs, Doc::Text(" "@ + op + " "@), rhs])
}

/// An assignment whose sides are each one name, number, string or `!`
/// reads, laid out flat, as its left side, the operator with a space on
/// each side, then its right side: formatting keeps the sides in order.
pub proof fn law_assignment_side_order(cs: Seq<SyntaxElement>, d: Doc)
    requires
        assignment_layout(cs, d),
        first_op_from(cs, OpClass::Assignment, 0) matches Some(i) && atom_operand(cs, 0, i) is Some
            && atom_operand(cs, i + 1, cs.len() as int) is Some,
    ensures
        ({
            let i = first_op_from(cs, OpClass::Assignment, 0)->Some_0;
            crate::formatter::printer::flat_text(d) == atom_operand(cs, 0, i)->Some_0.text@ + " "@
                + first_op_text(cs, OpClass::Assignment) + " "@ + atom_operand(cs, i + 1, cs.len() as int)->Some_0.text@
        }),
{
    let i = first_op_from(cs, OpClass::Assignment, 0)->Some_0;
    let o = " "@ + first_op_text(cs, OpClass::Assignment) + " "@;
    let (a, b) = choose|a: Doc, b: Doc|
        #[trigger] assignment_doc(a, first_op_text(cs, OpClass::Assignment), b) == d && operand_doc(cs, 0, i, a)
            && operand_doc(cs, i + 1, cs.len() as int, b);
    lemma_flat_concat(seq![a, Doc::Text(o), b]);
    lemma_flat_texts_3(a, Doc::Text(o), b);
    let ta = atom_operand(cs, 0, i)->Some_0.text@;
    let tb = atom_operand(cs, i + 1, cs.len() as int)->Some_0.text@;
    assert(ta + o + tb =~= ta + " "@ + first_op_text(cs, OpClass::Assignment) + " "@ + tb);
}

/// The kind of the first operator token of class `class` among `cs`.
pub open spec fn first_op_kind(cs: Seq<SyntaxElement>, class: OpClass) -> SyntaxKind {
    match first_op_from(cs, class, 0) {
        Some(i) => crate::ast::elem_kind(cs[i]),
        None => SyntaxKind::ERROR,
    }
}

/// The layout of `lhs op rhs` for a binary operator of kind `k` spelled
/// `op`: `::` and `:::` stick, `|>` and `%>%` break after the operator, and
/// the others are a group whose right operand moves to the next line, led by
/// the operator, when it breaks (`^`, `:` and `$` without spaces).
pub open spec fn binary_doc(k: SyntaxKind, op: Seq<char>, lhs: Doc, rhs: Doc) -> Doc {
    if k == SyntaxKind::COLON2 || k == SyntaxKind::COLON3 {
        concat_doc(seq![lhs, Doc::Text(op), rhs])
    } else if k == SyntaxKind::PIPE || (k == SyntaxKind::USER_OP && op == "%>%"@) {
        concat_doc(seq![lhs, Doc::Text(" "@ + op), Doc::Indent(Box::new(Doc::HardLine)), rhs])
    } else {
        let sticky = k == SyntaxKind::CARET || k == SyntaxKind::COLON || k == SyntaxKind::DOLLAR;
        let flat = if sticky {
            op
        } else {
            " "@ + op + " "@
        };
        let broken = if sticky {
            op
        } else {
            op + " "@
        };
        Doc::Group {
            inner: Box::new(
                concat_doc(
                    seq![
                        lhs,
                        Doc::IfBreak {
                            flat: Box::new(Doc::Text(flat)),
                            broken: Box::new(
                                Doc::Indent(
                                    Box::new(concat_doc(seq![Doc::HardLine, Doc::Text(broken)])),
                                ),
                            ),
                        },
                        rhs,
                    ],
                ),
            ),
            expand: false,
            hug: false,
        }
    }
}

/// The one token that children `lo..hi` of `cs` consist of, when it is a
/// name, number, string or `!`.
pub open spec fn atom_operand(cs: Seq<SyntaxElement>, lo: int, hi: int) -> Option<crate::syntax::SyntaxToken> {
    let s = crate::formatter::engine::sig_seq(cs, lo, hi, false);
    if s.len() == 1 && cs[s[0] as int] is Token && crate::formatter::engine::atom_kind(
        cs[s[0] as int]->Token_0.kind,
    ) {
        Some(cs[s[0] as int]->Token_0)
    } else {
        None
    }
}

/// `d` lays out the operand at children `lo..hi` of `cs`: when that is one
/// name, number, string or `!`, its text.
pub open spec fn operand_doc(cs: Seq<SyntaxElement>, lo: int, hi: int, d: Doc) -> bool {
    atom_operand(cs, lo, hi) matches Some(t) ==> d == Doc::Text(t.text@)
}

/// `d` lays out the binary expression with children `cs`: the layout of its
/// first binary operator between that of the children before it and that
/// of the children after it.
pub open spec fn binary_layout(cs: Seq<SyntaxElement>, d: Doc) -> bool {
    first_op_from(cs, OpClass::Binary, 0) matches Some(i) && exists|a: Doc, b: Doc|
        #[trigger] binary_doc(first_op_kind(cs, OpClass::Binary), first_op_text(cs, OpClass::Binary), a, b) == d
            && operand_doc(cs, 0, i, a) && operand_doc(cs, i + 1, cs.len() as int, b)
}

/// How the operator `op` of kind `k` reads between its operands laid out
/// flat: `::`, `:::`, `^`, `:` and `$` bare; `|>` and `%>%` after a space;
/// the others with a space on each side.
pub open spec fn flat_operator(k: SyntaxKind, op: Seq<char>) -> Seq<char> {
    if k == SyntaxKind::COLON2 || k == SyntaxKind::COLON3 || k == SyntaxKind::CARET || k == SyntaxKind::COLON
        || k == SyntaxKind::DOLLAR {
        op
    } else if k == SyntaxKind::PIPE || (k == SyntaxKind::USER_OP && op == "%>%"@) {
        " "@ + op
    } else {
        " "@ + op + " "@
    }
}

pub proof fn lemma_flat_texts_push(q: Seq<Doc>, x: Doc)
    ensures
        crate::formatter::printer::flat_texts(q.push(x)) == crate::formatter::printer::flat_texts(q)
            + crate::formatter::printer::flat_text(x),
{
    assert(q.push(x).subrange(0, q.len() as int) =~= q);
    assert(q.push(x)[q.len() as int] == x);
}

pub proof fn lemma_flat_concat(s: Seq<Doc>)
    ensures
        crate::formatter::printer::flat_text(concat_doc(s)) == crate::formatter::printer::flat_texts(s),
{
    lemma_flat_non_nil(s);
    let kept = crate::formatter::ir::non_nil(s);
    if kept.len() == 1 {
        assert(kept =~= Seq::<Doc>::empty().push(kept[0]));
        lemma_flat_texts_push(Seq::<Doc>::empty(), kept[0]);
        assert(Seq::<char>::empty() + crate::formatter::printer::flat_text(kept[0])
            =~= crate::formatter::printer::flat_text(kept[0]));
    }
}

pub proof fn lemma_flat_non_nil(s: Seq<Doc>)
    ensures
        crate::formatter::printer::flat_texts(crate::formatter::ir::non_nil(s))
            == crate::formatter::printer::flat_texts(s),
    decreases s.len(),
{
    if s.len() > 0 {
        let p = s.drop_last();
        lemma_flat_non_nil(p);
        assert(s =~= p.push(s.last()));
        lemma_flat_texts_push(p, s.last());
        let q = crate::formatter::ir::non_nil(p);
        if !(s.last() is Nil) {
            lemma_flat_texts_push(q, s.last());
        } else {
            assert(crate::formatter::printer::flat_texts(p) + Seq::<char>::empty()
                =~= crate::formatter::printer::flat_texts(p));
        }
    }
}

proof fn lemma_flat_texts_3(a: Doc, b: Doc, c: Doc)
    ensures
        crate::formatter::printer::flat_texts(seq![a, b, c]) == crate::formatter::printer::flat_text(a)
            + crate::formatter::printer::flat_text(b) + crate::formatter::printer::flat_text(c),
{
    let e = Seq::<Doc>::empty();
    lemma_flat_texts_push(e, a);
    lemma_flat_texts_push(e.push(a), b);
    lemma_flat_texts_push(e.push(a).push(b), c);
    assert(seq![a, b, c] =~= e.push(a).push(b).push(c));
    assert(Seq::<char>::empty() + crate::formatter::printer::flat_text(a) =~= crate::formatter::printer::flat_text(a));
}

proof fn lemma_flat_texts_4(a: Doc, b: Doc, c: Doc, d: Doc)
    ensures
        crate::formatter::printer::flat_texts(seq![a, b, c, d]) == crate::formatter::printer::flat_text(a)
            + crate::formatter::printer::flat_text(b) + crate::formatter::printer::flat_text(c)
            + crate::formatter::printer::flat_text(d),
{
    lemma_flat_texts_3(a, b, c);
    lemma_flat_texts_push(seq![a, b, c], d);
    assert(seq![a, b, c, d] =~= seq![a, b, c].push(d));
}

/// A binary expression whose operands are each one name, number, string or
/// `!` reads, laid out flat, as its left operand, then its operator, then its
/// right operand: formatting keeps the operands in their order.
pub proof fn law_binary_operand_order(cs: Seq<SyntaxElement>, d: Doc)
    requires
        binary_layout(cs, d),
        first_op_from(cs, OpClass::Binary, 0) matches Some(i) && atom_operand(cs, 0, i) is Some
            && atom_operand(cs, i + 1, cs.len() as int) is Some,
    ensures
        ({
            let i = first_op_from(cs, OpClass::Binary, 0)->Some_0;
            crate::formatter::printer::flat_text(d) == atom_operand(cs, 0, i)->Some_0.text@
                + flat_operator(first_op_kind(cs, OpClass::Binary), first_op_text(cs, OpClass::Binary))
                + atom_operand(cs, i + 1, cs.len() as int)->Some_0.text@
        }),
{
    let i = first_op_from(cs, OpClass::Binary, 0)->Some_0;
    let k = first_op_kind(cs, OpClass::Binary);
    let o = first_op_text(cs, OpClass::Binary);
    let (a, b) = choose|a: Doc, b: Doc|
        #[trigger] binary_doc(k, o, a, b) == d && operand_doc(cs, 0, i, a) && operand_doc(cs, i + 1, cs.len() as int, b);
    let ta = atom_operand(cs, 0, i)->Some_0.text@;
    let tb = atom_operand(cs, i + 1, cs.len() as int)->Some_0.text@;
    assert(a == Doc::Text(ta) && b == Doc::Text(tb));
    if k == SyntaxKind::COLON2 || k == SyntaxKind::COLON3 {
        lemma_flat_concat(seq![a, Doc::Text(o), b]);
        lemma_flat_texts_3(a, Doc::Text(o), b);
        assert(d == concat_doc(seq![a, Doc::Text(o), b]));
        assert(flat_operator(k, o) == o);
    } else if k == SyntaxKind::PIPE || (k == SyntaxKind::USER_OP && o == "%>%"@) {
        lemma_flat_concat(seq![a, Doc::Text(" "@ + o), Doc::Indent(Box::new(Doc::HardLine)), b]);
        lemma_flat_texts_4(a, Doc::Text(" "@ + o), Doc::Indent(Box::new(Doc::HardLine)), b);
        assert(ta + (" "@ + o) + Seq::<char>::empty() + tb =~= ta + (" "@ + o) + tb);
        assert(d == concat_doc(seq![a, Doc::Text(" "@ + o), Doc::Indent(Box::new(Doc::HardLine)), b]));
        assert(crate::formatter::printer::flat_text(Doc::HardLine) == Seq::<char>::empty());
        assert(crate::formatter::printer::flat_text(Doc::Indent(Box::new(Doc::HardLine))) == Seq::<char>::empty());
        assert(flat_operator(k, o) == " "@ + o);
    } else {
        let sticky = k == SyntaxKind::CARET || k == SyntaxKind::COLON || k == SyntaxKind::DOLLAR;
        let flat = if sticky {
            o
        } else {
            " "@ + o + " "@
        };
        let broken = if sticky {
            o
        } else {
            o + " "@
        };
        let mid = Doc::IfBreak {
            flat: Box::new(Doc::Text(flat)),
            broken: Box::new(Doc::Indent(Box::new(concat_doc(seq![Doc::HardLine, Doc::Text(broken)])))),
        };
        lemma_flat_concat(seq![a, mid, b]);
        lemma_flat_texts_3(a, mid, b);
        assert(d == Doc::Group { inner: Box::new(concat_doc(seq![a, mid, b])), expand: false, hug: false });
        assert(crate::formatter::printer::flat_text(Doc::Text(flat)) == flat);
        assert(crate::formatter::printer::flat_text(mid) == crate::formatter::printer::flat_text(Doc::Text(flat)));
        assert(flat_operator(k, o) == flat);
    }
}

/// Binary operators: `::` and `:::` stick and never wrap; `|>` and `%>%`
/// always break after the operator; `^`, `:` and `$` take no spaces; the
/// others are spaced and, when the expression does not fit, the right
/// operand moves to the next line, one level in, led by the operator.
pub(crate) fn ir_binary_expr(n: &SyntaxNode) -> (r: Result<Ir, FormatError>)
    ensures
        crate::formatter::engine::not_parse_error(r),
        first_op_from(n.children@, OpClass::Binary, 0) is None ==> (r matches Err(
            FormatError::AmbiguousConstruct { context, snippet },
        ) && context@ == "binary operator not found"@ && snippet@ == crate::syntax::node_text(*n)),
        r matches Ok(ir) ==> exists|a: Doc, b: Doc|
            ir@ == binary_doc(
                first_op_kind(n.children@, OpClass::Binary),
                first_op_text(n.children@, OpClass::Binary),
                a,
                b,
            ),
        r matches Ok(ir) ==> binary_layout(n.children@, ir@),
    decreases crate::syntax::node_text(*n).len(), n, 8int,
{
    let (op_idx, op_kind, op) = match find_operator(n, OpClass::Binary) {
        Some(found) => found,
        None => {
            return Err(
                FormatError::AmbiguousConstruct {
                    context: "binary operator not found",
                    snippet: n.text(),
                },
            );
        },
    };
    let lhs = ir_binary_side(n, 0, op_idx, "binary lhs")?;
    let len = n.children.len();
    let rhs = ir_binary_side(n, op_idx + 1, len, "binary rhs")?;
    let ghost (gl, gr) = (lhs, rhs);
    let ghost k = first_op_kind(n.children@, OpClass::Binary);
    let ghost o = first_op_text(n.children@, OpClass::Binary);
    assert(k == op_kind && o == op@);
    proof {
        let cs = n.children@;
        if atom_operand(cs, 0, op_idx as int) is Some {
            assert(!single_block(cs, 0, op_idx as int));
        }
        if atom_operand(cs, op_idx + 1, len as int) is Some {
            assert(!single_block(cs, op_idx + 1, len as int));
        }
        assert(operand_doc(cs, 0, op_idx as int, gl@));
        assert(operand_doc(cs, op_idx + 1, cs.len() as int, gr@));
    }
    if op_kind == SyntaxKind::COLON2 || op_kind == SyntaxKind::COLON3 {
        let mut items: Vec<Ir> = Vec::new();
        items.push(lhs);
        items.push(Ir::text_string(op));
        items.push(rhs);
        proof {
            lemma_irs_view_eq(items@, seq![gl@, Doc::Text(o), gr@]);
        }
        let res = Ir::concat(items);
        assert(res@ == binary_doc(k, o, gl@, gr@));
        return Ok(res);
    }
    let magrittr = String::from_str("%>%");
    if op_kind == SyntaxKind::PIPE || (op_kind == SyntaxKind::USER_OP && op == magrittr) {
        let mut lead = String::from_str(" ");
        lead.append(op.as_str());
        let mut items: Vec<Ir> = Vec::new();
        items.push(lhs);
        items.push(Ir::text_string(lead));
        items.push(Ir::indent(Ir::hard_line()));
        items.push(rhs);
        proof {
            lemma_irs_view_eq(
                items@,
                seq![gl@, Doc::Text(" "@ + o), Doc::Indent(Box::new(Doc::HardLine)), gr@],
            );
        }
        let res = Ir::concat(items);
        assert(res@ == binary_doc(k, o, gl@, gr@));
        return Ok(res);
    }
    let sticky = op_kind == SyntaxKind::CARET || op_kind == SyntaxKind::COLON || op_kind
        == SyntaxKind::DOLLAR;
    let (flat_op, broken_op) = if sticky {
        (op.clone(), op)
    } else {
        let mut broken = op.clone();
        broken.append(" ");
        (spaced(&op), broken)
    };
    let ghost (gf, gb) = (flat_op@, broken_op@);
    let mut broken_items: Vec<Ir> = Vec::new();
    broken_items.push(Ir::hard_line());
    broken_items.push(Ir::text_string(broken_op));
    proof {
        lemma_irs_view_eq(broken_items@, seq![Doc::HardLine, Doc::Text(gb)]);
    }
    let mut items: Vec<Ir> = Vec::new();
    items.push(lhs);
    items.push(Ir::if_break(Ir::text_string(flat_op), Ir::indent(Ir::concat(broken_items))));
    items.push(rhs);
    proof {
        lemma_irs_view_eq(
            items@,
            seq![
                gl@,
                Doc::IfBreak {
                    flat: Box::new(Doc::Text(gf)),
                    broken: Box::new(
                        Doc::Indent(Box::new(concat_doc(seq![Doc::HardLine, Doc::Text(gb)]))),
                    ),
                },
                gr@,
            ],
        );
    }
    let res = Ir::group(Ir::concat(items));
    assert(res@ == binary_doc(k, o, gl@, gr@));
    Ok(res)
}

/// `(expr)` with an optional trailing comment inside; the expression does
/// its own wrapping.
pub(crate) fn ir_paren_expr(n: &SyntaxNode) -> (r: Result<Ir, FormatError>)
    ensures
        crate::formatter::engine::not_parse_error(r),
        (forall|j: int|
            0 <= j < n.children@.len() ==> !crate::ast::is_token_of(
                #[trigger] n.children@[j],
                SyntaxKind::LPAREN,
            )) ==> (r matches Err(FormatError::AmbiguousConstruct { context, snippet })
            && context@ == "missing '(' in parenthesized expression"@ && snippet@
            == crate::syntax::node_text(*n)),
        r matches Ok(ir) ==> exists|d: Doc|
            ir@ == concat_doc(seq![Doc::Text("("@), d, Doc::Text(")"@)]),
    decreases crate::syntax::node_text(*n).len(), n, 8int,
{
    let len = n.children.len();
    let mut open: Option<usize> = None;
    let mut close: Option<usize> = None;
    let mut k: usize = 0;
    while k < len
        invariant
            len == n.children@.len(),
            k <= len,
            open matches Some(o) ==> o < len,
            close matches Some(c) ==> c < len,
            open is None ==> forall|j: int|
                0 <= j < k ==> !crate::ast::is_token_of(#[trigger] n.children@[j], SyntaxKind::LPAREN),
            open matches Some(o) ==> crate::ast::is_token_of(n.children@[o as int], SyntaxKind::LPAREN),
        decreases len - k,
    {
        if crate::ast::is_token_kind(&n.children[k], SyntaxKind::LPAREN) && open.is_none() {
            open = Some(k);
        }
        if crate::ast::is_token_kind(&n.children[k], SyntaxKind::RPAREN) {
            close = Some(k);
        }
        k += 1;
    }
    let (open_idx, close_idx) = match (open, close) {
        (Some(o), Some(c)) => (o, c),
        (None, _) => {
            return Err(
                FormatError::AmbiguousConstruct {
                    context: "missing '(' in parenthesized expression",
                    snippet: n.text(),
                },
            );
        },
        (_, None) => {
            return Err(
                FormatError::AmbiguousConstruct {
                    context: "missing ')' in parenthesized expression",
                    snippet: n.text(),
                },
            );
        },
    };
    if close_idx <= open_idx {
        return Err(
            FormatError::AmbiguousConstruct {
                context: "invalid parenthesized expression bounds",
                snippet: n.text(),
            },
        );
    }
    let inner = ir_expr_with_optional_comment(
        n,
        open_idx + 1,
        close_idx,
        "parenthesized expression",
    )?;
    let ghost gi = inner;
    let mut items: Vec<Ir> = Vec::new();
    items.push(Ir::text("("));
    items.push(inner);
    items.push(Ir::text(")"));
    proof {
        lemma_irs_view_eq(items@, seq![Doc::Text("("@), gi@, Doc::Text(")"@)]);
    }
    Ok(Ir::concat(items))
}

/// Whether `s` has a newline or begins with `#`.
fn multiline_or_comment(s: &str) -> (b: bool)
    ensures
        b == ((s@.len() > 0 && s@[0] == '#') || exists|i: int| 0 <= i < s@.len() && s@[i] == '\n'),
{
    let chars = crate::parser::lexer::chars_of(s);
    if chars.len() > 0 && chars[0] == '#' {
        return true;
    }
    let mut i: usize = 0;
    while i < chars.len()
        invariant
            i <= chars@.len(),
            chars@ == s@,
            !(chars@.len() > 0 && chars@[0] == '#'),
            forall|j: int| 0 <= j < i ==> chars@[j] != '\n',
        decreases chars@.len() - i,
    {
        if chars[i] == '\n' {
            return true;
        }
        i += 1;
    }
    false
}

/// When the significant children of `n` are exactly `{`, a node and `}`:
/// the index of that node.
fn braces_around_node(n: &SyntaxNode) -> (r: Option<usize>)
    ensures
        r matches Some(k) ==> k < n.children@.len() && n.children@[k as int] is Node,
        crate::ast::opt_index(r) == {
            let cs = n.children@;
            let sig = crate::formatter::engine::sig_seq(cs, 0, cs.len() as int, false);
            if sig.len() == 3 && crate::ast::is_token_of(cs[sig[0] as int], SyntaxKind::LBRACE)
                && crate::ast::is_token_of(cs[sig[2] as int], SyntaxKind::RBRACE)
                && cs[sig[1] as int] is Node {
                Some(sig[1] as int)
            } else {
                None
            }
        },
{
    let sig = significant_indices(n, 0, n.children.len(), false);
    if sig.len() != 3 {
        return None;
    }
    if !is_token_kind(&n.children[sig[0]], SyntaxKind::LBRACE) || !is_token_kind(
        &n.children[sig[2]],
        SyntaxKind::RBRACE,
    ) {
        return None;
    }
    match &n.children[sig[1]] {
        SyntaxElement::Node(_) => Some(sig[1]),
        SyntaxElement::Token(_) => None,
    }
}

/// The embrace `{{ x }}` of tidy evaluation: children `lo..hi` of `parent`
/// hold one block, which holds only a block around one expression; when
/// that expression lays out on one line, it is written `{{ expr }}`.
/// Children `lo..hi` of `cs` hold exactly one significant element and it
/// is a block.
pub open spec fn single_block(cs: Seq<SyntaxElement>, lo: int, hi: int) -> bool {
    let sig = crate::formatter::engine::sig_seq(cs, lo, hi, false);
    sig.len() == 1 && (cs[sig[0] as int] matches SyntaxElement::Node(m) && m.kind
        == SyntaxKind::BLOCK_EXPR)
}

/// The inner block of children `lo..hi` of `cs` when they are one block
/// whose significant children are `{`, a block and `}`.
pub open spec fn curly_inner(cs: Seq<SyntaxElement>, lo: int, hi: int) -> Option<SyntaxNode> {
    if single_block(cs, lo, hi) {
        let outer = cs[crate::formatter::engine::sig_seq(cs, lo, hi, false)[0] as int]->Node_0;
        let ocs = outer.children@;
        let os = crate::formatter::engine::sig_seq(ocs, 0, ocs.len() as int, false);
        if os.len() == 3 && crate::ast::is_token_of(ocs[os[0] as int], SyntaxKind::LBRACE)
            && crate::ast::is_token_of(ocs[os[2] as int], SyntaxKind::RBRACE)
            && (ocs[os[1] as int] matches SyntaxElement::Node(m) && m.kind == SyntaxKind::BLOCK_EXPR) {
            Some(ocs[os[1] as int]->Node_0)
        } else {
            None
        }
    } else {
        None
    }
}

/// The block `inner` is braced and holds more than one significant child.
pub open spec fn crowded_block(inner: SyntaxNode) -> bool {
    let ics = inner.children@;
    let s = crate::formatter::engine::sig_seq(ics, 0, ics.len() as int, false);
    s.len() > 3 && crate::ast::is_token_of(ics[s[0] as int], SyntaxKind::LBRACE)
        && crate::ast::is_token_of(ics[s[s.len() - 1] as int], SyntaxKind::RBRACE)
}

/// The token that the braced block `inner` holds, when its significant
/// children are `{`, one token and `}`.
pub open spec fn embraced_token(inner: SyntaxNode) -> Option<crate::syntax::SyntaxToken> {
    let ics = inner.children@;
    let s = crate::formatter::engine::sig_seq(ics, 0, ics.len() as int, false);
    if s.len() == 3 && crate::ast::is_token_of(ics[s[0] as int], SyntaxKind::LBRACE)
        && crate::ast::is_token_of(ics[s[2] as int], SyntaxKind::RBRACE) && ics[s[1] as int] is Token {
        Some(ics[s[1] as int]->Token_0)
    } else {
        None
    }
}

fn try_format_curly_curly(parent: &SyntaxNode, lo: usize, hi: usize) -> (r: Result<Option<Ir>, FormatError>)
    requires
        lo <= hi <= parent.children@.len(),
    ensures
        crate::formatter::engine::not_parse_error(r),
        curly_inner(parent.children@, lo as int, hi as int) matches Some(inner) ==> (crowded_block(
            inner,
        ) ==> (r matches Err(FormatError::AmbiguousConstruct { context, .. }) && context@
            == "curly-curly inner body"@)),
        !single_block(parent.children@, lo as int, hi as int) ==> r matches Ok(None),
        curly_inner(parent.children@, lo as int, hi as int) matches Some(inner) ==> (
        embraced_token(inner) matches Some(t) ==> (if !crate::formatter::engine::atom_kind(t.kind) {
            r matches Err(FormatError::UnsupportedConstruct { kind, snippet }) && kind == t.kind
                && snippet@ == t.text@
        } else if (t.text@.len() > 0 && t.text@[0] == '#') || exists|i: int|
            0 <= i < t.text@.len() && t.text@[i] == '\n' {
            r matches Ok(None)
        } else {
            r matches Ok(Some(ir)) && ir@ == Doc::Text("{{ "@ + t.text@ + " }}"@)
        })),
        r matches Ok(Some(ir)) ==> exists|t: Seq<char>|
            ir@ == Doc::Text("{{ "@ + t + " }}"@) && !(t.len() > 0 && t[0] == '#') && forall|i: int|
                0 <= i < t.len() ==> t[i] != '\n',
    decreases crate::syntax::node_text(*parent).len(), parent, 4int,
{
    let sig = significant_indices(parent, lo, hi, false);
    if sig.len() != 1 {
        return Ok(None);
    }
    let k = sig[0];
    proof {
        crate::syntax::lemma_child_text_len(parent.children@, k as int);
    }
    assert(decreases_to!(parent => parent.children@[k as int]));
    let outer = match &parent.children[k] {
        SyntaxElement::Node(node) => node,
        SyntaxElement::Token(_) => {
            return Ok(None);
        },
    };
    if outer.kind != SyntaxKind::BLOCK_EXPR {
        return Ok(None);
    }
    let inner_idx = match braces_around_node(outer) {
        Some(i) => i,
        None => {
            return Ok(None);
        },
    };
    proof {
        crate::syntax::lemma_child_text_len(outer.children@, inner_idx as int);
    }
    assert(decreases_to!(outer => outer.children@[inner_idx as int]));
    let inner = match &outer.children[inner_idx] {
        SyntaxElement::Node(node) => node,
        SyntaxElement::Token(_) => {
            return Ok(None);
        },
    };
    if inner.kind != SyntaxKind::BLOCK_EXPR {
        return Ok(None);
    }
    let inner_sig = significant_indices(inner, 0, inner.children.len(), false);
    let m = inner_sig.len();
    if m < 3 || !is_token_kind(&inner.children[inner_sig[0]], SyntaxKind::LBRACE)
        || !is_token_kind(&inner.children[inner_sig[m - 1]], SyntaxKind::RBRACE) {
        return Ok(None);
    }
    if m != 3 {
        return Err(
            FormatError::AmbiguousConstruct {
                context: "curly-curly inner body",
                snippet: range_text(inner, inner_sig[1], inner_sig[m - 1]),
            },
        );
    }
    let b = inner_sig[1];
    proof {
        crate::syntax::lemma_child_text_len(inner.children@, b as int);
    }
    assert(decreases_to!(inner => inner.children@[b as int]));
    let body = ir_element(&inner.children[b])?;
    if body.contains_forced_break() {
        return Ok(None);
    }
    let flat = crate::formatter::printer::Printer::new(
        crate::formatter::style::FormatStyle { line_width: usize::MAX, indent_width: 0 },
    ).print(&body);
    proof {
        if inner.children@[b as int] is Token {
            let x = inner.children@[b as int]->Token_0.text@;
            assert(body@ == Doc::Text(x));
            assert(flat@ =~= x);
        }
    }
    if multiline_or_comment(flat.as_str()) {
        return Ok(None);
    }
    let mut text = String::from_str("{{ ");
    text.append(flat.as_str());
    text.append(" }}");
    let res = Ir::text_string(text);
    assert(res@ == Doc::Text("{{ "@ + flat@ + " }}"@));
    assert(curly_inner(parent.children@, lo as int, hi as int) == Some(*inner));
    assert(inner_sig@ == crate::formatter::engine::sig_seq(inner.children@, 0, inner.children@.len() as int, false));
    assert(!(flat@.len() > 0 && flat@[0] == '#') && forall|i: int| 0 <= i < flat@.len() ==> flat@[i] != '\n');
    Ok(Some(res))
}

/// An operand or argument value: an embrace `{{ x }}` when it is one,
/// otherwise the one expression among children `lo..hi`.
fn ir_binary_side(parent: &SyntaxNode, lo: usize, hi: usize, context: &'static str) -> (r: Result<
    Ir,
    FormatError,
>)
    requires
        lo <= hi <= parent.children@.len(),
    ensures
        crate::formatter::engine::not_parse_error(r),
        !single_block(parent.children@, lo as int, hi as int)
            ==> crate::formatter::engine::segment_result(
            parent.children@,
            lo as int,
            hi as int,
            context,
            r,
        ),
    decreases crate::syntax::node_text(*parent).len(), parent, 6int,
{
    match try_format_curly_curly(parent, lo, hi)? {
        Some(ir) => Ok(ir),
        None => ir_expr_segment(parent, lo, hi, context),
    }
}

} // verus!
