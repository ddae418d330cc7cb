//! Argument lists of calls `f(a, b)` and subsets `x[i, j]`, `x[[i]]`: one
//! slot per comma-delimited position, laid out flat when the list fits and
//! one slot per line otherwise. A trailing block or function definition hugs
//! the bracket; comments keep the list broken.

use vstd::prelude::*;

use crate::ast::{element_kind, find_token_from, is_token_kind};
use crate::formatter::engine::{
    FormatError, ir_element, ir_expr_segment, ir_expr_with_optional_comment, significant_indices,
};
use crate::formatter::ir::{Doc, Ir, concat_doc, doc_forced, irs_view, lemma_irs_view_eq, lemma_irs_view_push};
use crate::formatter::trivia::{is_trivia, trivia_kind};
use crate::syntax::{SyntaxElement, SyntaxKind, SyntaxNode};

verus! {

/// One comma-delimited position of an argument list.
pub(crate) enum ArgSlot {
    /// Nothing between two commas, as in `x[, 2]`.
    Empty,
    /// Comments standing alone in the position, one per line.
    Comment(String),
    /// An argument, with whether it ends in a block `{ ... }` and whether it
    /// is a function definition passed by position.
    Expr { ir: Ir, ends_in_block: bool, positional_function: bool },
}

/// The slot is a hole.
pub(crate) open spec fn hole(s: ArgSlot) -> bool {
    s is Empty
}

/// The slot breaks whatever list holds it.
pub(crate) open spec fn slot_forced(s: ArgSlot) -> bool {
    match s {
        ArgSlot::Empty => false,
        ArgSlot::Comment(_) => true,
        ArgSlot::Expr { ir, .. } => doc_forced(ir@),
    }
}

/// The document a slot contributes.
pub(crate) open spec fn slot_doc(s: ArgSlot) -> Doc {
    match s {
        ArgSlot::Empty => Doc::Nil,
        ArgSlot::Comment(text) => Doc::Verbatim { text: text@, force_break: true },
        ArgSlot::Expr { ir, .. } => ir@,
    }
}

impl ArgSlot {
    pub(crate) fn is_empty_hole(&self) -> (b: bool)
        ensures
            b == hole(*self),
    {
        match self {
            ArgSlot::Empty => true,
            _ => false,
        }
    }

    pub(crate) fn has_forced_break(&self) -> (b: bool)
        ensures
            b == slot_forced(*self),
    {
        match self {
            ArgSlot::Empty => false,
            ArgSlot::Comment(_) => true,
            ArgSlot::Expr { ir, .. } => ir.contains_forced_break(),
        }
    }

    pub(crate) fn content(&self) -> (r: Ir)
        ensures
            r@ == slot_doc(*self),
    {
        match self {
            ArgSlot::Empty => Ir::nil(),
            ArgSlot::Comment(text) => Ir::verbatim_forced(text.as_str()),
            ArgSlot::Expr { ir, .. } => ir.duplicate(),
        }
    }
}

/// The position of the first slot that is not a hole.
pub(crate) open spec fn first_filled(s: Seq<ArgSlot>) -> Option<int>
    decreases s.len(),
{
    if s.len() == 0 {
        None
    } else {
        match first_filled(s.drop_last()) {
            Some(i) => Some(i),
            None => if hole(s.last()) {
                None
            } else {
                Some(s.len() - 1)
            },
        }
    }
}

proof fn lemma_first_filled(s: Seq<ArgSlot>)
    ensures
        first_filled(s) matches Some(i) ==> 0 <= i < s.len() && !hole(s[i]) && forall|j: int|
            0 <= j < i ==> hole(#[trigger] s[j]),
        first_filled(s) is None ==> forall|j: int| 0 <= j < s.len() ==> hole(#[trigger] s[j]),
    decreases s.len(),
{
    if s.len() > 0 {
        lemma_first_filled(s.drop_last());
        assert forall|j: int| 0 <= j < s.len() - 1 implies s.drop_last()[j] == s[j] by {}
    }
}

pub(crate) fn first_non_empty(slots: &Vec<ArgSlot>) -> (r: Option<usize>)
    ensures
        r matches Some(i) ==> first_filled(slots@) == Some(i as int),
        r is None ==> first_filled(slots@) is None,
{
    let mut i: usize = 0;
    while i < slots.len()
        invariant
            i <= slots@.len(),
            forall|j: int| 0 <= j < i ==> hole(#[trigger] slots@[j]),
        decreases slots@.len() - i,
    {
        if !slots[i].is_empty_hole() {
            proof {
                lemma_first_filled(slots@);
            }
            return Some(i);
        }
        i += 1;
    }
    proof {
        lemma_first_filled(slots@);
    }
    None
}

/// Two holes in a row before the first argument (or in a list of holes
/// only) are written `,,` when flat; any other gap is `, `.
pub(crate) open spec fn compact_gap(s: Seq<ArgSlot>, idx: int) -> bool {
    &&& hole(s[idx])
    &&& hole(s[idx + 1])
    &&& match first_filled(s) {
        None => true,
        Some(first) => idx + 1 < first,
    }
}

/// The flat separator after slot `idx`.
pub(crate) fn flat_subset_sep(slots: &Vec<ArgSlot>, idx: usize, first: Option<usize>) -> (r: &'static str)
    requires
        idx + 1 < slots.len(),
        first matches Some(i) ==> first_filled(slots@) == Some(i as int),
        first is None ==> first_filled(slots@) is None,
    ensures
        compact_gap(slots@, idx as int) ==> r@ == ","@,
        !compact_gap(slots@, idx as int) ==> r@ == ", "@,
{
    let left_empty = slots[idx].is_empty_hole();
    let right_empty = slots[idx + 1].is_empty_hole();
    let before_first = match first {
        None => true,
        Some(f) => idx + 1 < f,
    };
    if left_empty && right_empty && before_first {
        ","
    } else {
        ", "
    }
}

/// A leading hole followed by an argument that must break, with more
/// arguments after it, opens the whole list.
pub(crate) open spec fn forces_leading_hole(s: Seq<ArgSlot>) -> bool {
    match first_filled(s) {
        None => false,
        Some(first) => {
            &&& hole(s[0])
            &&& slot_forced(s[first])
            &&& exists|j: int| 0 <= j < s.len() && j != first && !hole(#[trigger] s[j])
        },
    }
}

pub(crate) fn should_force_leading_hole_expand(slots: &Vec<ArgSlot>, first: Option<usize>) -> (b: bool)
    requires
        first matches Some(i) ==> first_filled(slots@) == Some(i as int),
        first is None ==> first_filled(slots@) is None,
    ensures
        b == forces_leading_hole(slots@),
{
    let f = match first {
        None => {
            return false;
        },
        Some(f) => f,
    };
    proof {
        lemma_first_filled(slots@);
    }
    if !slots[0].is_empty_hole() || !slots[f].has_forced_break() {
        return false;
    }
    assert(f < slots.len());
    let mut k: usize = f + 1;
    while k < slots.len()
        invariant
            f < k <= slots@.len(),
            forall|j: int| f < j < k ==> hole(#[trigger] slots@[j]),
            first_filled(slots@) == Some(f as int),
            hole(slots@[0]),
            slot_forced(slots@[f as int]),
        decreases slots@.len() - k,
    {
        if !slots[k].is_empty_hole() {
            assert(!hole(slots@[k as int]));
            return true;
        }
        k += 1;
    }
    proof {
        assert forall|j: int| 0 <= j < slots@.len() && j != f implies hole(#[trigger] slots@[j]) by {
            if j < f {
            }
        }
    }
    false
}

/// The slots as one group: `open`, each slot on a line of its own one level
/// in when broken (separated by `, ` when flat), then `close`. A trailing
/// hole after a hole is dropped. `force` expands the group; with
/// `hug_leading_hole` the leading hole stays on the opening line as `open,`.
pub(crate) fn build_arg_group(
    slots: &Vec<ArgSlot>,
    open: &str,
    close: &str,
    first: Option<usize>,
    force: bool,
    hug_leading_hole: bool,
) -> (r: Ir)
    requires
        slots@.len() > 0,
        first matches Some(i) ==> first_filled(slots@) == Some(i as int),
        first is None ==> first_filled(slots@) is None,
    ensures
        r@ matches Doc::Group { expand, hug, .. } && expand == force && !hug,
{
    let n = slots.len();
    let start: usize = if hug_leading_hole {
        1
    } else {
        0
    };
    let mut body: Vec<Ir> = Vec::new();
    let mut idx = start;
    while idx < n
        invariant
            n == slots@.len(),
            start <= idx <= n,
            first matches Some(i) ==> first_filled(slots@) == Some(i as int),
            first is None ==> first_filled(slots@) is None,
        decreases n - idx,
    {
        let is_last = idx + 1 == n;
        let dropped = is_last && idx > 0 && slots[idx - 1].is_empty_hole()
            && slots[idx].is_empty_hole();
        if !dropped {
            body.push(Ir::soft_line());
            body.push(slots[idx].content());
            if !is_last {
                let sep = flat_subset_sep(slots, idx, first);
                body.push(Ir::if_break(Ir::text(sep), Ir::text(",")));
            }
        }
        idx += 1;
    }
    let mut items: Vec<Ir> = Vec::new();
    items.push(Ir::text(open));
    if hug_leading_hole {
        items.push(Ir::text(","));
    }
    items.push(Ir::indent(Ir::concat(body)));
    items.push(Ir::soft_line());
    items.push(Ir::text(close));
    let inner = Ir::concat(items);
    if force {
        Ir::group_expanded(inner)
    } else {
        Ir::group(inner)
    }
}

/// The slots with the last one hugging the bracket: the leading slots
/// follow `open` flat, then the last one opens on the same line; when that
/// prefix does not fit, every slot takes a line of its own. With
/// `conditional` the decision measures only up to the first line break
/// that the last slot can make itself (a function definition breaking its
/// parameters); otherwise it measures up to its first forced newline.
pub(crate) fn build_arg_hug(
    slots: &Vec<ArgSlot>,
    open: &str,
    close: &str,
    first: Option<usize>,
    conditional: bool,
) -> (r: Ir)
    requires
        slots@.len() > 0,
        first matches Some(i) ==> first_filled(slots@) == Some(i as int),
        first is None ==> first_filled(slots@) is None,
    ensures
        conditional ==> r@ is ConditionalGroup,
        !conditional ==> (r@ matches Doc::Group { expand, hug, .. } && !expand && hug),
{
    let last = slots.len() - 1;
    let mut leading: Vec<Ir> = Vec::new();
    leading.push(Ir::soft_line());
    let mut idx: usize = 0;
    while idx < last
        invariant
            last + 1 == slots@.len(),
            idx <= last,
            first matches Some(i) ==> first_filled(slots@) == Some(i as int),
            first is None ==> first_filled(slots@) is None,
        decreases last - idx,
    {
        leading.push(slots[idx].content());
        let sep = flat_subset_sep(slots, idx, first);
        leading.push(Ir::if_break(Ir::text(sep), Ir::text(",")));
        if idx + 1 < last {
            leading.push(Ir::soft_line());
        }
        idx += 1;
    }
    let block = slots[last].content();
    let mut broken: Vec<Ir> = Vec::new();
    broken.push(Ir::soft_line());
    broken.push(block.duplicate());
    let mut items: Vec<Ir> = Vec::new();
    items.push(Ir::text(open));
    items.push(Ir::indent(Ir::concat(leading)));
    items.push(Ir::if_break(block, Ir::indent(Ir::concat(broken))));
    items.push(Ir::soft_line());
    items.push(Ir::text(close));
    let inner = Ir::concat(items);
    if conditional {
        let mut cands: Vec<Ir> = Vec::new();
        cands.push(inner);
        Ir::conditional_group(cands)
    } else {
        Ir::group_hug(inner)
    }
}

/// A comment token occurs in `e` or under it.
pub open spec fn has_comment(e: SyntaxElement) -> bool
    decreases e,
{
    match e {
        SyntaxElement::Token(t) => t.kind == SyntaxKind::COMMENT,
        SyntaxElement::Node(n) => any_comment(n.children@),
    }
}

/// A comment token occurs in one of `cs` or under it.
pub open spec fn any_comment(cs: Seq<SyntaxElement>) -> bool
    decreases cs,
{
    if cs.len() == 0 {
        false
    } else {
        any_comment(cs.subrange(0, cs.len() - 1)) || has_comment(cs[cs.len() - 1])
    }
}

proof fn lemma_any_comment(cs: Seq<SyntaxElement>)
    ensures
        any_comment(cs) <==> exists|j: int| 0 <= j < cs.len() && #[trigger] has_comment(cs[j]),
    decreases cs.len(),
{
    if cs.len() > 0 {
        let p = cs.subrange(0, cs.len() - 1);
        lemma_any_comment(p);
        if any_comment(p) {
            let j = choose|j: int| 0 <= j < p.len() && #[trigger] has_comment(p[j]);
            assert(p[j] == cs[j]);
            assert(has_comment(cs[j]));
        } else if any_comment(cs) {
            assert(has_comment(cs[cs.len() - 1]));
        }
        if exists|j: int| 0 <= j < cs.len() && #[trigger] has_comment(cs[j]) {
            let j = choose|j: int| 0 <= j < cs.len() && #[trigger] has_comment(cs[j]);
            if j < cs.len() - 1 {
                assert(p[j] == cs[j]);
            }
        }
    }
}

/// Whether a comment token occurs anywhere in `e`.
pub(crate) fn element_has_comment(e: &SyntaxElement) -> (b: bool)
    ensures
        b == has_comment(*e),
    decreases e,
{
    match e {
        SyntaxElement::Token(t) => t.kind == SyntaxKind::COMMENT,
        SyntaxElement::Node(n) => node_has_comment(n),
    }
}

/// Whether a comment token occurs anywhere under `n`.
pub(crate) fn node_has_comment(n: &SyntaxNode) -> (b: bool)
    ensures
        b == any_comment(n.children@),
    decreases n,
{
    proof {
        lemma_any_comment(n.children@);
    }
    let mut k: usize = 0;
    while k < n.children.len()
        invariant
            k <= n.children@.len(),
            forall|j: int| 0 <= j < k ==> !#[trigger] has_comment(n.children@[j]),
            any_comment(n.children@) <==> exists|j: int|
                0 <= j < n.children@.len() && #[trigger] has_comment(n.children@[j]),
        decreases n.children@.len() - k,
    {
        proof {
            crate::syntax::lemma_child_text_len(n.children@, k as int);
        }
        assert(decreases_to!(n => n.children@[k as int]));
        if element_has_comment(&n.children[k]) {
            return true;
        }
        k += 1;
    }
    false
}

/// Each comment of `cs` as a forced verbatim followed by a line break.
pub open spec fn comment_line_docs(cs: Seq<String>) -> Seq<Doc>
    decreases cs.len(),
{
    if cs.len() == 0 {
        seq![]
    } else {
        comment_line_docs(cs.drop_last()) + seq![
            Doc::Verbatim { text: cs.last()@, force_break: true },
            Doc::HardLine,
        ]
    }
}

/// One line per comment, then `base`.
pub(crate) fn prepend_comment_lines(comments: &Vec<String>, base: Ir) -> (r: Ir)
    ensures
        r@ == if comments@.len() == 0 {
            base@
        } else {
            concat_doc(comment_line_docs(comments@).push(base@))
        },
{
    if comments.len() == 0 {
        return base;
    }
    let ghost gb = base;
    let mut parts: Vec<Ir> = Vec::new();
    let mut c: usize = 0;
    while c < comments.len()
        invariant
            c <= comments@.len(),
            crate::formatter::ir::irs_view(parts@) == comment_line_docs(
                comments@.subrange(0, c as int),
            ),
        decreases comments@.len() - c,
    {
        let ghost before = parts@;
        parts.push(Ir::verbatim_forced(comments[c].as_str()));
        parts.push(Ir::hard_line());
        proof {
            crate::formatter::ir::lemma_irs_view_push(before, parts@[before.len() as int]);
            crate::formatter::ir::lemma_irs_view_push(before.push(parts@[before.len() as int]), parts@[before.len() as int + 1]);
            assert(parts@ =~= before.push(parts@[before.len() as int]).push(parts@[before.len() as int + 1]));
            assert(comments@.subrange(0, c + 1).drop_last() =~= comments@.subrange(0, c as int));
            assert(comment_line_docs(comments@.subrange(0, c + 1)) =~= comment_line_docs(
                comments@.subrange(0, c as int),
            ) + seq![Doc::Verbatim { text: comments@[c as int]@, force_break: true }, Doc::HardLine]);
        }
        c += 1;
    }
    let ghost before = parts@;
    parts.push(base);
    proof {
        crate::formatter::ir::lemma_irs_view_push(before, gb);
        assert(comments@.subrange(0, comments@.len() as int) =~= comments@);
    }
    Ir::concat(parts)
}

/// The kind of the last node among `cs`.
pub open spec fn last_node_kind(cs: Seq<SyntaxElement>) -> Option<SyntaxKind>
    decreases cs.len(),
{
    if cs.len() == 0 {
        None
    } else {
        match cs.last() {
            SyntaxElement::Node(n) => Some(n.kind),
            SyntaxElement::Token(_) => last_node_kind(cs.drop_last()),
        }
    }
}

/// An argument's expression ends in a block: it is one, or it is an
/// assignment whose last node is one (`name = { ... }`).
pub open spec fn ends_in_block(n: SyntaxNode) -> bool {
    n.kind == SyntaxKind::BLOCK_EXPR || (n.kind == SyntaxKind::ASSIGNMENT_EXPR && last_node_kind(
        n.children@,
    ) == Some(SyntaxKind::BLOCK_EXPR))
}

pub(crate) fn expr_ends_in_block(n: &SyntaxNode) -> (b: bool)
    ensures
        b == ends_in_block(*n),
{
    if n.kind == SyntaxKind::BLOCK_EXPR {
        return true;
    }
    if n.kind != SyntaxKind::ASSIGNMENT_EXPR {
        return false;
    }
    let mut last: Option<SyntaxKind> = None;
    let mut k: usize = 0;
    while k < n.children.len()
        invariant
            k <= n.children@.len(),
            last == last_node_kind(n.children@.subrange(0, k as int)),
        decreases n.children@.len() - k,
    {
        proof {
            assert(n.children@.subrange(0, k + 1).drop_last() =~= n.children@.subrange(0, k as int));
        }
        if let SyntaxElement::Node(c) = &n.children[k] {
            last = Some(c.kind);
        }
        k += 1;
    }
    proof {
        assert(n.children@.subrange(0, n.children@.len() as int) =~= n.children@);
    }
    match last {
        Some(kind) => kind == SyntaxKind::BLOCK_EXPR,
        None => false,
    }
}

/// The slots of a subset's argument list, with whether a comment stands
/// alone in some slot and whether one precedes some argument.
pub(crate) struct SubsetSlots {
    pub(crate) slots: Vec<ArgSlot>,
    pub(crate) has_comment_only: bool,
    pub(crate) has_comment_prefixed: bool,
}

/// Closes a slot at a comma: the argument, after the comments gathered
/// before it, each on its own line; the comments alone; or a hole. Answers
/// whether comments were put before an argument.
fn finalize_slot(comments: Vec<String>, expr: Option<(Ir, bool)>) -> (r: (ArgSlot, bool))
    ensures
        r.1 <==> (expr is Some && comments@.len() > 0),
        expr is None && comments@.len() == 0 ==> r.0 is Empty,
        expr is None && comments@.len() > 0 ==> r.0 is Comment,
        expr matches Some(e) ==> (r.0 matches ArgSlot::Expr { ends_in_block, positional_function, .. }
            && ends_in_block == e.1 && !positional_function),
        expr is Some && comments@.len() == 0 ==> (r.0 matches ArgSlot::Expr { ir, .. } && ir
            == expr->Some_0.0),
{
    match expr {
        Some((ir, ends)) => {
            if comments.len() == 0 {
                (ArgSlot::Expr { ir, ends_in_block: ends, positional_function: false }, false)
            } else {
                (
                    ArgSlot::Expr {
                        ir: prepend_comment_lines(&comments, ir),
                        ends_in_block: ends,
                        positional_function: false,
                    },
                    true,
                )
            }
        },
        None => {
            if comments.len() == 0 {
                (ArgSlot::Empty, false)
            } else {
                let mut text = String::new();
                let mut c: usize = 0;
                while c < comments.len()
                    invariant
                        c <= comments@.len(),
                    decreases comments@.len() - c,
                {
                    if c > 0 {
                        text.append("\n");
                    }
                    text.append(comments[c].as_str());
                    c += 1;
                }
                (ArgSlot::Comment(text), false)
            }
        },
    }
}

/// A subset argument: its layout, whether it ends in a block, and whether
/// comments before it were moved onto lines of their own above it.
/// `e` is a node or a token other than whitespace, a newline or a comment.
pub open spec fn code_elem(e: SyntaxElement) -> bool {
    match e {
        SyntaxElement::Node(_) => true,
        SyntaxElement::Token(t) => !(t.kind == SyntaxKind::WHITESPACE || t.kind
            == SyntaxKind::NEWLINE || t.kind == SyntaxKind::COMMENT),
    }
}

/// The index of the first [`code_elem`] among `cs[from..]`.
pub open spec fn first_code_at(cs: Seq<SyntaxElement>, from: int) -> Option<int>
    decreases cs.len() - from,
{
    if from < 0 || from >= cs.len() {
        None
    } else if code_elem(cs[from]) {
        Some(from)
    } else {
        first_code_at(cs, from + 1)
    }
}

/// The layout in a result that also carries a flag.
pub open spec fn layout_of2(r: Result<(Ir, bool), FormatError>) -> Result<Ir, FormatError> {
    match r {
        Ok((ir, _)) => Ok(ir),
        Err(e) => Err(e),
    }
}

/// The layout in a result that also carries two flags.
pub open spec fn layout_of3(r: Result<(Ir, bool, bool), FormatError>) -> Result<Ir, FormatError> {
    match r {
        Ok((ir, _, _)) => Ok(ir),
        Err(e) => Err(e),
    }
}

/// The texts of the comments before the first code element of `cs`.
pub open spec fn subset_lead(cs: Seq<SyntaxElement>) -> Seq<Seq<char>> {
    match first_code_at(cs, 0) {
        None => seq![],
        Some(s) => crate::formatter::rules::control_flow::token_texts(
            crate::ast::accessors::comment_tokens(cs.subrange(0, s)),
        ),
    }
}

fn ir_subset_argument(arg: &SyntaxNode) -> (r: Result<(Ir, bool, bool), FormatError>)
    ensures
        crate::formatter::engine::not_parse_error(r),
        subset_lead(arg.children@).len() == 0 ==> crate::formatter::engine::segment_result(
            arg.children@,
            0,
            arg.children@.len() as int,
            "subset argument",
            layout_of3(r),
        ),
        r matches Ok((ir, ends, commented)) ==> ({
            let cs = arg.children@;
            match first_code_at(cs, 0) {
                None => !ends && !commented,
                Some(s) => {
                    let lead = crate::formatter::rules::control_flow::token_texts(
                        crate::ast::accessors::comment_tokens(cs.subrange(0, s)),
                    );
                    &&& ends == (cs[s] matches SyntaxElement::Node(m) && ends_in_block(m))
                    &&& commented == (lead.len() > 0)
                    &&& commented ==> exists|d: Doc, ls: Seq<String>|
                        ls.map_values(|x: String| x@) == lead && ir@ == concat_doc(
                            comment_line_docs(ls).push(d),
                        )
                },
            }
        }),
    decreases crate::syntax::node_text(*arg).len(), arg, 7int,
{
    let len = arg.children.len();
    let mut start: Option<usize> = None;
    let mut k: usize = 0;
    while k < len
        invariant
            len == arg.children@.len(),
            k <= len,
            start matches Some(s) ==> s < len,
            start is None ==> first_code_at(arg.children@, 0) == first_code_at(arg.children@, k as int),
            start matches Some(s) ==> first_code_at(arg.children@, 0) == Some(s as int),
        decreases len - k,
    {
        if start.is_none() {
            let kind = element_kind(&arg.children[k]);
            let skipped = match &arg.children[k] {
                SyntaxElement::Token(_) => kind == SyntaxKind::WHITESPACE || kind
                    == SyntaxKind::NEWLINE || kind == SyntaxKind::COMMENT,
                SyntaxElement::Node(_) => false,
            };
            if !skipped {
                start = Some(k);
            }
        }
        k += 1;
    }
    let s = match start {
        None => {
            return Ok((ir_expr_segment(arg, 0, len, "subset argument")?, false, false));
        },
        Some(s) => s,
    };
    let ends = match &arg.children[s] {
        SyntaxElement::Node(n) => expr_ends_in_block(n),
        SyntaxElement::Token(_) => false,
    };
    let mut leading: Vec<String> = Vec::new();
    let mut j: usize = 0;
    while j < s
        invariant
            s < len == arg.children@.len(),
            j <= s,
            leading@.map_values(|x: String| x@) == crate::formatter::rules::control_flow::token_texts(
                crate::ast::accessors::comment_tokens(arg.children@.subrange(0, j as int)),
            ),
        decreases s - j,
    {
        proof {
            assert(arg.children@.subrange(0, j + 1).drop_last() =~= arg.children@.subrange(0, j as int));
            assert(arg.children@.subrange(0, j + 1).last() == arg.children@[j as int]);
        }
        let ghost prev = leading@;
        let ghost ct = crate::ast::accessors::comment_tokens(arg.children@.subrange(0, j as int));
        if let SyntaxElement::Token(tok) = &arg.children[j] {
            if tok.kind == SyntaxKind::COMMENT {
                let t = tok.text.clone();
                leading.push(t);
                proof {
                    assert(crate::formatter::rules::control_flow::token_texts(ct.push(*tok))
                        =~= crate::formatter::rules::control_flow::token_texts(ct).push(tok.text@));
                    assert(leading@.map_values(|x: String| x@) =~= prev.map_values(|x: String| x@).push(
                        tok.text@,
                    ));
                }
            }
        }
        j += 1;
    }
    proof {
        assert(leading@.map_values(|x: String| x@).len() == leading@.len());
    }
    if leading.len() == 0 {
        return Ok((ir_expr_segment(arg, 0, len, "subset argument")?, ends, false));
    }
    let expr = ir_expr_with_optional_comment(arg, s, len, "subset argument")?;
    let ghost ge = expr;
    let res = prepend_comment_lines(&leading, expr);
    assert(res@ == concat_doc(comment_line_docs(leading@).push(ge@)));
    Ok((res, ends, true))
}

/// Whether `e` is a token other than whitespace, a newline or a comment, or
/// a node.
fn is_code(e: &SyntaxElement) -> (b: bool)
    ensures
        b == match *e {
            SyntaxElement::Node(_) => true,
            SyntaxElement::Token(t) => !(t.kind == SyntaxKind::WHITESPACE || t.kind
                == SyntaxKind::NEWLINE || t.kind == SyntaxKind::COMMENT),
        },
{
    match e {
        SyntaxElement::Node(_) => true,
        SyntaxElement::Token(t) => !(t.kind == SyntaxKind::WHITESPACE || t.kind
            == SyntaxKind::NEWLINE || t.kind == SyntaxKind::COMMENT),
    }
}

/// Some child of `cs` is a comment token.
pub open spec fn has_comment_token(cs: Seq<SyntaxElement>) -> bool {
    exists|j: int| 0 <= j < cs.len() && #[trigger] crate::ast::is_token_of(cs[j], SyntaxKind::COMMENT)
}

/// Some child of `cs` is code: a node, or a token other than whitespace,
/// a newline or a comment.
pub open spec fn holds_code(cs: Seq<SyntaxElement>) -> bool {
    exists|j: int| 0 <= j < cs.len() && #[trigger] code_elem(cs[j])
}

/// `e` is an argument holding comments and nothing else.
pub open spec fn comment_only_arg(e: SyntaxElement) -> bool {
    e matches SyntaxElement::Node(a) && a.kind == SyntaxKind::ARG && a.children@.len() > 0
        && has_comment_token(a.children@) && !holds_code(a.children@)
}

/// `e` is an argument that is laid out as an expression.
pub open spec fn code_arg(e: SyntaxElement) -> bool {
    e matches SyntaxElement::Node(a) && a.kind == SyntaxKind::ARG && a.children@.len() > 0
        && !(has_comment_token(a.children@) && !holds_code(a.children@))
}

/// The positions of a subset's argument list among `cs[0..k]`: for each
/// position closed by a comma, whether lone comments and whether an
/// expression stood in it; then the same for the open position.
pub open spec fn subset_positions(cs: Seq<SyntaxElement>, k: int) -> (Seq<(bool, bool)>, bool, bool)
    decreases k,
{
    if k <= 0 {
        (seq![], false, false)
    } else {
        let (done, c, x) = subset_positions(cs, k - 1);
        let e = cs[k - 1];
        if comment_only_arg(e) {
            (done, true, x)
        } else if code_arg(e) {
            (done, c, true)
        } else if crate::ast::is_token_of(e, SyntaxKind::COMMA) {
            (done.push((c, x)), false, false)
        } else {
            (done, c, x)
        }
    }
}

/// The text of the one token of a plain expression argument `e`.
pub open spec fn plain_arg_text(e: SyntaxElement) -> Seq<char> {
    let cs = e->Node_0.children@;
    let sig = crate::formatter::engine::sig_seq(cs, 0, cs.len() as int, false);
    cs[sig[0] as int]->Token_0.text@
}

/// For each position of a subset's argument list among `cs[0..k]` closed
/// by a comma, the text of the last expression argument in it; then that
/// of the open position.
pub open spec fn subset_texts(cs: Seq<SyntaxElement>, k: int) -> (Seq<Seq<char>>, Seq<char>)
    decreases k,
{
    if k <= 0 {
        (seq![], seq![])
    } else {
        let (done, cur) = subset_texts(cs, k - 1);
        let e = cs[k - 1];
        if comment_only_arg(e) {
            (done, cur)
        } else if code_arg(e) {
            (done, plain_arg_text(e))
        } else if crate::ast::is_token_of(e, SyntaxKind::COMMA) {
            (done.push(cur), seq![])
        } else {
            (done, cur)
        }
    }
}

/// `e` is no argument, or a plain expression argument.
pub open spec fn plain_uncommented_arg(e: SyntaxElement) -> bool {
    plain_subset_arg(e) && !comment_only_arg(e)
}

/// The slot of a position with lone comments `c` and an expression `x`.
pub open spec fn slot_kind(s: ArgSlot, c: bool, x: bool) -> bool {
    if x {
        s is Expr
    } else if c {
        s is Comment
    } else {
        s is Empty
    }
}

/// `e` is no expression argument, or one that is a single name, number or
/// string with no comment before it.
pub open spec fn plain_subset_arg(e: SyntaxElement) -> bool {
    code_arg(e) ==> ({
        let cs = e->Node_0.children@;
        let sig = crate::formatter::engine::sig_seq(cs, 0, cs.len() as int, false);
        subset_lead(cs).len() == 0 && sig.len() == 1 && cs[sig[0] as int] is Token
            && crate::formatter::engine::atom_kind(cs[sig[0] as int]->Token_0.kind)
    })
}

/// The slots of a subset's argument list: one per comma-delimited
/// position. A comment standing alone as an argument joins the slot of the
/// argument after it, on a line of its own.
fn collect_subset_ir_slots(list: &SyntaxNode) -> (r: Result<SubsetSlots, FormatError>)
    ensures
        crate::formatter::engine::not_parse_error(r),
        r matches Ok(d) ==> d.slots@.len() > 0,
        r matches Ok(d) ==> ({
            let (done, c, x) = subset_positions(list.children@, list.children@.len() as int);
            let all = done.push((c, x));
            &&& d.slots@.len() == all.len()
            &&& forall|i: int| 0 <= i < all.len() ==> #[trigger] slot_kind(d.slots@[i], all[i].0, all[i].1)
            &&& d.has_comment_only == exists|j: int|
                0 <= j < list.children@.len() && #[trigger] comment_only_arg(list.children@[j])
        }),
        (forall|j: int| 0 <= j < list.children@.len() ==> #[trigger] plain_subset_arg(list.children@[j]))
            ==> r is Ok,
        (forall|j: int| 0 <= j < list.children@.len() ==> #[trigger] plain_uncommented_arg(list.children@[j]))
            ==> (r matches Ok(d) && ({
            let (done, c, x) = subset_positions(list.children@, list.children@.len() as int);
            let all = done.push((c, x));
            let (tdone, tcur) = subset_texts(list.children@, list.children@.len() as int);
            let texts = tdone.push(tcur);
            forall|i: int|
                0 <= i < all.len() && all[i].1 ==> (#[trigger] d.slots@[i] matches ArgSlot::Expr { ir, .. }
                    && ir@ == Doc::Text(texts[i]))
        })),
    decreases crate::syntax::node_text(*list).len(), list, 8int,
{
    let ghost cs = list.children@;
    let ghost plainall = forall|j: int| 0 <= j < cs.len() ==> #[trigger] plain_uncommented_arg(cs[j]);
    let mut slots: Vec<ArgSlot> = Vec::new();
    let mut comments: Vec<String> = Vec::new();
    let mut expr: Option<(Ir, bool)> = None;
    let mut has_comment_only = false;
    let mut has_comment_prefixed = false;
    let mut k: usize = 0;
    while k < list.children.len()
        invariant
            k <= list.children@.len(),
            cs == list.children@,
            ({
                let (done, c, x) = subset_positions(cs, k as int);
                &&& slots@.len() == done.len()
                &&& forall|i: int| 0 <= i < done.len() ==> #[trigger] slot_kind(slots@[i], done[i].0, done[i].1)
                &&& (comments@.len() > 0 <==> c)
                &&& (expr is Some <==> x)
            }),
            has_comment_only == exists|j: int| 0 <= j < k && #[trigger] comment_only_arg(cs[j]),
            plainall == forall|j: int| 0 <= j < cs.len() ==> #[trigger] plain_uncommented_arg(cs[j]),
            plainall ==> ({
                let (done, c, x) = subset_positions(cs, k as int);
                let (tdone, tcur) = subset_texts(cs, k as int);
                &&& tdone.len() == done.len()
                &&& comments@.len() == 0
                &&& (expr matches Some(e) ==> e.0@ == Doc::Text(tcur))
                &&& forall|i: int|
                    0 <= i < done.len() && done[i].1 ==> (#[trigger] slots@[i] matches ArgSlot::Expr { ir, .. }
                        && ir@ == Doc::Text(tdone[i]))
            }),
        decreases list.children@.len() - k,
    {
        proof {
            crate::syntax::lemma_child_text_len(list.children@, k as int);
        }
        assert(decreases_to!(list => list.children@[k as int]));
        let ghost before = subset_positions(cs, k as int);
        proof {
            let all = forall|j: int| 0 <= j < cs.len() ==> #[trigger] plain_subset_arg(cs[j]);
            if all {
                assert(plain_subset_arg(cs[k as int]));
            }
            if plainall {
                assert(plain_uncommented_arg(cs[k as int]));
            }
        }
        match &list.children[k] {
            SyntaxElement::Node(arg) => {
                if arg.kind == SyntaxKind::ARG && arg.children.len() > 0 {
                    let mut has_comment = false;
                    let mut has_code = false;
                    let mut j: usize = 0;
                    while j < arg.children.len()
                        invariant
                            j <= arg.children@.len(),
                            has_comment == exists|q: int| 0 <= q < j && #[trigger] crate::ast::is_token_of(arg.children@[q], SyntaxKind::COMMENT),
                            has_code == exists|q: int| 0 <= q < j && #[trigger] code_elem(arg.children@[q]),
                        decreases arg.children@.len() - j,
                    {
                        if is_token_kind(&arg.children[j], SyntaxKind::COMMENT) {
                            has_comment = true;
                        }
                        let code = is_code(&arg.children[j]);
                        assert(code == code_elem(arg.children@[j as int]));
                        if code {
                            has_code = true;
                        }
                        j += 1;
                    }
                    assert(has_comment == has_comment_token(arg.children@));
                    assert(has_code == holds_code(arg.children@));
                    if has_comment && !has_code {
                        let mut text: Option<String> = None;
                        let mut t: usize = 0;
                        while t < arg.children.len()
                            invariant
                                t <= arg.children@.len(),
                                has_comment_token(arg.children@),
                                text is None ==> forall|q: int| 0 <= q < t ==> !crate::ast::is_token_of(#[trigger] arg.children@[q], SyntaxKind::COMMENT),
                            decreases arg.children@.len() - t,
                        {
                            if text.is_none() {
                                if let SyntaxElement::Token(tok) = &arg.children[t] {
                                    if tok.kind == SyntaxKind::COMMENT {
                                        text = Some(tok.text.clone());
                                    }
                                }
                            }
                            t += 1;
                        }
                        if let Some(c) = text {
                            comments.push(c);
                        }
                        has_comment_only = true;
                        assert(comment_only_arg(cs[k as int]));
                    } else {
                        assert(!comment_only_arg(cs[k as int]));
                        let (ir, ends, prefixed) = ir_subset_argument(arg)?;
                        if prefixed {
                            has_comment_prefixed = true;
                        }
                        expr = Some((ir, ends));
                    }
                }
            },
            SyntaxElement::Token(tok) => {
                if tok.kind == SyntaxKind::COMMA {
                    let (slot, prefixed) = finalize_slot(comments, expr);
                    if prefixed {
                        has_comment_prefixed = true;
                    }
                    slots.push(slot);
                    comments = Vec::new();
                    expr = None;
                }
            },
        }
        k += 1;
    }
    let (slot, prefixed) = finalize_slot(comments, expr);
    if prefixed {
        has_comment_prefixed = true;
    }
    slots.push(slot);
    Ok(SubsetSlots { slots, has_comment_only, has_comment_prefixed })
}

/// The last slot ends in a block that breaks, and nothing before it must
/// break.
pub(crate) open spec fn trailing_block(s: Seq<ArgSlot>) -> bool {
    &&& s.len() > 0
    &&& forall|j: int| 0 <= j < s.len() - 1 ==> !slot_forced(#[trigger] s[j])
    &&& s.last() matches ArgSlot::Expr { ir, ends_in_block, .. } && ends_in_block && doc_forced(ir@)
}

pub(crate) fn is_trailing_block(slots: &Vec<ArgSlot>) -> (b: bool)
    requires
        slots@.len() > 0,
    ensures
        b == trailing_block(slots@),
{
    let last = slots.len() - 1;
    let mut j: usize = 0;
    while j < last
        invariant
            last + 1 == slots@.len(),
            j <= last,
            forall|t: int| 0 <= t < j ==> !slot_forced(#[trigger] slots@[t]),
        decreases last - j,
    {
        if slots[j].has_forced_break() {
            return false;
        }
        j += 1;
    }
    match &slots[last] {
        ArgSlot::Expr { ir, ends_in_block, .. } => *ends_in_block && ir.contains_forced_break(),
        _ => false,
    }
}

/// A subset's bracketed arguments: hugging a trailing block when no
/// comment is involved, otherwise one group, expanded when a comment or a
/// breaking argument after a leading hole requires it.
fn build_subset_args_ir(data: &SubsetSlots, open: &str, close: &str) -> (r: Ir)
    requires
        data.slots@.len() > 0,
    ensures
        !data.has_comment_only && !data.has_comment_prefixed && trailing_block(data.slots@) ==> (
        r@ matches Doc::Group { hug, .. } && hug),
        data.has_comment_only || data.has_comment_prefixed ==> (r@ matches Doc::Group {
            expand,
            ..
        } && expand),
{
    let slots = &data.slots;
    let first = first_non_empty(slots);
    if !data.has_comment_only && !data.has_comment_prefixed && is_trailing_block(slots) {
        return build_arg_hug(slots, open, close, first, false);
    }
    let leading_hole = slots[0].is_empty_hole();
    let commented = data.has_comment_only || data.has_comment_prefixed;
    let force = commented || should_force_leading_hole_expand(slots, first);
    let hug_leading_hole = force && leading_hole && !commented;
    build_arg_group(slots, open, close, first, force, hug_leading_hole)
}

/// A subset `x[args]` or `x[[args]]`: the target, then its arguments.
pub(crate) fn ir_subset_expr(n: &SyntaxNode) -> (r: Result<Ir, FormatError>)
    ensures
        crate::formatter::engine::not_parse_error(r),
        (n.kind != SyntaxKind::SUBSET_EXPR && n.kind != SyntaxKind::SUBSET2_EXPR) ==> (r matches Err(
            FormatError::AmbiguousConstruct { context, snippet },
        ) && context@ == "subset formatter called on non-subset node"@ && snippet@
            == crate::syntax::node_text(*n)),
        ({
            let open_kind = if n.kind == SyntaxKind::SUBSET_EXPR {
                SyntaxKind::LBRACK
            } else {
                SyntaxKind::LBRACK2
            };
            (n.kind == SyntaxKind::SUBSET_EXPR || n.kind == SyntaxKind::SUBSET2_EXPR)
                ==> match crate::ast::first_token_from(n.children@, 0, open_kind) {
                None => r matches Err(FormatError::AmbiguousConstruct { context, snippet })
                    && context@ == "missing opening bracket in subset expression"@ && snippet@
                    == crate::syntax::node_text(*n),
                Some(o) => crate::formatter::engine::sig_seq(n.children@, 0, o, false).len() != 1
                    ==> (r matches Err(FormatError::AmbiguousConstruct { context, .. }) && context@
                    == "subset target"@),
            }
        }),
    decreases crate::syntax::node_text(*n).len(), n, 8int,
{
    let (open_kind, open, close) = if n.kind == SyntaxKind::SUBSET_EXPR {
        (SyntaxKind::LBRACK, "[", "]")
    } else if n.kind == SyntaxKind::SUBSET2_EXPR {
        (SyntaxKind::LBRACK2, "[[", "]]")
    } else {
        return Err(
            FormatError::AmbiguousConstruct {
                context: "subset formatter called on non-subset node",
                snippet: n.text(),
            },
        );
    };
    let open_idx = match find_token_from(n.children.as_slice(), 0, open_kind) {
        Some(i) => i,
        None => {
            return Err(
                FormatError::AmbiguousConstruct {
                    context: "missing opening bracket in subset expression",
                    snippet: n.text(),
                },
            );
        },
    };
    proof {
        crate::ast::lemma_first_token_from(n.children@, 0, open_kind);
    }
    let target = ir_expr_segment(n, 0, open_idx, "subset target")?;
    let mut list_idx: Option<usize> = None;
    let mut k: usize = 0;
    while k < n.children.len()
        invariant
            k <= n.children@.len(),
            list_idx matches Some(i) ==> i < n.children@.len(),
        decreases n.children@.len() - k,
    {
        if list_idx.is_none() {
            if let SyntaxElement::Node(c) = &n.children[k] {
                if c.kind == SyntaxKind::ARG_LIST {
                    list_idx = Some(k);
                }
            }
        }
        k += 1;
    }
    let li = match list_idx {
        Some(i) => i,
        None => {
            return Err(
                FormatError::AmbiguousConstruct {
                    context: "missing arg list in subset expression",
                    snippet: n.text(),
                },
            );
        },
    };
    proof {
        crate::syntax::lemma_child_text_len(n.children@, li as int);
    }
    assert(decreases_to!(n => n.children@[li as int]));
    let data = match &n.children[li] {
        SyntaxElement::Node(list) => collect_subset_ir_slots(list)?,
        SyntaxElement::Token(_) => {
            return Err(
                FormatError::AmbiguousConstruct {
                    context: "missing arg list in subset expression",
                    snippet: n.text(),
                },
            );
        },
    };
    let mut items: Vec<Ir> = Vec::new();
    items.push(target);
    items.push(build_subset_args_ir(&data, open, close));
    Ok(Ir::concat(items))
}

/// The embrace `{{ x }}` of a symbol: children `sig` of `parent` are one
/// block holding only a block around one name. Flat it is `{{ x }}`; broken,
/// the name takes a line of its own one level in.
/// Children `sig` of `cs` are exactly one block.
pub open spec fn sig_one_block(cs: Seq<SyntaxElement>, sig: Seq<usize>) -> bool {
    sig.len() == 1 && (cs[sig[0] as int] matches SyntaxElement::Node(m) && m.kind
        == SyntaxKind::BLOCK_EXPR)
}

/// The name embraced when children `sig` of `cs` are exactly `{{ x }}`:
/// one block whose only significant children are `{`, a block and `}`,
/// the inner block's being `{`, one name and `}`.
pub open spec fn embraced_symbol(cs: Seq<SyntaxElement>, sig: Seq<usize>) -> Option<
    crate::syntax::SyntaxToken,
> {
    if sig.len() == 1 && cs[sig[0] as int] is Node {
        let outer = cs[sig[0] as int]->Node_0;
        let ocs = outer.children@;
        let os = crate::formatter::engine::sig_seq(ocs, 0, ocs.len() as int, false);
        if outer.kind == SyntaxKind::BLOCK_EXPR && os.len() == 3 && crate::ast::is_token_of(
            ocs[os[0] as int],
            SyntaxKind::LBRACE,
        ) && crate::ast::is_token_of(ocs[os[2] as int], SyntaxKind::RBRACE)
            && ocs[os[1] as int] is Node {
            let inner = ocs[os[1] as int]->Node_0;
            let ics = inner.children@;
            let is = crate::formatter::engine::sig_seq(ics, 0, ics.len() as int, false);
            if inner.kind == SyntaxKind::BLOCK_EXPR && is.len() == 3 && crate::ast::is_token_of(
                ics[is[0] as int],
                SyntaxKind::LBRACE,
            ) && crate::ast::is_token_of(ics[is[2] as int], SyntaxKind::RBRACE)
                && crate::ast::is_token_of(ics[is[1] as int], SyntaxKind::IDENT) {
                Some(ics[is[1] as int]->Token_0)
            } else {
                None
            }
        } else {
            None
        }
    } else {
        None
    }
}

/// Children `sig` of `cs` are exactly `{{ x }}`, and the outer block has
/// no node besides the inner block.
pub open spec fn plain_embrace(cs: Seq<SyntaxElement>, sig: Seq<usize>) -> bool {
    &&& embraced_symbol(cs, sig) is Some
    &&& {
        let ocs = cs[sig[0] as int]->Node_0.children@;
        let os = crate::formatter::engine::sig_seq(ocs, 0, ocs.len() as int, false);
        forall|j: int| 0 <= j < ocs.len() && j != os[1] ==> #[trigger] ocs[j] is Token
    }
}

fn ir_curly_curly(parent: &SyntaxNode, sig: &Vec<usize>) -> (r: Result<Option<Ir>, FormatError>)
    requires
        forall|j: int| 0 <= j < sig@.len() ==> #[trigger] sig@[j] < parent.children@.len(),
    ensures
        crate::formatter::engine::not_parse_error(r),
        !sig_one_block(parent.children@, sig@) ==> r matches Ok(None),
        match embraced_symbol(parent.children@, sig@) {
            Some(t) => r matches Ok(Some(ir)) && ir@ == embrace_doc(Doc::Text(t.text@)),
            None => r matches Ok(None),
        },
        r matches Ok(Some(ir)) ==> exists|t: crate::syntax::SyntaxToken|
            t.kind == SyntaxKind::IDENT && ir@ == embrace_doc(Doc::Text(t.text@)),
    decreases crate::syntax::node_text(*parent).len(), parent, 3int,
{
    if sig.len() != 1 {
        return Ok(None);
    }
    let k = sig[0];
    proof {
        crate::syntax::lemma_child_text_len(parent.children@, k as int);
    }
    assert(decreases_to!(parent => parent.children@[k as int]));
    let outer = match &parent.children[k] {
        SyntaxElement::Node(node) => node,
        SyntaxElement::Token(_) => {
            return Ok(None);
        },
    };
    if outer.kind != SyntaxKind::BLOCK_EXPR {
        return Ok(None);
    }
    let osig = significant_indices(outer, 0, outer.children.len(), false);
    if osig.len() != 3 || !is_token_kind(&outer.children[osig[0]], SyntaxKind::LBRACE)
        || !is_token_kind(&outer.children[osig[2]], SyntaxKind::RBRACE) {
        return Ok(None);
    }
    let m = osig[1];
    proof {
        crate::syntax::lemma_child_text_len(outer.children@, m as int);
    }
    assert(decreases_to!(outer => outer.children@[m as int]));
    let inner = match &outer.children[m] {
        SyntaxElement::Node(node) => node,
        SyntaxElement::Token(_) => {
            return Ok(None);
        },
    };
    if inner.kind != SyntaxKind::BLOCK_EXPR {
        return Ok(None);
    }
    let isig = significant_indices(inner, 0, inner.children.len(), false);
    if isig.len() != 3 || !is_token_kind(&inner.children[isig[0]], SyntaxKind::LBRACE)
        || !is_token_kind(&inner.children[isig[2]], SyntaxKind::RBRACE)
        || !is_token_kind(&inner.children[isig[1]], SyntaxKind::IDENT) {
        return Ok(None);
    }
    let b = isig[1];
    proof {
        crate::syntax::lemma_child_text_len(inner.children@, b as int);
    }
    assert(decreases_to!(inner => inner.children@[b as int]));
    let symbol = ir_element(&inner.children[b])?;
    let ghost t = inner.children@[b as int]->Token_0;
    let res = embrace(symbol);
    assert(t.kind == SyntaxKind::IDENT && res@ == embrace_doc(Doc::Text(t.text@)));
    Ok(Some(res))
}

/// `{{`, the symbol one level in after a line break, a line break, `}}`.
/// The embrace of `symbol`: `{{ x }}` flat, the symbol on its own line one
/// level in when broken.
pub open spec fn embrace_doc(symbol: Doc) -> Doc {
    Doc::Group {
        inner: Box::new(
            concat_doc(
                seq![
                    Doc::Text("{{"@),
                    Doc::Indent(Box::new(concat_doc(seq![Doc::Line, symbol]))),
                    Doc::Line,
                    Doc::Text("}}"@),
                ],
            ),
        ),
        expand: false,
        hug: false,
    }
}

fn embrace(symbol: Ir) -> (r: Ir)
    ensures
        r@ == embrace_doc(symbol@),
        r@ == (Doc::Group {
            inner: Box::new(
                concat_doc(
                    seq![
                        Doc::Text("{{"@),
                        Doc::Indent(Box::new(concat_doc(seq![Doc::Line, symbol@]))),
                        Doc::Line,
                        Doc::Text("}}"@),
                    ],
                ),
            ),
            expand: false,
            hug: false,
        }),
{
    let ghost gs = symbol;
    let mut body: Vec<Ir> = Vec::new();
    body.push(Ir::line());
    body.push(symbol);
    let mut items: Vec<Ir> = Vec::new();
    items.push(Ir::text("{{"));
    items.push(Ir::indent(Ir::concat(body)));
    items.push(Ir::line());
    items.push(Ir::text("}}"));
    proof {
        lemma_irs_view_eq(body@, seq![Doc::Line, gs@]);
        lemma_irs_view_eq(
            items@,
            seq![
                Doc::Text("{{"@),
                Doc::Indent(Box::new(concat_doc(seq![Doc::Line, gs@]))),
                Doc::Line,
                Doc::Text("}}"@),
            ],
        );
    }
    Ir::group(Ir::concat(items))
}

/// The texts of the comment tokens among children `sig[from..to]` of
/// `cs`, in order.
pub open spec fn comments_at(cs: Seq<SyntaxElement>, sig: Seq<usize>, from: int, to: int) -> Seq<
    Seq<char>,
>
    decreases to - from,
{
    if to <= from {
        seq![]
    } else {
        let p = comments_at(cs, sig, from, to - 1);
        match cs[sig[to - 1] as int] {
            SyntaxElement::Token(t) => if t.kind == SyntaxKind::COMMENT {
                p.push(t.text@)
            } else {
                p
            },
            SyntaxElement::Node(_) => p,
        }
    }
}

/// The texts of the comment tokens among children `sig[from..to]` of `n`.
fn comments_among(n: &SyntaxNode, sig: &Vec<usize>, from: usize, to: usize) -> (r: Vec<String>)
    requires
        from <= to <= sig@.len(),
        forall|j: int| 0 <= j < sig@.len() ==> #[trigger] sig@[j] < n.children@.len(),
    ensures
        r@.map_values(|s: String| s@) == comments_at(n.children@, sig@, from as int, to as int),
{
    let mut out: Vec<String> = Vec::new();
    let mut j = from;
    while j < to
        invariant
            from <= j <= to <= sig@.len(),
            forall|t: int| 0 <= t < sig@.len() ==> #[trigger] sig@[t] < n.children@.len(),
            out@.map_values(|s: String| s@) == comments_at(n.children@, sig@, from as int, j as int),
        decreases to - j,
    {
        if let SyntaxElement::Token(tok) = &n.children[sig[j]] {
            if tok.kind == SyntaxKind::COMMENT {
                out.push(tok.text.clone());
                proof {
                    assert(out@.map_values(|s: String| s@) =~= comments_at(
                        n.children@,
                        sig@,
                        from as int,
                        j as int,
                    ).push(tok.text@));
                }
            }
        }
        j += 1;
    }
    out
}

/// The first position in `s[from..to]` whose child of `cs` is a node, or
/// `to`.
pub open spec fn first_sig_node(cs: Seq<SyntaxElement>, s: Seq<usize>, from: int, to: int) -> int
    decreases to - from,
{
    if from >= to {
        to
    } else if cs[s[from] as int] is Node {
        from
    } else {
        first_sig_node(cs, s, from + 1, to)
    }
}

/// The first position in `s[from..to]` whose child of `cs` is not a
/// comment, or `to`.
pub open spec fn first_sig_code(cs: Seq<SyntaxElement>, s: Seq<usize>, from: int, to: int) -> int
    decreases to - from,
{
    if from >= to {
        to
    } else if !crate::ast::is_token_of(cs[s[from] as int], SyntaxKind::COMMENT) {
        from
    } else {
        first_sig_code(cs, s, from + 1, to)
    }
}

/// The first child of `cs` from `from` on that is a block, or the end.
pub open spec fn first_block_node(cs: Seq<SyntaxElement>, from: int) -> int
    decreases cs.len() - from,
{
    if from < 0 || from >= cs.len() {
        cs.len() as int
    } else if cs[from] matches SyntaxElement::Node(m) && m.kind == SyntaxKind::BLOCK_EXPR {
        from
    } else {
        first_block_node(cs, from + 1)
    }
}

/// The comments of `cs[p..hi]`, walked in order with whether a newline was
/// seen and the trailing comment and later comments so far: the first
/// comment before any newline trails, the others follow below.
pub open spec fn tail_split(
    cs: Seq<SyntaxElement>,
    p: int,
    hi: int,
    saw: bool,
    trail: Option<Seq<char>>,
    post: Seq<Seq<char>>,
) -> (Option<Seq<char>>, Seq<Seq<char>>)
    decreases hi - p,
{
    if p >= hi || p < 0 || p >= cs.len() {
        (trail, post)
    } else {
        match cs[p] {
            SyntaxElement::Token(t) => if t.kind == SyntaxKind::NEWLINE {
                tail_split(cs, p + 1, hi, true, trail, post)
            } else if t.kind == SyntaxKind::COMMENT {
                if !saw && trail is None {
                    tail_split(cs, p + 1, hi, saw, Some(t.text@), post)
                } else {
                    tail_split(cs, p + 1, hi, saw, trail, post.push(t.text@))
                }
            } else {
                tail_split(cs, p + 1, hi, saw, trail, post)
            },
            SyntaxElement::Node(_) => tail_split(cs, p + 1, hi, saw, trail, post),
        }
    }
}

/// Each comment as a forced verbatim followed by a line break.
pub open spec fn lead_docs(cs: Seq<Seq<char>>) -> Seq<Doc>
    decreases cs.len(),
{
    if cs.len() == 0 {
        seq![]
    } else {
        lead_docs(cs.drop_last()) + seq![Doc::Verbatim { text: cs.last(), force_break: true }, Doc::HardLine]
    }
}

/// Each comment after a line break, as a forced verbatim.
pub open spec fn below_docs(cs: Seq<Seq<char>>) -> Seq<Doc>
    decreases cs.len(),
{
    if cs.len() == 0 {
        seq![]
    } else {
        below_docs(cs.drop_last()) + seq![Doc::HardLine, Doc::Verbatim { text: cs.last(), force_break: true }]
    }
}

/// The embrace of `sym` with its comments: `lead` on lines before `{{`,
/// `pre` and `after` on lines around the symbol one level in, `trail` after
/// `}}` on its line, `post` on lines below.
pub open spec fn commented_embrace_doc(
    lead: Seq<Seq<char>>,
    pre: Seq<Seq<char>>,
    sym: Doc,
    after: Seq<Seq<char>>,
    trail: Option<Seq<char>>,
    post: Seq<Seq<char>>,
) -> Doc {
    concat_doc(
        lead_docs(lead) + seq![
            Doc::Text("{{"@),
            Doc::Indent(Box::new(concat_doc(below_docs(pre) + seq![Doc::HardLine, sym] + below_docs(after)))),
            Doc::HardLine,
            Doc::Text("}}"@),
        ] + match trail {
            Some(c) => seq![Doc::Text(" "@), Doc::Text(c)],
            None => seq![],
        } + below_docs(post),
    )
}

/// The layout of the embrace with comments that children `sig` of `cs`
/// hold, read off the tree: the comments before the inner block, those
/// before and after the name inside it, and those after it up to the outer
/// `}`.
pub open spec fn commented_embrace(cs: Seq<SyntaxElement>, sig: Seq<usize>) -> Doc {
    let ocs = cs[sig[0] as int]->Node_0.children@;
    let os = crate::formatter::engine::sig_seq(ocs, 0, ocs.len() as int, false);
    let jp = first_sig_node(ocs, os, 1, os.len() - 1);
    let ics = ocs[os[jp] as int]->Node_0.children@;
    let is = crate::formatter::engine::sig_seq(ics, 0, ics.len() as int, false);
    let e = first_sig_code(ics, is, 1, is.len() - 1);
    let fb = first_block_node(ocs, 0);
    let rb = match crate::ast::first_token_from(ocs, fb + 1, SyntaxKind::RBRACE) {
        Some(x) => x,
        None => ocs.len() as int,
    };
    let (trail, post) = tail_split(ocs, fb + 1, rb, false, None, seq![]);
    commented_embrace_doc(
        comments_at(ocs, os, 1, jp),
        comments_at(ics, is, 1, e),
        Doc::Text(ics[is[e] as int]->Token_0.text@),
        comments_at(ics, is, e + 1, is.len() - 1),
        trail,
        post,
    )
}

/// The text of a string that may be absent.
pub open spec fn opt_text(o: Option<String>) -> Option<Seq<char>> {
    match o {
        Some(x) => Some(x@),
        None => None,
    }
}

/// The texts of `s`, in order.
pub open spec fn texts(s: Seq<String>) -> Seq<Seq<char>> {
    s.map_values(|x: String| x@)
}

proof fn lemma_texts_prefix(s: Seq<String>, c: int)
    requires
        0 <= c < s.len(),
    ensures
        texts(s.subrange(0, c + 1)) == texts(s.subrange(0, c)).push(s[c]@),
        texts(s.subrange(0, c + 1)).drop_last() == texts(s.subrange(0, c)),
        texts(s.subrange(0, c + 1)).last() == s[c]@,
{
    assert(texts(s.subrange(0, c + 1)) =~= texts(s.subrange(0, c)).push(s[c]@));
    assert(texts(s.subrange(0, c + 1)).drop_last() =~= texts(s.subrange(0, c)));
}

/// With at most one node among `cs`, at `ip`, no other child is a node.
proof fn lemma_other_not_node(cs: Seq<SyntaxElement>, ip: int, q: int)
    requires
        one_node_at_most(cs),
        0 <= ip < cs.len(),
        0 <= q < cs.len(),
        cs[ip] is Node,
        q != ip,
    ensures
        !(cs[q] is Node),
{
    if cs[q] is Node {
        assert(cs[q] is Node && cs[ip] is Node);
    }
}

/// After the inner block of an embrace, up to its closing `}`, only
/// blanks, newlines and comments stand: a token of another kind there
/// cannot be.
proof fn lemma_tail_token(ocs: Seq<SyntaxElement>, os: Seq<usize>, ps: int, p: int)
    requires
        os == crate::formatter::engine::sig_seq(ocs, 0, ocs.len() as int, false),
        forall|a: int, b: int| 0 <= a < b < os.len() ==> os[a] < os[b],
        1 <= ps < os.len() - 1,
        comments_but(ocs, os, os.len() as int, ps),
        crate::ast::is_token_of(ocs[os[os.len() - 1] as int], SyntaxKind::RBRACE),
        os[ps] < p < ocs.len() <= usize::MAX,
    ensures
        ocs[p] matches SyntaxElement::Token(t) ==> (t.kind == SyntaxKind::NEWLINE || t.kind
            == SyntaxKind::WHITESPACE || t.kind == SyntaxKind::COMMENT || t.kind == SyntaxKind::RBRACE),
{
    if ocs[p] matches SyntaxElement::Token(t) && t.kind != SyntaxKind::NEWLINE && t.kind
        != SyntaxKind::WHITESPACE && t.kind != SyntaxKind::COMMENT && t.kind != SyntaxKind::RBRACE {
        lemma_tail_token_kept(ocs, os, ps, p);
    }
}

proof fn lemma_tail_token_kept(ocs: Seq<SyntaxElement>, os: Seq<usize>, ps: int, p: int)
    requires
        os == crate::formatter::engine::sig_seq(ocs, 0, ocs.len() as int, false),
        forall|a: int, b: int| 0 <= a < b < os.len() ==> os[a] < os[b],
        1 <= ps < os.len() - 1,
        comments_but(ocs, os, os.len() as int, ps),
        crate::ast::is_token_of(ocs[os[os.len() - 1] as int], SyntaxKind::RBRACE),
        os[ps] < p < ocs.len() <= usize::MAX,
        crate::formatter::engine::keeps(ocs[p], false),
    ensures
        crate::ast::is_token_of(ocs[p], SyntaxKind::COMMENT) || crate::ast::is_token_of(
            ocs[p],
            SyntaxKind::RBRACE,
        ),
{
    crate::formatter::engine::lemma_sig_seq_contains(ocs, 0, ocs.len() as int, false, p);
    let q = choose|q: int| 0 <= q < os.len() && os[q] == p as usize;
    assert(os[q] as int == p);
    if q < ps {
        assert(os[q] < os[ps]);
    } else if q == ps {
    } else if q < os.len() - 1 {
        assert(crate::ast::is_token_of(ocs[os[q] as int], SyntaxKind::COMMENT));
    } else {
        assert(q == os.len() - 1);
    }
}

/// At most one child of `cs` is a node.
pub open spec fn one_node_at_most(cs: Seq<SyntaxElement>) -> bool {
    forall|x: int, y: int|
        0 <= x < cs.len() && 0 <= y < cs.len() && #[trigger] cs[x] is Node && #[trigger] cs[y] is Node
            ==> x == y
}

/// Children `sig` of `cs` are one block that embraces a symbol, comments
/// aside, and whose only node child is the inner block.
pub open spec fn embrace_with_comments(cs: Seq<SyntaxElement>, sig: Seq<usize>) -> bool {
    sig.len() == 1 && (cs[sig[0] as int] matches SyntaxElement::Node(outer) && symbol_block(outer)
        && one_node_at_most(outer.children@))
}

/// The embrace `{{ x }}` of a symbol when comments occur in it: comments
/// before the inner block lead the `{{`, comments around the name lead or
/// follow it inside, a comment on the line of the inner block's `}` trails
/// the `}}`, and later ones follow below. Without comments, the plain
/// embrace; `None` for any other shape.
#[verifier::rlimit(100)]
fn ir_curly_curly_with_comments(parent: &SyntaxNode, sig: &Vec<usize>) -> (r: Result<
    Option<Ir>,
    FormatError,
>)
    requires
        forall|j: int| 0 <= j < sig@.len() ==> #[trigger] sig@[j] < parent.children@.len(),
    ensures
        crate::formatter::engine::not_parse_error(r),
        !sig_one_block(parent.children@, sig@) ==> r matches Ok(None),
        plain_embrace(parent.children@, sig@) ==> (r matches Ok(Some(ir)) && ir@ == embrace_doc(
            Doc::Text(embraced_symbol(parent.children@, sig@)->Some_0.text@),
        )),
        r matches Ok(Some(ir)) ==> ((exists|t: crate::syntax::SyntaxToken|
            #[trigger] embrace_doc(Doc::Text(t.text@)) == ir@) || ir@ == commented_embrace(
            parent.children@,
            sig@,
        )),
        embrace_with_comments(parent.children@, sig@) ==> r matches Ok(Some(_)),
    decreases crate::syntax::node_text(*parent).len(), parent, 4int,
{
    let ghost plain = plain_embrace(parent.children@, sig@);
    let ghost cand = embrace_with_comments(parent.children@, sig@);
    if sig.len() != 1 {
        return Ok(None);
    }
    let k = sig[0];
    proof {
        crate::syntax::lemma_child_text_len(parent.children@, k as int);
    }
    assert(decreases_to!(parent => parent.children@[k as int]));
    let outer = match &parent.children[k] {
        SyntaxElement::Node(node) => node,
        SyntaxElement::Token(_) => {
            return Ok(None);
        },
    };
    if outer.kind != SyntaxKind::BLOCK_EXPR {
        return Ok(None);
    }
    let olen = outer.children.len();
    let osig = significant_indices(outer, 0, olen, false);
    let ghost ocs = outer.children@;
    let om = osig.len();
    if om < 2 || !is_token_kind(&outer.children[osig[0]], SyntaxKind::LBRACE)
        || !is_token_kind(&outer.children[osig[om - 1]], SyntaxKind::RBRACE) {
        return Ok(None);
    }
    let ghost ps: int = if cand {
        choose|p: int| 1 <= p < om - 1 && #[trigger] symbol_block_at(ocs, osig@, p) && comments_but(ocs, osig@, om as int, p)
    } else {
        0
    };
    assert(plain ==> om == 3);
    assert(plain ==> (outer.children@[osig@[1] as int] matches SyntaxElement::Node(m) && m.kind
        == SyntaxKind::BLOCK_EXPR));
    let mut inner_pos: Option<usize> = None;
    let mut outer_leading: Vec<String> = Vec::new();
    let mut j: usize = 1;
    while j < om - 1
        invariant
            2 <= om == osig@.len(),
            1 <= j <= om - 1,
            forall|t: int| 0 <= t < osig@.len() ==> #[trigger] osig@[t] < outer.children@.len(),
            inner_pos matches Some(p) ==> p < outer.children@.len(),
            plain == plain_embrace(parent.children@, sig@),
            plain ==> om == 3 && outer_leading@.len() == 0,
            plain ==> (j == 1 ==> inner_pos is None),
            plain ==> (j == 2 ==> inner_pos == Some(osig@[1])),
            plain ==> (outer.children@[osig@[1] as int] matches SyntaxElement::Node(m) && m.kind
                == SyntaxKind::BLOCK_EXPR),
            ocs == outer.children@,
            inner_pos is None ==> first_sig_node(ocs, osig@, 1, om - 1) == first_sig_node(
                ocs,
                osig@,
                j as int,
                om - 1,
            ) && texts(outer_leading@) == comments_at(ocs, osig@, 1, j as int),
            inner_pos matches Some(p) ==> ({
                let jp = first_sig_node(ocs, osig@, 1, om - 1);
                1 <= jp < j && p == osig@[jp] && texts(outer_leading@) == comments_at(ocs, osig@, 1, jp)
            }),
            cand == embrace_with_comments(parent.children@, sig@),
            cand ==> 1 <= ps < om - 1 && symbol_block_at(ocs, osig@, ps) && comments_but(ocs, osig@, om as int, ps),
            cand ==> (inner_pos is None ==> j <= ps),
            cand ==> (inner_pos matches Some(x) ==> x == osig@[ps] && ps < j),
        ensures
            cand ==> inner_pos == Some(osig@[ps]),
            plain ==> inner_pos == Some(osig@[1]) && outer_leading@.len() == 0,
            inner_pos matches Some(p) ==> ({
                let jp = first_sig_node(ocs, osig@, 1, om - 1);
                1 <= jp < om - 1 && p == osig@[jp] && texts(outer_leading@) == comments_at(ocs, osig@, 1, jp)
            }),
        decreases om - 1 - j,
    {
        match &outer.children[osig[j]] {
            SyntaxElement::Node(node) => {
                proof {
                    if cand && j != ps {
                        assert(crate::ast::is_token_of(ocs[osig@[j as int] as int], SyntaxKind::COMMENT));
                    }
                }
                if node.kind != SyntaxKind::BLOCK_EXPR || inner_pos.is_some() {
                    return Ok(None);
                }
                inner_pos = Some(osig[j]);
            },
            SyntaxElement::Token(tok) => {
                proof {
                    if cand && j != ps {
                        assert(crate::ast::is_token_of(ocs[osig@[j as int] as int], SyntaxKind::COMMENT));
                    }
                }
                if tok.kind != SyntaxKind::COMMENT {
                    return Ok(None);
                }
                if inner_pos.is_some() {
                    break;
                }
                let ghost before = outer_leading@;
                outer_leading.push(tok.text.clone());
                assert(texts(outer_leading@) =~= texts(before).push(tok.text@));
            },
        }
        j += 1;
    }
    let ip = match inner_pos {
        Some(p) => p,
        None => {
            return Ok(None);
        },
    };
    proof {
        crate::syntax::lemma_child_text_len(outer.children@, ip as int);
    }
    assert(decreases_to!(outer => outer.children@[ip as int]));
    let inner = match &outer.children[ip] {
        SyntaxElement::Node(node) => node,
        SyntaxElement::Token(_) => {
            return Ok(None);
        },
    };
    let isig = significant_indices(inner, 0, inner.children.len(), false);
    let im = isig.len();
    let ghost ics = inner.children@;
    proof {
        if cand {
            assert(inner == ocs[osig@[ps] as int]->Node_0);
            assert(symbol_only_block(*inner));
        }
    }
    let ghost qs: int = if cand {
        choose|q: int|
            1 <= q < im - 1 && #[trigger] crate::ast::is_token_of(ics[isig@[q] as int], SyntaxKind::IDENT)
                && comments_but(ics, isig@, im as int, q)
    } else {
        0
    };
    if im < 3 || !is_token_kind(&inner.children[isig[0]], SyntaxKind::LBRACE)
        || !is_token_kind(&inner.children[isig[im - 1]], SyntaxKind::RBRACE) {
        return Ok(None);
    }
    let mut expr_pos: Option<usize> = None;
    let mut expr_count: usize = 0;
    let mut t: usize = 1;
    while t < im - 1
        invariant
            3 <= im == isig@.len(),
            1 <= t <= im - 1,
            expr_count <= t,
            forall|q: int| 0 <= q < isig@.len() ==> #[trigger] isig@[q] < inner.children@.len(),
            expr_pos matches Some(p) ==> 1 <= p < t,
            plain == plain_embrace(parent.children@, sig@),
            plain ==> im == 3 && crate::ast::is_token_of(
                inner.children@[isig@[1] as int],
                SyntaxKind::IDENT,
            ),
            plain ==> (t == 1 ==> expr_pos is None && expr_count == 0),
            plain ==> (t == 2 ==> expr_pos == Some(1usize) && expr_count == 1),
            ics == inner.children@,
            expr_pos is None ==> first_sig_code(ics, isig@, 1, im - 1) == first_sig_code(
                ics,
                isig@,
                t as int,
                im - 1,
            ),
            expr_pos matches Some(x) ==> x == first_sig_code(ics, isig@, 1, im - 1),
            cand ==> 1 <= qs < im - 1 && crate::ast::is_token_of(ics[isig@[qs] as int], SyntaxKind::IDENT)
                && comments_but(ics, isig@, im as int, qs),
            cand ==> (t <= qs ==> expr_pos is None && expr_count == 0),
            cand ==> (t > qs ==> expr_pos == Some(qs as usize) && expr_count == 1),
        decreases im - 1 - t,
    {
        proof {
            if cand && t != qs {
                assert(crate::ast::is_token_of(ics[isig@[t as int] as int], SyntaxKind::COMMENT));
            }
        }
        if !is_token_kind(&inner.children[isig[t]], SyntaxKind::COMMENT) {
            expr_count += 1;
            if expr_pos.is_none() {
                expr_pos = Some(t);
            }
        }
        t += 1;
    }
    let e = match expr_pos {
        Some(e) => e,
        None => {
            return Ok(None);
        },
    };
    if expr_count != 1 || !is_token_kind(&inner.children[isig[e]], SyntaxKind::IDENT) {
        return Ok(None);
    }
    let inner_pre = comments_among(inner, &isig, 1, e);
    let inner_after = comments_among(inner, &isig, e + 1, im - 1);
    assert(plain ==> e == 1 && im == 3);
    proof {
        if plain {
            assert(comments_at(inner.children@, isig@, 1, 1).len() == 0);
            assert(comments_at(inner.children@, isig@, 2, 2).len() == 0);
            assert(inner_pre@.map_values(|x: String| x@).len() == 0);
            assert(inner_after@.map_values(|x: String| x@).len() == 0);
        }
    }
    let mut first_block: Option<usize> = None;
    let mut q: usize = 0;
    while q < olen
        invariant
            olen == outer.children@.len(),
            q <= olen,
            first_block matches Some(p) ==> p < olen,
            plain == plain_embrace(parent.children@, sig@),
            plain ==> ip == osig@[1] && osig@.len() == 3,
            plain ==> (outer.children@[ip as int] matches SyntaxElement::Node(m) && m.kind
                == SyntaxKind::BLOCK_EXPR),
            plain ==> (q <= ip ==> first_block is None),
            plain ==> (q > ip ==> first_block == Some(ip)),
            plain ==> forall|x: int|
                0 <= x < olen && x != ip ==> #[trigger] outer.children@[x] is Token,
            ocs == outer.children@,
            first_block is None ==> first_block_node(ocs, 0) == first_block_node(ocs, q as int),
            first_block matches Some(x) ==> x == first_block_node(ocs, 0),
            ip < olen,
            cand ==> ip == osig@[ps] && one_node_at_most(ocs) && (ocs[ip as int] matches SyntaxElement::Node(m)
                && m.kind == SyntaxKind::BLOCK_EXPR),
            cand ==> (q <= ip ==> first_block is None),
            cand ==> (q > ip ==> first_block == Some(ip)),
        decreases olen - q,
    {
        proof {
            if cand && q != ip {
                lemma_other_not_node(ocs, ip as int, q as int);
            }
        }
        if first_block.is_none() {
            if let SyntaxElement::Node(node) = &outer.children[q] {
                if node.kind == SyntaxKind::BLOCK_EXPR {
                    first_block = Some(q);
                }
            }
        }
        q += 1;
    }
    let fb = match first_block {
        Some(p) => p,
        None => {
            return Err(
                FormatError::AmbiguousConstruct {
                    context: "missing inner block for curly-curly",
                    snippet: outer.text(),
                },
            );
        },
    };
    let mut inline_trailing: Option<String> = None;
    let mut outer_post: Vec<String> = Vec::new();
    let mut saw_newline = false;
    let mut p = fb + 1;
    let ghost rb: int = match crate::ast::first_token_from(ocs, fb + 1, SyntaxKind::RBRACE) {
        Some(x) => x,
        None => olen as int,
    };
    proof {
        crate::ast::lemma_first_token_from(ocs, fb + 1, SyntaxKind::RBRACE);
        assert(texts(outer_post@) =~= Seq::<Seq<char>>::empty());
    }
    while p < olen
        invariant
            olen == outer.children@.len(),
            fb < p <= olen,
            plain == plain_embrace(parent.children@, sig@),
            plain ==> fb == osig@[1] && osig@.len() == 3 && p <= osig@[2],
            plain ==> inline_trailing is None && outer_post@.len() == 0,
            plain ==> crate::ast::is_token_of(outer.children@[osig@[2] as int], SyntaxKind::RBRACE),
            plain ==> forall|x: int|
                0 <= x < olen && x != fb ==> #[trigger] outer.children@[x] is Token,
            osig@ == crate::formatter::engine::sig_seq(outer.children@, 0, olen as int, false),
            forall|a: int, b: int| 0 <= a < b < osig@.len() ==> osig@[a] < osig@[b],
            ocs == outer.children@,
            crate::ast::first_token_from(ocs, fb + 1, SyntaxKind::RBRACE) == crate::ast::first_token_from(
                ocs,
                p as int,
                SyntaxKind::RBRACE,
            ),
            p <= rb <= olen,
            rb == match crate::ast::first_token_from(ocs, fb + 1, SyntaxKind::RBRACE) {
                Some(x) => x,
                None => olen as int,
            },
            tail_split(ocs, fb + 1, rb, false, None, seq![]) == tail_split(
                ocs,
                p as int,
                rb,
                saw_newline,
                opt_text(inline_trailing),
                texts(outer_post@),
            ),
            cand == embrace_with_comments(parent.children@, sig@),
            cand ==> fb == osig@[ps] && one_node_at_most(ocs) && ocs[fb as int] is Node && 1 <= ps < om - 1
                && comments_but(ocs, osig@, om as int, ps) && crate::ast::is_token_of(
                ocs[osig@[om - 1] as int],
                SyntaxKind::RBRACE,
            ) && om == osig@.len(),
        ensures
            tail_split(ocs, fb + 1, rb, false, None, seq![]) == (opt_text(inline_trailing), texts(outer_post@)),
            plain ==> inline_trailing is None && outer_post@.len() == 0,
        decreases olen - p,
    {
        proof {
            crate::ast::lemma_first_token_from(ocs, p as int, SyntaxKind::RBRACE);
            crate::ast::lemma_first_token_from(ocs, p + 1, SyntaxKind::RBRACE);
        }
        proof {
            if plain && p != osig@[2] && crate::formatter::engine::keeps(
                outer.children@[p as int],
                false,
            ) {
                crate::formatter::engine::lemma_sig_seq_contains(
                    outer.children@,
                    0,
                    olen as int,
                    false,
                    p as int,
                );
                let kk = choose|kk: int| 0 <= kk < osig@.len() && osig@[kk] == p as usize;
                assert(osig@[0] < osig@[1]);
            }
        }
        proof {
            if cand {
                lemma_other_not_node(ocs, fb as int, p as int);
                lemma_tail_token(ocs, osig@, ps, p as int);
            }
        }
        match &outer.children[p] {
            SyntaxElement::Token(tok) => {
                if tok.kind == SyntaxKind::NEWLINE {
                    saw_newline = true;
                } else if tok.kind == SyntaxKind::WHITESPACE {
                } else if tok.kind == SyntaxKind::COMMENT {
                    if !saw_newline && inline_trailing.is_none() {
                        inline_trailing = Some(tok.text.clone());
                    } else {
                        let ghost before = outer_post@;
                        outer_post.push(tok.text.clone());
                        assert(texts(outer_post@) =~= texts(before).push(tok.text@));
                    }
                } else if tok.kind == SyntaxKind::RBRACE {
                    break;
                } else {
                    return Ok(None);
                }
            },
            SyntaxElement::Node(_) => {
                return Ok(None);
            },
        }
        p += 1;
    }
    let b = isig[e];
    proof {
        crate::syntax::lemma_child_text_len(inner.children@, b as int);
    }
    assert(decreases_to!(inner => inner.children@[b as int]));
    let symbol = ir_element(&inner.children[b])?;
    if outer_leading.len() == 0 && inner_pre.len() == 0 && inner_after.len() == 0
        && outer_post.len() == 0 && inline_trailing.is_none() {
        let ghost tk = inner.children@[b as int]->Token_0;
        let res = embrace(symbol);
        assert(embrace_doc(Doc::Text(tk.text@)) == res@);
        return Ok(Some(res));
    }
    let ghost sym = symbol@;
    let ghost lead = texts(outer_leading@);
    let ghost pre = texts(inner_pre@);
    let ghost after = texts(inner_after@);
    let ghost post = texts(outer_post@);
    let ghost trail = opt_text(inline_trailing);
    let mut parts: Vec<Ir> = Vec::new();
    let mut c: usize = 0;
    proof {
        assert(outer_leading@.subrange(0, 0) =~= Seq::<String>::empty());
        assert(texts(Seq::<String>::empty()) =~= Seq::<Seq<char>>::empty());
        assert(irs_view(parts@) =~= Seq::<Doc>::empty());
    }
    while c < outer_leading.len()
        invariant
            c <= outer_leading@.len(),
            irs_view(parts@) == lead_docs(texts(outer_leading@.subrange(0, c as int))),
        decreases outer_leading@.len() - c,
    {
        proof {
            lemma_texts_prefix(outer_leading@, c as int);
        }
        let ghost p0 = parts@;
        let v = Ir::verbatim_forced(outer_leading[c].as_str());
        parts.push(v);
        let ghost p1 = parts@;
        let h = Ir::hard_line();
        parts.push(h);
        proof {
            lemma_irs_view_push(p0, v);
            lemma_irs_view_push(p1, h);
            assert(irs_view(parts@) =~= irs_view(p0) + seq![v@, h@]);
        }
        c += 1;
    }
    assert(outer_leading@.subrange(0, c as int) =~= outer_leading@);
    let ghost q0 = parts@;
    let open_br = Ir::text("{{");
    parts.push(open_br);
    proof {
        lemma_irs_view_push(q0, open_br);
    }
    let mut body: Vec<Ir> = Vec::new();
    let mut c: usize = 0;
    proof {
        assert(inner_pre@.subrange(0, 0) =~= Seq::<String>::empty());
        assert(texts(Seq::<String>::empty()) =~= Seq::<Seq<char>>::empty());
        assert(irs_view(body@) =~= Seq::<Doc>::empty());
    }
    while c < inner_pre.len()
        invariant
            c <= inner_pre@.len(),
            irs_view(body@) == below_docs(texts(inner_pre@.subrange(0, c as int))),
        decreases inner_pre@.len() - c,
    {
        proof {
            lemma_texts_prefix(inner_pre@, c as int);
        }
        let ghost p0 = body@;
        let h = Ir::hard_line();
        body.push(h);
        let ghost p1 = body@;
        let v = Ir::verbatim_forced(inner_pre[c].as_str());
        body.push(v);
        proof {
            lemma_irs_view_push(p0, h);
            lemma_irs_view_push(p1, v);
            assert(irs_view(body@) =~= irs_view(p0) + seq![h@, v@]);
        }
        c += 1;
    }
    assert(inner_pre@.subrange(0, c as int) =~= inner_pre@);
    let ghost b0 = body@;
    let h = Ir::hard_line();
    body.push(h);
    let ghost b1 = body@;
    body.push(symbol);
    proof {
        lemma_irs_view_push(b0, h);
        lemma_irs_view_push(b1, symbol);
        assert(irs_view(body@) =~= below_docs(pre) + seq![Doc::HardLine, sym]);
        assert(inner_after@.subrange(0, 0) =~= Seq::<String>::empty());
        assert(texts(Seq::<String>::empty()) =~= Seq::<Seq<char>>::empty());
        assert(irs_view(body@) =~= below_docs(pre) + seq![Doc::HardLine, sym] + below_docs(
            texts(inner_after@.subrange(0, 0)),
        ));
    }
    let mut c: usize = 0;
    while c < inner_after.len()
        invariant
            c <= inner_after@.len(),
            irs_view(body@) == below_docs(pre) + seq![Doc::HardLine, sym] + below_docs(
                texts(inner_after@.subrange(0, c as int)),
            ),
        decreases inner_after@.len() - c,
    {
        proof {
            lemma_texts_prefix(inner_after@, c as int);
        }
        let ghost p0 = body@;
        let h = Ir::hard_line();
        body.push(h);
        let ghost p1 = body@;
        let v = Ir::verbatim_forced(inner_after[c].as_str());
        body.push(v);
        proof {
            lemma_irs_view_push(p0, h);
            lemma_irs_view_push(p1, v);
            assert(irs_view(body@) =~= irs_view(p0) + seq![h@, v@]);
        }
        c += 1;
    }
    assert(inner_after@.subrange(0, c as int) =~= inner_after@);
    let ghost bd = irs_view(body@);
    let ghost r0 = parts@;
    let ind = Ir::indent(Ir::concat(body));
    parts.push(ind);
    let ghost r1 = parts@;
    let h2 = Ir::hard_line();
    parts.push(h2);
    let ghost r2 = parts@;
    let close_br = Ir::text("}}");
    parts.push(close_br);
    proof {
        lemma_irs_view_push(r0, ind);
        lemma_irs_view_push(r1, h2);
        lemma_irs_view_push(r2, close_br);
    }
    let ghost mid = irs_view(parts@);
    assert(mid =~= lead_docs(lead) + seq![
        Doc::Text("{{"@),
        Doc::Indent(Box::new(concat_doc(bd))),
        Doc::HardLine,
        Doc::Text("}}"@),
    ]);
    if let Some(comment) = inline_trailing {
        let ghost t0 = parts@;
        let sp = Ir::text(" ");
        parts.push(sp);
        let ghost t1 = parts@;
        let ct = Ir::text_string(comment);
        parts.push(ct);
        proof {
            lemma_irs_view_push(t0, sp);
            lemma_irs_view_push(t1, ct);
        }
    }
    let ghost tdocs: Seq<Doc> = match trail {
        Some(cm) => seq![Doc::Text(" "@), Doc::Text(cm)],
        None => seq![],
    };
    assert(irs_view(parts@) =~= mid + tdocs);
    let mut c: usize = 0;
    proof {
        assert(outer_post@.subrange(0, 0) =~= Seq::<String>::empty());
        assert(texts(Seq::<String>::empty()) =~= Seq::<Seq<char>>::empty());
        assert(irs_view(parts@) =~= mid + tdocs + below_docs(texts(outer_post@.subrange(0, 0))));
    }
    while c < outer_post.len()
        invariant
            c <= outer_post@.len(),
            irs_view(parts@) == mid + tdocs + below_docs(texts(outer_post@.subrange(0, c as int))),
        decreases outer_post@.len() - c,
    {
        proof {
            lemma_texts_prefix(outer_post@, c as int);
        }
        let ghost p0 = parts@;
        let h = Ir::hard_line();
        parts.push(h);
        let ghost p1 = parts@;
        let v = Ir::verbatim_forced(outer_post[c].as_str());
        parts.push(v);
        proof {
            lemma_irs_view_push(p0, h);
            lemma_irs_view_push(p1, v);
            assert(irs_view(parts@) =~= irs_view(p0) + seq![h@, v@]);
        }
        c += 1;
    }
    assert(outer_post@.subrange(0, c as int) =~= outer_post@);
    let res = Ir::concat(parts);
    assert(res@ == commented_embrace_doc(lead, pre, sym, after, trail, post));
    Ok(Some(res))
}

/// The layout of `name = value` with either side possibly missing.
pub open spec fn named_arg_doc(name: Doc, name_empty: bool, value: Option<Doc>) -> Doc {
    concat_doc(
        match value {
            Some(v) => if name_empty {
                seq![Doc::Text("= "@), v]
            } else {
                seq![name, Doc::Text(" = "@), v]
            },
            None => if name_empty {
                seq![Doc::Text("="@)]
            } else {
                seq![name, Doc::Text(" ="@)]
            },
        },
    )
}

/// `ir` is `name = value` with as many significant name children as
/// `names` and value children as `values` (a side with none is left out).
pub open spec fn named_arg_shape(ir: Doc, names: nat, values: nat) -> bool {
    let name_empty = names == 0;
    exists|nd: Doc, vd: Option<Doc>|
        (vd is None <==> values == 0) && ir == #[trigger] named_arg_doc(nd, name_empty, vd)
}

/// The one node that children `sig` of `cs` consist of, if they are one
/// node.
pub open spec fn lone_node(cs: Seq<SyntaxElement>, sig: Seq<usize>) -> Option<SyntaxNode> {
    if sig.len() == 1 && cs[sig[0] as int] is Node {
        Some(cs[sig[0] as int]->Node_0)
    } else {
        None
    }
}

/// Whether the lone node of children `sig` ends in a block.
pub open spec fn lone_ends_in_block(cs: Seq<SyntaxElement>, sig: Seq<usize>) -> bool {
    lone_node(cs, sig) matches Some(m) && ends_in_block(m)
}

/// `name = value`, or the forms with a side missing: `name =`, `= value`,
/// `=`.
fn build_named_arg_ir(name: Ir, name_empty: bool, value: Option<Ir>) -> (r: Ir)
    ensures
        r@ == concat_doc(
            match value {
                Some(v) => if name_empty {
                    seq![Doc::Text("= "@), v@]
                } else {
                    seq![name@, Doc::Text(" = "@), v@]
                },
                None => if name_empty {
                    seq![Doc::Text("="@)]
                } else {
                    seq![name@, Doc::Text(" ="@)]
                },
            },
        ),
{
    let ghost gv = value;
    let ghost gn = name;
    let mut items: Vec<Ir> = Vec::new();
    match value {
        Some(v) => {
            if name_empty {
                items.push(Ir::text("= "));
            } else {
                items.push(name);
                items.push(Ir::text(" = "));
            }
            items.push(v);
        },
        None => {
            if name_empty {
                items.push(Ir::text("="));
            } else {
                items.push(name);
                items.push(Ir::text(" ="));
            }
        },
    }
    proof {
        match gv {
            Some(v) => if name_empty {
                lemma_irs_view_eq(items@, seq![Doc::Text("= "@), v@]);
            } else {
                lemma_irs_view_eq(items@, seq![gn@, Doc::Text(" = "@), v@]);
            },
            None => if name_empty {
                lemma_irs_view_eq(items@, seq![Doc::Text("="@)]);
            } else {
                lemma_irs_view_eq(items@, seq![gn@, Doc::Text(" ="@)]);
            },
        }
    }
    Ir::concat(items)
}

/// The one node among children `sig` of `n`, when there is exactly one
/// significant child and it is a node.
fn single_node(n: &SyntaxNode, sig: &Vec<usize>) -> (r: Option<usize>)
    requires
        forall|j: int| 0 <= j < sig@.len() ==> #[trigger] sig@[j] < n.children@.len(),
    ensures
        r matches Some(k) ==> k < n.children@.len() && n.children@[k as int] is Node,
        r == (if sig@.len() == 1 && n.children@[sig@[0] as int] is Node {
            Some(sig@[0])
        } else {
            None
        }),
{
    if sig.len() != 1 {
        return None;
    }
    match &n.children[sig[0]] {
        SyntaxElement::Node(_) => Some(sig[0]),
        SyntaxElement::Token(_) => None,
    }
}

/// One argument of a call without comments: `name = value` (with an
/// embraced symbol as value kept as one), an embraced symbol, or an
/// expression.
/// The layout of an argument slot, or the error.
pub(crate) open spec fn slot_layout(r: Result<ArgSlot, FormatError>) -> Option<Result<Ir, FormatError>> {
    match r {
        Ok(ArgSlot::Expr { ir, .. }) => Some(Ok(ir)),
        Ok(_) => None,
        Err(e) => Some(Err(e)),
    }
}

fn ir_call_argument(arg: &SyntaxNode) -> (r: Result<ArgSlot, FormatError>)
    ensures
        crate::formatter::engine::not_parse_error(r),
        crate::ast::first_token_from(arg.children@, 0, SyntaxKind::ASSIGN_EQ) matches Some(e) ==> (
        crate::formatter::engine::sig_seq(arg.children@, 0, e, false).len() > 1 ==> (r matches Err(
            FormatError::AmbiguousConstruct { context, snippet },
        ) && context@ == "named arg name"@ && snippet@ == crate::syntax::children_text(
            arg.children@.subrange(0, e),
        ))),
        ({
            let cs = arg.children@;
            let sig = crate::formatter::engine::sig_seq(cs, 0, cs.len() as int, false);
            (crate::ast::first_token_from(cs, 0, SyntaxKind::ASSIGN_EQ) is None && !sig_one_block(cs, sig))
                ==> (slot_layout(r) matches Some(l) && crate::formatter::engine::segment_result(
                cs,
                0,
                cs.len() as int,
                "call argument",
                l,
            ))
        }),
        r matches Ok(s) ==> !hole(s),
        r matches Ok(s) ==> s is Expr,
        r matches Ok(ArgSlot::Expr { ir, ends_in_block: ends, positional_function: pf }) ==> (
        crate::ast::first_token_from(arg.children@, 0, SyntaxKind::ASSIGN_EQ) matches Some(e) ==> ({
            let cs = arg.children@;
            let vsig = crate::formatter::engine::sig_seq(cs, e + 1, cs.len() as int, false);
            &&& !pf
            &&& ends == lone_ends_in_block(cs, vsig)
            &&& named_arg_shape(ir@, crate::formatter::engine::sig_seq(cs, 0, e, false).len(), vsig.len())
        })),
        r matches Ok(ArgSlot::Expr { ir, ends_in_block: ends, positional_function: pf }) ==> (
        crate::ast::first_token_from(arg.children@, 0, SyntaxKind::ASSIGN_EQ) is None ==> ({
            let cs = arg.children@;
            let sig = crate::formatter::engine::sig_seq(cs, 0, cs.len() as int, false);
            &&& ends == lone_ends_in_block(cs, sig)
            &&& pf == (lone_node(cs, sig) matches Some(m) && m.kind == SyntaxKind::FUNCTION_EXPR)
        })),
    decreases crate::syntax::node_text(*arg).len(), arg, 7int,
{
    let len = arg.children.len();
    let eq = find_token_from(arg.children.as_slice(), 0, SyntaxKind::ASSIGN_EQ);
    proof {
        crate::ast::lemma_first_token_from(arg.children@, 0, SyntaxKind::ASSIGN_EQ);
    }
    match eq {
        Some(e) => {
            let name_sig = significant_indices(arg, 0, e, false);
            let name_empty = name_sig.len() == 0;
            let name = if name_empty {
                Ir::nil()
            } else {
                ir_expr_segment(arg, 0, e, "named arg name")?
            };
            let value_sig = significant_indices(arg, e + 1, len, false);
            let ends = match single_node(arg, &value_sig) {
                Some(v) => match &arg.children[v] {
                    SyntaxElement::Node(node) => expr_ends_in_block(node),
                    SyntaxElement::Token(_) => false,
                },
                None => false,
            };
            let value = if value_sig.len() == 0 {
                None
            } else {
                match ir_curly_curly(arg, &value_sig)? {
                    Some(curly) => Some(curly),
                    None => Some(ir_expr_segment(arg, e + 1, len, "named arg value")?),
                }
            };
            let ghost (gn, gv) = (name, value);
            let ir = build_named_arg_ir(name, name_empty, value);
            proof {
                let vd = match gv {
                    Some(v) => Some(v@),
                    None => None::<Doc>,
                };
                assert(ir@ == named_arg_doc(gn@, name_empty, vd));
                assert(vd is None <==> value_sig@.len() == 0);
                assert(ends == lone_ends_in_block(arg.children@, value_sig@));
                assert(crate::ast::first_token_from(arg.children@, 0, SyntaxKind::ASSIGN_EQ) == Some(e as int));
                assert(value_sig@ == crate::formatter::engine::sig_seq(arg.children@, e + 1, arg.children@.len() as int, false));
                assert(name_empty == (crate::formatter::engine::sig_seq(arg.children@, 0, e as int, false).len() == 0));
                assert(named_arg_shape(ir@, name_sig@.len(), value_sig@.len()));
            }
            Ok(ArgSlot::Expr { ir, ends_in_block: ends, positional_function: false })
        },
        None => {
            let sig = significant_indices(arg, 0, len, false);
            let (ends, function) = match single_node(arg, &sig) {
                Some(v) => match &arg.children[v] {
                    SyntaxElement::Node(node) => (
                        expr_ends_in_block(node),
                        node.kind == SyntaxKind::FUNCTION_EXPR,
                    ),
                    SyntaxElement::Token(_) => (false, false),
                },
                None => (false, false),
            };
            let ir = match ir_curly_curly(arg, &sig)? {
                Some(curly) => curly,
                None => ir_expr_segment(arg, 0, len, "call argument")?,
            };
            assert(ends == lone_ends_in_block(arg.children@, sig@));
            assert(function == (lone_node(arg.children@, sig@) matches Some(m) && m.kind
                == SyntaxKind::FUNCTION_EXPR));
            Ok(ArgSlot::Expr { ir, ends_in_block: ends, positional_function: function })
        },
    }
}

/// Whether some child of `n` is not whitespace or a newline.
fn has_significant(n: &SyntaxNode) -> (b: bool)
    ensures
        b == exists|j: int|
            0 <= j < n.children@.len() && !crate::formatter::trivia::trivia_kind(
                #[trigger] crate::ast::elem_kind(n.children@[j]),
            ),
{
    let mut k: usize = 0;
    while k < n.children.len()
        invariant
            k <= n.children@.len(),
            forall|j: int|
                0 <= j < k ==> crate::formatter::trivia::trivia_kind(
                    #[trigger] crate::ast::elem_kind(n.children@[j]),
                ),
        decreases n.children@.len() - k,
    {
        if !is_trivia(element_kind(&n.children[k])) {
            return true;
        }
        k += 1;
    }
    false
}

/// Whether some child of `n` is a token of kind `kind`.
fn has_token(n: &SyntaxNode, kind: SyntaxKind) -> (b: bool)
    ensures
        b == exists|j: int|
            0 <= j < n.children@.len() && #[trigger] crate::ast::is_token_of(n.children@[j], kind),
{
    let mut k: usize = 0;
    while k < n.children.len()
        invariant
            k <= n.children@.len(),
            forall|j: int| 0 <= j < k ==> !#[trigger] crate::ast::is_token_of(n.children@[j], kind),
        decreases n.children@.len() - k,
    {
        if is_token_kind(&n.children[k], kind) {
            return true;
        }
        k += 1;
    }
    false
}

/// The slots of a call's argument list without comments, and the number of
/// commas.
fn collect_call_ir_slots(list: &SyntaxNode) -> (r: Result<(Vec<ArgSlot>, usize), FormatError>)
    ensures
        crate::formatter::engine::not_parse_error(r),
        r matches Ok(d) ==> d.0@.len() > 0,
    decreases crate::syntax::node_text(*list).len(), list, 8int,
{
    let mut slots: Vec<ArgSlot> = Vec::new();
    let mut commas: usize = 0;
    let mut current: Option<ArgSlot> = None;
    let mut k: usize = 0;
    while k < list.children.len()
        invariant
            k <= list.children@.len(),
            commas <= k,
        decreases list.children@.len() - k,
    {
        proof {
            crate::syntax::lemma_child_text_len(list.children@, k as int);
        }
        assert(decreases_to!(list => list.children@[k as int]));
        match &list.children[k] {
            SyntaxElement::Node(arg) => {
                if arg.kind == SyntaxKind::ARG && has_significant(arg) {
                    current = Some(ir_call_argument(arg)?);
                }
            },
            SyntaxElement::Token(tok) => {
                if tok.kind == SyntaxKind::COMMA {
                    match current {
                        Some(slot) => slots.push(slot),
                        None => slots.push(ArgSlot::Empty),
                    }
                    current = None;
                    commas += 1;
                }
            },
        }
        k += 1;
    }
    match current {
        Some(slot) => slots.push(slot),
        None => slots.push(ArgSlot::Empty),
    }
    Ok((slots, commas))
}

/// Some child of `n` is neither whitespace nor a newline.
pub open spec fn has_content(n: SyntaxNode) -> bool {
    exists|j: int|
        0 <= j < n.children@.len() && !crate::formatter::trivia::trivia_kind(
            #[trigger] crate::ast::elem_kind(n.children@[j]),
        )
}

/// Some child of `n` is a token of kind `k`.
pub open spec fn has_token_of(n: SyntaxNode, k: SyntaxKind) -> bool {
    exists|j: int| 0 <= j < n.children@.len() && #[trigger] crate::ast::is_token_of(n.children@[j], k)
}

/// A `function` definition (not a `\\(x)` lambda) is `n` or occurs under it.
pub open spec fn defines_fn(n: SyntaxNode) -> bool
    decreases n,
{
    (n.kind == SyntaxKind::FUNCTION_EXPR && has_token_of(n, SyntaxKind::FUNCTION_KW))
        || defines_fn_in(n.children@)
}

pub open spec fn elem_defines_fn(e: SyntaxElement) -> bool
    decreases e,
{
    match e {
        SyntaxElement::Node(m) => defines_fn(m),
        SyntaxElement::Token(_) => false,
    }
}

pub open spec fn defines_fn_in(cs: Seq<SyntaxElement>) -> bool
    decreases cs,
{
    if cs.len() == 0 {
        false
    } else {
        defines_fn_in(cs.subrange(0, cs.len() - 1)) || elem_defines_fn(cs[cs.len() - 1])
    }
}

proof fn lemma_defines_fn_in(cs: Seq<SyntaxElement>)
    ensures
        defines_fn_in(cs) <==> exists|j: int| 0 <= j < cs.len() && #[trigger] elem_defines_fn(cs[j]),
    decreases cs.len(),
{
    if cs.len() > 0 {
        let p = cs.subrange(0, cs.len() - 1);
        lemma_defines_fn_in(p);
        if defines_fn_in(p) {
            let j = choose|j: int| 0 <= j < p.len() && #[trigger] elem_defines_fn(p[j]);
            assert(p[j] == cs[j]);
            assert(elem_defines_fn(cs[j]));
        } else if defines_fn_in(cs) {
            assert(elem_defines_fn(cs[cs.len() - 1]));
        }
        if exists|j: int| 0 <= j < cs.len() && #[trigger] elem_defines_fn(cs[j]) {
            let j = choose|j: int| 0 <= j < cs.len() && #[trigger] elem_defines_fn(cs[j]);
            if j < cs.len() - 1 {
                assert(p[j] == cs[j]);
            }
        }
    }
}

/// `e` is an argument node with some content.
pub open spec fn nonempty_arg(e: SyntaxElement) -> bool {
    e matches SyntaxElement::Node(a) && a.kind == SyntaxKind::ARG && has_content(a)
}

/// `e` is a named argument node (it holds `=`) that defines a function.
pub open spec fn named_function_arg(e: SyntaxElement) -> bool {
    e matches SyntaxElement::Node(a) && a.kind == SyntaxKind::ARG && has_token_of(
        a,
        SyntaxKind::ASSIGN_EQ,
    ) && defines_fn(a)
}

/// The number of elements of `cs` for which `p` holds.
pub open spec fn count_of(cs: Seq<SyntaxElement>, p: spec_fn(SyntaxElement) -> bool) -> nat
    decreases cs.len(),
{
    if cs.len() == 0 {
        0
    } else {
        count_of(cs.drop_last(), p) + if p(cs.last()) {
            1nat
        } else {
            0nat
        }
    }
}

/// The index of the first node of kind `k` among `cs[from..]`.
pub open spec fn first_node_of(cs: Seq<SyntaxElement>, from: int, k: SyntaxKind) -> Option<int>
    decreases cs.len() - from,
{
    if from < 0 || from >= cs.len() {
        None
    } else if cs[from] matches SyntaxElement::Node(m) && m.kind == k {
        Some(from)
    } else {
        first_node_of(cs, from + 1, k)
    }
}

proof fn lemma_first_node_of(cs: Seq<SyntaxElement>, from: int, k: SyntaxKind)
    ensures
        first_node_of(cs, from, k) matches Some(i) ==> from <= i < cs.len() && (cs[i] matches SyntaxElement::Node(m)
            && m.kind == k),
    decreases cs.len() - from,
{
    if 0 <= from < cs.len() && !(cs[from] matches SyntaxElement::Node(m) && m.kind == k) {
        lemma_first_node_of(cs, from + 1, k);
    }
}

/// An element of an argument list that gives it content: a comma or an
/// argument with content.
pub open spec fn list_item_content(e: SyntaxElement) -> bool {
    crate::ast::is_token_of(e, SyntaxKind::COMMA) || nonempty_arg(e)
}

/// The first argument list among the children of `n` has a comma or an
/// argument with content.
pub open spec fn call_has_content(n: SyntaxNode) -> bool {
    match first_node_of(n.children@, 0, SyntaxKind::ARG_LIST) {
        Some(i) => n.children@[i] matches SyntaxElement::Node(l) && exists|j: int|
            0 <= j < l.children@.len() && #[trigger] list_item_content(l.children@[j]),
        None => false,
    }
}

/// `n` ends in a bracketed list that can break: a call or subset with
/// content, a function definition, or an operator whose last operand is
/// such a node.
pub open spec fn huggable(n: SyntaxNode) -> bool
    decreases n,
{
    if n.kind == SyntaxKind::CALL_EXPR || n.kind == SyntaxKind::SUBSET_EXPR || n.kind
        == SyntaxKind::SUBSET2_EXPR {
        call_has_content(n)
    } else if n.kind == SyntaxKind::FUNCTION_EXPR {
        true
    } else if n.kind == SyntaxKind::BINARY_EXPR {
        huggable_last(n.children@)
    } else {
        false
    }
}

/// The last node among `cs` is [`huggable`].
pub open spec fn huggable_last(cs: Seq<SyntaxElement>) -> bool
    decreases cs,
{
    if cs.len() == 0 {
        false
    } else {
        match cs[cs.len() - 1] {
            SyntaxElement::Node(m) => huggable(m),
            SyntaxElement::Token(_) => huggable_last(cs.subrange(0, cs.len() - 1)),
        }
    }
}

proof fn lemma_huggable_last(cs: Seq<SyntaxElement>, last: Option<usize>)
    requires
        last matches Some(i) ==> i < cs.len() && cs[i as int] is Node && forall|j: int|
            i < j < cs.len() ==> #[trigger] cs[j] is Token,
        last is None ==> forall|j: int| 0 <= j < cs.len() ==> #[trigger] cs[j] is Token,
    ensures
        huggable_last(cs) == match last {
            Some(i) => cs[i as int] matches SyntaxElement::Node(m) && huggable(m),
            None => false,
        },
    decreases cs.len(),
{
    if cs.len() > 0 {
        let p = cs.subrange(0, cs.len() - 1);
        match last {
            Some(i) => {
                if i < cs.len() - 1 {
                    assert(cs[cs.len() - 1] is Token);
                    assert forall|j: int| i < j < p.len() implies #[trigger] p[j] is Token by {
                        assert(p[j] == cs[j]);
                    }
                    assert(p[i as int] == cs[i as int]);
                    lemma_huggable_last(p, last);
                }
            },
            None => {
                assert(cs[cs.len() - 1] is Token);
                assert forall|j: int| 0 <= j < p.len() implies #[trigger] p[j] is Token by {
                    assert(p[j] == cs[j]);
                }
                lemma_huggable_last(p, last);
            },
        }
    }
}

/// Whether `n` ends in a bracketed list that can break: a call or subset
/// with some argument, a function definition, or an operator whose right
/// side is one.
fn is_huggable_node(n: &SyntaxNode) -> (b: bool)
    ensures
        b == huggable(*n),
    decreases n,
{
    if n.kind == SyntaxKind::CALL_EXPR || n.kind == SyntaxKind::SUBSET_EXPR || n.kind
        == SyntaxKind::SUBSET2_EXPR {
        return call_or_subset_has_content(n);
    }
    if n.kind == SyntaxKind::FUNCTION_EXPR {
        return true;
    }
    if n.kind != SyntaxKind::BINARY_EXPR {
        return false;
    }
    let mut last: Option<usize> = None;
    let mut k: usize = 0;
    while k < n.children.len()
        invariant
            k <= n.children@.len(),
            last matches Some(i) ==> i < k && n.children@[i as int] is Node && forall|j: int|
                i < j < k ==> #[trigger] n.children@[j] is Token,
            last is None ==> forall|j: int| 0 <= j < k ==> #[trigger] n.children@[j] is Token,
        decreases n.children@.len() - k,
    {
        if let SyntaxElement::Node(_) = &n.children[k] {
            last = Some(k);
        }
        k += 1;
    }
    proof {
        lemma_huggable_last(n.children@, last);
    }
    match last {
        Some(i) => {
            proof {
                crate::syntax::lemma_child_text_len(n.children@, i as int);
            }
            assert(decreases_to!(n => n.children@[i as int]));
            match &n.children[i] {
                SyntaxElement::Node(rhs) => is_huggable_node(rhs),
                SyntaxElement::Token(_) => false,
            }
        },
        None => false,
    }
}

/// Whether the argument list of a call or subset has a comma or an argument
/// with content.
fn call_or_subset_has_content(n: &SyntaxNode) -> (b: bool)
    ensures
        b == call_has_content(*n),
{
    let mut k: usize = 0;
    while k < n.children.len()
        invariant
            k <= n.children@.len(),
            first_node_of(n.children@, 0, SyntaxKind::ARG_LIST) == first_node_of(
                n.children@,
                k as int,
                SyntaxKind::ARG_LIST,
            ),
        decreases n.children@.len() - k,
    {
        if let SyntaxElement::Node(list) = &n.children[k] {
            if list.kind == SyntaxKind::ARG_LIST {
                assert(first_node_of(n.children@, 0, SyntaxKind::ARG_LIST) == Some(k as int));
                let mut j: usize = 0;
                while j < list.children.len()
                    invariant
                        j <= list.children@.len(),
                        k < n.children@.len(),
                        n.children@[k as int] == SyntaxElement::Node(*list),
                        first_node_of(n.children@, 0, SyntaxKind::ARG_LIST) == Some(k as int),
                        forall|t: int| 0 <= t < j ==> !#[trigger] list_item_content(list.children@[t]),
                    decreases list.children@.len() - j,
                {
                    match &list.children[j] {
                        SyntaxElement::Token(tok) => {
                            if tok.kind == SyntaxKind::COMMA {
                                assert(list_item_content(list.children@[j as int]));
                                return true;
                            }
                        },
                        SyntaxElement::Node(arg) => {
                            if arg.kind == SyntaxKind::ARG && has_significant(arg) {
                                assert(list_item_content(list.children@[j as int]));
                                return true;
                            }
                        },
                    }
                    j += 1;
                }
                return false;
            }
        }
        k += 1;
    }
    false
}

/// `e` is an argument node.
pub open spec fn is_arg(e: SyntaxElement) -> bool {
    e matches SyntaxElement::Node(a) && a.kind == SyntaxKind::ARG
}

/// The index of the last argument node among `cs`.
pub open spec fn last_arg(cs: Seq<SyntaxElement>) -> Option<int>
    decreases cs.len(),
{
    if cs.len() == 0 {
        None
    } else if is_arg(cs.last()) {
        Some(cs.len() - 1)
    } else {
        last_arg(cs.drop_last())
    }
}

proof fn lemma_last_arg(cs: Seq<SyntaxElement>)
    ensures
        last_arg(cs) matches Some(i) ==> 0 <= i < cs.len() && is_arg(cs[i]),
    decreases cs.len(),
{
    if cs.len() > 0 {
        lemma_last_arg(cs.drop_last());
    }
}

/// The argument `arg` is one positional node that is [`huggable`].
pub open spec fn lone_huggable_value(arg: SyntaxNode) -> bool {
    let sig = crate::formatter::engine::sig_seq(arg.children@, 0, arg.children@.len() as int, false);
    &&& !has_token_of(arg, SyntaxKind::ASSIGN_EQ)
    &&& sig.len() == 1
    &&& arg.children@[sig[0] as int] matches SyntaxElement::Node(v) && huggable(v)
}

/// Whether the call's only argument is positional and ends in a list that
/// can break, so the call's parentheses hug it.
fn single_arg_is_huggable(list: &SyntaxNode) -> (b: bool)
    ensures
        b == (count_of(list.children@, |e: SyntaxElement| is_arg(e)) == 1 && (last_arg(
            list.children@,
        ) matches Some(a) && list.children@[a] matches SyntaxElement::Node(arg)
            && lone_huggable_value(arg))),
{
    let mut arg_idx: Option<usize> = None;
    let mut count: usize = 0;
    let mut k: usize = 0;
    while k < list.children.len()
        invariant
            k <= list.children@.len(),
            count <= k,
            arg_idx matches Some(i) ==> i < list.children@.len(),
            count == count_of(list.children@.subrange(0, k as int), |e: SyntaxElement| is_arg(e)),
            crate::ast::opt_index(arg_idx) == last_arg(list.children@.subrange(0, k as int)),
        decreases list.children@.len() - k,
    {
        proof {
            assert(list.children@.subrange(0, k + 1).drop_last() =~= list.children@.subrange(
                0,
                k as int,
            ));
        }
        if let SyntaxElement::Node(arg) = &list.children[k] {
            if arg.kind == SyntaxKind::ARG {
                count += 1;
                arg_idx = Some(k);
            }
        }
        k += 1;
    }
    proof {
        assert(list.children@.subrange(0, list.children@.len() as int) =~= list.children@);
        lemma_last_arg(list.children@);
    }
    if count != 1 {
        return false;
    }
    let a = match arg_idx {
        Some(a) => a,
        None => {
            return false;
        },
    };
    let arg = match &list.children[a] {
        SyntaxElement::Node(arg) => arg,
        SyntaxElement::Token(_) => {
            return false;
        },
    };
    if has_token(arg, SyntaxKind::ASSIGN_EQ) {
        return false;
    }
    let sig = significant_indices(arg, 0, arg.children.len(), false);
    match single_node(arg, &sig) {
        Some(v) => match &arg.children[v] {
            SyntaxElement::Node(node) => is_huggable_node(node),
            SyntaxElement::Token(_) => false,
        },
        None => false,
    }
}

/// Whether a `function` definition (not a `\(x)` lambda) occurs in `n` or
/// under it.
fn defines_function(n: &SyntaxNode) -> (b: bool)
    ensures
        b == defines_fn(*n),
    decreases n,
{
    if n.kind == SyntaxKind::FUNCTION_EXPR && has_token(n, SyntaxKind::FUNCTION_KW) {
        return true;
    }
    proof {
        lemma_defines_fn_in(n.children@);
    }
    let mut k: usize = 0;
    while k < n.children.len()
        invariant
            k <= n.children@.len(),
            !(n.kind == SyntaxKind::FUNCTION_EXPR && has_token_of(*n, SyntaxKind::FUNCTION_KW)),
            forall|j: int| 0 <= j < k ==> !#[trigger] elem_defines_fn(n.children@[j]),
            defines_fn_in(n.children@) <==> exists|j: int|
                0 <= j < n.children@.len() && #[trigger] elem_defines_fn(n.children@[j]),
        decreases n.children@.len() - k,
    {
        proof {
            crate::syntax::lemma_child_text_len(n.children@, k as int);
        }
        assert(decreases_to!(n => n.children@[k as int]));
        if let SyntaxElement::Node(c) = &n.children[k] {
            if defines_function(c) {
                assert(elem_defines_fn(n.children@[k as int]));
                return true;
            }
        }
        k += 1;
    }
    false
}

/// A call with more than one argument, two of them named and defining a
/// `function`, always puts one argument per line.
fn should_force_multiline_named_functions(list: &SyntaxNode) -> (b: bool)
    ensures
        b == (count_of(list.children@, |e: SyntaxElement| nonempty_arg(e)) > 1 && count_of(
            list.children@,
            |e: SyntaxElement| named_function_arg(e),
        ) >= 2),
{
    let mut non_empty: usize = 0;
    let mut named_functions: usize = 0;
    let mut k: usize = 0;
    while k < list.children.len()
        invariant
            k <= list.children@.len(),
            non_empty <= k,
            named_functions <= k,
            non_empty == count_of(
                list.children@.subrange(0, k as int),
                |e: SyntaxElement| nonempty_arg(e),
            ),
            named_functions == count_of(
                list.children@.subrange(0, k as int),
                |e: SyntaxElement| named_function_arg(e),
            ),
        decreases list.children@.len() - k,
    {
        proof {
            assert(list.children@.subrange(0, k + 1).drop_last() =~= list.children@.subrange(
                0,
                k as int,
            ));
        }
        if let SyntaxElement::Node(arg) = &list.children[k] {
            if arg.kind == SyntaxKind::ARG {
                if has_significant(arg) {
                    non_empty += 1;
                }
                if has_token(arg, SyntaxKind::ASSIGN_EQ) && defines_function(arg) {
                    named_functions += 1;
                }
            }
        }
        k += 1;
    }
    proof {
        assert(list.children@.subrange(0, list.children@.len() as int) =~= list.children@);
    }
    non_empty > 1 && named_functions >= 2
}

/// A call's bracketed arguments: hugging a trailing function definition or
/// block when nothing before it must break, otherwise one group, expanded
/// when named function definitions or a breaking argument after a leading
/// hole require it.
fn build_call_args_ir(slots: &Vec<ArgSlot>, force_named_functions: bool) -> (r: Ir)
    requires
        slots@.len() > 0,
    ensures
        force_named_functions ==> (r@ matches Doc::Group { expand, .. } && expand),
{
    let first = first_non_empty(slots);
    let last = slots.len() - 1;
    if !force_named_functions {
        let mut leading_ok = true;
        let mut j: usize = 0;
        while j < last
            invariant
                last + 1 == slots@.len(),
                j <= last,
            decreases last - j,
        {
            if slots[j].has_forced_break() {
                leading_ok = false;
            }
            j += 1;
        }
        if leading_ok {
            match &slots[last] {
                ArgSlot::Expr { ir, ends_in_block, positional_function } => {
                    if *positional_function {
                        return build_arg_hug(slots, "(", ")", first, true);
                    }
                    if *ends_in_block && ir.contains_forced_break() {
                        return build_arg_hug(slots, "(", ")", first, false);
                    }
                },
                _ => {},
            }
        }
    }
    let leading_hole = slots[0].is_empty_hole();
    let force = force_named_functions || should_force_leading_hole_expand(slots, first);
    let hug_leading_hole = force && leading_hole && !force_named_functions;
    build_arg_group(slots, "(", ")", first, force, hug_leading_hole)
}

/// One argument of a call whose list holds comments.
struct IrCallArg {
    ir: Ir,
    /// A hole, as in `f(, a)`.
    is_empty: bool,
    /// The comment of an argument that is a comment alone.
    comment: Option<String>,
    /// A newline comes before the argument in the source.
    leading_newline: bool,
    /// The argument is written ending in `=` (a named argument without
    /// value).
    ends_with_eq: bool,
}

/// The argument list of a call with comments, as a stream of arguments and
/// commas.
enum IrCallItem {
    Arg(IrCallArg),
    Comma { newline_after: bool },
}

/// Whether a newline separates child `idx` of `list` from the comma, `(`
/// or argument before it (whitespace and comments in between).
/// Going back from position `j` of `cs` over whitespace and comments, a
/// newline comes before anything else.
pub open spec fn newline_before(cs: Seq<SyntaxElement>, j: int) -> bool
    decreases j,
{
    if j <= 0 || j > cs.len() {
        false
    } else {
        match cs[j - 1] {
            SyntaxElement::Token(t) => if t.kind == SyntaxKind::NEWLINE {
                true
            } else if t.kind == SyntaxKind::WHITESPACE || t.kind == SyntaxKind::COMMENT {
                newline_before(cs, j - 1)
            } else {
                false
            },
            SyntaxElement::Node(_) => false,
        }
    }
}

/// Going forward from position `j` of `cs` over whitespace and comments, a
/// newline comes before anything else.
pub open spec fn newline_after(cs: Seq<SyntaxElement>, j: int) -> bool
    decreases cs.len() - j,
{
    if j < 0 || j >= cs.len() {
        false
    } else {
        match cs[j] {
            SyntaxElement::Token(t) => if t.kind == SyntaxKind::NEWLINE {
                true
            } else if t.kind == SyntaxKind::WHITESPACE || t.kind == SyntaxKind::COMMENT {
                newline_after(cs, j + 1)
            } else {
                false
            },
            SyntaxElement::Node(_) => false,
        }
    }
}

fn has_newline_before_arg(list: &SyntaxNode, idx: usize) -> (b: bool)
    requires
        idx <= list.children@.len(),
    ensures
        b == newline_before(list.children@, idx as int),
{
    let mut j = idx;
    while j > 0
        invariant
            j <= idx <= list.children@.len(),
            newline_before(list.children@, j as int) == newline_before(list.children@, idx as int),
        decreases j,
    {
        j -= 1;
        match &list.children[j] {
            SyntaxElement::Token(tok) => {
                if tok.kind == SyntaxKind::NEWLINE {
                    return true;
                }
                if tok.kind != SyntaxKind::WHITESPACE && tok.kind != SyntaxKind::COMMENT {
                    return false;
                }
            },
            SyntaxElement::Node(_) => {
                return false;
            },
        }
    }
    false
}

/// Whether a newline follows child `idx` of `list` before the next argument
/// or comma (whitespace and comments in between).
fn comma_followed_by_newline(list: &SyntaxNode, idx: usize) -> (b: bool)
    ensures
        b == newline_after(list.children@, idx + 1),
{
    let mut j: usize = idx;
    while j < list.children.len()
        invariant
            idx <= j,
            j <= list.children@.len() || j == idx,
            j > idx ==> newline_after(list.children@, j as int) == newline_after(
                list.children@,
                idx + 1,
            ),
        decreases list.children@.len() - j,
    {
        if j > idx {
            match &list.children[j] {
                SyntaxElement::Token(tok) => {
                    if tok.kind == SyntaxKind::NEWLINE {
                        return true;
                    }
                    if tok.kind != SyntaxKind::WHITESPACE && tok.kind != SyntaxKind::COMMENT {
                        return false;
                    }
                },
                SyntaxElement::Node(_) => {
                    return false;
                },
            }
        }
        j += 1;
    }
    false
}

/// `e` is a comment or a trivia token.
pub open spec fn comment_or_trivia(e: SyntaxElement) -> bool {
    e matches SyntaxElement::Token(t) && (t.kind == SyntaxKind::COMMENT || trivia_kind(t.kind))
}

/// The first child of `cs` from `lo` on that is neither a comment nor
/// trivia, or the end of `cs`.
pub open spec fn rhs_start(cs: Seq<SyntaxElement>, lo: int) -> int
    decreases cs.len() - lo,
{
    if lo >= cs.len() {
        cs.len() as int
    } else if comment_or_trivia(cs[lo]) {
        rhs_start(cs, lo + 1)
    } else {
        lo
    }
}

/// The texts of the comment tokens among `cs[lo..hi]`, in order.
pub open spec fn comment_texts_in(cs: Seq<SyntaxElement>, lo: int, hi: int) -> Seq<Seq<char>>
    decreases hi - lo,
{
    if hi <= lo {
        seq![]
    } else {
        let p = comment_texts_in(cs, lo, hi - 1);
        if crate::ast::is_token_of(cs[hi - 1], SyntaxKind::COMMENT) {
            p.push(cs[hi - 1]->Token_0.text@)
        } else {
            p
        }
    }
}

/// The value after `=` at children `lo..` of `arg`: the comments before it,
/// then its layout (an embraced symbol, or an expression with an optional
/// trailing comment), or nothing when only comments follow.
fn ir_rhs_with_leading_comments(arg: &SyntaxNode, lo: usize) -> (r: Result<
    (Vec<String>, Option<Ir>),
    FormatError,
>)
    requires
        lo <= arg.children@.len(),
    ensures
        crate::formatter::engine::not_parse_error(r),
        rhs_start(arg.children@, lo as int) == arg.children@.len() ==> (r matches Ok((lead, None))
            && lead@.map_values(|s: String| s@) == comment_texts_in(
            arg.children@,
            lo as int,
            arg.children@.len() as int,
        )),
        r matches Ok((lead, v)) ==> (v is None <==> rhs_start(arg.children@, lo as int)
            == arg.children@.len()) && lead@.map_values(|s: String| s@) == comment_texts_in(
            arg.children@,
            lo as int,
            rhs_start(arg.children@, lo as int),
        ),
    decreases crate::syntax::node_text(*arg).len(), arg, 7int,
{
    let len = arg.children.len();
    let mut leading: Vec<String> = Vec::new();
    let mut idx = lo;
    let ghost cs = arg.children@;
    while idx < len
        invariant
            len == arg.children@.len(),
            cs == arg.children@,
            lo <= idx <= len,
            rhs_start(cs, idx as int) == rhs_start(cs, lo as int),
            leading@.map_values(|s: String| s@) == comment_texts_in(cs, lo as int, idx as int),
        ensures
            lo <= idx <= len,
            idx == rhs_start(cs, lo as int),
            leading@.map_values(|s: String| s@) == comment_texts_in(cs, lo as int, idx as int),
        decreases len - idx,
    {
        match &arg.children[idx] {
            SyntaxElement::Token(tok) => {
                if tok.kind == SyntaxKind::COMMENT {
                    leading.push(tok.text.clone());
                    assert(leading@.map_values(|s: String| s@) =~= comment_texts_in(
                        cs,
                        lo as int,
                        idx as int + 1,
                    ));
                } else if !is_trivia(tok.kind) {
                    break;
                }
            },
            SyntaxElement::Node(_) => {
                break;
            },
        }
        idx += 1;
    }
    if idx >= len {
        return Ok((leading, None));
    }
    let vsig = significant_indices(arg, idx, len, false);
    let value = match ir_curly_curly_with_comments(arg, &vsig)? {
        Some(curly) => curly,
        None => ir_expr_with_optional_comment(arg, idx, len, "assignment rhs")?,
    };
    Ok((leading, Some(value)))
}

/// One line per comment of `cms`, then `base`.
pub open spec fn prepend_doc(cms: Seq<String>, base: Doc) -> Doc {
    if cms.len() == 0 {
        base
    } else {
        concat_doc(comment_line_docs(cms).push(base))
    }
}

/// `ir` is a named argument, with or without name and value, under lines
/// holding the comments `comments`.
pub open spec fn commented_named_doc(ir: Doc, comments: Seq<Seq<char>>, name_empty: bool, value_empty: bool) -> bool {
    exists|cms: Seq<String>, nd: Doc, vd: Option<Doc>|
        cms.map_values(|x: String| x@) == comments && (vd is None <==> value_empty) && ir
            == #[trigger] prepend_doc(cms, named_arg_doc(nd, name_empty, vd))
}

/// The comments that a named argument with children `cs` and its `=` at
/// `e` moves above it: those before `=`, then those before the value.
pub open spec fn named_arg_comments(cs: Seq<SyntaxElement>, e: int) -> Seq<Seq<char>> {
    let all = crate::formatter::engine::sig_seq(cs, 0, e, false);
    comments_at(cs, all, 0, all.len() as int) + comment_texts_in(cs, e + 1, rhs_start(cs, e + 1))
}

/// The layout of an argument that is not a comment alone, and whether it
/// is written ending in `=`. Comments before the name, around `=` and
/// before the value move onto lines of their own above the argument.
fn ir_call_arg_value(arg: &SyntaxNode, sig: &Vec<usize>) -> (r: Result<(Ir, bool), FormatError>)
    requires
        forall|j: int| 0 <= j < sig@.len() ==> #[trigger] sig@[j] < arg.children@.len(),
    ensures
        crate::formatter::engine::not_parse_error(r),
        !sig_one_block(arg.children@, sig@) ==> (crate::ast::first_token_from(
            arg.children@,
            0,
            SyntaxKind::ASSIGN_EQ,
        ) is None ==> (r matches Ok((_, ends)) ==> !ends)),
        !sig_one_block(arg.children@, sig@) ==> (crate::ast::first_token_from(
            arg.children@,
            0,
            SyntaxKind::ASSIGN_EQ,
        ) is None ==> ({
            let cs = arg.children@;
            let s = crate::formatter::engine::sig_seq(cs, 0, cs.len() as int, false);
            match crate::formatter::engine::trailing_comment(cs, s) {
                Some(c) => crate::formatter::engine::commented_result(cs, s[0] as int, c, layout_of2(r)),
                None => crate::formatter::engine::segment_result(
                    cs,
                    0,
                    cs.len() as int,
                    "positional arg",
                    layout_of2(r),
                ),
            }
        })),
        !sig_one_block(arg.children@, sig@) ==> (crate::ast::first_token_from(
            arg.children@,
            0,
            SyntaxKind::ASSIGN_EQ,
        ) matches Some(e) ==> ({
            let cs = arg.children@;
            let names = crate::formatter::engine::sig_seq(cs, 0, e, true).len();
            &&& names > 1 ==> (r matches Err(FormatError::AmbiguousConstruct { context, .. })
                && context@ == "named arg name"@)
            &&& r matches Ok((ir, ends)) ==> names <= 1 && ends == (rhs_start(cs, e + 1) == cs.len())
                && commented_named_doc(ir@, named_arg_comments(cs, e), names == 0, ends)
        })),
    decreases crate::syntax::node_text(*arg).len(), arg, 8int,
{
    if let Some(curly) = ir_curly_curly_with_comments(arg, sig)? {
        return Ok((curly, false));
    }
    let len = arg.children.len();
    let eq = find_token_from(arg.children.as_slice(), 0, SyntaxKind::ASSIGN_EQ);
    proof {
        crate::ast::lemma_first_token_from(arg.children@, 0, SyntaxKind::ASSIGN_EQ);
    }
    match eq {
        Some(e) => {
            let all = significant_indices(arg, 0, e, false);
            let mut comments = comments_among(arg, &all, 0, all.len());
            let name_sig = significant_indices(arg, 0, e, true);
            let name_empty = name_sig.len() == 0;
            let name = if name_empty {
                Ir::nil()
            } else if name_sig.len() == 1 {
                let k = name_sig[0];
                proof {
                    crate::syntax::lemma_child_text_len(arg.children@, k as int);
                }
                assert(decreases_to!(arg => arg.children@[k as int]));
                ir_element(&arg.children[k])?
            } else {
                return Err(
                    FormatError::AmbiguousConstruct {
                        context: "named arg name",
                        snippet: crate::formatter::engine::range_text(arg, 0, e),
                    },
                );
            };
            let (rhs_comments, value) = ir_rhs_with_leading_comments(arg, e + 1)?;
            let value_empty = value.is_none();
            let ghost (gn, gv) = (name, value);
            let base = build_named_arg_ir(name, name_empty, value);
            let ghost first = comments@.map_values(|x: String| x@);
            let mut c: usize = 0;
            while c < rhs_comments.len()
                invariant
                    c <= rhs_comments@.len(),
                    comments@.map_values(|x: String| x@) == first + rhs_comments@.subrange(
                        0,
                        c as int,
                    ).map_values(|x: String| x@),
                decreases rhs_comments@.len() - c,
            {
                let item = rhs_comments[c].clone();
                assert(item@ == rhs_comments@[c as int]@);
                let ghost before = comments@;
                comments.push(item);
                assert(comments@.map_values(|x: String| x@) =~= before.map_values(|x: String| x@).push(item@));
                c += 1;
                assert(rhs_comments@.subrange(0, c as int) =~= rhs_comments@.subrange(
                    0,
                    c - 1,
                ).push(rhs_comments@[c - 1]));
                assert(rhs_comments@.subrange(0, c as int).map_values(|x: String| x@)
                    =~= rhs_comments@.subrange(0, c - 1).map_values(|x: String| x@).push(item@));
                assert(comments@.map_values(|x: String| x@) =~= first + rhs_comments@.subrange(
                    0,
                    c as int,
                ).map_values(|x: String| x@));
            }
            assert(rhs_comments@.subrange(0, c as int) =~= rhs_comments@);
            let res = prepend_comment_lines(&comments, base);
            proof {
                let vd = match gv {
                    Some(v) => Some(v@),
                    None => None::<Doc>,
                };
                assert(base@ == named_arg_doc(gn@, name_empty, vd));
                assert(res@ == prepend_doc(comments@, named_arg_doc(gn@, name_empty, vd)));
                assert(comments@.map_values(|x: String| x@) == named_arg_comments(arg.children@, e as int));
            }
            Ok((res, value_empty))
        },
        None => Ok((ir_expr_with_optional_comment(arg, 0, len, "positional arg")?, false)),
    }
}

/// One argument of a call whose list holds comments.
fn ir_call_comment_arg(arg: &SyntaxNode, leading_newline: bool) -> (r: Result<IrCallArg, FormatError>)
    ensures
        crate::formatter::engine::not_parse_error(r),
        r matches Ok(a) ==> a.leading_newline == leading_newline,
        r matches Ok(a) ==> comment_arg_ok(*arg, a),
        ({
            let cs = arg.children@;
            let sig = crate::formatter::engine::sig_seq(cs, 0, cs.len() as int, false);
            if sig.len() == 0 {
                r matches Ok(a) && a.is_empty && a.ir@ == Doc::Nil && a.comment is None
                    && !a.ends_with_eq
            } else if sig.len() == 1 && crate::ast::is_token_of(cs[sig[0] as int], SyntaxKind::COMMENT) {
                r matches Ok(a) && !a.is_empty && a.ir@ == Doc::Text(cs[sig[0] as int]->Token_0.text@)
                    && (a.comment matches Some(c) && c@ == cs[sig[0] as int]->Token_0.text@)
                    && !a.ends_with_eq
            } else {
                &&& r matches Ok(a) ==> !a.is_empty && a.comment is None
                &&& !sig_one_block(cs, sig) ==> (crate::ast::first_token_from(
                    cs,
                    0,
                    SyntaxKind::ASSIGN_EQ,
                ) matches Some(e) ==> ({
                    let names = crate::formatter::engine::sig_seq(cs, 0, e, true).len();
                    &&& names > 1 ==> r is Err
                    &&& r matches Ok(a) ==> a.ends_with_eq == (rhs_start(cs, e + 1) == cs.len())
                        && commented_named_doc(a.ir@, named_arg_comments(cs, e), names == 0, a.ends_with_eq)
                }))
            }
        }),
    decreases crate::syntax::node_text(*arg).len(), arg, 9int,
{
    let sig = significant_indices(arg, 0, arg.children.len(), false);
    if sig.len() == 0 {
        return Ok(
            IrCallArg {
                ir: Ir::nil(),
                is_empty: true,
                comment: None,
                leading_newline,
                ends_with_eq: false,
            },
        );
    }
    if sig.len() == 1 {
        if let SyntaxElement::Token(tok) = &arg.children[sig[0]] {
            if tok.kind == SyntaxKind::COMMENT {
                return Ok(
                    IrCallArg {
                        ir: Ir::text_string(tok.text.clone()),
                        is_empty: false,
                        comment: Some(tok.text.clone()),
                        leading_newline,
                        ends_with_eq: false,
                    },
                );
            }
        }
    }
    let (ir, ends_with_eq) = ir_call_arg_value(arg, &sig)?;
    Ok(IrCallArg { ir, is_empty: false, comment: None, leading_newline, ends_with_eq })
}

/// What laying out the argument `arg` of a list with comments gave: a
/// hole, a comment alone with its text, or an argument with a layout.
spec fn comment_arg_ok(arg: SyntaxNode, a: IrCallArg) -> bool {
    let cs = arg.children@;
    let sig = crate::formatter::engine::sig_seq(cs, 0, cs.len() as int, false);
    let lone_comment = sig.len() == 1 && crate::ast::is_token_of(cs[sig[0] as int], SyntaxKind::COMMENT);
    &&& a.is_empty == (sig.len() == 0)
    &&& a.is_empty ==> a.ir@ == Doc::Nil && a.comment is None && !a.ends_with_eq
    &&& lone_comment ==> a.ir@ == Doc::Text(cs[sig[0] as int]->Token_0.text@) && (a.comment matches Some(
        c,
    ) && c@ == cs[sig[0] as int]->Token_0.text@) && !a.ends_with_eq
    &&& !lone_comment && sig.len() > 0 ==> a.comment is None
}

/// Child `e` is an argument or a comma.
pub open spec fn is_call_item(e: SyntaxElement) -> bool {
    (e matches SyntaxElement::Node(a) && a.kind == SyntaxKind::ARG) || crate::ast::is_token_of(
        e,
        SyntaxKind::COMMA,
    )
}

/// The positions of the arguments and commas among `cs[0..k]`, in order.
pub open spec fn call_item_positions(cs: Seq<SyntaxElement>, k: int) -> Seq<int>
    decreases k,
{
    if k <= 0 {
        seq![]
    } else {
        let p = call_item_positions(cs, k - 1);
        if is_call_item(cs[k - 1]) {
            p.push(k - 1)
        } else {
            p
        }
    }
}

/// `item` is what child `j` of `cs` gives: an argument with its layout and
/// whether a newline comes before it, or a comma and whether a newline
/// follows it.
spec fn call_item_of(cs: Seq<SyntaxElement>, j: int, item: IrCallItem) -> bool {
    match item {
        IrCallItem::Arg(a) => cs[j] matches SyntaxElement::Node(x) && x.kind == SyntaxKind::ARG
            && a.leading_newline == newline_before(cs, j) && comment_arg_ok(x, a),
        IrCallItem::Comma { newline_after: nl } => crate::ast::is_token_of(cs[j], SyntaxKind::COMMA)
            && nl == newline_after(cs, j + 1),
    }
}

/// The items of a call's argument list with comments, one for each
/// argument and comma of `cs`, in order.
spec fn call_items_of(cs: Seq<SyntaxElement>, items: Seq<IrCallItem>) -> bool {
    let pos = call_item_positions(cs, cs.len() as int);
    items.len() == pos.len() && forall|i: int| 0 <= i < items.len() ==> #[trigger] call_item_of(cs, pos[i], items[i])
}

/// `e` is no argument, or an argument that is empty or a comment alone.
pub open spec fn bare_comment_arg(e: SyntaxElement) -> bool {
    match e {
        SyntaxElement::Node(a) => a.kind == SyntaxKind::ARG ==> ({
            let cs = a.children@;
            let sig = crate::formatter::engine::sig_seq(cs, 0, cs.len() as int, false);
            sig.len() == 0 || (sig.len() == 1 && crate::ast::is_token_of(cs[sig[0] as int], SyntaxKind::COMMENT))
        }),
        SyntaxElement::Token(_) => true,
    }
}

/// The arguments and commas of a call's argument list, in order.
fn collect_call_comment_items(list: &SyntaxNode) -> (r: Result<Vec<IrCallItem>, FormatError>)
    ensures
        crate::formatter::engine::not_parse_error(r),
        r matches Ok(items) ==> call_items_of(list.children@, items@),
        (forall|j: int| 0 <= j < list.children@.len() ==> #[trigger] bare_comment_arg(list.children@[j]))
            ==> r is Ok,
    decreases crate::syntax::node_text(*list).len(), list, 9int,
{
    let mut items: Vec<IrCallItem> = Vec::new();
    let mut k: usize = 0;
    let ghost cs = list.children@;
    while k < list.children.len()
        invariant
            k <= list.children@.len(),
            cs == list.children@,
            items@.len() == call_item_positions(cs, k as int).len(),
            forall|i: int| 0 <= i < items@.len() ==> #[trigger] call_item_of(cs, call_item_positions(cs, k as int)[i], items@[i]),
        decreases list.children@.len() - k,
    {
        proof {
            crate::syntax::lemma_child_text_len(list.children@, k as int);
        }
        assert(decreases_to!(list => list.children@[k as int]));
        match &list.children[k] {
            SyntaxElement::Node(arg) => {
                if arg.kind == SyntaxKind::ARG {
                    let newline = has_newline_before_arg(list, k);
                    proof {
                        let all = forall|j: int|
                            0 <= j < list.children@.len() ==> #[trigger] bare_comment_arg(list.children@[j]);
                        if all {
                            assert(bare_comment_arg(list.children@[k as int]));
                        }
                    }
                    items.push(IrCallItem::Arg(ir_call_comment_arg(arg, newline)?));
                }
            },
            SyntaxElement::Token(tok) => {
                if tok.kind == SyntaxKind::COMMA {
                    items.push(IrCallItem::Comma { newline_after: comma_followed_by_newline(list, k) });
                }
            },
        }
        k += 1;
    }
    Ok(items)
}

/// The comment of an item that is a comment alone; with `same_line`, only
/// when no newline comes before it.
fn comment_of(item: &IrCallItem, same_line: bool) -> (r: Option<String>)
    ensures
        match *item {
            IrCallItem::Arg(a) => if same_line && a.leading_newline {
                r is None
            } else {
                match a.comment {
                    Some(c) => r matches Some(x) && x@ == c@,
                    None => r is None,
                }
            },
            IrCallItem::Comma { .. } => r is None,
        },
{
    match item {
        IrCallItem::Arg(arg) => {
            if same_line && arg.leading_newline {
                None
            } else {
                match &arg.comment {
                    Some(c) => Some(c.clone()),
                    None => None,
                }
            }
        },
        IrCallItem::Comma { .. } => None,
    }
}

/// The comment of `item` when it is a comment alone; with `same_line`,
/// only when no newline comes before it.
spec fn item_comment(item: IrCallItem, same_line: bool) -> Option<Seq<char>> {
    match item {
        IrCallItem::Arg(a) => if same_line && a.leading_newline {
            None
        } else {
            match a.comment {
                Some(c) => Some(c@),
                None => None,
            }
        },
        IrCallItem::Comma { .. } => None,
    }
}

/// The output lines from item `i` of a call's argument list with comments
/// on: a comma is `,`; a hole vanishes; a comment alone is a line of its
/// own; an argument takes its comma onto its line, and a comment on its
/// source line (before the comma, or after it) follows there, with the
/// comments right after such a comma lined up below it.
spec fn layout_from(items: Seq<IrCallItem>, i: int) -> Seq<Doc>
    decreases items.len() - i, 1int,
{
    let n = items.len() as int;
    if i >= n || i < 0 {
        seq![]
    } else {
        match items[i] {
            IrCallItem::Comma { .. } => seq![Doc::Text(","@)] + layout_from(items, i + 1),
            IrCallItem::Arg(a) => if a.is_empty {
                layout_from(items, i + 1)
            } else if a.comment is Some {
                seq![Doc::Verbatim { text: a.comment->Some_0@, force_break: true }] + layout_from(
                    items,
                    i + 1,
                )
            } else {
                let trailing = if i + 1 < n {
                    item_comment(items[i + 1], true)
                } else {
                    None
                };
                let after_comma = if i + 2 < n && (items[i + 1] matches IrCallItem::Comma {
                    newline_after,
                } && !newline_after) {
                    item_comment(items[i + 2], false)
                } else {
                    None
                };
                let next_is_comma = i + 1 < n && items[i + 1] is Comma;
                if trailing is Some {
                    seq![
                        concat_doc(
                            seq![a.ir@, Doc::Text(" "@), Doc::Text(trailing->Some_0)],
                        ),
                    ] + layout_from(items, i + 2)
                } else if after_comma is Some {
                    seq![
                        concat_doc(
                            seq![
                                a.ir@,
                                Doc::Text(
                                    if a.ends_with_eq {
                                        " , "@
                                    } else {
                                        ", "@
                                    },
                                ),
                                Doc::Text(after_comma->Some_0),
                            ],
                        ),
                    ] + comment_lines_from(items, i + 3)
                } else if next_is_comma {
                    seq![
                        concat_doc(
                            seq![
                                a.ir@,
                                Doc::Text(
                                    if a.ends_with_eq {
                                        " ,"@
                                    } else {
                                        ","@
                                    },
                                ),
                            ],
                        ),
                    ] + layout_from(items, i + 2)
                } else {
                    seq![a.ir@] + layout_from(items, i + 1)
                }
            },
        }
    }
}

/// The comments alone from item `i` on, each lined up below a comment that
/// follows a comma, then the output lines of the rest.
spec fn comment_lines_from(items: Seq<IrCallItem>, i: int) -> Seq<Doc>
    decreases items.len() - i, 2int,
{
    if 0 <= i < items.len() && item_comment(items[i], false) is Some {
        seq![Doc::Text("   "@ + item_comment(items[i], false)->Some_0)] + comment_lines_from(
            items,
            i + 1,
        )
    } else {
        layout_from(items, i)
    }
}

/// The output lines of a call's argument list with comments: each argument
/// on its own line with its comma; a comment on the source line of an
/// argument (before or after its comma) stays on that line, and comments
/// right after such a comma line up below it; other comments take lines of
/// their own; holes vanish.
fn layout_call_comment_items(items: &Vec<IrCallItem>) -> (r: Vec<Ir>)
    ensures
        irs_view(r@) == layout_from(items@, 0),
{
    let n = items.len();
    let mut out: Vec<Ir> = Vec::new();
    let mut i: usize = 0;
    let ghost all = layout_from(items@, 0);
    while i < n
        invariant
            n == items@.len(),
            i <= n,
            irs_view(out@) + layout_from(items@, i as int) == all,
        decreases n - i,
    {
        let ghost before = out@;
        let ghost gi = i as int;
        match &items[i] {
            IrCallItem::Comma { .. } => {
                let x = Ir::text(",");
                out.push(x);
                i += 1;
                proof {
                    lemma_irs_view_push(before, x);
                    assert(irs_view(out@) + layout_from(items@, i as int) =~= irs_view(before) + layout_from(items@, gi));
                }
            },
            IrCallItem::Arg(arg) => {
                if arg.is_empty {
                    i += 1;
                } else if let Some(c) = &arg.comment {
                    let x = Ir::verbatim_forced(c.as_str());
                    out.push(x);
                    i += 1;
                    proof {
                        lemma_irs_view_push(before, x);
                        assert(irs_view(out@) + layout_from(items@, i as int) =~= irs_view(before) + layout_from(items@, gi));
                    }
                } else {
                    let trailing = if i + 1 < n {
                        comment_of(&items[i + 1], true)
                    } else {
                        None
                    };
                    let after_comma = if i + 1 < n && i + 2 < n {
                        match &items[i + 1] {
                            IrCallItem::Comma { newline_after } => {
                                if *newline_after {
                                    None
                                } else {
                                    comment_of(&items[i + 2], false)
                                }
                            },
                            IrCallItem::Arg(_) => None,
                        }
                    } else {
                        None
                    };
                    let next_is_comma = i + 1 < n && match &items[i + 1] {
                        IrCallItem::Comma { .. } => true,
                        IrCallItem::Arg(_) => false,
                    };
                    if let Some(c) = trailing {
                        let mut parts: Vec<Ir> = Vec::new();
                        parts.push(arg.ir.duplicate());
                        parts.push(Ir::text(" "));
                        parts.push(Ir::text_string(c));
                        proof {
                            lemma_irs_view_eq(parts@, seq![arg.ir@, Doc::Text(" "@), Doc::Text(c@)]);
                        }
                        let x = Ir::concat(parts);
                        out.push(x);
                        i += 2;
                        proof {
                            lemma_irs_view_push(before, x);
                            assert(irs_view(out@) + layout_from(items@, i as int) =~= irs_view(before) + layout_from(items@, gi));
                        }
                    } else if let Some(c) = after_comma {
                        let mut parts: Vec<Ir> = Vec::new();
                        parts.push(arg.ir.duplicate());
                        let sep = Ir::text(
                            if arg.ends_with_eq {
                                " , "
                            } else {
                                ", "
                            },
                        );
                        let ghost gsep = sep;
                        parts.push(sep);
                        parts.push(Ir::text_string(c));
                        proof {
                            lemma_irs_view_eq(parts@, seq![arg.ir@, gsep@, Doc::Text(c@)]);
                        }
                        let x = Ir::concat(parts);
                        out.push(x);
                        let ghost base = i;
                        i += 3;
                        proof {
                            lemma_irs_view_push(before, x);
                            assert(irs_view(out@) + comment_lines_from(items@, i as int) =~= irs_view(before) + layout_from(items@, gi));
                        }
                        while i < n
                            invariant
                                n == items@.len(),
                                base < i <= n,
                                irs_view(out@) + comment_lines_from(items@, i as int) == all,
                            ensures
                                base < i <= n,
                                irs_view(out@) + layout_from(items@, i as int) == all,
                            decreases n - i,
                        {
                            let extra = comment_of(&items[i], false);
                            match extra {
                                Some(c) => {
                                    let ghost before2 = out@;
                                    let ghost gi2 = i as int;
                                    let mut line = String::from_str("   ");
                                    line.append(c.as_str());
                                    let x = Ir::text_string(line);
                                    out.push(x);
                                    i += 1;
                                    proof {
                                        lemma_irs_view_push(before2, x);
                                        assert(irs_view(out@) + comment_lines_from(items@, i as int) =~= irs_view(before2) + comment_lines_from(items@, gi2));
                                    }
                                },
                                None => {
                                    break;
                                },
                            }
                        }
                    } else if next_is_comma {
                        let mut parts: Vec<Ir> = Vec::new();
                        parts.push(arg.ir.duplicate());
                        let sep = Ir::text(
                            if arg.ends_with_eq {
                                " ,"
                            } else {
                                ","
                            },
                        );
                        let ghost gsep = sep;
                        parts.push(sep);
                        proof {
                            lemma_irs_view_eq(parts@, seq![arg.ir@, gsep@]);
                        }
                        let x = Ir::concat(parts);
                        out.push(x);
                        i += 2;
                        proof {
                            lemma_irs_view_push(before, x);
                            assert(irs_view(out@) + layout_from(items@, i as int) =~= irs_view(before) + layout_from(items@, gi));
                        }
                    } else {
                        let x = arg.ir.duplicate();
                        out.push(x);
                        i += 1;
                        proof {
                            lemma_irs_view_push(before, x);
                            assert(irs_view(out@) + layout_from(items@, i as int) =~= irs_view(before) + layout_from(items@, gi));
                        }
                    }
                }
            },
        }
    }
    assert(irs_view(out@) =~= all);
    out
}

/// A call's argument list with comments, of output lines `lines`: `()`
/// without any, else `(`, each line one level in, `)` on a line of its own.
pub open spec fn comment_args_doc(lines: Seq<Doc>) -> Doc {
    if lines.len() == 0 {
        Doc::Text("()"@)
    } else {
        concat_doc(
            seq![
                Doc::Text("("@),
                Doc::Indent(
                    Box::new(
                        concat_doc(
                            seq![
                                Doc::HardLine,
                                concat_doc(crate::formatter::ir::interleave(Doc::HardLine, lines)),
                            ],
                        ),
                    ),
                ),
                Doc::HardLine,
                Doc::Text(")"@),
            ],
        )
    }
}

/// A call: its callee, then its argument list.
pub open spec fn callee_then(callee: Doc, args: Doc) -> Doc {
    concat_doc(seq![callee, args])
}

/// `lines` are the output lines of the argument list with comments whose
/// children are `cs`.
pub closed spec fn comment_layout_of(cs: Seq<SyntaxElement>, lines: Seq<Doc>) -> bool {
    exists|items: Seq<IrCallItem>| #[trigger] call_items_of(cs, items) && lines == layout_from(items, 0)
}

/// A call's argument list with comments: always broken, one line each.
fn ir_call_args_with_comments(list: &SyntaxNode) -> (r: Result<Ir, FormatError>)
    ensures
        crate::formatter::engine::not_parse_error(r),
        r matches Ok(ir) ==> exists|lines: Seq<Doc>|
            #[trigger] comment_layout_of(list.children@, lines) && ir@ == comment_args_doc(lines),
        (forall|j: int| 0 <= j < list.children@.len() ==> #[trigger] bare_comment_arg(list.children@[j]))
            ==> r is Ok,
    decreases crate::syntax::node_text(*list).len(), list, 10int,
{
    let items = collect_call_comment_items(list)?;
    let lines = layout_call_comment_items(&items);
    let ghost glines = lines@;
    proof {
        crate::formatter::ir::lemma_irs_view(lines@);
    }
    if lines.len() == 0 {
        assert(call_items_of(list.children@, items@));
        assert(comment_layout_of(list.children@, irs_view(glines)));
        return Ok(Ir::text("()"));
    }
    let mut inner: Vec<Ir> = Vec::new();
    inner.push(Ir::hard_line());
    inner.push(Ir::join(Ir::hard_line(), lines));
    proof {
        lemma_irs_view_eq(
            inner@,
            seq![Doc::HardLine, concat_doc(crate::formatter::ir::interleave(Doc::HardLine, irs_view(glines)))],
        );
    }
    let mut parts: Vec<Ir> = Vec::new();
    parts.push(Ir::text("("));
    parts.push(Ir::indent(Ir::concat(inner)));
    parts.push(Ir::hard_line());
    parts.push(Ir::text(")"));
    proof {
        lemma_irs_view_eq(
            parts@,
            seq![
                Doc::Text("("@),
                Doc::Indent(
                    Box::new(
                        concat_doc(
                            seq![
                                Doc::HardLine,
                                concat_doc(crate::formatter::ir::interleave(Doc::HardLine, irs_view(glines))),
                            ],
                        ),
                    ),
                ),
                Doc::HardLine,
                Doc::Text(")"@),
            ],
        );
    }
    assert(call_items_of(list.children@, items@));
    assert(comment_layout_of(list.children@, irs_view(glines)));
    Ok(Ir::concat(parts))
}

/// Among the significant children `s[1..m - 1]` of `cs`, all but the one
/// at `p` are comments.
pub open spec fn comments_but(cs: Seq<SyntaxElement>, s: Seq<usize>, m: int, p: int) -> bool {
    forall|j: int| 1 <= j < m - 1 && j != p ==> #[trigger] crate::ast::is_token_of(cs[s[j] as int], SyntaxKind::COMMENT)
}

/// `inner` is a block whose content, comments aside, is one name.
pub open spec fn symbol_only_block(inner: SyntaxNode) -> bool {
    let cs = inner.children@;
    let s = crate::formatter::engine::sig_seq(cs, 0, cs.len() as int, false);
    let m = s.len() as int;
    &&& m >= 3
    &&& crate::ast::is_token_of(cs[s[0] as int], SyntaxKind::LBRACE)
    &&& crate::ast::is_token_of(cs[s[m - 1] as int], SyntaxKind::RBRACE)
    &&& exists|q: int|
        1 <= q < m - 1 && #[trigger] crate::ast::is_token_of(cs[s[q] as int], SyntaxKind::IDENT)
            && comments_but(cs, s, m, q)
}

/// The significant child `s[p]` of `cs` is a block holding one name.
pub open spec fn symbol_block_at(cs: Seq<SyntaxElement>, s: Seq<usize>, p: int) -> bool {
    cs[s[p] as int] matches SyntaxElement::Node(b) && b.kind == SyntaxKind::BLOCK_EXPR
        && symbol_only_block(b)
}

/// `outer` is `{{ x }}`, comments aside: a block whose content, comments
/// aside, is one block whose content, comments aside, is one name.
pub open spec fn symbol_block(outer: SyntaxNode) -> bool {
    let cs = outer.children@;
    let s = crate::formatter::engine::sig_seq(cs, 0, cs.len() as int, false);
    let m = s.len() as int;
    &&& outer.kind == SyntaxKind::BLOCK_EXPR
    &&& m >= 2
    &&& crate::ast::is_token_of(cs[s[0] as int], SyntaxKind::LBRACE)
    &&& crate::ast::is_token_of(cs[s[m - 1] as int], SyntaxKind::RBRACE)
    &&& exists|p: int| 1 <= p < m - 1 && #[trigger] symbol_block_at(cs, s, p) && comments_but(cs, s, m, p)
}

/// Whether `outer` is the embrace `{{ x }}` of a symbol, comments aside:
/// a block holding, besides comments, only a block whose only non-comment
/// content is one name.
fn is_curly_curly_symbol_block(outer: &SyntaxNode) -> (b: bool)
    ensures
        b == symbol_block(*outer),
{
    if outer.kind != SyntaxKind::BLOCK_EXPR {
        return false;
    }
    let osig = significant_indices(outer, 0, outer.children.len(), false);
    let om = osig.len();
    if om < 2 || !is_token_kind(&outer.children[osig[0]], SyntaxKind::LBRACE)
        || !is_token_kind(&outer.children[osig[om - 1]], SyntaxKind::RBRACE) {
        return false;
    }
    let ghost ocs = outer.children@;
    let mut inner: Option<usize> = None;
    let ghost mut at: int = 0;
    let mut j: usize = 1;
    while j < om - 1
        invariant
            2 <= om == osig@.len(),
            1 <= j <= om - 1,
            forall|t: int| 0 <= t < osig@.len() ==> #[trigger] osig@[t] < outer.children@.len(),
            ocs == outer.children@,
            osig@ == crate::formatter::engine::sig_seq(ocs, 0, ocs.len() as int, false),
            inner matches Some(p) ==> p < outer.children@.len(),
            inner is None ==> forall|x: int|
                1 <= x < j ==> #[trigger] crate::ast::is_token_of(ocs[osig@[x] as int], SyntaxKind::COMMENT),
            inner matches Some(p) ==> (1 <= at < j && p == osig@[at] && (ocs[p as int] matches SyntaxElement::Node(bn) && bn.kind == SyntaxKind::BLOCK_EXPR)
                && forall|x: int|
                1 <= x < j && x != at ==> #[trigger] crate::ast::is_token_of(ocs[osig@[x] as int], SyntaxKind::COMMENT)),
        decreases om - 1 - j,
    {
        match &outer.children[osig[j]] {
            SyntaxElement::Node(node) => {
                if node.kind != SyntaxKind::BLOCK_EXPR || inner.is_some() {
                    proof {
                        if exists|p: int| 1 <= p < om - 1 && #[trigger] symbol_block_at(ocs, osig@, p) && comments_but(ocs, osig@, om as int, p) {
                            let p = choose|p: int| 1 <= p < om - 1 && #[trigger] symbol_block_at(ocs, osig@, p) && comments_but(ocs, osig@, om as int, p);
                            if p != j as int {
                                assert(crate::ast::is_token_of(ocs[osig@[j as int] as int], SyntaxKind::COMMENT));
                            } else {
                                assert(crate::ast::is_token_of(ocs[osig@[at] as int], SyntaxKind::COMMENT));
                            }
                        }
                    }
                    return false;
                }
                inner = Some(osig[j]);
                proof {
                    at = j as int;
                }
            },
            SyntaxElement::Token(tok) => {
                if tok.kind != SyntaxKind::COMMENT {
                    proof {
                        if exists|p: int| 1 <= p < om - 1 && #[trigger] symbol_block_at(ocs, osig@, p) && comments_but(ocs, osig@, om as int, p) {
                            let p = choose|p: int| 1 <= p < om - 1 && #[trigger] symbol_block_at(ocs, osig@, p) && comments_but(ocs, osig@, om as int, p);
                            assert(p != j as int);
                            assert(crate::ast::is_token_of(ocs[osig@[j as int] as int], SyntaxKind::COMMENT));
                        }
                    }
                    return false;
                }
            },
        }
        j += 1;
    }
    let ip = match inner {
        Some(p) => p,
        None => {
            proof {
                if exists|p: int| 1 <= p < om - 1 && #[trigger] symbol_block_at(ocs, osig@, p) && comments_but(ocs, osig@, om as int, p) {
                    let p = choose|p: int| 1 <= p < om - 1 && #[trigger] symbol_block_at(ocs, osig@, p) && comments_but(ocs, osig@, om as int, p);
                    assert(crate::ast::is_token_of(ocs[osig@[p] as int], SyntaxKind::COMMENT));
                }
            }
            return false;
        },
    };
    assert(comments_but(ocs, osig@, om as int, at));
    let inner = match &outer.children[ip] {
        SyntaxElement::Node(node) => node,
        SyntaxElement::Token(_) => {
            return false;
        },
    };
    let isig = significant_indices(inner, 0, inner.children.len(), false);
    let im = isig.len();
    if im < 3 || !is_token_kind(&inner.children[isig[0]], SyntaxKind::LBRACE)
        || !is_token_kind(&inner.children[isig[im - 1]], SyntaxKind::RBRACE) {
        proof {
            if symbol_block(*outer) {
                let p = choose|p: int| 1 <= p < om - 1 && #[trigger] symbol_block_at(ocs, osig@, p) && comments_but(ocs, osig@, om as int, p);
                if p != at {
                    assert(crate::ast::is_token_of(ocs[osig@[p] as int], SyntaxKind::COMMENT));
                }
            }
        }
        return false;
    }
    let ghost ics = inner.children@;
    let ghost mut q1: int = 0;
    let ghost mut q2: int = 0;
    let mut exprs: usize = 0;
    let mut symbol = false;
    let mut t: usize = 1;
    while t < im - 1
        invariant
            3 <= im == isig@.len(),
            1 <= t <= im - 1,
            exprs <= t,
            ics == inner.children@,
            forall|q: int| 0 <= q < isig@.len() ==> #[trigger] isig@[q] < inner.children@.len(),
            exprs == 0 ==> forall|x: int|
                1 <= x < t ==> #[trigger] crate::ast::is_token_of(ics[isig@[x] as int], SyntaxKind::COMMENT),
            exprs >= 1 ==> 1 <= q1 < t && !crate::ast::is_token_of(ics[isig@[q1] as int], SyntaxKind::COMMENT),
            exprs == 1 ==> symbol == crate::ast::is_token_of(ics[isig@[q1] as int], SyntaxKind::IDENT)
                && forall|x: int|
                1 <= x < t && x != q1 ==> #[trigger] crate::ast::is_token_of(ics[isig@[x] as int], SyntaxKind::COMMENT),
            exprs >= 2 ==> 1 <= q2 < t && q2 != q1 && !crate::ast::is_token_of(ics[isig@[q2] as int], SyntaxKind::COMMENT),
        decreases im - 1 - t,
    {
        let e = &inner.children[isig[t]];
        if !is_token_kind(e, SyntaxKind::COMMENT) {
            proof {
                if exprs == 0 {
                    q1 = t as int;
                } else if exprs == 1 {
                    q2 = t as int;
                }
            }
            exprs += 1;
            symbol = is_token_kind(e, SyntaxKind::IDENT);
        }
        t += 1;
    }
    let b = exprs == 1 && symbol;
    proof {
        let ex = exists|q: int|
            1 <= q < im - 1 && #[trigger] crate::ast::is_token_of(ics[isig@[q] as int], SyntaxKind::IDENT)
                && comments_but(ics, isig@, im as int, q);
        if b {
            assert(comments_but(ics, isig@, im as int, q1));
            assert(crate::ast::is_token_of(ics[isig@[q1] as int], SyntaxKind::IDENT));
            assert(ex);
            assert(symbol_only_block(*inner));
            assert(symbol_block_at(ocs, osig@, at));
        } else if ex {
            let q = choose|q: int|
                1 <= q < im - 1 && #[trigger] crate::ast::is_token_of(ics[isig@[q] as int], SyntaxKind::IDENT)
                    && comments_but(ics, isig@, im as int, q);
            if exprs >= 1 && q != q1 {
                assert(crate::ast::is_token_of(ics[isig@[q1] as int], SyntaxKind::COMMENT));
            } else if exprs >= 2 {
                assert(crate::ast::is_token_of(ics[isig@[q2] as int], SyntaxKind::COMMENT));
            } else if exprs == 0 {
                assert(crate::ast::is_token_of(ics[isig@[q] as int], SyntaxKind::COMMENT));
            }
        }
        if !b && symbol_block(*outer) {
            let p = choose|p: int| 1 <= p < om - 1 && #[trigger] symbol_block_at(ocs, osig@, p) && comments_but(ocs, osig@, om as int, p);
            if p != at {
                assert(crate::ast::is_token_of(ocs[osig@[p] as int], SyntaxKind::COMMENT));
            }
        }
    }
    b
}

/// Where the value of an argument with children `cs` starts: after its
/// first `=`, or at its start.
pub open spec fn value_start(cs: Seq<SyntaxElement>) -> int {
    match crate::ast::first_token_from(cs, 0, SyntaxKind::ASSIGN_EQ) {
        Some(e) => e + 1,
        None => 0,
    }
}

/// The value of `arg` is one node, the embrace of a symbol with a comment
/// directly inside its outer block.
pub open spec fn commented_curly_value(arg: SyntaxNode) -> bool {
    let cs = arg.children@;
    let sig = crate::formatter::engine::sig_seq(cs, value_start(cs), cs.len() as int, false);
    lone_node(cs, sig) matches Some(m) && symbol_block(m) && any_comment(m.children@)
}

/// Whether the value of `arg` (after `=` for a named one) is the embrace of
/// a symbol with a comment somewhere inside.
fn arg_value_is_commented_curly_curly(arg: &SyntaxNode) -> (b: bool)
    ensures
        b == commented_curly_value(*arg),
{
    let len = arg.children.len();
    let lo = match find_token_from(arg.children.as_slice(), 0, SyntaxKind::ASSIGN_EQ) {
        Some(e) => e + 1,
        None => 0,
    };
    proof {
        crate::ast::lemma_first_token_from(arg.children@, 0, SyntaxKind::ASSIGN_EQ);
    }
    assert(lo as int == value_start(arg.children@));
    let sig = significant_indices(arg, lo, len, false);
    match single_node(arg, &sig) {
        Some(v) => match &arg.children[v] {
            SyntaxElement::Node(outer) => is_curly_curly_symbol_block(outer) && node_has_comment(
                outer,
            ),
            SyntaxElement::Token(_) => false,
        },
        None => false,
    }
}

/// `e` is an argument with a comment of its own, directly or inside an
/// embraced symbol as its value.
pub open spec fn needs_comment_layout(e: SyntaxElement) -> bool {
    e matches SyntaxElement::Node(arg) && arg.kind == SyntaxKind::ARG && (has_token_of(
        arg,
        SyntaxKind::COMMENT,
    ) || commented_curly_value(arg))
}

/// Whether the argument list owns comments to place: one directly in an
/// argument, or one inside an embraced symbol argument. Comments inside a
/// nested call, block or function are placed by that construct.
fn arg_list_needs_comment_layout(list: &SyntaxNode) -> (b: bool)
    ensures
        b == exists|j: int| 0 <= j < list.children@.len() && #[trigger] needs_comment_layout(list.children@[j]),
{
    let mut k: usize = 0;
    while k < list.children.len()
        invariant
            k <= list.children@.len(),
            forall|j: int| 0 <= j < k ==> !#[trigger] needs_comment_layout(list.children@[j]),
        decreases list.children@.len() - k,
    {
        if let SyntaxElement::Node(arg) = &list.children[k] {
            if arg.kind == SyntaxKind::ARG && (has_token(arg, SyntaxKind::COMMENT)
                || arg_value_is_commented_curly_curly(arg)) {
                assert(needs_comment_layout(list.children@[k as int]));
                return true;
            }
        }
        k += 1;
    }
    false
}

/// Whether `e` is an assignment node.
fn is_assignment_node(e: &SyntaxElement) -> (b: bool)
    ensures
        b == (*e matches SyntaxElement::Node(node) && node.kind == SyntaxKind::ASSIGNMENT_EXPR),
{
    match e {
        SyntaxElement::Node(node) => node.kind == SyntaxKind::ASSIGNMENT_EXPR,
        SyntaxElement::Token(_) => false,
    }
}

/// `e` is an assignment node.
pub open spec fn is_assignment(e: SyntaxElement) -> bool {
    e matches SyntaxElement::Node(x) && x.kind == SyntaxKind::ASSIGNMENT_EXPR
}

/// `e` is an argument that is an assignment (`x <- v`, or `name x <- v`)
/// with a comment inside.
pub open spec fn commented_assignment_arg(e: SyntaxElement) -> bool {
    e matches SyntaxElement::Node(arg) && arg.kind == SyntaxKind::ARG && ({
        let cs = arg.children@;
        let sig = crate::formatter::engine::sig_seq(cs, 0, cs.len() as int, false);
        (sig.len() == 1 && is_assignment(cs[sig[0] as int])) || (sig.len() == 2
            && crate::ast::is_token_of(cs[sig[0] as int], SyntaxKind::IDENT) && is_assignment(
            cs[sig[1] as int],
        ))
    }) && any_comment(arg.children@)
}

/// Whether some argument is an assignment (`x <- v`, or `name x <- v`)
/// with a comment inside: a shape the comment layout does not place.
fn call_comment_path_unsupported(list: &SyntaxNode) -> (b: bool)
    ensures
        b == exists|j: int|
            0 <= j < list.children@.len() && #[trigger] commented_assignment_arg(list.children@[j]),
{
    let mut k: usize = 0;
    while k < list.children.len()
        invariant
            k <= list.children@.len(),
            forall|j: int| 0 <= j < k ==> !#[trigger] commented_assignment_arg(list.children@[j]),
        decreases list.children@.len() - k,
    {
        if let SyntaxElement::Node(arg) = &list.children[k] {
            if arg.kind == SyntaxKind::ARG {
                let sig = significant_indices(arg, 0, arg.children.len(), false);
                let assignment_based = if sig.len() == 1 {
                    is_assignment_node(&arg.children[sig[0]])
                } else if sig.len() == 2 {
                    is_token_kind(&arg.children[sig[0]], SyntaxKind::IDENT) && is_assignment_node(
                        &arg.children[sig[1]],
                    )
                } else {
                    false
                };
                if assignment_based && node_has_comment(arg) {
                    assert(commented_assignment_arg(list.children@[k as int]));
                    return true;
                }
            }
        }
        k += 1;
    }
    false
}

/// A call `f(args)`: the callee, then the arguments. An empty list is
/// `()`; a lone argument ending in a list that can break is hugged by the
/// parentheses; with comments the list is always broken.
pub(crate) fn ir_call_expr(n: &SyntaxNode) -> (r: Result<Ir, FormatError>)
    ensures
        crate::formatter::engine::not_parse_error(r),
        ({
            let cs = n.children@;
            match crate::ast::first_token_from(cs, 0, SyntaxKind::LPAREN) {
                None => r matches Err(FormatError::AmbiguousConstruct { context, snippet })
                    && context@ == "missing '(' in call expression"@ && snippet@
                    == crate::syntax::node_text(*n),
                Some(lp) => match first_node_of(cs, 0, SyntaxKind::ARG_LIST) {
                    None => r matches Err(FormatError::AmbiguousConstruct { context, snippet })
                        && context@ == "missing arg list in call expression"@ && snippet@
                        == crate::syntax::node_text(*n),
                    Some(li) => cs[li] matches SyntaxElement::Node(l) && (if exists|j: int|
                        0 <= j < l.children@.len() && #[trigger] commented_assignment_arg(
                            l.children@[j],
                        ) {
                        r matches Err(FormatError::AmbiguousConstruct { context, snippet })
                            && context@ == "comment inside an assignment argument"@ && snippet@
                            == crate::syntax::node_text(*n)
                    } else {
                        &&& crate::formatter::engine::sig_seq(cs, 0, lp, false).len() != 1 ==> (r matches Err(
                            FormatError::AmbiguousConstruct { context, .. },
                        ) && context@ == "call callee"@)
                        &&& (exists|j: int|
                            0 <= j < l.children@.len() && #[trigger] needs_comment_layout(
                                l.children@[j],
                            )) ==> (r matches Ok(ir) ==> exists|callee: Doc, lines: Seq<Doc>|
                            comment_layout_of(l.children@, lines) && ir@ == #[trigger] callee_then(
                                callee,
                                comment_args_doc(lines),
                            ))
                    }),
                },
            }
        }),
    decreases crate::syntax::node_text(*n).len(), n, 8int,
{
    let lparen = match find_token_from(n.children.as_slice(), 0, SyntaxKind::LPAREN) {
        Some(i) => i,
        None => {
            return Err(
                FormatError::AmbiguousConstruct {
                    context: "missing '(' in call expression",
                    snippet: n.text(),
                },
            );
        },
    };
    proof {
        crate::ast::lemma_first_token_from(n.children@, 0, SyntaxKind::LPAREN);
    }
    let mut list_idx: Option<usize> = None;
    let mut k: usize = 0;
    while k < n.children.len()
        invariant
            k <= n.children@.len(),
            list_idx matches Some(i) ==> i < n.children@.len(),
            list_idx is None ==> first_node_of(n.children@, 0, SyntaxKind::ARG_LIST)
                == first_node_of(n.children@, k as int, SyntaxKind::ARG_LIST),
            list_idx matches Some(i) ==> first_node_of(n.children@, 0, SyntaxKind::ARG_LIST)
                == Some(i as int),
        decreases n.children@.len() - k,
    {
        if list_idx.is_none() {
            if let SyntaxElement::Node(c) = &n.children[k] {
                if c.kind == SyntaxKind::ARG_LIST {
                    list_idx = Some(k);
                }
            }
        }
        k += 1;
    }
    let li = match list_idx {
        Some(i) => i,
        None => {
            return Err(
                FormatError::AmbiguousConstruct {
                    context: "missing arg list in call expression",
                    snippet: n.text(),
                },
            );
        },
    };
    proof {
        crate::syntax::lemma_child_text_len(n.children@, li as int);
        lemma_first_node_of(n.children@, 0, SyntaxKind::ARG_LIST);
    }
    assert(decreases_to!(n => n.children@[li as int]));
    let list = match &n.children[li] {
        SyntaxElement::Node(list) => list,
        SyntaxElement::Token(_) => {
            return Err(
                FormatError::AmbiguousConstruct {
                    context: "missing arg list in call expression",
                    snippet: n.text(),
                },
            );
        },
    };
    if call_comment_path_unsupported(list) {
        return Err(
            FormatError::AmbiguousConstruct {
                context: "comment inside an assignment argument",
                snippet: n.text(),
            },
        );
    }
    let callee = ir_expr_segment(n, 0, lparen, "call callee")?;
    let mut items: Vec<Ir> = Vec::new();
    items.push(callee);
    if arg_list_needs_comment_layout(list) {
        let args = ir_call_args_with_comments(list)?;
        let ghost (gc, ga) = (items@[0]@, args@);
        items.push(args);
        let res = Ir::concat(items);
        proof {
            lemma_irs_view_eq(items@, seq![gc, ga]);
            let lines = choose|lines: Seq<Doc>|
                #[trigger] comment_layout_of(list.children@, lines) && ga == comment_args_doc(lines);
            assert(res@ == callee_then(gc, comment_args_doc(lines)));
        }
        return Ok(res);
    }
    let (slots, commas) = collect_call_ir_slots(list)?;
    if commas == 0 && slots[0].is_empty_hole() {
        items.push(Ir::text("()"));
        return Ok(Ir::concat(items));
    }
    if commas == 0 && single_arg_is_huggable(list) {
        items.push(Ir::text("("));
        items.push(slots[0].content());
        items.push(Ir::text(")"));
        return Ok(Ir::concat(items));
    }
    let force = should_force_multiline_named_functions(list);
    items.push(build_call_args_ir(&slots, force));
    Ok(Ir::concat(items))
}

} // verus!
